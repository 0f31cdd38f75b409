//! Cross-reference validation: every internal link and image must point at a
//! file of the index, and every fragment at an id of its target.

use crate::index::{ParsedFile, ParsedFiles};
use crate::scan::{has_text, href_views, img_views, text_views};
use crate::url::{SiteUrl, UrlView};
use vstd::prelude::*;
use vstd::string::*;

verus! {

/// A reference that does not resolve.
#[derive(Clone, Debug, PartialEq, Eq)]
pub enum Finding {
    /// The target file is not in the index.
    BrokenLink { from_file: String, target: String },
    /// The target file is in the index but does not define the fragment.
    BrokenFragment { from_file: String, target_file: String, fragment: String },
}

/// The mathematical value of a [`Finding`].
pub enum FindingView {
    BrokenLink { from_file: Seq<char>, target: Seq<char> },
    BrokenFragment { from_file: Seq<char>, target_file: Seq<char>, fragment: Seq<char> },
}

impl View for Finding {
    type V = FindingView;

    open spec fn view(&self) -> FindingView {
        match *self {
            Finding::BrokenLink { from_file, target } => FindingView::BrokenLink {
                from_file: from_file@,
                target: target@,
            },
            Finding::BrokenFragment { from_file, target_file, fragment } => FindingView::BrokenFragment {
                from_file: from_file@,
                target_file: target_file@,
                fragment: fragment@,
            },
        }
    }
}

/// What the validator reads of a record.
pub struct FileView {
    pub path: Seq<char>,
    pub links: Seq<UrlView>,
    pub imgs: Seq<UrlView>,
    pub fragments: Seq<Seq<char>>,
}

/// What the validator reads of one record.
pub open spec fn file_view(f: ParsedFile) -> FileView {
    FileView {
        path: f.path@,
        links: href_views(f.links@),
        imgs: img_views(f.imgs@),
        fragments: text_views(f.fragments@),
    }
}

/// What the validator reads of the records.
pub open spec fn file_views(files: Seq<ParsedFile>) -> Seq<FileView> {
    Seq::new(files.len(), |i: int| file_view(files[i]))
}

/// The views of a sequence of findings.
pub open spec fn finding_views(v: Seq<Finding>) -> Seq<FindingView> {
    Seq::new(v.len(), |i: int| v[i]@)
}

/// The position of the first record with the given path, or the number of
/// records when none has it.
pub open spec fn position(files: Seq<FileView>, path: Seq<char>) -> int
    decreases files.len(),
{
    if files.len() == 0 || files[0].path == path {
        0
    } else {
        1 + position(files.skip(1), path)
    }
}

/// `k` is the position of `path` when no record before `k` has the path and
/// the record at `k`, if there is one, has it.
pub proof fn lemma_position(files: Seq<FileView>, path: Seq<char>, k: int)
    requires
        0 <= k <= files.len(),
        forall|j: int| 0 <= j < k ==> (#[trigger] files[j]).path != path,
        k < files.len() ==> files[k].path == path,
    ensures
        position(files, path) == k,
    decreases files.len(),
{
    if k > 0 {
        let t = files.skip(1);
        assert(files[0].path != path);
        assert forall|j: int| 0 <= j < k - 1 implies (#[trigger] t[j]).path != path by {
            assert(t[j] == files[j + 1]);
        }
        if k < files.len() {
            assert(t[k - 1] == files[k]);
        }
        lemma_position(t, path, k - 1);
    }
}

/// A fragment as the records hold it: with `#` in front.
pub open spec fn hashed(fragment: Seq<char>) -> Seq<char> {
    seq!['#'] + fragment
}

/// The finding, if any, for one reference of the record `from`.
///
/// An external URL gives none. An internal URL with a path gives a broken
/// link when no record has that path. A link (not an image) with a non-empty
/// fragment gives a broken fragment when its target, the record of its path or
/// `from` itself where it has no path, does not define the fragment.
pub open spec fn finding(files: Seq<FileView>, from: FileView, u: UrlView, image: bool) -> Option<
    FindingView,
> {
    match u {
        UrlView::External(_) => None,
        UrlView::Internal { path: Some(p), fragment } => {
            let k = position(files, p);
            if k >= files.len() {
                Some(FindingView::BrokenLink { from_file: from.path, target: p })
            } else {
                match fragment {
                    Some(fr) => if !image && fr.len() > 0 && !files[k].fragments.contains(
                        hashed(fr),
                    ) {
                        Some(
                            FindingView::BrokenFragment {
                                from_file: from.path,
                                target_file: p,
                                fragment: hashed(fr),
                            },
                        )
                    } else {
                        None
                    },
                    None => None,
                }
            }
        },
        UrlView::Internal { path: None, fragment: Some(fr) } => if !image && fr.len() > 0
            && !from.fragments.contains(hashed(fr)) {
            Some(
                FindingView::BrokenFragment {
                    from_file: from.path,
                    target_file: from.path,
                    fragment: hashed(fr),
                },
            )
        } else {
            None
        },
        UrlView::Internal { path: None, fragment: None } => None,
    }
}

/// The findings for a sequence of references of one record, in order.
pub open spec fn findings_in(files: Seq<FileView>, from: FileView, urls: Seq<UrlView>, image: bool) -> Seq<
    FindingView,
>
    decreases urls.len(),
{
    if urls.len() == 0 {
        Seq::empty()
    } else {
        let rest = findings_in(files, from, urls.drop_last(), image);
        match finding(files, from, urls.last(), image) {
            Some(f) => rest.push(f),
            None => rest,
        }
    }
}

/// The findings for one record: those of its links, then those of its images.
pub open spec fn file_findings(files: Seq<FileView>, from: FileView) -> Seq<FindingView> {
    findings_in(files, from, from.links, false) + findings_in(files, from, from.imgs, true)
}

/// The findings for the records `some`, each checked against `files`.
pub open spec fn all_findings(files: Seq<FileView>, some: Seq<FileView>) -> Seq<FindingView>
    decreases some.len(),
{
    if some.len() == 0 {
        Seq::empty()
    } else {
        all_findings(files, some.drop_last()) + file_findings(files, some.last())
    }
}

/// Makes `#` followed by the fragment.
fn with_hash(fragment: &String) -> (r: String)
    ensures
        r@ == hashed(fragment@),
{
    let mut r = String::from_str("#");
    proof {
        reveal_strlit("#");
        assert("#"@ =~= seq!['#']);
    }
    r.append(fragment.as_str());
    r
}

/// Checks one reference of the record `from` against the index.
pub fn check_url(index: &ParsedFiles, from: &ParsedFile, url: &SiteUrl, image: bool) -> (r: Option<
    Finding,
>)
    ensures
        match finding(file_views(index.files@), file_view(*from), url@, image) {
            Some(f) => r matches Some(g) && g@ == f,
            None => r is None,
        },
{
    let ghost files = file_views(index.files@);
    match url {
        SiteUrl::External(_) => None,
        SiteUrl::Internal { path: Some(p), fragment } => {
            match index.find(p) {
                None => {
                    proof {
                        lemma_position(files, p@, files.len() as int);
                    }
                    Some(Finding::BrokenLink { from_file: from.path.clone(), target: p.clone() })
                },
                Some(k) => {
                    proof {
                        assert(files[k as int] == file_view(index.files@[k as int]));
                        lemma_position(files, p@, k as int);
                    }
                    match fragment {
                        Some(fr) => {
                            if image || fr.as_str().unicode_len() == 0 {
                                None
                            } else {
                                let wanted = with_hash(fr);
                                if has_text(&index.files[k].fragments, &wanted) {
                                    None
                                } else {
                                    Some(
                                        Finding::BrokenFragment {
                                            from_file: from.path.clone(),
                                            target_file: p.clone(),
                                            fragment: wanted,
                                        },
                                    )
                                }
                            }
                        },
                        None => None,
                    }
                },
            }
        },
        SiteUrl::Internal { path: None, fragment: Some(fr) } => {
            if image || fr.as_str().unicode_len() == 0 {
                None
            } else {
                let wanted = with_hash(fr);
                if has_text(&from.fragments, &wanted) {
                    None
                } else {
                    Some(
                        Finding::BrokenFragment {
                            from_file: from.path.clone(),
                            target_file: from.path.clone(),
                            fragment: wanted,
                        },
                    )
                }
            }
        },
        SiteUrl::Internal { path: None, fragment: None } => None,
    }
}

/// Appends to `out` the findings for the record `from`: those of its links,
/// then those of its images.
pub fn check_file(index: &ParsedFiles, from: &ParsedFile, out: &mut Vec<Finding>)
    ensures
        finding_views(final(out)@) == finding_views(old(out)@) + file_findings(
            file_views(index.files@),
            file_view(*from),
        ),
{
    let ghost files = file_views(index.files@);
    let ghost me = file_view(*from);
    let ghost base = finding_views(out@);
    let mut j: usize = 0;
    proof {
        assert(base + findings_in(files, me, me.links.take(0), false) =~= base);
    }
    while j < from.links.len()
        invariant
            j <= from.links@.len(),
            files == file_views(index.files@),
            me == file_view(*from),
            finding_views(out@) == base + findings_in(files, me, me.links.take(j as int), false),
        decreases from.links@.len() - j,
    {
        let found = check_url(index, from, &from.links[j].url, false);
        proof {
            assert(me.links.take(j as int + 1).drop_last() =~= me.links.take(j as int));
            assert(me.links.take(j as int + 1).last() == from.links@[j as int].url@);
        }
        match found {
            Some(f) => {
                proof {
                    assert(finding_views(out@.push(f)) =~= finding_views(out@).push(f@));
                    assert((base + findings_in(files, me, me.links.take(j as int), false)).push(f@)
                        =~= base + findings_in(files, me, me.links.take(j as int), false).push(f@));
                }
                out.push(f);
            },
            None => {},
        }
        j += 1;
    }
    proof {
        assert(me.links.take(j as int) =~= me.links);
    }
    let ghost mid = finding_views(out@);
    let mut m: usize = 0;
    proof {
        assert(mid + findings_in(files, me, me.imgs.take(0), true) =~= mid);
    }
    while m < from.imgs.len()
        invariant
            m <= from.imgs@.len(),
            files == file_views(index.files@),
            me == file_view(*from),
            mid == base + findings_in(files, me, me.links, false),
            finding_views(out@) == mid + findings_in(files, me, me.imgs.take(m as int), true),
        decreases from.imgs@.len() - m,
    {
        let found = check_url(index, from, &from.imgs[m].url, true);
        proof {
            assert(me.imgs.take(m as int + 1).drop_last() =~= me.imgs.take(m as int));
            assert(me.imgs.take(m as int + 1).last() == from.imgs@[m as int].url@);
        }
        match found {
            Some(f) => {
                proof {
                    assert(finding_views(out@.push(f)) =~= finding_views(out@).push(f@));
                    assert((mid + findings_in(files, me, me.imgs.take(m as int), true)).push(f@)
                        =~= mid + findings_in(files, me, me.imgs.take(m as int), true).push(f@));
                }
                out.push(f);
            },
            None => {},
        }
        m += 1;
    }
    proof {
        assert(me.imgs.take(m as int) =~= me.imgs);
        assert(base + findings_in(files, me, me.links, false) + findings_in(
            files,
            me,
            me.imgs,
            true,
        ) =~= base + file_findings(files, me));
    }
}

/// Checks every record of the index and returns all findings, record by
/// record in index order; it never stops at the first.
pub fn validate(index: &ParsedFiles) -> (r: Vec<Finding>)
    ensures
        finding_views(r@) == all_findings(file_views(index.files@), file_views(index.files@)),
{
    let ghost files = file_views(index.files@);
    let mut out: Vec<Finding> = Vec::new();
    let mut i: usize = 0;
    proof {
        assert(finding_views(out@) =~= all_findings(files, files.take(0)));
    }
    while i < index.files.len()
        invariant
            i <= index.files@.len(),
            files == file_views(index.files@),
            finding_views(out@) == all_findings(files, files.take(i as int)),
        decreases index.files@.len() - i,
    {
        proof {
            assert(files.take(i as int + 1).drop_last() =~= files.take(i as int));
            assert(files.take(i as int + 1).last() == file_view(index.files@[i as int]));
        }
        check_file(index, &index.files[i], &mut out);
        i += 1;
    }
    proof {
        assert(files.take(i as int) =~= files);
    }
    out
}

/// Whether there is a finding and it is a broken link.
pub open spec fn is_broken_link(f: Option<FindingView>) -> bool {
    f matches Some(x) && x is BrokenLink
}

/// Whether there is a finding and it is a broken fragment.
pub open spec fn is_broken_fragment(f: Option<FindingView>) -> bool {
    f matches Some(x) && x is BrokenFragment
}

/// An external URL is never reported, whatever the index holds.
pub proof fn lemma_external_is_never_reported(
    files: Seq<FileView>,
    from: FileView,
    target: Seq<char>,
    image: bool,
)
    ensures
        finding(files, from, UrlView::External(target), image) is None,
{
}

/// Every finding for a sequence of references is the finding of one of them:
/// nothing is reported that no reference gave, and every reference that gives
/// a finding has it reported.
pub proof fn lemma_findings_come_from_references(
    files: Seq<FileView>,
    from: FileView,
    urls: Seq<UrlView>,
    image: bool,
)
    ensures
        forall|f: FindingView| #[trigger]
            findings_in(files, from, urls, image).contains(f) <==> exists|j: int|
                0 <= j < urls.len() && finding(files, from, #[trigger] urls[j], image) == Some(f),
    decreases urls.len(),
{
    let all = findings_in(files, from, urls, image);
    if urls.len() > 0 {
        let head = urls.drop_last();
        let rest = findings_in(files, from, head, image);
        lemma_findings_come_from_references(files, from, head, image);
        let last = finding(files, from, urls.last(), image);
        assert forall|f: FindingView| #[trigger]
            all.contains(f) <==> exists|j: int|
                0 <= j < urls.len() && finding(files, from, #[trigger] urls[j], image) == Some(
                    f,
                ) by {
            let here = exists|j: int|
                0 <= j < urls.len() && finding(files, from, #[trigger] urls[j], image) == Some(f);
            let before = exists|j: int|
                0 <= j < head.len() && finding(files, from, #[trigger] head[j], image) == Some(f);
            assert(rest.contains(f) <==> before);
            if before {
                let j = choose|j: int|
                    0 <= j < head.len() && finding(files, from, #[trigger] head[j], image) == Some(
                        f,
                    );
                assert(urls[j] == head[j]);
            }
            if last == Some(f) {
                assert(urls[urls.len() - 1] == urls.last());
            }
            if here {
                let j = choose|j: int|
                    0 <= j < urls.len() && finding(files, from, #[trigger] urls[j], image) == Some(
                        f,
                    );
                if j < head.len() {
                    assert(head[j] == urls[j]);
                }
            }
            assert(here <==> before || last == Some(f));
            match last {
                Some(x) => {
                    crate::scan::lemma_push_contains(rest, x, f);
                },
                None => {},
            }
        }
    }
}

/// References that are all external give no finding, whatever the index
/// holds.
pub proof fn lemma_external_references_give_nothing(
    files: Seq<FileView>,
    from: FileView,
    urls: Seq<UrlView>,
    image: bool,
)
    requires
        forall|j: int| 0 <= j < urls.len() ==> (#[trigger] urls[j]) is External,
    ensures
        findings_in(files, from, urls, image).len() == 0,
    decreases urls.len(),
{
    if urls.len() > 0 {
        assert(urls.last() is External);
        assert forall|j: int| 0 <= j < urls.drop_last().len() implies (#[trigger] urls.drop_last()[j]) is External by {
            assert(urls.drop_last()[j] == urls[j]);
        }
        lemma_external_references_give_nothing(files, from, urls.drop_last(), image);
    }
}

/// An image is never reported for its fragment: at most for its path.
pub proof fn lemma_image_fragment_is_never_reported(files: Seq<FileView>, from: FileView, u: UrlView)
    ensures
        !is_broken_fragment(finding(files, from, u, true)),
        finding(files, from, u, true) is Some <==> (u is Internal && u->path is Some && forall|k: int|
            0 <= k < files.len() ==> (#[trigger] files[k]).path != u->path.unwrap()),
{
    match u {
        UrlView::Internal { path: Some(p), .. } => {
            lemma_position_bounds(files, p);
        },
        _ => {},
    }
}

/// A link with a path is reported as broken exactly when no record has the
/// path, and for its fragment exactly when the first record of the path lacks
/// the non-empty fragment.
pub proof fn lemma_link_findings(
    files: Seq<FileView>,
    from: FileView,
    p: Seq<char>,
    fragment: Option<Seq<char>>,
)
    ensures
        is_broken_link(finding(files, from, UrlView::Internal { path: Some(p), fragment }, false))
            <==> forall|k: int| 0 <= k < files.len() ==> (#[trigger] files[k]).path != p,
        is_broken_fragment(
            finding(files, from, UrlView::Internal { path: Some(p), fragment }, false),
        )
            <==> (position(files, p) < files.len() && fragment is Some && fragment.unwrap().len() > 0
            && !files[position(files, p)].fragments.contains(hashed(fragment.unwrap()))),
{
    lemma_position_bounds(files, p);
}

/// The position of a path is short of the end exactly when some record has
/// the path; it is then the first such record.
pub proof fn lemma_position_bounds(files: Seq<FileView>, path: Seq<char>)
    ensures
        0 <= position(files, path) <= files.len(),
        position(files, path) < files.len() ==> files[position(files, path)].path == path,
        forall|j: int| 0 <= j < position(files, path) ==> (#[trigger] files[j]).path != path,
    decreases files.len(),
{
    if files.len() == 0 || files[0].path == path {
    } else {
        let t = files.skip(1);
        lemma_position_bounds(t, path);
        assert forall|j: int| 0 <= j < position(files, path) implies (#[trigger] files[j]).path
            != path by {
            if j > 0 {
                assert(files[j] == t[j - 1]);
            }
        }
        if position(t, path) < t.len() {
            assert(files[position(files, path)] == t[position(t, path)]);
        }
    }
}

} // verus!
