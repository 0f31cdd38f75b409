//! Scanning one HTML document for its links, images and fragment ids.

use crate::url::{
    classified, classify, opt_view, HrefUrl, ImgUrl, MalformedUrl, SiteUrl, UrlReason, UrlView,
};
use scraper::Html;
use vstd::prelude::*;
use vstd::string::*;

verus! {

/// A parsed HTML document of the `scraper` crate.
#[verifier::external_type_specification]
#[verifier::external_body]
pub struct ExHtml(scraper::Html);

/// The document that `scraper::Html::parse_document` builds from a text.
pub uninterp spec fn html_parsed(text: Seq<char>) -> Html;

/// The text nodes below the root element of the fragment that
/// `scraper::Html::parse_fragment` builds from a text, in document order.
pub uninterp spec fn html_fragment_texts(text: Seq<char>) -> Seq<Seq<char>>;

/// A parsed CSS selector of the `scraper` crate.
#[verifier::external_type_specification]
#[verifier::external_body]
pub struct ExSelector(scraper::Selector);

/// What `scraper::Selector::parse` makes of a selector: `None` when it
/// refuses it.
pub uninterp spec fn selector_parsed(selector: Seq<char>) -> Option<scraper::Selector>;

/// The elements of a document that a selector matches, in the order in which
/// `scraper::Html::select` yields them: each with its serialised form and the
/// value of the attribute `attr`, if it has that attribute.
pub uninterp spec fn html_matches(doc: Html, selector: scraper::Selector, attr: Seq<char>) -> Seq<
    (Seq<char>, Option<Seq<char>>),
>;

/// One element matched by a selector.
#[derive(Clone, Debug, PartialEq, Eq)]
pub struct Hit {
    /// The element, serialised.
    pub element: String,
    /// The value of the attribute asked for, if the element has it.
    pub value: Option<String>,
}

impl View for Hit {
    type V = (Seq<char>, Option<Seq<char>>);

    open spec fn view(&self) -> (Seq<char>, Option<Seq<char>>) {
        (self.element@, opt_view(self.value))
    }
}

/// The views of a sequence of hits.
pub open spec fn hit_views(hits: Seq<Hit>) -> Seq<(Seq<char>, Option<Seq<char>>)> {
    Seq::new(hits.len(), |i: int| hits[i]@)
}

/// The views of a sequence of strings.
pub open spec fn text_views(texts: Seq<String>) -> Seq<Seq<char>> {
    Seq::new(texts.len(), |i: int| texts[i]@)
}

/// Calls `scraper::Html::parse_document`, which accepts any text. The result
/// is named by [`html_parsed`].
#[verifier::external_body]
fn parse_document(content: &str) -> (r: Html)
    ensures
        r == html_parsed(content@),
{
    Html::parse_document(content)
}

/// Calls `scraper::Selector::parse`. The result is named by
/// [`selector_parsed`]; `None` stands for a selector that was refused. Nothing
/// is claimed about which selectors are accepted.
#[verifier::external_body]
fn parse_selector(selector: &str) -> (r: Option<scraper::Selector>)
    ensures
        r == selector_parsed(selector@),
{
    match scraper::Selector::parse(selector) {
        Ok(sel) => Some(sel),
        Err(_) => None,
    }
}

/// Calls `scraper::Html::select`, and for each element that it yields
/// `ElementRef::html` and `Element::attr`: the elements borrow from the
/// document, so they are read out where they are yielded. The result is named
/// by [`html_matches`]; an element without the attribute is kept, with no
/// value.
#[verifier::external_body]
fn select_attr(document: &Html, selector: &scraper::Selector, attr: &str) -> (r: Vec<Hit>)
    ensures
        hit_views(r@) == html_matches(*document, *selector, attr@),
{
    document.select(selector).map(
        |e| Hit { element: e.html(), value: e.value().attr(attr).map(|v| v.to_string()) },
    ).collect()
}

/// Calls `scraper::Html::parse_fragment`, `Html::root_element` and
/// `ElementRef::text` in one go: `root_element` is safe only on a document
/// that has a root, which a freshly parsed fragment always has. The result is
/// named by [`html_fragment_texts`].
#[verifier::external_body]
fn fragment_texts(s: &str) -> (r: Vec<String>)
    ensures
        text_views(r@) == html_fragment_texts(s@),
{
    Html::parse_fragment(s).root_element().text().map(|t| t.to_string()).collect()
}

/// Why a document could not be scanned.
#[derive(Clone, Debug, PartialEq, Eq)]
pub enum ScanError {
    /// An attribute value of the given element could not be classified.
    Url { element: String, cause: MalformedUrl },
    /// The selector engine refused a selector.
    Selector { selector: String },
}

/// The parts joined in order.
pub open spec fn joined(parts: Seq<Seq<char>>) -> Seq<char>
    decreases parts.len(),
{
    if parts.len() == 0 {
        Seq::empty()
    } else {
        joined(parts.drop_last()) + parts.last()
    }
}

/// The text content of an HTML fragment: its text nodes joined in document
/// order, markup dropped.
pub fn html_text(s: &str) -> (r: String)
    ensures
        r@ == joined(html_fragment_texts(s@)),
{
    let parts = fragment_texts(s);
    join_texts(&parts)
}

/// Joins the texts in order.
pub fn join_texts(parts: &Vec<String>) -> (r: String)
    ensures
        r@ == joined(text_views(parts@)),
{
    let ghost all = text_views(parts@);
    let mut acc = String::new();
    let mut i: usize = 0;
    while i < parts.len()
        invariant
            i <= parts.len(),
            all == text_views(parts@),
            acc@ == joined(all.take(i as int)),
        decreases parts.len() - i,
    {
        proof {
            assert(all.take(i as int + 1).drop_last() =~= all.take(i as int));
        }
        acc.append(parts[i].as_str());
        i += 1;
    }
    proof {
        assert(all.take(i as int) =~= all);
    }
    acc
}

/// Whether `out` holds, each once, exactly the values that `yields` offers.
pub open spec fn is_set_of<T>(out: Seq<T>, yields: Seq<Option<T>>) -> bool {
    &&& out.no_duplicates()
    &&& forall|u: T| #[trigger] out.contains(u) <==> yields.contains(Some(u))
}

/// Appending `x` adds `x` to what a sequence contains and nothing else.
pub proof fn lemma_push_contains<T>(s: Seq<T>, x: T, u: T)
    ensures
        s.push(x).contains(u) <==> s.contains(u) || u == x,
{
    let t = s.push(x);
    if s.contains(u) {
        let i = choose|i: int| 0 <= i < s.len() && s[i] == u;
        assert(t[i] == u);
    }
    if u == x {
        assert(t[s.len() as int] == u);
    }
    if t.contains(u) {
        let i = choose|i: int| 0 <= i < t.len() && t[i] == u;
        if i < s.len() {
            assert(s[i] == u);
        }
    }
}

/// A set of the first `i` offers stays one when the next offer is empty.
pub proof fn lemma_set_skip<T>(out: Seq<T>, yields: Seq<Option<T>>, i: int)
    requires
        0 <= i < yields.len(),
        is_set_of(out, yields.take(i)),
        yields[i] is None,
    ensures
        is_set_of(out, yields.take(i + 1)),
{
    assert(yields.take(i + 1) =~= yields.take(i).push(yields[i]));
    assert forall|u: T| #[trigger] out.contains(u) <==> yields.take(i + 1).contains(Some(u)) by {
        lemma_push_contains(yields.take(i), yields[i], Some(u));
    }
}

/// A set of the first `i` offers becomes one of the first `i + 1` by adding the
/// next offer where it is new, and is one already where it is not.
pub proof fn lemma_set_insert<T>(out: Seq<T>, yields: Seq<Option<T>>, i: int, x: T)
    requires
        0 <= i < yields.len(),
        is_set_of(out, yields.take(i)),
        yields[i] == Some(x),
    ensures
        out.contains(x) ==> is_set_of(out, yields.take(i + 1)),
        !out.contains(x) ==> is_set_of(out.push(x), yields.take(i + 1)),
{
    assert(yields.take(i + 1) =~= yields.take(i).push(yields[i]));
    if out.contains(x) {
        assert forall|u: T| #[trigger]
            out.contains(u) <==> yields.take(i + 1).contains(Some(u)) by {
            lemma_push_contains(yields.take(i), yields[i], Some(u));
        }
    } else {
        let t = out.push(x);
        assert forall|u: T| #[trigger] t.contains(u) <==> yields.take(i + 1).contains(Some(u)) by {
            lemma_push_contains(yields.take(i), yields[i], Some(u));
            lemma_push_contains(out, x, u);
            assert(out.contains(u) <==> yields.take(i).contains(Some(u)));
        }
        assert forall|a: int, b: int| 0 <= a < t.len() && 0 <= b < t.len() && a != b implies t[a]
            != t[b] by {
            if a == out.len() {
                assert(out[b] == t[b]);
            } else if b == out.len() {
                assert(out[a] == t[a]);
            }
        }
    }
}

/// Two sets of offers that offer the same values hold the same values, in
/// whatever order the offers came and however often each was made.
pub proof fn lemma_set_order_free<T>(
    a: Seq<T>,
    b: Seq<T>,
    first: Seq<Option<T>>,
    second: Seq<Option<T>>,
)
    requires
        is_set_of(a, first),
        is_set_of(b, second),
        forall|u: T| first.contains(Some(u)) <==> second.contains(Some(u)),
    ensures
        a.to_set() == b.to_set(),
        a.len() == b.len(),
{
    assert forall|u: T| a.to_set().contains(u) <==> b.to_set().contains(u) by {
        assert(a.contains(u) <==> first.contains(Some(u)));
        assert(b.contains(u) <==> second.contains(Some(u)));
    }
    assert(a.to_set() =~= b.to_set());
    a.unique_seq_to_set();
    b.unique_seq_to_set();
}

/// The view of a hit: the serialised element and the attribute's value.
pub type HitView = (Seq<char>, Option<Seq<char>>);

/// The URL that a hit offers: the classification of its attribute value,
/// where it has one that classifies.
pub open spec fn url_offer(h: HitView) -> Option<UrlView> {
    match h.1 {
        Some(raw) => match classified(raw) {
            Ok(u) => Some(u),
            Err(_) => None,
        },
        None => None,
    }
}

/// The URLs that the hits offer, hit by hit.
pub open spec fn url_offers(hits: Seq<HitView>) -> Seq<Option<UrlView>> {
    Seq::new(hits.len(), |i: int| url_offer(hits[i]))
}

/// The fragment that a hit offers: `#` followed by its attribute value.
pub open spec fn fragment_offer(h: HitView) -> Option<Seq<char>> {
    match h.1 {
        Some(id) => Some(seq!['#'] + id),
        None => None,
    }
}

/// The fragments that the hits offer, hit by hit.
pub open spec fn fragment_offers(hits: Seq<HitView>) -> Seq<Option<Seq<char>>> {
    Seq::new(hits.len(), |i: int| fragment_offer(hits[i]))
}

/// Whether the hit has an attribute value that does not classify.
pub open spec fn fails(h: HitView) -> bool {
    h.1 matches Some(raw) && classified(raw) is Err
}

/// The first hit that fails, if any does.
pub open spec fn first_failure(hits: Seq<HitView>) -> Option<HitView>
    decreases hits.len(),
{
    if hits.len() == 0 {
        None
    } else if fails(hits[0]) {
        Some(hits[0])
    } else {
        first_failure(hits.skip(1))
    }
}

/// The views of a sequence of URLs.
pub open spec fn url_views(v: Seq<SiteUrl>) -> Seq<UrlView> {
    Seq::new(v.len(), |i: int| v[i]@)
}

/// The views of a sequence of link targets.
pub open spec fn href_views(v: Seq<HrefUrl>) -> Seq<UrlView> {
    Seq::new(v.len(), |i: int| v[i]@)
}

/// The views of a sequence of image sources.
pub open spec fn img_views(v: Seq<ImgUrl>) -> Seq<UrlView> {
    Seq::new(v.len(), |i: int| v[i]@)
}

/// Whether `e` reports the hit `h` as the one that failed: it carries the
/// element, the raw value and the reason for which the value was refused.
pub open spec fn reports(e: ScanError, h: HitView) -> bool {
    e matches ScanError::Url { element, cause } && element@ == h.0 && h.1 == Some(cause.raw@)
        && classified(cause.raw@) == Err::<UrlView, UrlReason>(cause.reason)
}

/// What scanning the hits for URLs returns, `out` being the views of the
/// URLs returned: the error of the first hit that fails, or else the set of
/// the URLs that the hits offer, in the order of their first offers.
pub open spec fn urls_scanned(hits: Seq<HitView>, out: Result<Seq<UrlView>, ScanError>) -> bool {
    match first_failure(hits) {
        None => out matches Ok(v) && is_set_of(v, url_offers(hits)),
        Some(h) => out matches Err(e) && reports(e, h),
    }
}

/// What scanning the hits for links returns.
pub open spec fn links_scanned(hits: Seq<HitView>, r: Result<Vec<HrefUrl>, ScanError>) -> bool {
    urls_scanned(
        hits,
        match r {
            Ok(v) => Ok(href_views(v@)),
            Err(e) => Err(e),
        },
    )
}

/// What scanning the hits for images returns.
pub open spec fn imgs_scanned(hits: Seq<HitView>, r: Result<Vec<ImgUrl>, ScanError>) -> bool {
    urls_scanned(
        hits,
        match r {
            Ok(v) => Ok(img_views(v@)),
            Err(e) => Err(e),
        },
    )
}

/// A scan fails exactly when some hit fails, and then the hit reported is one
/// that fails and has no failing hit before it.
pub proof fn lemma_first_failure(hits: Seq<HitView>)
    ensures
        first_failure(hits) is None <==> forall|i: int| 0 <= i < hits.len() ==> !fails(#[trigger] hits[i]),
        first_failure(hits) matches Some(h) ==> exists|i: int|
            0 <= i < hits.len() && #[trigger] hits[i] == h && fails(h) && forall|j: int|
                0 <= j < i ==> !fails(#[trigger] hits[j]),
    decreases hits.len(),
{
    if hits.len() == 0 {
    } else if fails(hits[0]) {
        assert(hits[0] == first_failure(hits).unwrap());
    } else {
        let t = hits.skip(1);
        lemma_first_failure(t);
        assert forall|i: int| 0 < i < hits.len() implies hits[i] == t[i - 1] by {}
        if first_failure(t) is None {
            assert forall|i: int| 0 <= i < hits.len() implies !fails(#[trigger] hits[i]) by {
                if i > 0 {
                    assert(hits[i] == t[i - 1]);
                }
            }
        } else {
            let h = first_failure(t).unwrap();
            let i0 = choose|i: int|
                0 <= i < t.len() && #[trigger] t[i] == h && fails(h) && forall|j: int|
                    0 <= j < i ==> !fails(#[trigger] t[j]);
            assert(hits[i0 + 1] == h);
            assert forall|j: int| 0 <= j < i0 + 1 implies !fails(#[trigger] hits[j]) by {
                if j > 0 {
                    assert(hits[j] == t[j - 1]);
                }
            }
        }
    }
}

/// Whether `v` holds a URL equal to `u`.
fn has_url(v: &Vec<SiteUrl>, u: &SiteUrl) -> (r: bool)
    ensures
        r == url_views(v@).contains(u@),
{
    let mut i: usize = 0;
    while i < v.len()
        invariant
            i <= v.len(),
            forall|j: int| 0 <= j < i ==> (#[trigger] url_views(v@)[j]) != u@,
        decreases v.len() - i,
    {
        if v[i].same(u) {
            proof {
                assert(url_views(v@)[i as int] == u@);
            }
            return true;
        }
        i += 1;
    }
    false
}

/// Collects the URLs that the hits offer, each once, or reports the first hit
/// whose value does not classify.
fn urls_of(hits: &Vec<Hit>) -> (r: Result<Vec<SiteUrl>, ScanError>)
    ensures
        urls_scanned(
            hit_views(hits@),
            match r {
                Ok(v) => Ok(url_views(v@)),
                Err(e) => Err(e),
            },
        ),
{
    let ghost hv = hit_views(hits@);
    let ghost offers = url_offers(hv);
    let mut out: Vec<SiteUrl> = Vec::new();
    let mut i: usize = 0;
    proof {
        assert(hv.skip(0) =~= hv);
    }
    while i < hits.len()
        invariant
            i <= hits.len(),
            hv == hit_views(hits@),
            offers == url_offers(hv),
            first_failure(hv) == first_failure(hv.skip(i as int)),
            is_set_of(url_views(out@), offers.take(i as int)),
        decreases hits.len() - i,
    {
        let hit = &hits[i];
        proof {
            assert(hv.skip(i as int).skip(1) =~= hv.skip(i as int + 1));
            assert(hv.skip(i as int)[0] == hit@);
            assert(offers[i as int] == url_offer(hit@));
        }
        match &hit.value {
            None => {
                proof {
                    lemma_set_skip(url_views(out@), offers, i as int);
                }
            },
            Some(raw) => {
                match classify(raw.as_str()) {
                    Err(cause) => {
                        return Err(ScanError::Url { element: hit.element.clone(), cause });
                    },
                    Ok(url) => {
                        proof {
                            lemma_set_insert(url_views(out@), offers, i as int, url@);
                        }
                        if !has_url(&out, &url) {
                            proof {
                                assert(url_views(out@.push(url)) =~= url_views(out@).push(url@));
                            }
                            out.push(url);
                        }
                    },
                }
            },
        }
        i += 1;
    }
    proof {
        assert(offers.take(i as int) =~= offers);
    }
    Ok(out)
}

/// Collects the link targets that the hits offer, each once, or reports the
/// first hit whose value does not classify.
pub fn links_of(hits: &Vec<Hit>) -> (r: Result<Vec<HrefUrl>, ScanError>)
    ensures
        links_scanned(hit_views(hits@), r),
{
    let urls = match urls_of(hits) {
        Ok(v) => v,
        Err(e) => {
            return Err(e);
        },
    };
    let mut out: Vec<HrefUrl> = Vec::new();
    let mut i: usize = 0;
    while i < urls.len()
        invariant
            i <= urls.len(),
            out@.len() == i,
            forall|j: int| 0 <= j < i ==> (#[trigger] out@[j])@ == urls@[j]@,
        decreases urls.len() - i,
    {
        out.push(HrefUrl { url: urls[i].duplicate() });
        i += 1;
    }
    proof {
        assert(href_views(out@) =~= url_views(urls@));
    }
    Ok(out)
}

/// Collects the image sources that the hits offer, each once, or reports the
/// first hit whose value does not classify.
pub fn imgs_of(hits: &Vec<Hit>) -> (r: Result<Vec<ImgUrl>, ScanError>)
    ensures
        imgs_scanned(hit_views(hits@), r),
{
    let urls = match urls_of(hits) {
        Ok(v) => v,
        Err(e) => {
            return Err(e);
        },
    };
    let mut out: Vec<ImgUrl> = Vec::new();
    let mut i: usize = 0;
    while i < urls.len()
        invariant
            i <= urls.len(),
            out@.len() == i,
            forall|j: int| 0 <= j < i ==> (#[trigger] out@[j])@ == urls@[j]@,
        decreases urls.len() - i,
    {
        out.push(ImgUrl { url: urls[i].duplicate() });
        i += 1;
    }
    proof {
        assert(img_views(out@) =~= url_views(urls@));
    }
    Ok(out)
}

/// Whether `v` holds a text equal to `u`.
pub fn has_text(v: &Vec<String>, u: &String) -> (r: bool)
    ensures
        r == text_views(v@).contains(u@),
{
    let mut i: usize = 0;
    while i < v.len()
        invariant
            i <= v.len(),
            forall|j: int| 0 <= j < i ==> (#[trigger] text_views(v@)[j]) != u@,
        decreases v.len() - i,
    {
        if v[i].eq(u) {
            proof {
                assert(text_views(v@)[i as int] == u@);
            }
            return true;
        }
        i += 1;
    }
    false
}

/// Collects the fragments that the hits offer, each once: the value of every
/// hit that has one, with `#` in front. A value that occurs twice is kept once.
pub fn fragments_of(hits: &Vec<Hit>) -> (r: Vec<String>)
    ensures
        is_set_of(text_views(r@), fragment_offers(hit_views(hits@))),
{
    let ghost hv = hit_views(hits@);
    let ghost offers = fragment_offers(hv);
    let mut out: Vec<String> = Vec::new();
    let mut i: usize = 0;
    while i < hits.len()
        invariant
            i <= hits.len(),
            hv == hit_views(hits@),
            offers == fragment_offers(hv),
            is_set_of(text_views(out@), offers.take(i as int)),
        decreases hits.len() - i,
    {
        let hit = &hits[i];
        proof {
            assert(offers[i as int] == fragment_offer(hit@));
        }
        match &hit.value {
            None => {
                proof {
                    lemma_set_skip(text_views(out@), offers, i as int);
                }
            },
            Some(id) => {
                let mut fragment = String::from_str("#");
                proof {
                    reveal_strlit("#");
                    assert("#"@ =~= seq!['#']);
                }
                fragment.append(id.as_str());
                proof {
                    lemma_set_insert(text_views(out@), offers, i as int, fragment@);
                }
                if !has_text(&out, &fragment) {
                    proof {
                        assert(text_views(out@.push(fragment)) =~= text_views(out@).push(
                            fragment@,
                        ));
                    }
                    out.push(fragment);
                }
            },
        }
        i += 1;
    }
    proof {
        assert(offers.take(i as int) =~= offers);
    }
    out
}

/// The selector of every element that has an `href` attribute.
pub open spec fn link_selector() -> Seq<char> {
    "[href]"@
}

/// The selector of every element that has a `src` attribute.
pub open spec fn img_selector() -> Seq<char> {
    "[src]"@
}

/// The selector of every element that has an `id` attribute.
pub open spec fn id_selector() -> Seq<char> {
    "[id]"@
}

/// Whether `r` is the failure that reports the refused selector `selector`.
pub open spec fn refused<T>(r: Result<T, ScanError>, selector: Seq<char>) -> bool {
    r matches Err(ScanError::Selector { selector: s }) && s@ == selector
}

/// The link targets of a document: the `href` value of every element that
/// has one, whatever its tag, classified, each once. The first value that
/// does not classify fails the scan, with its element.
pub fn collect_links(document: &Html) -> (r: Result<Vec<HrefUrl>, ScanError>)
    ensures
        match selector_parsed(link_selector()) {
            Some(sel) => links_scanned(html_matches(*document, sel, "href"@), r),
            None => refused(r, link_selector()),
        },
{
    match parse_selector("[href]") {
        Some(sel) => {
            let hits = select_attr(document, &sel, "href");
            links_of(&hits)
        },
        None => Err(ScanError::Selector { selector: String::from_str("[href]") }),
    }
}

/// The image sources of a document: the `src` value of every element that
/// has one, whatever its tag, classified, each once. The first value that
/// does not classify fails the scan, with its element.
pub fn collect_imgs(document: &Html) -> (r: Result<Vec<ImgUrl>, ScanError>)
    ensures
        match selector_parsed(img_selector()) {
            Some(sel) => imgs_scanned(html_matches(*document, sel, "src"@), r),
            None => refused(r, img_selector()),
        },
{
    match parse_selector("[src]") {
        Some(sel) => {
            let hits = select_attr(document, &sel, "src");
            imgs_of(&hits)
        },
        None => Err(ScanError::Selector { selector: String::from_str("[src]") }),
    }
}

/// The fragments that a document defines: the `id` value of every element
/// that has one, with `#` in front, each once.
pub fn collect_fragments(document: &Html) -> (r: Result<Vec<String>, ScanError>)
    ensures
        match selector_parsed(id_selector()) {
            Some(sel) => r matches Ok(v) && is_set_of(
                text_views(v@),
                fragment_offers(html_matches(*document, sel, "id"@)),
            ),
            None => refused(r, id_selector()),
        },
{
    match parse_selector("[id]") {
        Some(sel) => {
            let hits = select_attr(document, &sel, "id");
            Ok(fragments_of(&hits))
        },
        None => Err(ScanError::Selector { selector: String::from_str("[id]") }),
    }
}

/// What a whole-document scan reports when it fails.
pub enum Failure {
    /// The hit whose attribute value did not classify.
    Hit(HitView),
    /// The selector that the engine refused.
    Selector(Seq<char>),
}

/// Whether the error `e` reports the failure `f`.
pub open spec fn error_is(e: ScanError, f: Failure) -> bool {
    match f {
        Failure::Hit(h) => reports(e, h),
        Failure::Selector(s) => e matches ScanError::Selector { selector } && selector@ == s,
    }
}

/// The hits of the link selector in the document parsed from `content`.
pub open spec fn link_hits(content: Seq<char>) -> Option<Seq<HitView>> {
    match selector_parsed(link_selector()) {
        Some(sel) => Some(html_matches(html_parsed(content), sel, "href"@)),
        None => None,
    }
}

/// The hits of the image selector in the document parsed from `content`.
pub open spec fn img_hits(content: Seq<char>) -> Option<Seq<HitView>> {
    match selector_parsed(img_selector()) {
        Some(sel) => Some(html_matches(html_parsed(content), sel, "src"@)),
        None => None,
    }
}

/// The hits of the id selector in the document parsed from `content`.
pub open spec fn id_hits(content: Seq<char>) -> Option<Seq<HitView>> {
    match selector_parsed(id_selector()) {
        Some(sel) => Some(html_matches(html_parsed(content), sel, "id"@)),
        None => None,
    }
}

/// The failure of one selector's hits: a refused selector, or the first hit
/// that fails.
pub open spec fn hits_failure(hits: Option<Seq<HitView>>, selector: Seq<char>) -> Option<Failure> {
    match hits {
        None => Some(Failure::Selector(selector)),
        Some(h) => match first_failure(h) {
            Some(x) => Some(Failure::Hit(x)),
            None => None,
        },
    }
}

/// The failure of scanning `content`, if it fails: links are scanned first,
/// then images, then ids; ids fail only on a refused selector.
pub open spec fn scan_failure(content: Seq<char>) -> Option<Failure> {
    let l = hits_failure(link_hits(content), link_selector());
    let m = hits_failure(img_hits(content), img_selector());
    if l is Some {
        l
    } else if m is Some {
        m
    } else if id_hits(content) is None {
        Some(Failure::Selector(id_selector()))
    } else {
        None
    }
}

/// What a scan found in one document.
#[derive(Debug)]
pub struct Scanned {
    /// The parsed document.
    pub html: Html,
    /// The link targets, each once.
    pub links: Vec<HrefUrl>,
    /// The image sources, each once.
    pub imgs: Vec<ImgUrl>,
    /// The fragments that the document defines, each once, with `#` in front.
    pub fragments: Vec<String>,
}

/// Whether the three collections are the sets of what the document parsed from
/// `content` offers.
pub open spec fn sets_of(
    content: Seq<char>,
    links: Seq<HrefUrl>,
    imgs: Seq<ImgUrl>,
    fragments: Seq<String>,
) -> bool {
    &&& link_hits(content) matches Some(h) && is_set_of(href_views(links), url_offers(h))
    &&& img_hits(content) matches Some(h) && is_set_of(img_views(imgs), url_offers(h))
    &&& id_hits(content) matches Some(h) && is_set_of(text_views(fragments), fragment_offers(h))
}

impl Scanned {
    /// Whether this is the result of scanning `content`.
    pub open spec fn is_scan_of(&self, content: Seq<char>) -> bool {
        &&& self.html == html_parsed(content)
        &&& sets_of(content, self.links@, self.imgs@, self.fragments@)
    }
}

/// Scans one HTML document: parses it, then collects its links, its images
/// and its fragments. The first failure, in that order, fails the scan.
pub fn scan_document(content: &str) -> (r: Result<Scanned, ScanError>)
    ensures
        match scan_failure(content@) {
            Some(f) => r matches Err(e) && error_is(e, f),
            None => r matches Ok(s) && s.is_scan_of(content@),
        },
{
    let html = parse_document(content);
    let links = match collect_links(&html) {
        Ok(v) => v,
        Err(e) => {
            return Err(e);
        },
    };
    let imgs = match collect_imgs(&html) {
        Ok(v) => v,
        Err(e) => {
            return Err(e);
        },
    };
    let fragments = match collect_fragments(&html) {
        Ok(v) => v,
        Err(e) => {
            return Err(e);
        },
    };
    Ok(Scanned { html, links, imgs, fragments })
}

/// Scanning is a function of the text: two scans of one text hold the same
/// links, the same images and the same fragments.
pub proof fn lemma_scan_deterministic(content: Seq<char>, a: Scanned, b: Scanned)
    requires
        a.is_scan_of(content),
        b.is_scan_of(content),
    ensures
        href_views(a.links@).to_set() == href_views(b.links@).to_set(),
        img_views(a.imgs@).to_set() == img_views(b.imgs@).to_set(),
        text_views(a.fragments@).to_set() == text_views(b.fragments@).to_set(),
        a.links@.len() == b.links@.len(),
        a.imgs@.len() == b.imgs@.len(),
        a.fragments@.len() == b.fragments@.len(),
{
    let l = url_offers(link_hits(content).unwrap());
    let m = url_offers(img_hits(content).unwrap());
    let f = fragment_offers(id_hits(content).unwrap());
    lemma_set_order_free(href_views(a.links@), href_views(b.links@), l, l);
    lemma_set_order_free(img_views(a.imgs@), img_views(b.imgs@), m, m);
    lemma_set_order_free(text_views(a.fragments@), text_views(b.fragments@), f, f);
}

} // verus!
