//! The index of a site: one record per scanned HTML file, keyed by path.

use crate::scan::{error_is, scan_document, scan_failure, sets_of, html_parsed, ScanError};
use crate::url::{HrefUrl, ImgUrl};
use scraper::Html;
use vstd::prelude::*;
use vstd::string::*;

verus! {

/// A file as it was read: its path and its text.
#[derive(Clone, Debug, PartialEq, Eq)]
pub struct SourceFile {
    pub path: String,
    pub content: String,
}

/// The record of one scanned file.
#[derive(Debug)]
pub struct ParsedFile {
    /// The path of the file, the key of the record.
    pub path: String,
    /// The parsed document.
    pub html: Html,
    /// The text of the file.
    pub content: String,
    /// The link targets found, each once.
    pub links: Vec<HrefUrl>,
    /// The image sources found, each once.
    pub imgs: Vec<ImgUrl>,
    /// The fragments defined, each once, with `#` in front.
    pub fragments: Vec<String>,
}

/// The failure of indexing: the file that could not be scanned, and why.
#[derive(Clone, Debug, PartialEq, Eq)]
pub struct IndexError {
    pub file: String,
    pub cause: ScanError,
}

/// The index: the records of the scanned files, no two with the same path.
#[derive(Debug)]
pub struct ParsedFiles {
    pub files: Vec<ParsedFile>,
}

impl ParsedFile {
    /// Whether the record is derived from its own content: the document is
    /// the content parsed, and the three sets are what that document offers.
    pub open spec fn wf(&self) -> bool {
        &&& self.html == html_parsed(self.content@)
        &&& sets_of(self.content@, self.links@, self.imgs@, self.fragments@)
    }

    /// Scans `content` and makes the record of the file at `path`, or reports
    /// the scan's failure with the path attached.
    pub fn parse(path: String, content: String) -> (r: Result<ParsedFile, IndexError>)
        ensures
            match scan_failure(content@) {
                Some(f) => r matches Err(e) && e.file@ == path@ && error_is(e.cause, f),
                None => r matches Ok(p) && p.path@ == path@ && p.content@ == content@ && p.wf(),
            },
    {
        match scan_document(content.as_str()) {
            Ok(s) => Ok(
                ParsedFile {
                    path,
                    html: s.html,
                    content,
                    links: s.links,
                    imgs: s.imgs,
                    fragments: s.fragments,
                },
            ),
            Err(cause) => Err(IndexError { file: path, cause }),
        }
    }
}

/// The text recorded for each path, later records of a path replacing earlier
/// ones.
pub open spec fn contents(files: Seq<ParsedFile>) -> Map<Seq<char>, Seq<char>>
    decreases files.len(),
{
    if files.len() == 0 {
        Map::empty()
    } else {
        contents(files.drop_last()).insert(files.last().path@, files.last().content@)
    }
}

/// The text given for each path, later sources of a path replacing earlier
/// ones.
pub open spec fn source_map(sources: Seq<SourceFile>) -> Map<Seq<char>, Seq<char>>
    decreases sources.len(),
{
    if sources.len() == 0 {
        Map::empty()
    } else {
        source_map(sources.drop_last()).insert(sources.last().path@, sources.last().content@)
    }
}

/// The first source whose scan fails, if any does.
pub open spec fn first_unscannable(sources: Seq<SourceFile>) -> Option<SourceFile>
    decreases sources.len(),
{
    if sources.len() == 0 {
        None
    } else if scan_failure(sources[0].content@) is Some {
        Some(sources[0])
    } else {
        first_unscannable(sources.skip(1))
    }
}

/// No two records have the same path.
pub open spec fn paths_distinct(files: Seq<ParsedFile>) -> bool {
    forall|a: int, b: int|
        0 <= a < files.len() && 0 <= b < files.len() && a != b ==> (#[trigger] files[a]).path@ != (
        #[trigger] files[b]).path@
}

/// Replacing a record by one of the same path changes the recorded text of
/// that path and of no other.
pub proof fn lemma_contents_update(files: Seq<ParsedFile>, k: int, rec: ParsedFile)
    requires
        0 <= k < files.len(),
        paths_distinct(files),
        files[k].path@ == rec.path@,
    ensures
        contents(files.update(k, rec)) == contents(files).insert(rec.path@, rec.content@),
        paths_distinct(files.update(k, rec)),
    decreases files.len(),
{
    let upd = files.update(k, rec);
    assert forall|a: int, b: int| 0 <= a < upd.len() && 0 <= b < upd.len() && a != b implies (
    #[trigger] upd[a]).path@ != (#[trigger] upd[b]).path@ by {
        assert(upd[a].path@ == files[a].path@);
        assert(upd[b].path@ == files[b].path@);
    }
    if k == files.len() - 1 {
        assert(upd.drop_last() =~= files.drop_last());
        assert(contents(upd) =~= contents(files).insert(rec.path@, rec.content@));
    } else {
        let head = files.drop_last();
        assert forall|a: int, b: int| 0 <= a < head.len() && 0 <= b < head.len() && a != b implies (
        #[trigger] head[a]).path@ != (#[trigger] head[b]).path@ by {
            assert(head[a] == files[a]);
            assert(head[b] == files[b]);
        }
        assert(head[k] == files[k]);
        lemma_contents_update(head, k, rec);
        assert(upd.drop_last() =~= head.update(k, rec));
        assert(upd.last() == files.last());
        assert(files[files.len() - 1].path@ != files[k].path@);
        assert(contents(upd) =~= contents(files).insert(rec.path@, rec.content@));
    }
}

/// A path has a recorded text exactly when some record has that path.
pub proof fn lemma_contents_domain(files: Seq<ParsedFile>, path: Seq<char>)
    ensures
        contents(files).dom().contains(path) <==> exists|k: int|
            0 <= k < files.len() && (#[trigger] files[k]).path@ == path,
    decreases files.len(),
{
    if files.len() > 0 {
        let head = files.drop_last();
        lemma_contents_domain(head, path);
        if exists|k: int| 0 <= k < head.len() && (#[trigger] head[k]).path@ == path {
            let k = choose|k: int| 0 <= k < head.len() && (#[trigger] head[k]).path@ == path;
            assert(files[k].path@ == path);
        }
        if files.last().path@ == path {
            assert(files[files.len() - 1].path@ == path);
        }
        if exists|k: int| 0 <= k < files.len() && (#[trigger] files[k]).path@ == path {
            let k = choose|k: int| 0 <= k < files.len() && (#[trigger] files[k]).path@ == path;
            if k < head.len() {
                assert(head[k].path@ == path);
            }
        }
    }
}

impl ParsedFiles {
    /// Whether every record is derived from its content and no two records
    /// share a path.
    pub open spec fn wf(&self) -> bool {
        &&& paths_distinct(self.files@)
        &&& forall|k: int| 0 <= k < self.files@.len() ==> (#[trigger] self.files@[k]).wf()
    }

    /// An index without records.
    pub fn new() -> (r: ParsedFiles)
        ensures
            r.files@.len() == 0,
            r.wf(),
    {
        ParsedFiles { files: Vec::new() }
    }

    /// The number of records.
    pub fn len(&self) -> (r: usize)
        ensures
            r == self.files@.len(),
    {
        self.files.len()
    }

    /// The position of the first record with the given path.
    pub fn find(&self, path: &String) -> (r: Option<usize>)
        ensures
            match r {
                Some(k) => k < self.files@.len() && self.files@[k as int].path@ == path@ && forall|
                    j: int,
                | 0 <= j < k ==> (#[trigger] self.files@[j]).path@ != path@,
                None => forall|j: int|
                    0 <= j < self.files@.len() ==> (#[trigger] self.files@[j]).path@ != path@,
            },
    {
        let mut i: usize = 0;
        while i < self.files.len()
            invariant
                i <= self.files@.len(),
                forall|j: int| 0 <= j < i ==> (#[trigger] self.files@[j]).path@ != path@,
            decreases self.files@.len() - i,
        {
            if self.files[i].path.eq(path) {
                return Some(i);
            }
            i += 1;
        }
        None
    }

    /// The record of the given path, if the index has one.
    pub fn get(&self, path: &String) -> (r: Option<&ParsedFile>)
        ensures
            match r {
                Some(f) => f.path@ == path@ && self.files@.contains(*f),
                None => forall|j: int|
                    0 <= j < self.files@.len() ==> (#[trigger] self.files@[j]).path@ != path@,
            },
    {
        match self.find(path) {
            Some(k) => Some(&self.files[k]),
            None => None,
        }
    }

    /// Puts a record into the index, in place of the record of the same path
    /// if there is one.
    pub fn insert(&mut self, rec: ParsedFile)
        requires
            old(self).wf(),
            rec.wf(),
        ensures
            final(self).wf(),
            contents(final(self).files@) == contents(old(self).files@).insert(
                rec.path@,
                rec.content@,
            ),
    {
        match self.find(&rec.path) {
            Some(k) => {
                proof {
                    lemma_contents_update(self.files@, k as int, rec);
                }
                self.files.set(k, rec);
            },
            None => {
                proof {
                    assert(self.files@.push(rec).drop_last() =~= self.files@);
                }
                self.files.push(rec);
            },
        }
    }
}

/// Builds the index of the given files. The first file whose scan fails, in
/// the order given, fails the whole index with its path; otherwise every path
/// given has one record, made from the last text given for it.
pub fn parse_html_files(sources: &Vec<SourceFile>) -> (r: Result<ParsedFiles, IndexError>)
    ensures
        match first_unscannable(sources@) {
            Some(bad) => r matches Err(e) && e.file@ == bad.path@ && error_is(
                e.cause,
                scan_failure(bad.content@).unwrap(),
            ),
            None => r matches Ok(index) && index.wf() && contents(index.files@) == source_map(
                sources@,
            ),
        },
{
    let mut index = ParsedFiles::new();
    let mut i: usize = 0;
    proof {
        assert(sources@.skip(0) =~= sources@);
    }
    while i < sources.len()
        invariant
            i <= sources.len(),
            index.wf(),
            first_unscannable(sources@) == first_unscannable(sources@.skip(i as int)),
            contents(index.files@) == source_map(sources@.take(i as int)),
        decreases sources.len() - i,
    {
        let source = &sources[i];
        proof {
            assert(sources@.skip(i as int).skip(1) =~= sources@.skip(i as int + 1));
            assert(sources@.skip(i as int)[0] == *source);
            assert(sources@.take(i as int + 1).drop_last() =~= sources@.take(i as int));
        }
        match ParsedFile::parse(source.path.clone(), source.content.clone()) {
            Ok(rec) => {
                index.insert(rec);
            },
            Err(e) => {
                return Err(e);
            },
        }
        i += 1;
    }
    proof {
        assert(sources@.take(i as int) =~= sources@);
    }
    Ok(index)
}

/// Indexing is all or nothing: it succeeds exactly when every file scans.
pub proof fn lemma_index_fails_fast(sources: Seq<SourceFile>)
    ensures
        first_unscannable(sources) is None <==> forall|i: int|
            0 <= i < sources.len() ==> scan_failure((#[trigger] sources[i]).content@) is None,
        first_unscannable(sources) matches Some(bad) ==> sources.contains(bad) && scan_failure(
            bad.content@,
        ) is Some,
    decreases sources.len(),
{
    if sources.len() == 0 {
    } else if scan_failure(sources[0].content@) is Some {
    } else {
        let t = sources.skip(1);
        lemma_index_fails_fast(t);
        if first_unscannable(t) is None {
            assert forall|i: int| 0 <= i < sources.len() implies scan_failure(
                (#[trigger] sources[i]).content@,
            ) is None by {
                if i > 0 {
                    assert(sources[i] == t[i - 1]);
                }
            }
        } else {
            let bad = first_unscannable(t).unwrap();
            let j = choose|j: int| 0 <= j < t.len() && t[j] == bad;
            assert(sources[j + 1] == bad);
        }
    }
}

} // verus!
