//! Classification of raw `href` and `src` attribute values.

use vstd::prelude::*;
use vstd::string::*;

verus! {

/// Why a raw attribute value could not be classified.
#[derive(Clone, Copy, Debug, PartialEq, Eq, Hash, Structural)]
pub enum UrlReason {
    /// The value is the empty string.
    Empty,
    /// A colon ends a prefix that is not a well-formed scheme.
    InvalidScheme,
}

/// A raw attribute value that could not be classified.
#[derive(Clone, Debug, PartialEq, Eq, Hash)]
pub struct MalformedUrl {
    pub raw: String,
    pub reason: UrlReason,
}

/// A classified URL.
#[derive(Clone, Debug, PartialEq, Eq, Hash)]
pub enum SiteUrl {
    /// A reference into the site: a path, a fragment, or both.
    Internal { path: Option<String>, fragment: Option<String> },
    /// An absolute URL, kept as it was written.
    External(String),
}

/// The mathematical value of a [`SiteUrl`].
pub enum UrlView {
    Internal { path: Option<Seq<char>>, fragment: Option<Seq<char>> },
    External(Seq<char>),
}

/// The view of an optional string.
pub open spec fn opt_view(o: Option<String>) -> Option<Seq<char>> {
    match o {
        Some(s) => Some(s@),
        None => None,
    }
}

impl View for SiteUrl {
    type V = UrlView;

    open spec fn view(&self) -> UrlView {
        match *self {
            SiteUrl::Internal { path, fragment } => UrlView::Internal {
                path: opt_view(path),
                fragment: opt_view(fragment),
            },
            SiteUrl::External(s) => UrlView::External(s@),
        }
    }
}

/// Whether `c` ends the part of a URL in which a scheme can stand; with
/// `hash_only`, whether it starts the fragment.
pub open spec fn is_stop(c: char, hash_only: bool) -> bool {
    if hash_only {
        c == '#'
    } else {
        c == ':' || c == '/' || c == '?' || c == '#'
    }
}

/// The index of the first stop character of `s`, or its length if it has none.
pub open spec fn first_stop(s: Seq<char>, hash_only: bool) -> int
    decreases s.len(),
{
    if s.len() == 0 || is_stop(s[0], hash_only) {
        0
    } else {
        1 + first_stop(s.skip(1), hash_only)
    }
}

/// An ASCII letter.
pub open spec fn is_alpha(c: char) -> bool {
    ('a' <= c && c <= 'z') || ('A' <= c && c <= 'Z')
}

/// A character that may stand in a scheme: an ASCII letter or digit, `+`, `-`
/// or `.`.
pub open spec fn is_scheme_char(c: char) -> bool {
    is_alpha(c) || ('0' <= c && c <= '9') || c == '+' || c == '-' || c == '.'
}

/// Whether `p` is a well-formed scheme: a letter followed by scheme characters.
pub open spec fn is_scheme(p: Seq<char>) -> bool {
    p.len() > 0 && is_alpha(p[0]) && forall|i: int| 0 <= i < p.len() ==> is_scheme_char(#[trigger] p[i])
}

/// The classification of a raw attribute value.
///
/// No normalisation takes place: the path and the fragment are kept as they
/// were written, so `./b.html` and `b.html` are different paths, and two URLs
/// are the same only when they are written the same.
///
/// The empty string is malformed. A value that starts with `//`, or whose
/// first stop character is a colon after a well-formed scheme, is external and
/// kept as written; a colon after anything else is malformed. Every other
/// value is internal: the text before the first `#` is its path (absent when
/// empty), the text after it its fragment (absent when there is no `#`).
pub open spec fn classified(s: Seq<char>) -> Result<UrlView, UrlReason> {
    if s.len() == 0 {
        Err(UrlReason::Empty)
    } else if s.len() >= 2 && s[0] == '/' && s[1] == '/' {
        Ok(UrlView::External(s))
    } else {
        let k = first_stop(s, false);
        if k < s.len() && s[k] == ':' {
            if is_scheme(s.take(k)) {
                Ok(UrlView::External(s))
            } else {
                Err(UrlReason::InvalidScheme)
            }
        } else {
            let h = first_stop(s, true);
            Ok(
                UrlView::Internal {
                    path: if h == 0 {
                        None
                    } else {
                        Some(s.take(h))
                    },
                    fragment: if h < s.len() {
                        Some(s.skip(h + 1))
                    } else {
                        None
                    },
                },
            )
        }
    }
}

/// The first stop character lies within the text, nothing before it is a stop
/// character, and where it is short of the end it is one.
pub proof fn lemma_first_stop(s: Seq<char>, hash_only: bool)
    ensures
        0 <= first_stop(s, hash_only) <= s.len(),
        forall|j: int| 0 <= j < first_stop(s, hash_only) ==> !is_stop(#[trigger] s[j], hash_only),
        first_stop(s, hash_only) < s.len() ==> is_stop(s[first_stop(s, hash_only)], hash_only),
    decreases s.len(),
{
    if s.len() == 0 || is_stop(s[0], hash_only) {
    } else {
        let t = s.skip(1);
        lemma_first_stop(t, hash_only);
        assert forall|j: int| 0 <= j < first_stop(s, hash_only) implies !is_stop(
            #[trigger] s[j],
            hash_only,
        ) by {
            if j > 0 {
                assert(s[j] == t[j - 1]);
            }
        }
        if first_stop(t, hash_only) < t.len() {
            assert(s[first_stop(s, hash_only)] == t[first_stop(t, hash_only)]);
        }
    }
}

fn stops(c: char, hash_only: bool) -> (r: bool)
    ensures
        r == is_stop(c, hash_only),
{
    if hash_only {
        c == '#'
    } else {
        c == ':' || c == '/' || c == '?' || c == '#'
    }
}

fn scheme_char(c: char) -> (r: bool)
    ensures
        r == is_scheme_char(c),
{
    alpha(c) || ('0' <= c && c <= '9') || c == '+' || c == '-' || c == '.'
}

fn alpha(c: char) -> (r: bool)
    ensures
        r == is_alpha(c),
{
    ('a' <= c && c <= 'z') || ('A' <= c && c <= 'Z')
}

/// Finds the first stop character of `s`.
pub fn find_stop(s: &str, hash_only: bool) -> (r: usize)
    ensures
        r == first_stop(s@, hash_only),
        r <= s@.len(),
{
    let n: usize = s.unicode_len();
    let mut i: usize = 0;
    let mut done: bool = false;
    proof {
        assert(s@.skip(0) =~= s@);
    }
    while i < n && !done
        invariant
            i <= n,
            n == s@.len(),
            first_stop(s@, hash_only) == i + first_stop(s@.skip(i as int), hash_only),
            done ==> i < n && is_stop(s@[i as int], hash_only),
        decreases n - i + (if done { 0int } else { 1int }),
    {
        let c = s.get_char(i);
        if stops(c, hash_only) {
            done = true;
        } else {
            proof {
                assert(s@.skip(i as int).skip(1) =~= s@.skip(i as int + 1));
            }
            i += 1;
        }
    }
    i
}

/// Whether the first `k` characters of `s` form a well-formed scheme.
pub fn has_scheme(s: &str, k: usize) -> (r: bool)
    requires
        k <= s@.len(),
    ensures
        r == is_scheme(s@.take(k as int)),
{
    if k == 0 || !alpha(s.get_char(0)) {
        return false;
    }
    let mut i: usize = 0;
    while i < k
        invariant
            i <= k <= s@.len(),
            forall|j: int| 0 <= j < i ==> is_scheme_char(#[trigger] s@.take(k as int)[j]),
        decreases k - i,
    {
        if !scheme_char(s.get_char(i)) {
            proof {
                assert(!is_scheme_char(s@.take(k as int)[i as int]));
            }
            return false;
        }
        i += 1;
    }
    true
}

/// Classifies a raw attribute value.
pub fn classify(raw: &str) -> (r: Result<SiteUrl, MalformedUrl>)
    ensures
        match classified(raw@) {
            Ok(u) => r matches Ok(v) && v@ == u,
            Err(reason) => r matches Err(e) && e.raw@ == raw@ && e.reason == reason,
        },
{
    let n: usize = raw.unicode_len();
    if n == 0 {
        return Err(MalformedUrl { raw: String::from_str(raw), reason: UrlReason::Empty });
    }
    if n >= 2 && raw.get_char(0) == '/' && raw.get_char(1) == '/' {
        return Ok(SiteUrl::External(String::from_str(raw)));
    }
    let k: usize = find_stop(raw, false);
    if k < n && raw.get_char(k) == ':' {
        if has_scheme(raw, k) {
            return Ok(SiteUrl::External(String::from_str(raw)));
        } else {
            return Err(
                MalformedUrl { raw: String::from_str(raw), reason: UrlReason::InvalidScheme },
            );
        }
    }
    let h: usize = find_stop(raw, true);
    let path: Option<String> = if h == 0 {
        None
    } else {
        proof {
            assert(raw@.subrange(0, h as int) =~= raw@.take(h as int));
        }
        Some(String::from_str(raw.substring_char(0, h)))
    };
    let fragment: Option<String> = if h < n {
        proof {
            assert(raw@.subrange(h as int + 1, n as int) =~= raw@.skip(h as int + 1));
        }
        Some(String::from_str(raw.substring_char(h + 1, n)))
    } else {
        None
    };
    Ok(SiteUrl::Internal { path, fragment })
}

fn same_text(a: &Option<String>, b: &Option<String>) -> (r: bool)
    ensures
        r == (opt_view(*a) == opt_view(*b)),
{
    match (a, b) {
        (Some(x), Some(y)) => x.eq(y),
        (None, None) => true,
        _ => false,
    }
}

fn copy_text(a: &Option<String>) -> (r: Option<String>)
    ensures
        opt_view(r) == opt_view(*a),
{
    match a {
        Some(x) => Some(x.clone()),
        None => None,
    }
}

impl SiteUrl {
    /// Whether the two values are the same URL.
    pub fn same(&self, other: &SiteUrl) -> (r: bool)
        ensures
            r == (self@ == other@),
    {
        match (self, other) {
            (
                SiteUrl::Internal { path: p1, fragment: f1 },
                SiteUrl::Internal { path: p2, fragment: f2 },
            ) => same_text(p1, p2) && same_text(f1, f2),
            (SiteUrl::External(a), SiteUrl::External(b)) => a.eq(b),
            _ => false,
        }
    }

    /// A copy of the URL.
    pub fn duplicate(&self) -> (r: SiteUrl)
        ensures
            r@ == self@,
    {
        match self {
            SiteUrl::Internal { path, fragment } => SiteUrl::Internal {
                path: copy_text(path),
                fragment: copy_text(fragment),
            },
            SiteUrl::External(s) => SiteUrl::External(s.clone()),
        }
    }

    /// Whether the URL points outside the site.
    pub fn is_external(&self) -> (r: bool)
        ensures
            r == (self@ is External),
    {
        match self {
            SiteUrl::External(_) => true,
            _ => false,
        }
    }

    /// The path of an internal URL that has one.
    pub fn path(&self) -> (r: Option<&String>)
        ensures
            match self@ {
                UrlView::Internal { path: Some(p), .. } => r matches Some(s) && s@ == p,
                _ => r is None,
            },
    {
        match self {
            SiteUrl::Internal { path: Some(p), .. } => Some(p),
            _ => None,
        }
    }

    /// The fragment of an internal URL that has one.
    pub fn fragment(&self) -> (r: Option<&String>)
        ensures
            match self@ {
                UrlView::Internal { fragment: Some(f), .. } => r matches Some(s) && s@ == f,
                _ => r is None,
            },
    {
        match self {
            SiteUrl::Internal { fragment: Some(f), .. } => Some(f),
            _ => None,
        }
    }
}

/// The target of a hyperlink.
#[derive(Clone, Debug, PartialEq, Eq, Hash)]
pub struct HrefUrl {
    pub url: SiteUrl,
}

/// The source of an image.
#[derive(Clone, Debug, PartialEq, Eq, Hash)]
pub struct ImgUrl {
    pub url: SiteUrl,
}

impl View for HrefUrl {
    type V = UrlView;

    open spec fn view(&self) -> UrlView {
        self.url@
    }
}

impl View for ImgUrl {
    type V = UrlView;

    open spec fn view(&self) -> UrlView {
        self.url@
    }
}

impl HrefUrl {
    /// Classifies the value of an `href` attribute.
    pub fn parse(raw: &str) -> (r: Result<HrefUrl, MalformedUrl>)
        ensures
            match classified(raw@) {
                Ok(u) => r matches Ok(v) && v@ == u,
                Err(reason) => r matches Err(e) && e.raw@ == raw@ && e.reason == reason,
            },
    {
        match classify(raw) {
            Ok(url) => Ok(HrefUrl { url }),
            Err(e) => Err(e),
        }
    }

    /// Whether the two values are the same URL.
    pub fn same(&self, other: &HrefUrl) -> (r: bool)
        ensures
            r == (self@ == other@),
    {
        self.url.same(&other.url)
    }
}

impl ImgUrl {
    /// Classifies the value of a `src` attribute.
    pub fn parse(raw: &str) -> (r: Result<ImgUrl, MalformedUrl>)
        ensures
            match classified(raw@) {
                Ok(u) => r matches Ok(v) && v@ == u,
                Err(reason) => r matches Err(e) && e.raw@ == raw@ && e.reason == reason,
            },
    {
        match classify(raw) {
            Ok(url) => Ok(ImgUrl { url }),
            Err(e) => Err(e),
        }
    }

    /// Whether the two values are the same URL.
    pub fn same(&self, other: &ImgUrl) -> (r: bool)
        ensures
            r == (self@ == other@),
    {
        self.url.same(&other.url)
    }
}

/// Classification depends on the characters of the raw value alone: two raw
/// values with the same characters classify to the same URL or fail for the
/// same reason.
pub proof fn lemma_classification_is_a_function(a: &str, b: &str)
    requires
        a@ == b@,
    ensures
        classified(a@) == classified(b@),
{
}

/// An external URL is kept exactly as written, and an internal URL is the raw
/// value cut at its first `#`.
pub proof fn lemma_classified_shape(s: Seq<char>)
    ensures
        classified(s) matches Ok(UrlView::External(t)) ==> t == s,
        classified(s) matches Ok(UrlView::Internal { path, fragment }) ==> {
            &&& (path matches Some(p) ==> p.len() > 0 && !p.contains('#'))
            &&& (fragment is Some <==> s.contains('#'))
        },
{
    lemma_first_stop(s, true);
    let h = first_stop(s, true);
    if h < s.len() {
        assert(s[h] == '#');
    }
    match classified(s) {
        Ok(UrlView::Internal { path: Some(p), .. }) => {
            assert(p == s.take(h));
            assert forall|i: int| 0 <= i < p.len() implies p[i] != '#' by {
                assert(p[i] == s[i]);
            }
        },
        _ => {},
    }
}

} // verus!
