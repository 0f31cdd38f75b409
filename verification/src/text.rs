//! Text normalisation: identifiers and slugs derived from free-form titles.

use vstd::prelude::*;
use vstd::string::*;

verus! {

/// A compiled pattern of the `regex` crate.
#[verifier::external_type_specification]
#[verifier::external_body]
pub struct ExRegex(regex::Regex);

/// What `regex::Regex::new` makes of a pattern: `None` when the pattern does
/// not compile.
pub uninterp spec fn regex_compiled(pattern: Seq<char>) -> Option<regex::Regex>;

/// What `regex::Regex::replace_all` yields: the text with every match of the
/// pattern replaced.
pub uninterp spec fn regex_replaced(re: regex::Regex, text: Seq<char>, rep: Seq<char>) -> Seq<char>;

/// What `str::to_lowercase` yields for a text.
pub uninterp spec fn lowercased(text: Seq<char>) -> Seq<char>;

/// Whether a character has the Unicode property White_Space.
pub open spec fn is_whitespace(c: char) -> bool {
    ||| ('\u{9}' <= c && c <= '\u{d}')
    ||| c == ' '
    ||| c == '\u{85}'
    ||| c == '\u{a0}'
    ||| c == '\u{1680}'
    ||| ('\u{2000}' <= c && c <= '\u{200a}')
    ||| c == '\u{2028}'
    ||| c == '\u{2029}'
    ||| c == '\u{202f}'
    ||| c == '\u{205f}'
    ||| c == '\u{3000}'
}

/// Calls `regex::Regex::new`. The result is named by [`regex_compiled`];
/// `None` stands for a pattern that the regex engine refused. Nothing is
/// claimed about which patterns compile.
#[verifier::external_body]
fn compile(pattern: &str) -> (r: Option<regex::Regex>)
    ensures
        r == regex_compiled(pattern@),
{
    match regex::Regex::new(pattern) {
        Ok(re) => Some(re),
        Err(_) => None,
    }
}

/// Calls `regex::Regex::replace_all`. The result is named by
/// [`regex_replaced`]; nothing else is claimed about the rewritten text.
#[verifier::external_body]
fn replace_all(re: &regex::Regex, text: &str, rep: &str) -> (r: String)
    ensures
        r@ == regex_replaced(*re, text@, rep@),
{
    re.replace_all(text, rep).into_owned()
}

/// Calls `char::is_whitespace`, which tells whether the character has the
/// Unicode property White_Space; [`is_whitespace`] lists the characters that
/// have it.
#[verifier::external_body]
fn char_is_whitespace(c: char) -> (r: bool)
    ensures
        r == is_whitespace(c),
{
    c.is_whitespace()
}

/// Calls `str::to_lowercase`; the result is named by [`lowercased`].
#[verifier::external_body]
fn to_lowercase(text: &str) -> (r: String)
    ensures
        r@ == lowercased(text@),
{
    text.to_lowercase()
}

/// Which characters are stripped from the edge of a text.
#[derive(Clone, Copy, Debug)]
pub enum Edge {
    /// Unicode whitespace.
    Space,
    /// One given character.
    Is(char),
}

/// Whether `c` belongs to the characters that `e` strips.
pub open spec fn edge_matches(e: Edge, c: char) -> bool {
    match e {
        Edge::Space => is_whitespace(c),
        Edge::Is(x) => c == x,
    }
}

/// `s` without its longest prefix of characters matched by `e`.
pub open spec fn skip_leading(s: Seq<char>, e: Edge) -> Seq<char>
    decreases s.len(),
{
    if s.len() > 0 && edge_matches(e, s[0]) {
        skip_leading(s.skip(1), e)
    } else {
        s
    }
}

/// `s` without its longest suffix of characters matched by `e`.
pub open spec fn skip_trailing(s: Seq<char>, e: Edge) -> Seq<char>
    decreases s.len(),
{
    if s.len() > 0 && edge_matches(e, s.last()) {
        skip_trailing(s.drop_last(), e)
    } else {
        s
    }
}

/// Whitespace removed from both ends.
pub open spec fn trimmed(s: Seq<char>) -> Seq<char> {
    skip_trailing(skip_leading(s, Edge::Space), Edge::Space)
}

/// Leading underscores, then leading dashes, then trailing underscores, then
/// trailing dashes removed, in that order and once each.
pub open spec fn edges_stripped(s: Seq<char>) -> Seq<char> {
    skip_trailing(
        skip_trailing(skip_leading(skip_leading(s, Edge::Is('_')), Edge::Is('-')), Edge::Is('_')),
        Edge::Is('-'),
    )
}

/// The pattern of every run of characters that is neither whitespace, an ASCII
/// letter or digit, an underscore nor a dash.
pub open spec fn symbol_pattern() -> Seq<char> {
    "[^\\sa-zA-Z0-9_-]+"@
}

/// The pattern of a run of whitespace or a run of dashes.
pub open spec fn dash_pattern() -> Seq<char> {
    "\\s+|-+"@
}

/// The pattern of a run of whitespace or a run of underscores.
pub open spec fn underscore_pattern() -> Seq<char> {
    "\\s+|_+"@
}

/// Whether the regex engine accepts the symbol pattern and `run_pattern`.
pub open spec fn patterns_compile(run_pattern: Seq<char>) -> bool {
    regex_compiled(symbol_pattern()) is Some && regex_compiled(run_pattern) is Some
}

/// The normalised form of `s`: trimmed, symbols deleted, every run matched by
/// `run_pattern` replaced by `joiner`, edges stripped, lowercased. `None` when
/// the regex engine refuses one of the two patterns.
pub open spec fn normalized(s: Seq<char>, run_pattern: Seq<char>, joiner: Seq<char>) -> Option<
    Seq<char>,
> {
    match (regex_compiled(symbol_pattern()), regex_compiled(run_pattern)) {
        (Some(symbols), Some(runs)) => {
            let clean = regex_replaced(symbols, trimmed(s), Seq::empty());
            let joined = regex_replaced(runs, clean, joiner);
            Some(lowercased(edges_stripped(joined)))
        },
        _ => None,
    }
}

/// The identifier derived from `s`, with dashes between words.
pub open spec fn id_of(s: Seq<char>) -> Option<Seq<char>> {
    normalized(s, dash_pattern(), "-"@)
}

/// The slug derived from `s`, with underscores between words.
pub open spec fn slug_of(s: Seq<char>) -> Option<Seq<char>> {
    normalized(s, underscore_pattern(), "_"@)
}

fn matches_edge(e: Edge, c: char) -> (r: bool)
    ensures
        r == edge_matches(e, c),
{
    match e {
        Edge::Space => char_is_whitespace(c),
        Edge::Is(x) => c == x,
    }
}

/// Removes the longest prefix of characters matched by `e`.
pub fn strip_start<'a>(s: &'a str, e: Edge) -> (r: &'a str)
    ensures
        r@ == skip_leading(s@, e),
{
    let n: usize = s.unicode_len();
    let mut i: usize = 0;
    let mut done: bool = false;
    proof {
        assert(s@.skip(0) =~= s@);
    }
    while i < n && !done
        invariant
            i <= n,
            n == s@.len(),
            skip_leading(s@, e) == skip_leading(s@.skip(i as int), e),
            done ==> i < n && !edge_matches(e, s@[i as int]),
        decreases n - i + (if done { 0int } else { 1int }),
    {
        let c = s.get_char(i);
        if matches_edge(e, c) {
            proof {
                assert(s@.skip(i as int).skip(1) =~= s@.skip(i as int + 1));
            }
            i += 1;
        } else {
            done = true;
        }
    }
    proof {
        assert(s@.subrange(i as int, n as int) =~= s@.skip(i as int));
    }
    s.substring_char(i, n)
}

/// Removes the longest suffix of characters matched by `e`.
pub fn strip_end<'a>(s: &'a str, e: Edge) -> (r: &'a str)
    ensures
        r@ == skip_trailing(s@, e),
{
    let n: usize = s.unicode_len();
    let mut j: usize = n;
    let mut done: bool = false;
    proof {
        assert(s@.take(n as int) =~= s@);
    }
    while j > 0 && !done
        invariant
            j <= n,
            n == s@.len(),
            skip_trailing(s@, e) == skip_trailing(s@.take(j as int), e),
            done ==> j > 0 && !edge_matches(e, s@[j as int - 1]),
        decreases j + (if done { 0int } else { 1int }),
    {
        let c = s.get_char(j - 1);
        if matches_edge(e, c) {
            proof {
                assert(s@.take(j as int).drop_last() =~= s@.take(j as int - 1));
            }
            j -= 1;
        } else {
            done = true;
        }
    }
    proof {
        assert(s@.subrange(0, j as int) =~= s@.take(j as int));
    }
    s.substring_char(0, j)
}

/// Removes whitespace from both ends of `s`.
pub fn trim(s: &str) -> (r: &str)
    ensures
        r@ == trimmed(s@),
{
    strip_end(strip_start(s, Edge::Space), Edge::Space)
}

/// Strips underscores and dashes from the edges of `s`: leading underscores,
/// then leading dashes, then trailing underscores, then trailing dashes.
pub fn strip_edges(s: &str) -> (r: &str)
    ensures
        r@ == edges_stripped(s@),
{
    let a = strip_start(s, Edge::Is('_'));
    let b = strip_start(a, Edge::Is('-'));
    let c = strip_end(b, Edge::Is('_'));
    strip_end(c, Edge::Is('-'))
}

/// Normalises `s` with the given run pattern and joiner, or reports that the
/// regex engine refused a pattern.
fn normalize(s: &str, run_pattern: &str, joiner: &str) -> (r: Option<String>)
    ensures
        r.is_some() == patterns_compile(run_pattern@),
        r.is_some() == normalized(s@, run_pattern@, joiner@).is_some(),
        r matches Some(v) ==> normalized(s@, run_pattern@, joiner@) == Some(v@),
{
    proof {
        reveal_strlit("");
        assert(""@ =~= Seq::<char>::empty());
    }
    let symbols = match compile("[^\\sa-zA-Z0-9_-]+") {
        Some(re) => re,
        None => {
            return None;
        },
    };
    let runs = match compile(run_pattern) {
        Some(re) => re,
        None => {
            return None;
        },
    };
    let clean = replace_all(&symbols, trim(s), "");
    let joined = replace_all(&runs, clean.as_str(), joiner);
    Some(to_lowercase(strip_edges(joined.as_str())))
}

/// Whether the regex engine accepts the symbol pattern and `run_pattern`.
fn patterns_ready(run_pattern: &str) -> (r: bool)
    ensures
        r == patterns_compile(run_pattern@),
{
    compile("[^\\sa-zA-Z0-9_-]+").is_some() && compile(run_pattern).is_some()
}

/// The identifier of `s`, or `None` when the regex engine refuses a pattern.
pub fn try_to_id(s: &str) -> (r: Option<String>)
    ensures
        r.is_some() == patterns_compile(dash_pattern()),
        r matches Some(v) ==> id_of(s@) == Some(v@),
{
    if patterns_ready("\\s+|-+") {
        Some(to_id(s))
    } else {
        None
    }
}

/// The slug of `s`, or `None` when the regex engine refuses a pattern.
pub fn try_slugify(s: &str) -> (r: Option<String>)
    ensures
        r.is_some() == patterns_compile(underscore_pattern()),
        r matches Some(v) ==> slug_of(s@) == Some(v@),
{
    if patterns_ready("\\s+|_+") {
        Some(slugify(s))
    } else {
        None
    }
}

/// Turns a title into an identifier: trimmed, symbols dropped, whitespace and
/// dash runs collapsed to one dash, edges stripped, lowercased.
pub fn to_id(s: &str) -> (r: String)
    requires
        patterns_compile(dash_pattern()),
    ensures
        id_of(s@) == Some(r@),
{
    match normalize(s, "\\s+|-+", "-") {
        Some(v) => v,
        None => String::new(),
    }
}

/// Turns a title into a slug: trimmed, symbols dropped, whitespace and
/// underscore runs collapsed to one underscore, edges stripped, lowercased.
pub fn slugify(s: &str) -> (r: String)
    requires
        patterns_compile(underscore_pattern()),
    ensures
        slug_of(s@) == Some(r@),
{
    match normalize(s, "\\s+|_+", "_") {
        Some(v) => v,
        None => String::new(),
    }
}

} // verus!
