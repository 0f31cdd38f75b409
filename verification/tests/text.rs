use sitecheck::text::{slugify, strip_edges, strip_end, strip_start, to_id, trim, try_slugify, try_to_id, Edge};

#[test]
fn test_to_id() {
    assert_eq!(to_id("One Two"), "one-two");
    assert_eq!(to_id("1-2_3?4#5(6) 7!8&9"), "1-2_3456-789");
    assert_eq!(to_id("Mods & Symbols"), "mods-symbols");
    assert_eq!(to_id("()one---two???"), "one-two");
    assert_eq!(to_id("-trimmed--"), "trimmed");
    assert_eq!(to_id("_trimmed__"), "trimmed");
}

#[test]
fn test_slugify() {
    assert_eq!(slugify("One Two"), "one_two");
    assert_eq!(slugify("1-2_3?4#5(6) 7!8&9"), "1-2_3456_789");
    assert_eq!(slugify("Mods & Symbols"), "mods_symbols");
    assert_eq!(slugify("()one___two???"), "one_two");
    assert_eq!(slugify("-trimmed--"), "trimmed");
    assert_eq!(slugify("_trimmed__"), "trimmed");
}

#[test]
fn try_variants_agree_with_plain_ones() {
    assert_eq!(try_to_id("Mods & Symbols"), Some("mods-symbols".to_string()));
    assert_eq!(try_slugify("Mods & Symbols"), Some("mods_symbols".to_string()));
    assert_eq!(try_to_id(""), Some(String::new()));
}

#[test]
fn letters_are_lowercased() {
    assert_eq!(to_id("ABC"), "abc");
    assert_eq!(slugify("Hello World"), "hello_world");
}

#[test]
fn letters_outside_ascii_count_as_symbols() {
    assert_eq!(to_id("\u{c4}rger \u{dc}ber"), "rger-ber");
    assert_eq!(slugify("na\u{ef}ve_caf\u{e9}"), "nave_caf");
}

#[test]
fn runs_collapse_to_one_joiner() {
    assert_eq!(to_id("a \t b---c"), "a-b-c");
    assert_eq!(to_id("a - b"), "a---b");
    assert_eq!(slugify("a  b___c"), "a_b_c");
    assert_eq!(slugify("a-b"), "a-b");
    assert_eq!(to_id("a_b"), "a_b");
    assert_eq!(to_id(""), "");
    assert_eq!(slugify("  ??  "), "");
}

#[test]
fn trim_removes_whitespace_at_both_ends_only() {
    assert_eq!(trim("  a b \t\n"), "a b");
    assert_eq!(trim(""), "");
    assert_eq!(trim("   "), "");
    assert_eq!(trim("\u{a0}x\u{2003}"), "x");
    assert_eq!(trim("x"), "x");
}

#[test]
fn trim_knows_every_white_space_character() {
    let spaces = [
        '\u{9}', '\u{a}', '\u{b}', '\u{c}', '\u{d}', ' ', '\u{85}', '\u{a0}', '\u{1680}', '\u{2000}',
        '\u{2001}', '\u{2002}', '\u{2003}', '\u{2004}', '\u{2005}', '\u{2006}', '\u{2007}', '\u{2008}',
        '\u{2009}', '\u{200a}', '\u{2028}', '\u{2029}', '\u{202f}', '\u{205f}', '\u{3000}',
    ];
    for c in spaces {
        assert_eq!(trim(&format!("{}x{}", c, c)), "x");
    }
    for c in ['\u{8}', '\u{e}', '\u{1f}', '\u{180e}', '\u{200b}', '\u{2060}', '\u{feff}', '_'] {
        let s = format!("{}x{}", c, c);
        assert_eq!(trim(&s), s);
    }
}

#[test]
fn strip_start_and_end_take_whole_runs() {
    assert_eq!(strip_start("__a_", Edge::Is('_')), "a_");
    assert_eq!(strip_end("_a__", Edge::Is('_')), "_a");
    assert_eq!(strip_start("___", Edge::Is('_')), "");
    assert_eq!(strip_end("___", Edge::Is('_')), "");
    assert_eq!(strip_start("a", Edge::Is('_')), "a");
}

#[test]
fn strip_edges_goes_underscore_then_dash() {
    assert_eq!(strip_edges("_-a-_"), "a");
    // Leading dashes go after leading underscores, once: the underscore
    // behind the dash stays.
    assert_eq!(strip_edges("-_a"), "_a");
    // Trailing underscores go before trailing dashes, once.
    assert_eq!(strip_edges("a-_-"), "a-_");
    assert_eq!(strip_edges("a_-"), "a_");
    assert_eq!(strip_edges("--__"), "");
}
