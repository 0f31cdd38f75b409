use sitecheck::url::{classify, find_stop, has_scheme, HrefUrl, ImgUrl, MalformedUrl, SiteUrl, UrlReason};
use std::collections::hash_map::DefaultHasher;
use std::collections::HashSet;
use std::hash::{Hash, Hasher};

fn internal(path: Option<&str>, fragment: Option<&str>) -> SiteUrl {
    SiteUrl::Internal { path: path.map(|s| s.to_string()), fragment: fragment.map(|s| s.to_string()) }
}

fn hash_of<T: Hash>(t: &T) -> u64 {
    let mut h = DefaultHasher::new();
    t.hash(&mut h);
    h.finish()
}

#[test]
fn relative_and_rooted_paths_are_internal() {
    assert_eq!(classify("./page.html"), Ok(internal(Some("./page.html"), None)));
    assert_eq!(classify("../x/y.html"), Ok(internal(Some("../x/y.html"), None)));
    assert_eq!(classify("/page.html"), Ok(internal(Some("/page.html"), None)));
    assert_eq!(classify("b.html#missing"), Ok(internal(Some("b.html"), Some("missing"))));
}

#[test]
fn fragment_only_reference_has_no_path() {
    assert_eq!(classify("#section"), Ok(internal(None, Some("section"))));
    assert_eq!(classify("#"), Ok(internal(None, Some(""))));
    assert_eq!(classify("a#b#c"), Ok(internal(Some("a"), Some("b#c"))));
}

#[test]
fn urls_with_a_scheme_are_external() {
    assert_eq!(classify("https://example.com/x"), Ok(SiteUrl::External("https://example.com/x".to_string())));
    assert_eq!(classify("mailto:someone@example.com"), Ok(SiteUrl::External("mailto:someone@example.com".to_string())));
    assert_eq!(classify("//cdn.example.com/a.js"), Ok(SiteUrl::External("//cdn.example.com/a.js".to_string())));
    assert!(classify("https://example.com/x#top").unwrap().is_external());
}

#[test]
fn colon_after_a_slash_is_part_of_the_path() {
    assert_eq!(classify("dir/a:b.html"), Ok(internal(Some("dir/a:b.html"), None)));
    assert_eq!(classify("page.html?x=a:b"), Ok(internal(Some("page.html?x=a:b"), None)));
}

#[test]
fn empty_value_is_malformed() {
    assert_eq!(classify(""), Err(MalformedUrl { raw: String::new(), reason: UrlReason::Empty }));
}

#[test]
fn bad_scheme_is_malformed() {
    assert_eq!(
        classify("ht!tp://bad"),
        Err(MalformedUrl { raw: "ht!tp://bad".to_string(), reason: UrlReason::InvalidScheme })
    );
    assert_eq!(classify(":x"), Err(MalformedUrl { raw: ":x".to_string(), reason: UrlReason::InvalidScheme }));
    assert_eq!(classify("1a:x"), Err(MalformedUrl { raw: "1a:x".to_string(), reason: UrlReason::InvalidScheme }));
}

#[test]
fn classifying_twice_gives_equal_values_with_equal_hashes() {
    for raw in ["a.html#x", "#x", "https://example.com", "/a/b"] {
        let a = HrefUrl::parse(raw).unwrap();
        let b = HrefUrl::parse(raw).unwrap();
        assert_eq!(a, b);
        assert!(a.same(&b));
        assert_eq!(hash_of(&a), hash_of(&b));
        let c = ImgUrl::parse(raw).unwrap();
        let d = ImgUrl::parse(raw).unwrap();
        assert_eq!(c, d);
        assert!(c.same(&d));
        assert_eq!(hash_of(&c), hash_of(&d));
        let mut set = HashSet::new();
        set.insert(a);
        set.insert(b);
        assert_eq!(set.len(), 1);
    }
}

#[test]
fn duplicate_is_the_same_url() {
    for raw in ["a.html#x", "#x", "https://example.com", "/a/b", "a.html"] {
        let a = classify(raw).unwrap();
        assert_eq!(a.duplicate(), a);
    }
}

#[test]
fn paths_are_kept_as_written() {
    assert!(!classify("./b.html").unwrap().same(&classify("b.html").unwrap()));
    assert!(!classify("b.html/").unwrap().same(&classify("b.html").unwrap()));
}

#[test]
fn same_tells_urls_apart() {
    let a = classify("a.html").unwrap();
    assert!(!a.same(&classify("b.html").unwrap()));
    assert!(!a.same(&classify("a.html#x").unwrap()));
    assert!(!a.same(&classify("http:a.html").unwrap()));
    assert!(!classify("#x").unwrap().same(&classify("#y").unwrap()));
    assert!(classify("#x").unwrap().same(&classify("#x").unwrap()));
}

#[test]
fn accessors_read_the_parts() {
    let u = classify("b.html#missing").unwrap();
    assert!(!u.is_external());
    assert_eq!(u.path(), Some(&"b.html".to_string()));
    assert_eq!(u.fragment(), Some(&"missing".to_string()));
    let e = classify("https://example.com/x#y").unwrap();
    assert_eq!(e.path(), None);
    assert_eq!(e.fragment(), None);
    assert_eq!(classify("#x").unwrap().path(), None);
}

#[test]
fn find_stop_gives_the_first_stop_or_the_length() {
    assert_eq!(find_stop("ab:c", false), 2);
    assert_eq!(find_stop("ab:c#d", true), 4);
    assert_eq!(find_stop("abc", false), 3);
    assert_eq!(find_stop("", true), 0);
    assert_eq!(find_stop("é/x", false), 1);
}

#[test]
fn has_scheme_wants_a_letter_first() {
    assert!(has_scheme("https://x", 5));
    assert!(has_scheme("a+b-c.d:", 7));
    assert!(!has_scheme("1http:", 5));
    assert!(!has_scheme("ht!tp:", 5));
    assert!(!has_scheme(":", 0));
}
