use sitecheck::scan::{
    collect_fragments, collect_imgs, collect_links, fragments_of, html_text, imgs_of, join_texts, links_of,
    scan_document, Hit, ScanError,
};
use scraper::Html;
use sitecheck::url::{HrefUrl, ImgUrl, SiteUrl, UrlReason};

fn parse_document(text: &str) -> Html {
    Html::parse_document(text)
}

fn hit(element: &str, value: Option<&str>) -> Hit {
    Hit { element: element.to_string(), value: value.map(|v| v.to_string()) }
}

fn href(raw: &str) -> HrefUrl {
    HrefUrl::parse(raw).unwrap()
}

fn sorted(mut v: Vec<String>) -> Vec<String> {
    v.sort();
    v
}

#[test]
fn same_href_twice_is_one_link() {
    let doc = parse_document("<a href=\"b.html\">x</a><p><a href=\"b.html\">y</a></p>");
    let links = collect_links(&doc).unwrap();
    assert_eq!(links, vec![href("b.html")]);
}

#[test]
fn links_come_from_every_element_with_href() {
    let doc = parse_document(
        "<html><head><link href=\"style.css\"></head><body><a href=\"a.html\">a</a><a>no</a><a href=\"#top\">t</a><area href=\"m.html\"></body></html>",
    );
    let links = collect_links(&doc).unwrap();
    assert_eq!(links, vec![href("style.css"), href("a.html"), href("#top"), href("m.html")]);
}

#[test]
fn link_element_and_anchor_are_two_links() {
    let doc = parse_document("<link href=\"style.css\"><a href=\"b.html\">x</a>");
    let links = collect_links(&doc).unwrap();
    assert_eq!(links.len(), 2);
    assert!(links.contains(&href("style.css")));
    assert!(links.contains(&href("b.html")));
}

#[test]
fn src_values_are_no_links_and_href_values_no_images() {
    let doc = parse_document("<a href=\"a.html\">a</a><img src=\"i.png\">");
    assert_eq!(collect_links(&doc).unwrap(), vec![href("a.html")]);
    assert_eq!(collect_imgs(&doc).unwrap(), vec![ImgUrl::parse("i.png").unwrap()]);
}

#[test]
fn bad_href_on_any_tag_fails_the_scan() {
    let doc = parse_document("<html><head><link href=\"ht!tp://bad\"></head><body><a href=\"ok.html\">a</a></body></html>");
    match collect_links(&doc) {
        Err(ScanError::Url { element, cause }) => {
            assert_eq!(element, "<link href=\"ht!tp://bad\">");
            assert_eq!(cause.raw, "ht!tp://bad");
            assert_eq!(cause.reason, UrlReason::InvalidScheme);
        }
        other => panic!("unexpected: {:?}", other),
    }
    assert!(scan_document("<link href=\"\"><a href=\"ok.html\">a</a>").is_err());
}

#[test]
fn bad_src_on_any_tag_fails_the_scan() {
    let doc = parse_document("<img src=\"ok.png\"><iframe src=\":bad\"></iframe>");
    match collect_imgs(&doc) {
        Err(ScanError::Url { element, cause }) => {
            assert_eq!(element, "<iframe src=\":bad\"></iframe>");
            assert_eq!(cause.raw, ":bad");
            assert_eq!(cause.reason, UrlReason::InvalidScheme);
        }
        other => panic!("unexpected: {:?}", other),
    }
    assert!(scan_document("<body><script src=\"\"></script></body>").is_err());
}

#[test]
fn heading_id_becomes_hash_fragment() {
    let doc = parse_document("<h2 id=\"intro\">Intro</h2>");
    assert_eq!(collect_fragments(&doc).unwrap(), vec!["#intro".to_string()]);
}

#[test]
fn duplicate_ids_are_tolerated_and_kept_once() {
    let doc = parse_document("<p id=\"a\"></p><div id=\"b\"></div><span id=\"a\"></span>");
    assert_eq!(sorted(collect_fragments(&doc).unwrap()), vec!["#a".to_string(), "#b".to_string()]);
}

#[test]
fn images_come_from_every_element_with_src() {
    let doc = parse_document("<img src=\"a.png\"><img src=\"a.png\"><img alt=\"none\"><script src=\"x.js\"></script>");
    let imgs = collect_imgs(&doc).unwrap();
    assert_eq!(imgs, vec![ImgUrl::parse("a.png").unwrap(), ImgUrl::parse("x.js").unwrap()]);
}

#[test]
fn unclosed_tags_are_tolerated() {
    let s = scan_document("<div><p id=\"x\"><a href=\"a.html\">unclosed<img src=\"i.png\" bogus=\"1\">").unwrap();
    assert_eq!(s.links, vec![href("a.html")]);
    assert_eq!(s.imgs, vec![ImgUrl::parse("i.png").unwrap()]);
    assert_eq!(s.fragments, vec!["#x".to_string()]);
}

#[test]
fn bad_href_fails_the_scan_with_its_element() {
    let r = scan_document("<a href=\"ok.html\">a</a><a href=\"ht!tp://bad\">b</a><a href=\"\">c</a>");
    match r {
        Err(ScanError::Url { element, cause }) => {
            assert_eq!(element, "<a href=\"ht!tp://bad\">b</a>");
            assert_eq!(cause.raw, "ht!tp://bad");
            assert_eq!(cause.reason, UrlReason::InvalidScheme);
        }
        other => panic!("unexpected: {:?}", other.map(|s| s.links)),
    }
}

#[test]
fn bad_src_fails_the_scan() {
    let r = scan_document("<a href=\"ok.html\">a</a><img src=\"\">");
    match r {
        Err(ScanError::Url { element, cause }) => {
            assert_eq!(element, "<img src=\"\">");
            assert_eq!(cause.raw, "");
            assert_eq!(cause.reason, UrlReason::Empty);
        }
        other => panic!("unexpected: {:?}", other.map(|s| s.links)),
    }
}

#[test]
fn repeated_scans_agree() {
    let text = "<a href=\"a.html\"></a><a href=\"#x\"></a><img src=\"i.png\"><p id=\"x\"></p><a href=\"a.html\"></a>";
    let a = scan_document(text).unwrap();
    let b = scan_document(text).unwrap();
    assert_eq!(a.links, b.links);
    assert_eq!(a.imgs, b.imgs);
    assert_eq!(a.fragments, b.fragments);
    assert_eq!(a.links.len(), 2);
}

#[test]
fn links_of_keeps_first_occurrences() {
    let hits = vec![
        hit("<a>", Some("a.html")),
        hit("<a>", None),
        hit("<a>", Some("b.html#x")),
        hit("<a>", Some("a.html")),
        hit("<a>", Some("https://example.com")),
    ];
    assert_eq!(links_of(&hits), Ok(vec![href("a.html"), href("b.html#x"), href("https://example.com")]));
    assert_eq!(
        imgs_of(&hits).unwrap().into_iter().map(|i| i.url).collect::<Vec<SiteUrl>>(),
        vec![href("a.html").url, href("b.html#x").url, href("https://example.com").url]
    );
    assert_eq!(links_of(&Vec::new()), Ok(Vec::new()));
}

#[test]
fn links_of_reports_the_first_failing_hit() {
    let hits = vec![hit("<a 1>", Some("a.html")), hit("<a 2>", Some("")), hit("<a 3>", Some("b@d:x"))];
    match links_of(&hits) {
        Err(ScanError::Url { element, cause }) => {
            assert_eq!(element, "<a 2>");
            assert_eq!(cause.raw, "");
            assert_eq!(cause.reason, UrlReason::Empty);
        }
        other => panic!("unexpected: {:?}", other),
    }
    assert!(imgs_of(&hits).is_err());
}

#[test]
fn fragments_of_prefixes_and_dedups() {
    let hits = vec![hit("<p>", Some("a")), hit("<p>", None), hit("<p>", Some("")), hit("<p>", Some("a"))];
    assert_eq!(fragments_of(&hits), vec!["#a".to_string(), "#".to_string()]);
}

#[test]
fn html_text_drops_markup() {
    assert_eq!(html_text("<p>Hello <b>bold</b> world</p>"), "Hello bold world");
    assert_eq!(html_text("plain"), "plain");
    assert_eq!(html_text(""), "");
}

#[test]
fn join_texts_concatenates_in_order() {
    assert_eq!(join_texts(&vec!["a".to_string(), "".to_string(), "bc".to_string()]), "abc");
    assert_eq!(join_texts(&Vec::new()), "");
}
