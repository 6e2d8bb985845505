//! URL detection.

use purrtty::urls::find_urls;

#[test]
fn finds_simple_https_url() {
    let urls = find_urls("Go to https://example.com for info");
    assert_eq!(urls.len(), 1);
    assert_eq!(&"Go to https://example.com for info"[urls[0].clone()], "https://example.com");
}

#[test]
fn finds_multiple_urls_on_one_line() {
    let t = "https://a.com and http://b.org";
    let urls = find_urls(t);
    assert_eq!(urls.len(), 2);
    assert_eq!(&t[urls[0].clone()], "https://a.com");
    assert_eq!(&t[urls[1].clone()], "http://b.org");
}

#[test]
fn strips_trailing_period() {
    let t = "See https://example.com.";
    let urls = find_urls(t);
    assert_eq!(urls.len(), 1);
    assert_eq!(&t[urls[0].clone()], "https://example.com");
}

#[test]
fn strips_trailing_paren() {
    let t = "(link: https://example.com)";
    let urls = find_urls(t);
    assert_eq!(urls.len(), 1);
    assert_eq!(&t[urls[0].clone()], "https://example.com");
}

#[test]
fn keeps_balanced_internal_parens() {
    let t = "https://en.wikipedia.org/wiki/Rust_(programming_language)";
    let urls = find_urls(t);
    assert_eq!(urls.len(), 1);
    assert_eq!(&t[urls[0].clone()], t);
}

#[test]
fn handles_query_strings() {
    let t = "visit https://example.com/path?a=1&b=2#frag now";
    let urls = find_urls(t);
    assert_eq!(urls.len(), 1);
    assert_eq!(&t[urls[0].clone()], "https://example.com/path?a=1&b=2#frag");
}

#[test]
fn rejects_bare_scheme() {
    // `https://` by itself has nothing after the scheme — not a URL.
    let urls = find_urls("prefix https:// suffix");
    assert!(urls.is_empty());
}

#[test]
fn no_urls_in_plain_text() {
    let urls = find_urls("hello world, no urls here");
    assert!(urls.is_empty());
}

#[test]
fn file_url_detected() {
    let t = "open file:///etc/hosts please";
    let urls = find_urls(t);
    assert_eq!(urls.len(), 1);
    assert_eq!(&t[urls[0].clone()], "file:///etc/hosts");
}

#[test]
fn urls_end_at_any_white_space() {
    for space in ['\u{85}', '\u{a0}', '\u{1680}', '\u{2003}', '\u{2029}', '\u{202f}', '\u{205f}', '\u{3000}'] {
        let t = format!("https://a.com{space}b");
        assert_eq!(find_urls(&t), vec![0..13]);
    }
    // Other characters beyond ASCII belong to the URL.
    let t = "https://a.com/한\u{200b}x y";
    assert_eq!(&t[find_urls(t)[0].clone()], "https://a.com/한\u{200b}x");
}
