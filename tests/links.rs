use sitegen::links::{escape_html_attr, escape_html_text, is_safe_url, render_text_with_links};

#[test]
fn render_text_with_links_parses_markdown_link() {
    let html = render_text_with_links("See [Docs](https://example.com).");
    assert!(html.contains("See "));
    assert!(html.contains("<a href=\"https://example.com\">Docs</a>"));
    assert!(html.contains("."));
}

#[test]
fn render_text_with_links_rejects_javascript_url() {
    let html = render_text_with_links("See [Docs](javascript:alert(1)).");
    assert!(html.contains("[Docs](javascript:alert(1))"));
    assert!(!html.contains("<a href="));
}

#[test]
fn render_text_with_links_preserves_plain_text() {
    let html = render_text_with_links("No links here.");
    assert!(html.contains("No links here."));
    assert!(!html.contains("<a href="));
}

#[test]
fn link_with_trailing_period_outside_anchor() {
    assert_eq!(
        render_text_with_links("See [Docs](https://example.com)."),
        "See <a href=\"https://example.com\">Docs</a>."
    );
}

#[test]
fn javascript_link_is_literal() {
    assert_eq!(
        render_text_with_links("[Docs](javascript:alert(1))"),
        "[Docs](javascript:alert(1))"
    );
    assert_eq!(
        render_text_with_links("[x](JavaScript:alert(1))"),
        "[x](JavaScript:alert(1))"
    );
}

#[test]
fn unmatched_bracket_is_literal() {
    assert_eq!(render_text_with_links("[oops"), "[oops");
    assert_eq!(render_text_with_links("a [b] c"), "a [b] c");
    assert_eq!(render_text_with_links("[a](http://x"), "[a](http://x");
}

#[test]
fn empty_link_text_is_literal() {
    assert_eq!(render_text_with_links("[](http://x)"), "[](http://x)");
    assert_eq!(render_text_with_links("[  ](http://x)"), "[  ](http://x)");
}

#[test]
fn bracket_without_paren_allows_later_link() {
    assert_eq!(
        render_text_with_links("[a] [b](/p)"),
        "[a] <a href=\"/p\">b</a>"
    );
}

#[test]
fn text_and_url_are_escaped() {
    assert_eq!(
        render_text_with_links("<b> & [x<y]( /a?b=1&c='d' )"),
        "&lt;b&gt; &amp; <a href=\"/a?b=1&amp;c=&#x27;d&#x27;\">x&lt;y</a>"
    );
    assert_eq!(render_text_with_links(""), "");
}

#[test]
fn url_safety_is_an_allowlist() {
    assert!(is_safe_url("https://example.com"));
    assert!(is_safe_url("HTTP://EXAMPLE.COM"));
    assert!(is_safe_url("mailto:a@example.com"));
    assert!(is_safe_url("/abs"));
    assert!(is_safe_url("./rel"));
    assert!(is_safe_url("../up"));
    assert!(is_safe_url("#frag"));
    assert!(is_safe_url("page.html"));
    assert!(!is_safe_url(""));
    assert!(!is_safe_url("javascript:alert(1)"));
    assert!(!is_safe_url("DATA:text/html,x"));
    assert!(!is_safe_url("ftp://example.com"));
    assert!(!is_safe_url("tel:123"));
}

#[test]
fn escaping_text_and_attributes() {
    let mut out = String::from(">");
    escape_html_text("a&b<c>\"'", &mut out);
    assert_eq!(out, ">a&amp;b&lt;c&gt;\"'");
    let mut out = String::new();
    escape_html_attr("a&b<c>\"'", &mut out);
    assert_eq!(out, "a&amp;b&lt;c&gt;&quot;&#x27;");
}
