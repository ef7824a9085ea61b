use wechat_markdown::document::document_from_html;
use wechat_markdown::document::{compose_document, prepare_document, FALLBACK_CSS};
use wechat_markdown::document::ConvertError;
use wechat_markdown::{convert_markdown, get_fallback_css};

#[test]
fn converts_heading_and_link_to_footnote() {
    let out = convert_markdown("# Title\n\n[link](http://x)".to_string(), String::new()).unwrap();
    assert!(out.contains("Title"));
    assert!(out.contains("<h1"));
    assert!(out.contains(">1</span>"));
    assert!(out.contains("http://x</span></li>"));
    assert!(!out.contains("<style>"));
}

#[test]
fn prepared_document_renders_markdown() {
    let doc = prepare_document("# Title\n\n[link](http://x)", "h1 { color: red; }");
    assert!(doc.contains("<h1>Title</h1>"));
    assert!(doc.contains("link <span class=\"footnote-ref\">1</span>"));
    assert!(doc.contains("<li><span class=\"footnote-url\">http://x</span></li>"));
    let fallback_at = doc.find(".wechat-content {").unwrap();
    let custom_at = doc.find("h1 { color: red; }").unwrap();
    assert!(fallback_at < custom_at);
    assert!(!doc.contains("mermaid.min.js"));
}

#[test]
fn prepared_document_loads_diagram_script_for_diagrams() {
    let doc = prepare_document("```mermaid\ngraph TD;\n```\n", "");
    assert!(doc.contains("<div class=\"mermaid\">graph TD;\n</div>"));
    assert!(doc.contains("mermaid.min.js"));
}

#[test]
fn composed_document_has_exact_shape() {
    let doc = compose_document("p{}", "<p>x</p>", false);
    let expected = format!(
        "<!DOCTYPE html>\n<html>\n<head>\n<meta charset=\"utf-8\">\n<style>\n{}\np{{}}\n</style>\n\n</head>\n<body>\n<div class=\"wechat-content\">\n<p>x</p>\n</div>\n</body>\n</html>",
        FALLBACK_CSS
    );
    assert_eq!(doc, expected);
    assert_eq!(get_fallback_css(), FALLBACK_CSS);
}

#[test]
fn custom_style_is_inlined_over_fallback() {
    let out = convert_markdown("plain text".to_string(), "p { color: red; }".to_string()).unwrap();
    assert!(out.contains("color: red"));
}

#[test]
fn document_from_fragment_rewrites_both() {
    let doc = document_from_html(
        "<pre><code class=\"language-mermaid\">A</code></pre><p><a href=\"http://x\">x</a></p>",
        "",
    );
    assert!(doc.contains("<div class=\"mermaid\">A</div><p>x <span class=\"footnote-ref\">1</span></p><div class=\"footnotes\">"));
    assert!(doc.contains("mermaid.min.js"));
}

#[test]
fn missing_linked_stylesheet_is_an_error() {
    let md = "<link rel=\"stylesheet\" href=\"no_such_dir_for_tests/missing.css\">\n\ntext".to_string();
    let r = convert_markdown(md, String::new());
    assert!(matches!(r, Err(ConvertError::Stylesheet(_))));
}

#[test]
fn unclosed_diagram_marker_loads_no_script() {
    let doc = document_from_html("<pre><code class=\"language-mermaid\">x", "");
    assert!(!doc.contains("mermaid.min.js"));
    assert!(doc.contains("<pre><code class=\"language-mermaid\">x"));
}
