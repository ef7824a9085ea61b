use wechat_markdown::diagram::replace_mermaid_blocks;
use wechat_markdown::footnote::convert_links_to_footnotes;

#[test]
fn footnotes_number_repeated_urls_separately() {
    let html = "<p><a href=\"http://a\">A</a> <a href=\"http://b\">B</a> <a href=\"http://a\">C</a></p>";
    let out = convert_links_to_footnotes(html);
    assert_eq!(
        out,
        "<p>A <span class=\"footnote-ref\">1</span> B <span class=\"footnote-ref\">2</span> C <span class=\"footnote-ref\">3</span></p>\
<div class=\"footnotes\">\n<ol>\n\
<li><span class=\"footnote-url\">http://a</span></li>\n\
<li><span class=\"footnote-url\">http://b</span></li>\n\
<li><span class=\"footnote-url\">http://a</span></li>\n\
</ol>\n</div>"
    );
}

#[test]
fn footnotes_leave_text_without_links_unchanged() {
    let html = "<p>no links here</p>";
    assert_eq!(convert_links_to_footnotes(html), html);
    assert_eq!(convert_links_to_footnotes(""), "");
}

#[test]
fn footnotes_tolerate_anchor_without_tag_end() {
    let html = "<p>before <a href=\"http://x\" never closed";
    assert_eq!(convert_links_to_footnotes(html), html);
}

#[test]
fn footnotes_tolerate_anchor_without_closing_tag() {
    let html = "<p><a href=\"http://x\">dangling</p>";
    assert_eq!(convert_links_to_footnotes(html), html);
}

#[test]
fn footnotes_handle_attributes_after_href() {
    let html = "<a href=\"http://x\" title=\"t\">X</a>";
    let out = convert_links_to_footnotes(html);
    assert!(out.starts_with("X <span class=\"footnote-ref\">1</span><div class=\"footnotes\">"));
    assert!(out.contains("<li><span class=\"footnote-url\">http://x</span></li>"));
}

#[test]
fn footnotes_keep_anchor_without_quoted_href() {
    let html = "<a href=x>X</a> and <a href=\"http://y\">Y</a>";
    let out = convert_links_to_footnotes(html);
    assert_eq!(
        out,
        "<a href=x>X</a> and Y <span class=\"footnote-ref\">1</span><div class=\"footnotes\">\n<ol>\n<li><span class=\"footnote-url\">http://y</span></li>\n</ol>\n</div>"
    );
}

#[test]
fn footnotes_count_past_nine() {
    let mut html = String::new();
    for i in 0..12 {
        html.push_str(&format!("<a href=\"u{}\">t</a>", i));
    }
    let out = convert_links_to_footnotes(&html);
    assert!(out.contains("t <span class=\"footnote-ref\">12</span>"));
    assert!(out.contains("<li><span class=\"footnote-url\">u11</span></li>\n</ol>"));
}

#[test]
fn diagram_block_becomes_container() {
    let html = "<pre><code class=\"language-mermaid\">graph TD; A--&gt;B</code></pre>";
    let (out, has) = replace_mermaid_blocks(html);
    assert_eq!(out, "<div class=\"mermaid\">graph TD; A--&gt;B</div>");
    assert!(has);
}

#[test]
fn diagram_absent_leaves_html_unchanged() {
    let html = "<pre><code class=\"language-rust\">fn main() {}</code></pre>";
    let (out, has) = replace_mermaid_blocks(html);
    assert_eq!(out, html);
    assert!(!has);
}

#[test]
fn diagram_blocks_among_text() {
    let html = "<p>a</p><pre><code class=\"language-mermaid\">X</code></pre><p>b</p><pre><code class=\"language-mermaid\">Y</code></pre>";
    let (out, has) = replace_mermaid_blocks(html);
    assert_eq!(out, "<p>a</p><div class=\"mermaid\">X</div><p>b</p><div class=\"mermaid\">Y</div>");
    assert!(has);
}

#[test]
fn diagram_without_closing_marker_is_kept() {
    let html = "<p>a</p><pre><code class=\"language-mermaid\">unterminated";
    let (out, has) = replace_mermaid_blocks(html);
    assert_eq!(out, html);
    assert!(!has);
}

#[test]
fn footnotes_handle_attributes_before_href() {
    let html = r#"<a class="ext" href="http://u">T</a>"#;
    let out = convert_links_to_footnotes(html);
    let expected = r#"T <span class="footnote-ref">1</span><div class="footnotes">"#.to_string()
        + "\n<ol>\n"
        + r#"<li><span class="footnote-url">http://u</span></li>"#
        + "\n</ol>\n</div>";
    assert_eq!(out, expected);
}

#[test]
fn footnotes_keep_anchor_without_href() {
    let html = "<p><a name=\"top\">anchor</a></p>";
    assert_eq!(convert_links_to_footnotes(html), html);
}

fn footer(urls: &[&str]) -> String {
    let mut s = "<div class=\"footnotes\">\n<ol>\n".to_string();
    for u in urls {
        s.push_str(&format!("<li><span class=\"footnote-url\">{}</span></li>\n", u));
    }
    s.push_str("</ol>\n</div>");
    s
}

#[test]
fn stray_opening_before_link_is_kept_and_link_rewritten() {
    let out = convert_links_to_footnotes("<a ><a href=\"u\">t</a>");
    assert_eq!(out, format!("<a >t <span class=\"footnote-ref\">1</span>{}", footer(&["u"])));
}

#[test]
fn unterminated_tail_after_links_is_kept() {
    let out = convert_links_to_footnotes("<a ><a href=\"u\">t</a> and <a href=\"z\"");
    assert_eq!(out, format!("<a >t <span class=\"footnote-ref\">1</span> and <a href=\"z\"{}", footer(&["u"])));
    let out = convert_links_to_footnotes("<a href=\"u\">t</a><a href=\"v\">w");
    assert_eq!(out, format!("t <span class=\"footnote-ref\">1</span><a href=\"v\">w{}", footer(&["u"])));
}

#[test]
fn opening_without_end_restarts_at_next_anchor() {
    let out = convert_links_to_footnotes("<a id=\"x\" <a href=\"u\">t</a>");
    assert_eq!(out, format!("<a id=\"x\" t <span class=\"footnote-ref\">1</span>{}", footer(&["u"])));
}

#[test]
fn href_counts_only_as_attribute_name() {
    let out = convert_links_to_footnotes("<a data-href=\"x\" href=\"y\">t</a>");
    assert_eq!(out, format!("t <span class=\"footnote-ref\">1</span>{}", footer(&["y"])));
}

#[test]
fn text_between_links_is_kept() {
    let out = convert_links_to_footnotes("a<a href=\"1\">x</a>b<a href=\"2\">y</a>c<a href=\"1\">z</a>d");
    assert_eq!(
        out,
        format!(
            "ax <span class=\"footnote-ref\">1</span>by <span class=\"footnote-ref\">2</span>cz <span class=\"footnote-ref\">3</span>d{}",
            footer(&["1", "2", "1"])
        )
    );
}
