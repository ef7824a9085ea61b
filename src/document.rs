//! The export document: Markdown rendered, rewritten, wrapped with the
//! stylesheets, and its styles made inline.

use vstd::prelude::*;
use crate::diagram::{diagram_rewrite, has_diagram_block, replace_mermaid_blocks};
use crate::footnote::{convert_links_to_footnotes, footnotes_of};

verus! {

/// The stylesheet that every document carries before the caller's own.
pub const FALLBACK_CSS: &'static str = r#"
/* Fallback styles for custom CSS themes */
.wechat-content {
  font-family: -apple-system, BlinkMacSystemFont, "Segoe UI", Roboto, Helvetica, Arial, sans-serif;
  font-size: 16px;
  line-height: 1.6;
  color: #333;
  word-wrap: break-word;
  padding: 16px;
}

h1 {
  font-size: 24px;
  font-weight: bold;
  margin-top: 20px;
  margin-bottom: 10px;
  border-bottom: 1px solid #eaeaea;
  padding-bottom: 5px;
}

h2 {
  font-size: 20px;
  font-weight: bold;
  margin-top: 18px;
  margin-bottom: 10px;
  border-left: 4px solid #07c160;
  padding-left: 10px;
}

h3 {
  font-size: 18px;
  font-weight: bold;
  margin-top: 16px;
  margin-bottom: 10px;
}

p {
  margin-bottom: 16px;
  text-align: justify;
}

blockquote {
  margin: 16px 0;
  padding: 10px 16px;
  background-color: #f7f7f7;
  border-left: 4px solid #d0d0d0;
  color: #666;
  font-size: 15px;
}

ul, ol {
  margin-bottom: 16px;
  padding-left: 24px;
}

li {
  margin-bottom: 4px;
}

img {
  max-width: 100%;
  height: auto;
  display: block;
  margin: 16px auto;
  border-radius: 4px;
}

code {
  font-family: Consolas, Monaco, "Courier New", monospace;
  background-color: #f0f0f0;
  padding: 2px 4px;
  border-radius: 3px;
  font-size: 14px;
  color: #d63384;
}

pre {
  background-color: #f6f8fa;
  padding: 16px;
  overflow: auto;
  border-radius: 4px;
  margin-bottom: 16px;
}

pre code {
  background-color: transparent;
  padding: 0;
  color: #333;
  font-size: 13px;
}

a {
  color: #576b95;
  text-decoration: none;
}

a:hover {
  text-decoration: underline;
}

table {
  border-collapse: collapse;
  width: 100%;
  margin-bottom: 16px;
  font-size: 14px;
}

th, td {
  border: 1px solid #dfe2e5;
  padding: 6px 13px;
}

th {
  background-color: #f2f2f2;
  font-weight: bold;
}

tr:nth-child(2n) {
  background-color: #f8f8f8;
}

/* Footnote styles - IMPORTANT: Always include these */
.footnote-ref {
  color: #07c160;
  font-size: 0.8em;
  vertical-align: super;
  margin: 0 2px;
  font-weight: bold;
}

.footnotes {
  margin-top: 24px;
  padding-top: 16px;
  border-top: 1px solid #eaeaea;
  font-size: 14px;
}

.footnotes ol {
  padding-left: 20px;
  margin: 0;
}

.footnotes li {
  margin-bottom: 8px;
  color: #666;
}

.footnote-url {
  color: #576b95;
  word-break: break-all;
}
"#;

/// The script tags that load the client-side diagram renderer.
pub const DIAGRAM_SCRIPT: &'static str = r#"<script src="https://cdn.jsdelivr.net/npm/mermaid@10/dist/mermaid.min.js"></script>
<script>
if (window.mermaid) {
  window.mermaid.initialize({ startOnLoad: true, securityLevel: "loose" });
}
</script>"#;

/// The built-in fallback stylesheet.
pub fn get_fallback_css() -> (r: &'static str)
    ensures
        r@ == FALLBACK_CSS@,
{
    FALLBACK_CSS
}

pub open spec fn diagram_script(has_diagram: bool) -> Seq<char> {
    if has_diagram {
        DIAGRAM_SCRIPT@
    } else {
        Seq::empty()
    }
}

/// The full document: the fallback stylesheet, then the caller's, then the
/// diagram script where one is needed, and the content in one container.
pub open spec fn document_of(custom_css: Seq<char>, content: Seq<char>, has_diagram: bool) -> Seq<
    char,
> {
    "<!DOCTYPE html>\n<html>\n<head>\n<meta charset=\"utf-8\">\n<style>\n"@ + FALLBACK_CSS@ + "\n"@
        + custom_css + "\n</style>\n"@ + diagram_script(has_diagram)
        + "\n</head>\n<body>\n<div class=\"wechat-content\">\n"@ + content
        + "\n</div>\n</body>\n</html>"@
}

/// Wraps `content_html` in a full document with both stylesheets, the custom one
/// last so that it wins over the fallback.
pub fn compose_document(custom_css: &str, content_html: &str, has_diagram: bool) -> (r: String)
    ensures
        r@ == document_of(custom_css@, content_html@, has_diagram),
{
    let mut r = String::new();
    r.append("<!DOCTYPE html>\n<html>\n<head>\n<meta charset=\"utf-8\">\n<style>\n");
    r.append(get_fallback_css());
    r.append("\n");
    r.append(custom_css);
    r.append("\n</style>\n");
    if has_diagram {
        r.append(DIAGRAM_SCRIPT);
    } else {
        proof {
            assert(r@ + Seq::<char>::empty() =~= r@);
        }
    }
    r.append("\n</head>\n<body>\n<div class=\"wechat-content\">\n");
    r.append(content_html);
    r.append("\n</div>\n</body>\n</html>");
    r
}

/// What the Markdown engine renders for `text`, with tables, footnotes,
/// strikethrough and task lists enabled.
pub uninterp spec fn markdown_html(text: Seq<char>) -> Seq<char>;

/// Relies on pulldown_cmark's `Parser::new_ext` and `html::push_html`: the HTML
/// rendered for `content` depends on `content` alone.
#[verifier::external_body]
fn render_markdown(content: &str) -> (r: String)
    ensures
        r@ == markdown_html(content@),
{
    let options = pulldown_cmark::Options::ENABLE_TABLES | pulldown_cmark::Options::ENABLE_FOOTNOTES
        | pulldown_cmark::Options::ENABLE_STRIKETHROUGH | pulldown_cmark::Options::ENABLE_TASKLISTS;
    let mut out = String::new();
    pulldown_cmark::html::push_html(&mut out, pulldown_cmark::Parser::new_ext(content, options));
    out
}

/// The document for the rendered fragment `html`: diagram blocks and links
/// rewritten, wrapped with the stylesheets.
pub open spec fn document_for_html(html: Seq<char>, css: Seq<char>) -> Seq<char> {
    document_of(css, footnotes_of(diagram_rewrite(html)), has_diagram_block(html))
}

/// The document for `content` before its styles are inlined.
pub open spec fn prepared_document(content: Seq<char>, css: Seq<char>) -> Seq<char> {
    document_for_html(markdown_html(content), css)
}

/// Rewrites the diagram blocks and links of the rendered fragment `html`, and
/// wraps it in a document with the stylesheets.
pub fn document_from_html(html: &str, css: &str) -> (r: String)
    ensures
        r@ == document_for_html(html@, css@),
{
    let (with_diagrams, has_diagram) = replace_mermaid_blocks(html);
    let with_footnotes = convert_links_to_footnotes(with_diagrams.as_str());
    compose_document(css, with_footnotes.as_str(), has_diagram)
}

/// Renders `content` and makes the document for it, before its styles are
/// inlined.
pub fn prepare_document(content: &str, css: &str) -> (r: String)
    ensures
        r@ == prepared_document(content@, css@),
{
    let html = render_markdown(content);
    document_from_html(html.as_str(), css)
}

#[verifier::external_type_specification]
#[verifier::external_body]
pub struct ExInlineError(css_inline::InlineError);

/// Relies on `css_inline::inline`, which moves the document's style rules into
/// `style` attributes; it may load linked stylesheets, so nothing is stated of
/// its result.
#[verifier::external_body]
fn inline_styles(html: &str) -> (r: Result<String, css_inline::InlineError>) {
    css_inline::inline(html)
}

/// Why a conversion failed.
#[derive(Debug)]
pub enum ConvertError {
    /// The stylesheet could not be inlined.
    Stylesheet(css_inline::InlineError),
}

/// Converts Markdown into a self-contained document whose styles are inline.
/// The inliner gets exactly the prepared document; its error is passed on.
pub fn convert_markdown(content: String, css: String) -> (r: Result<String, ConvertError>)
    ensures
        r is Err ==> r->Err_0 is Stylesheet,
{
    let document = prepare_document(content.as_str(), css.as_str());
    match inline_styles(document.as_str()) {
        Ok(inlined) => Ok(inlined),
        Err(e) => Err(ConvertError::Stylesheet(e)),
    }
}

} // verus!
