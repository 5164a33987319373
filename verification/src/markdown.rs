//! Turning the Markdown of a page into HTML.

use vstd::prelude::*;

verus! {

/// Renders Markdown to HTML.
pub trait MarkdownRenderer {
    fn render(&self, markdown: &str) -> String;
}

/// The HTML that `pulldown_cmark::html::push_html` writes for the Markdown
/// `md` parsed with tables, strikethrough and task lists enabled.
pub uninterp spec fn commonmark_html(md: Seq<char>) -> Seq<char>;

/// Parses `md` with `pulldown_cmark::Parser::new_ext` (tables,
/// strikethrough and task lists enabled) and writes the HTML with
/// `pulldown_cmark::html::push_html` into a new string; the result is
/// named [`commonmark_html`] of the Markdown.
#[verifier::external_body]
fn pulldown_html(md: &str) -> (r: String)
    ensures
        r@ == commonmark_html(md@),
{
    let mut options = pulldown_cmark::Options::empty();
    options.insert(pulldown_cmark::Options::ENABLE_TABLES);
    options.insert(pulldown_cmark::Options::ENABLE_STRIKETHROUGH);
    options.insert(pulldown_cmark::Options::ENABLE_TASKLISTS);
    let parser = pulldown_cmark::Parser::new_ext(md, options);
    let mut html_out = String::new();
    pulldown_cmark::html::push_html(&mut html_out, parser);
    html_out
}

/// The Markdown renderer built on `pulldown-cmark`, with tables,
/// strikethrough and task lists.
pub struct PulldownMarkdown;

impl MarkdownRenderer for PulldownMarkdown {
    fn render(&self, md: &str) -> (r: String)
        ensures
            r@ == commonmark_html(md@),
    {
        pulldown_html(md)
    }
}

} // verus!
