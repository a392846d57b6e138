//! Rendering Markdown as HTML.

use vstd::prelude::*;

verus! {

/// The bit that switches tables on.
pub const ENABLE_TABLES: u32 = 2;

/// The bit that switches strikethrough on.
pub const ENABLE_STRIKETHROUGH: u32 = 8;

/// The bit that switches task lists on.
pub const ENABLE_TASKLISTS: u32 = 16;

/// The extensions that pages are rendered with: strikethrough, tables and task lists.
pub const PAGE_OPTIONS: u32 = ENABLE_STRIKETHROUGH | ENABLE_TABLES | ENABLE_TASKLISTS;

/// The HTML that `pulldown_cmark` writes for the Markdown text `source`, read with the
/// extensions whose bits are set in `options`.
pub uninterp spec fn rendered(source: Seq<char>, options: u32) -> Seq<char>;

/// Parses `source` with `pulldown_cmark::Parser::new_ext`, under the options that
/// `Options::from_bits_truncate` makes of `options`, and has
/// `pulldown_cmark::html::push_html` write the events to a new string. The result
/// depends on the two arguments alone; the contract gives it its name and says
/// nothing else of it.
#[verifier::external_body]
fn push_html(source: &str, options: u32) -> (html: String)
    ensures
        html@ == rendered(source@, options),
{
    let options = pulldown_cmark::Options::from_bits_truncate(options);
    let parser = pulldown_cmark::Parser::new_ext(source, options);
    let mut html = String::with_capacity(source.len());
    pulldown_cmark::html::push_html(&mut html, parser);
    html
}

/// Renders the Markdown text `source` as HTML, with strikethrough, tables and task lists.
pub fn markdown_to_html(source: &str) -> (html: String)
    ensures
        html@ == rendered(source@, PAGE_OPTIONS),
{
    push_html(source, PAGE_OPTIONS)
}

} // verus!
