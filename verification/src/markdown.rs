//! Markdown rendering, done by `pulldown-cmark`.

use vstd::prelude::*;

verus! {

/// The bit of `pulldown_cmark::Options::ENABLE_TABLES`.
pub const ENABLE_TABLES: u32 = 2;

/// The bit of `pulldown_cmark::Options::ENABLE_FOOTNOTES`.
pub const ENABLE_FOOTNOTES: u32 = 4;

/// The bit of `pulldown_cmark::Options::ENABLE_STRIKETHROUGH`.
pub const ENABLE_STRIKETHROUGH: u32 = 8;

/// The bit of `pulldown_cmark::Options::ENABLE_TASKLISTS`.
pub const ENABLE_TASKLISTS: u32 = 16;

/// The HTML that `pulldown-cmark` renders a Markdown source to, with the
/// extensions whose bits are set in `extensions`.
pub uninterp spec fn markdown_html(source: Seq<char>, extensions: u32) -> Seq<char>;

/// Renders `source` with `pulldown_cmark::html::push_html` on a
/// `pulldown_cmark::Parser` made by `Parser::new_ext` with the options that
/// `Options::from_bits_truncate` makes of `extensions`. The renderer reads
/// nothing but its two arguments, so its output is named after them.
#[verifier::external_body]
pub(crate) fn render(source: &str, extensions: u32) -> (html: String)
    ensures
        html@ == markdown_html(source@, extensions),
{
    let options = pulldown_cmark::Options::from_bits_truncate(extensions);
    let mut html = String::new();
    pulldown_cmark::html::push_html(&mut html, pulldown_cmark::Parser::new_ext(source, options));
    html
}

} // verus!
