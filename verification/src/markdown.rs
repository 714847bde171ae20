//! Markdown to HTML, rendered by the `pulldown_cmark` crate.
use vstd::prelude::*;

verus! {

/// The HTML that pulldown-cmark renders for the Markdown text `source`.
pub uninterp spec fn markdown_html(source: Seq<char>) -> Seq<char>;

/// Calls `pulldown_cmark::html::push_html` on a fresh string with the events
/// of `pulldown_cmark::Parser::new(source)`. Trusted: the HTML is
/// `markdown_html(source)`, a function of the text alone. Nothing is said of
/// its characters.
#[verifier::external_body]
pub(crate) fn render_html(source: &str) -> (res: String)
    ensures
        res@ == markdown_html(source@),
{
    let mut out = String::new();
    pulldown_cmark::html::push_html(&mut out, pulldown_cmark::Parser::new(source));
    out
}

} // verus!
