//! The outside HTML parser, used to find elements. Each result is named by a
//! spec function; the logic that uses these results takes them as plain
//! values. Elements come in the order in which the parser yields them: the
//! order in which it inserted their nodes into the tree.

use vstd::prelude::*;

verus! {

/// The `src` attribute of each `img` element of the document `html`, in the
/// order that the parser yields them; `None` for an element without one.
pub uninterp spec fn img_srcs_of(html: Seq<char>) -> Seq<Option<Seq<char>>>;

/// The text content of each `h1` element of the document `html`, in the order
/// that the parser yields them.
pub uninterp spec fn h1_texts_of(html: Seq<char>) -> Seq<Seq<char>>;

/// Relies on scraper's `Html::parse_document`, selected with the `img`
/// selector, and `ElementRef::attr("src")` on each element found.
#[verifier::external_body]
pub(crate) fn img_src_attrs(html: &str) -> (r: Vec<Option<String>>)
    ensures
        r.deep_view() == img_srcs_of(html@),
{
    let document = scraper::Html::parse_document(html);
    let selector = scraper::Selector::parse("img").unwrap();
    document.select(&selector).map(|img| img.attr("src").map(String::from)).collect()
}

/// Relies on scraper's `Html::parse_document`, selected with the `h1`
/// selector, and `ElementRef::text` on each element found, its pieces joined.
#[verifier::external_body]
pub(crate) fn h1_texts(html: &str) -> (r: Vec<String>)
    ensures
        r.deep_view() == h1_texts_of(html@),
{
    let document = scraper::Html::parse_document(html);
    let selector = scraper::Selector::parse("h1").unwrap();
    document.select(&selector).map(|h1| h1.text().collect::<String>()).collect()
}

} // verus!
