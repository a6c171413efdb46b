use vstd::prelude::*;
use crate::text::{opt_view, seq_views};

verus! {

/// Whether scraper::Selector::parse accepts a selector string; it depends on
/// the string alone.
pub uninterp spec fn selector_ok(sel: Seq<char>) -> bool;

/// The outer markup of every element of a document that matches a selector,
/// in document order; it depends on the two strings alone.
pub uninterp spec fn selected_of(html: Seq<char>, sel: Seq<char>) -> Seq<Seq<char>>;

/// The value of an attribute on the first element of a document that matches
/// a selector, when there is such an element and it carries the attribute; it
/// depends on the three strings alone.
pub uninterp spec fn first_attr_of(html: Seq<char>, sel: Seq<char>, attr: Seq<char>) -> Option<
    Seq<char>,
>;

/// Relies on scraper: Selector::parse on the selector, Html::parse_document
/// on the markup, Html::select for the matches in document order, and
/// ElementRef::html to serialize each match; all are functions of the two
/// strings alone.
#[verifier::external_body]
pub(crate) fn select_fragments(html: &str, sel: &str) -> (r: Option<Vec<String>>)
    ensures
        r is Some <==> selector_ok(sel@),
        r matches Some(v) ==> seq_views(v@) == selected_of(html@, sel@),
{
    let selector = scraper::Selector::parse(sel).ok()?;
    let doc = scraper::Html::parse_document(html);
    Some(doc.select(&selector).map(|e| e.html()).collect())
}

/// Relies on scraper: Selector::parse on the selector, Html::parse_document
/// on the markup, Html::select for the first match, and ElementRef::attr for
/// the attribute value; all are functions of the three strings alone.
#[verifier::external_body]
pub(crate) fn select_first_attr(html: &str, sel: &str, attr: &str) -> (r: Option<Option<String>>)
    ensures
        r is Some <==> selector_ok(sel@),
        r matches Some(o) ==> opt_view(o) == first_attr_of(html@, sel@, attr@),
{
    let selector = scraper::Selector::parse(sel).ok()?;
    let doc = scraper::Html::parse_document(html);
    Some(doc.select(&selector).next().and_then(|e| e.attr(attr).map(|s| s.to_string())))
}

} // verus!
