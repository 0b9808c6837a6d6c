//! The links of a page: the `href` of every anchor.
//!
//! Reading HTML is left to the `scraper` crate. What it finds is known to the
//! proofs only by the name `selected_attr`; what is made of it is verified.

use scraper::{Html, Selector};
use vstd::prelude::*;
use vstd::utf8::encode_utf8;

verus! {

/// The longest page, in bytes, that is handed to the parser.
///
/// The parser keeps text in buffers whose length is a 32-bit number and
/// whose capacity is a power of two, and it panics where a buffer would
/// outgrow them. A text may take up to three times the room it had in the
/// page, so a page of this size stays within every buffer.
pub const MAX_PAGE_BYTES: usize = 0x2000_0000;

/// A page is readable when it is no longer than `MAX_PAGE_BYTES`.
pub open spec fn is_readable(body: Seq<char>) -> bool {
    encode_utf8(body).len() <= MAX_PAGE_BYTES
}

/// Whether the page `body` is short enough to be read.
pub fn can_read(body: &str) -> (readable: bool)
    ensures
        readable == is_readable(body@),
{
    body.as_bytes().len() <= MAX_PAGE_BYTES
}

/// The name of an element, written as in a CSS type selector: one or more
/// small ASCII letters.
pub open spec fn is_element_name(name: Seq<char>) -> bool {
    name.len() > 0 && forall|i: int| 0 <= i < name.len() ==> 'a' <= #[trigger] name[i] <= 'z'
}

/// What `scraper` finds in a page.
///
/// `None` where `element` is refused as a CSS selector. Otherwise one entry
/// for each element of the document parsed from `body` that the selector
/// `element` matches, in the order in which `scraper` yields them: the value
/// of the element's attribute `attr`, or `None` where the element has no
/// such attribute.
pub uninterp spec fn selected_attr(
    body: Seq<char>,
    element: Seq<char>,
    attr: Seq<char>,
) -> Option<Seq<Option<Seq<char>>>>;

/// Runs `scraper` on a page: `Selector::parse` on `element`, then
/// `Html::parse_document` on `body`, `Html::select` with the parsed selector
/// and, for each element that it yields, `ElementRef::value` and
/// `Element::attr` with `attr`.
///
/// Trusted: that for a readable page and an element name as selector these
/// calls return, and that the outcome depends on the three strings alone.
/// Nothing is claimed about what the outcome is.
#[verifier::external_body]
fn select_attr(body: &str, element: &str, attr: &str) -> (found: Option<Vec<Option<String>>>)
    requires
        is_readable(body@),
        is_element_name(element@),
    ensures
        found.deep_view() == selected_attr(body@, element@, attr@),
{
    let selector = Selector::parse(element).ok()?;
    let document = Html::parse_document(body);
    let mut values = Vec::new();
    for selected in document.select(&selector) {
        values.push(selected.value().attr(attr).map(String::from));
    }
    Some(values)
}

/// The values that are there, in order, without the gaps.
pub open spec fn present(attrs: Seq<Option<Seq<char>>>) -> Seq<Seq<char>> {
    attrs.filter_map(|attr: Option<Seq<char>>| attr)
}

/// The links among what was found in a page: the attribute values that are
/// there, in order. Where nothing could be selected there are no links.
pub open spec fn links_among(found: Option<Seq<Option<Seq<char>>>>) -> Seq<Seq<char>> {
    match found {
        Some(attrs) => present(attrs),
        None => Seq::empty(),
    }
}

/// The links of the page `body`: the `href` of each `a` element that has
/// one, in the order in which the elements were found.
pub open spec fn page_hrefs(body: Seq<char>) -> Seq<Seq<char>> {
    links_among(selected_attr(body, "a"@, "href"@))
}

/// Drops the missing values from `attrs` and keeps the others in order.
pub fn present_values(attrs: Vec<Option<String>>) -> (values: Vec<String>)
    ensures
        values.deep_view() == present(attrs.deep_view()),
{
    let ghost all = attrs.deep_view();
    let ghost keep = |attr: Option<Seq<char>>| attr;
    let mut values: Vec<String> = Vec::new();
    for attr in list: attrs
        invariant
            list.seq() == attrs@,
            all == attrs.deep_view(),
            keep == |attr: Option<Seq<char>>| attr,
            values.deep_view() == all.take(list.index()).filter_map(keep),
    {
        proof {
            all.lemma_filter_map_take_succ(keep, list.index());
        }
        match attr {
            Some(value) => {
                values.push(value);
            },
            None => {},
        }
    }
    assert(all.take(all.len() as int) == all);
    values
}

/// Makes the list of links out of what was found in a page: the attribute
/// values of the selected elements, without those that are missing. Where
/// nothing could be selected the list is empty.
pub fn collect_links(found: Option<Vec<Option<String>>>) -> (links: Vec<String>)
    ensures
        links.deep_view() == links_among(found.deep_view()),
{
    match found {
        Some(attrs) => present_values(attrs),
        None => Vec::new(),
    }
}

/// The `href` of every anchor of the page `body`, in the order in which the
/// parser yields the anchors: for well-formed markup, the order of the
/// document. Anchors without an `href` are left out. Any text is a page:
/// markup that is not well formed yields the anchors that the parser could
/// make out of it.
///
/// A page that is too long to be read is refused with `None`.
pub fn extract_hrefs(body: &str) -> (hrefs: Option<Vec<String>>)
    ensures
        hrefs is Some <==> is_readable(body@),
        hrefs matches Some(found) ==> found.deep_view() == page_hrefs(body@),
{
    if !can_read(body) {
        return None;
    }
    proof {
        reveal_strlit("a");
    }
    Some(collect_links(select_attr(body, "a", "href")))
}

} // verus!
