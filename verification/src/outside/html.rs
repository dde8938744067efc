//! HTML documents as the `dom_query` crate reads them.
use vstd::prelude::*;
use crate::outside::pattern::{group_views, match_views};
use crate::text::views;

verus! {

/// The text of each element that a selector picks in a document.
pub uninterp spec fn html_texts(html: Seq<char>, selector: Seq<char>) -> Seq<Seq<char>>;

/// An attribute of each element that a selector picks in a document.
pub uninterp spec fn html_attrs(
    html: Seq<char>,
    selector: Seq<char>,
    name: Seq<char>,
) -> Seq<Option<Seq<char>>>;

/// For each element that `outer` picks in a document, the text of each element
/// that `inner` picks inside it.
pub uninterp spec fn html_inner_texts(
    html: Seq<char>,
    outer: Seq<char>,
    inner: Seq<char>,
) -> Seq<Seq<Seq<char>>>;

/// For each element that `outer` picks in a document, an attribute of each
/// element that `inner` picks inside it.
pub uninterp spec fn html_inner_attrs(
    html: Seq<char>,
    outer: Seq<char>,
    inner: Seq<char>,
    name: Seq<char>,
) -> Seq<Seq<Option<Seq<char>>>>;

/// The views of lists of strings.
pub open spec fn list_views(v: Seq<Vec<String>>) -> Seq<Seq<Seq<char>>> {
    Seq::new(v.len(), |i: int| views(v[i]@))
}

/// `Selection::text` of each element that `Document::select_matcher` finds; none
/// where the selector is not valid.
#[verifier::external_body]
pub(crate) fn texts(html: &str, selector: &str) -> (r: Vec<String>)
    ensures
        views(r@) == html_texts(html@, selector@),
{
    let Ok(m) = dom_query::Matcher::new(selector) else {
        return Vec::new();
    };
    let doc = dom_query::Document::from(html);
    doc.select_matcher(&m).iter().map(|n| n.text().to_string()).collect()
}

/// `Selection::attr` of each element that `Document::select_matcher` finds; none
/// where the selector is not valid.
#[verifier::external_body]
pub(crate) fn attrs(html: &str, selector: &str, name: &str) -> (r: Vec<Option<String>>)
    ensures
        group_views(r@) == html_attrs(html@, selector@, name@),
{
    let Ok(m) = dom_query::Matcher::new(selector) else {
        return Vec::new();
    };
    let doc = dom_query::Document::from(html);
    doc.select_matcher(&m).iter().map(|n| n.attr(name).map(|v| v.to_string())).collect()
}

/// `Selection::text` of each element that `Selection::select_matcher` finds
/// inside each element that `Document::select_matcher` finds; none where a
/// selector is not valid.
#[verifier::external_body]
pub(crate) fn inner_texts(html: &str, outer: &str, inner: &str) -> (r: Vec<Vec<String>>)
    ensures
        list_views(r@) == html_inner_texts(html@, outer@, inner@),
{
    let (Ok(o), Ok(m)) = (dom_query::Matcher::new(outer), dom_query::Matcher::new(inner)) else {
        return Vec::new();
    };
    dom_query::Document::from(html).select_matcher(&o).iter().map(
        |c| c.select_matcher(&m).iter().map(|n| n.text().to_string()).collect(),
    ).collect()
}

/// `Selection::attr` of each element that `Selection::select_matcher` finds
/// inside each element that `Document::select_matcher` finds; none where a
/// selector is not valid.
#[verifier::external_body]
pub(crate) fn inner_attrs(html: &str, outer: &str, inner: &str, name: &str) -> (r: Vec<
    Vec<Option<String>>,
>)
    ensures
        match_views(r@) == html_inner_attrs(html@, outer@, inner@, name@),
{
    let (Ok(o), Ok(m)) = (dom_query::Matcher::new(outer), dom_query::Matcher::new(inner)) else {
        return Vec::new();
    };
    dom_query::Document::from(html).select_matcher(&o).iter().map(
        |c|
            c.select_matcher(&m).iter().map(|n| n.attr(name).map(|v| v.to_string())).collect(),
    ).collect()
}

} // verus!
