//! URLs as the `url` crate reads and writes them. A URL is held as its text:
//! the crate's own serialization parses back to the same URL.
use vstd::prelude::*;
use crate::text::opt_view;

verus! {

/// The serialization of the URL that `Url::parse` reads, or what it says of a text
/// that is none.
pub uninterp spec fn url_text(text: Seq<char>) -> Result<Seq<char>, Seq<char>>;

/// The URL that `Url::join` makes of a base and a reference, or what is said where
/// it makes none.
pub uninterp spec fn url_join(base: Seq<char>, reference: Seq<char>) -> Result<
    Seq<char>,
    Seq<char>,
>;

/// The scheme of a URL.
pub uninterp spec fn url_scheme(text: Seq<char>) -> Option<Seq<char>>;

/// The host of a URL, where it has one.
pub uninterp spec fn url_host(text: Seq<char>) -> Option<Seq<char>>;

/// The ASCII serialization of a URL's origin.
pub uninterp spec fn url_origin(text: Seq<char>) -> Option<Seq<char>>;

/// The path of a URL.
pub uninterp spec fn url_path(text: Seq<char>) -> Option<Seq<char>>;

/// The decoded query parameters of a URL, in order.
pub uninterp spec fn url_query_pairs(text: Seq<char>) -> Option<Seq<(Seq<char>, Seq<char>)>>;

/// The URL without its query.
pub uninterp spec fn url_without_query(text: Seq<char>) -> Option<Seq<char>>;

/// The URL without its fragment.
pub uninterp spec fn url_without_fragment(text: Seq<char>) -> Option<Seq<char>>;

/// A URL with parameters appended to its query.
pub uninterp spec fn url_append(
    text: Seq<char>,
    pairs: Seq<(Seq<char>, Seq<char>)>,
) -> Option<Seq<char>>;

/// What a result that is text says.
pub open spec fn result_view(r: Result<String, String>) -> Result<Seq<char>, Seq<char>> {
    match r {
        Ok(s) => Ok(s@),
        Err(e) => Err(e@),
    }
}

/// The views of a list of string pairs.
pub open spec fn pair_views(v: Seq<(String, String)>) -> Seq<(Seq<char>, Seq<char>)> {
    Seq::new(v.len(), |i: int| (v[i].0@, v[i].1@))
}

/// `Url::parse`, written back as text; the text of its error where the text is no
/// URL.
#[verifier::external_body]
pub(crate) fn parse(text: &str) -> (r: Result<String, String>)
    ensures
        result_view(r) == url_text(text@),
{
    url::Url::parse(text).map(String::from).map_err(|e| e.to_string())
}

/// `Url::join`: the reference resolved against the base; the text of the error
/// where the base is no URL or the reference does not resolve.
#[verifier::external_body]
pub(crate) fn join(base: &str, reference: &str) -> (r: Result<String, String>)
    ensures
        result_view(r) == url_join(base@, reference@),
{
    url::Url::parse(base).and_then(|u| u.join(reference)).map(String::from).map_err(
        |e| e.to_string(),
    )
}

/// `Url::scheme`; `None` where the text is no URL.
#[verifier::external_body]
pub(crate) fn scheme(text: &str) -> (r: Option<String>)
    ensures
        opt_view(r) == url_scheme(text@),
{
    url::Url::parse(text).ok().map(|u| u.scheme().to_string())
}

/// `Url::host_str`; `None` where the text is no URL or has no host.
#[verifier::external_body]
pub(crate) fn host(text: &str) -> (r: Option<String>)
    ensures
        opt_view(r) == url_host(text@),
{
    url::Url::parse(text).ok()?.host_str().map(str::to_string)
}

/// `Origin::ascii_serialization` of `Url::origin`; `None` where the text is no
/// URL.
#[verifier::external_body]
pub(crate) fn origin(text: &str) -> (r: Option<String>)
    ensures
        opt_view(r) == url_origin(text@),
{
    url::Url::parse(text).ok().map(|u| u.origin().ascii_serialization())
}

/// `Url::path`; `None` where the text is no URL.
#[verifier::external_body]
pub(crate) fn path(text: &str) -> (r: Option<String>)
    ensures
        opt_view(r) == url_path(text@),
{
    url::Url::parse(text).ok().map(|u| u.path().to_string())
}

/// `Url::query_pairs`, each pair owned; `None` where the text is no URL.
#[verifier::external_body]
pub(crate) fn query_pairs(text: &str) -> (r: Option<Vec<(String, String)>>)
    ensures
        match r {
            Some(v) => url_query_pairs(text@) == Some(pair_views(v@)),
            None => url_query_pairs(text@) is None,
        },
{
    let u = url::Url::parse(text).ok()?;
    Some(u.query_pairs().map(|(k, v)| (k.into_owned(), v.into_owned())).collect())
}

/// `Url::set_query` with nothing; `None` where the text is no URL.
#[verifier::external_body]
pub(crate) fn without_query(text: &str) -> (r: Option<String>)
    ensures
        opt_view(r) == url_without_query(text@),
{
    let mut u = url::Url::parse(text).ok()?;
    u.set_query(None);
    Some(u.into())
}

/// `Url::set_fragment` with nothing; `None` where the text is no URL.
#[verifier::external_body]
pub(crate) fn without_fragment(text: &str) -> (r: Option<String>)
    ensures
        opt_view(r) == url_without_fragment(text@),
{
    let mut u = url::Url::parse(text).ok()?;
    u.set_fragment(None);
    Some(u.into())
}

/// `Url::query_pairs_mut` extended by the pairs; `None` where the text is no
/// URL.
#[verifier::external_body]
pub(crate) fn append_pairs(text: &str, pairs: &Vec<(String, String)>) -> (r: Option<String>)
    ensures
        opt_view(r) == url_append(text@, pair_views(pairs@)),
{
    let mut u = url::Url::parse(text).ok()?;
    u.query_pairs_mut().extend_pairs(pairs.iter());
    Some(u.into())
}

} // verus!
