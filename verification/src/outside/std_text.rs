//! Text functions of the standard library that work on whole Unicode tables.
use vstd::prelude::*;
use vstd::utf8::{decode_utf8, valid_utf8};
use crate::text::{opt_view, parse_unsigned};

verus! {

/// The text that `String::from_utf8_lossy` makes of some bytes.
pub uninterp spec fn utf8_lossy(bytes: Seq<u8>) -> Seq<char>;

/// The text that `str::to_lowercase` makes of some text.
pub uninterp spec fn unicode_lower(text: Seq<char>) -> Seq<char>;

/// The text that `str::to_uppercase` makes of some text.
pub uninterp spec fn unicode_upper(text: Seq<char>) -> Seq<char>;

/// Some bytes read as text: UTF-8 is decoded, and of anything else the named
/// text is made.
pub open spec fn text_of(bytes: Seq<u8>) -> Seq<char> {
    if valid_utf8(bytes) {
        decode_utf8(bytes)
    } else {
        utf8_lossy(bytes)
    }
}

/// `String::from_utf8_lossy`: UTF-8 is decoded as it is. Where the bytes are not
/// UTF-8, replacement characters stand for what is not, and the result is named,
/// not described.
#[verifier::external_body]
pub(crate) fn from_utf8_lossy(bytes: &[u8]) -> (r: String)
    ensures
        r@ == utf8_lossy(bytes@),
        valid_utf8(bytes@) ==> r@ == decode_utf8(bytes@),
{
    String::from_utf8_lossy(bytes).into_owned()
}

/// `str::to_lowercase`: every character mapped by the Unicode tables. The
/// result is named, not described.
#[verifier::external_body]
pub(crate) fn to_lowercase(text: &str) -> (r: String)
    ensures
        r@ == unicode_lower(text@),
{
    text.to_lowercase()
}

/// `str::to_uppercase`: every character mapped by the Unicode tables. The
/// result is named, not described.
#[verifier::external_body]
pub(crate) fn to_uppercase(text: &str) -> (r: String)
    ensures
        r@ == unicode_upper(text@),
{
    text.to_uppercase()
}

/// What `str::parse` says of a text that is no unsigned number of 64 bits.
pub uninterp spec fn u64_error(text: Seq<char>) -> Option<Seq<char>>;

/// `str::parse` for `u64`: the text of its error, which comes exactly where the
/// text is not an optional plus sign and digits whose number fits. The words are
/// named, not described.
#[verifier::external_body]
pub(crate) fn number_problem(text: &str) -> (r: Option<String>)
    ensures
        opt_view(r) == u64_error(text@),
        r is None <==> parse_unsigned(text@, u64::MAX as nat) is Some,
{
    text.parse::<u64>().err().map(|e| e.to_string())
}

/// The text that `{:?}` makes of some text.
pub uninterp spec fn debug_text(text: Seq<char>) -> Seq<char>;

/// `format!` with `{:?}`: the text in quotes, with what cannot be read escaped.
/// The result is named, not described.
#[verifier::external_body]
pub(crate) fn quoted(text: &str) -> (r: String)
    ensures
        r@ == debug_text(text@),
{
    format!("{text:?}")
}

} // verus!
