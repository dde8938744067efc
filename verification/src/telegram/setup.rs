//! The credentials of the application, separate from the user's authorization.
use vstd::prelude::*;
use crate::jav::util::{hex_digit, hex_value};
use crate::text::{
    from_chars, join3, parse_unsigned, same_str, to_chars, trim, trim_chars, unsigned_at_most,
};

verus! {

/// Whether a hash is one: 32 hexadecimal digits.
pub open spec fn is_hash(s: Seq<char>) -> bool {
    s.len() == 32 && forall|i: int| 0 <= i < s.len() ==> hex_digit(#[trigger] s[i]) is Some
}

/// Whether a hash is one: 32 hexadecimal digits.
pub fn valid_hash(v: &[char]) -> (r: bool)
    ensures
        r == is_hash(v@),
{
    if v.len() != 32 {
        return false;
    }
    let mut i: usize = 0;
    while i < v.len()
        invariant
            i <= v@.len(),
            v@.len() == 32,
            forall|j: int| 0 <= j < i ==> hex_digit(#[trigger] v@[j]) is Some,
        decreases v@.len() - i,
    {
        if hex_value(v[i]).is_none() {
            assert(hex_digit(v@[i as int]) is None);
            return false;
        }
        i += 1;
    }
    true
}

/// Whether credentials can be used.
pub open spec fn usable(api_id: i32, api_hash: Seq<char>) -> bool {
    api_id > 0 && is_hash(api_hash)
}

/// Whether credentials that are configured can be used.
pub fn configured(api_id: i32, api_hash: &str) -> (r: bool)
    ensures
        r == usable(api_id, api_hash@),
{
    api_id > 0 && valid_hash(to_chars(api_hash).as_slice())
}

/// The id that was entered, where it is a positive number.
pub open spec fn entered_id(value: Seq<char>) -> Option<int> {
    match parse_unsigned(trim(value), i32::MAX as nat) {
        Some(n) => if n > 0 {
            Some(n as int)
        } else {
            None
        },
        None => None,
    }
}

/// The credentials that were entered, where they can be used: a positive number
/// and a hash, without white space around them. Once configured they can be used.
pub fn read_credentials(value: &str, api_hash: &str) -> (r: Option<(i32, String)>)
    ensures
        if entered_id(value@) is Some && is_hash(trim(api_hash@)) {
            r matches Some(c) && Some(c.0 as int) == entered_id(value@) && c.1@ == trim(api_hash@)
        } else {
            r is None
        },
        r matches Some(c) ==> usable(c.0, c.1@),
{
    let v = trim_chars(to_chars(value).as_slice());
    let h = trim_chars(to_chars(api_hash).as_slice());
    match unsigned_at_most(v.as_slice(), i32::MAX as u64) {
        Some(n) => {
            if n > 0 && valid_hash(h.as_slice()) {
                Some((n as i32, from_chars(h.as_slice())))
            } else {
                None
            }
        },
        None => None,
    }
}

/// What is asked for credentials, at first and after an answer that cannot be
/// used.
pub fn credentials_question(again: bool) -> (r: &'static str)
    ensures
        r@ == (if again {
            "Use a positive numeric API ID and a 32-character hexadecimal API hash."@
        } else {
            "Enter the API ID and API hash from your Telegram application."@
        }),
{
    if again {
        "Use a positive numeric API ID and a 32-character hexadecimal API hash."
    } else {
        "Enter the API ID and API hash from your Telegram application."
    }
}

/// What is said when the engine has stopped, with the error where there was one.
pub fn retry_message(error: Option<&str>) -> (r: String)
    ensures
        r@ == (match error {
            None => "Telegram stopped. Retry to reconnect."@,
            Some(e) => "Telegram could not continue: "@ + e@
                + ". Retry or update your API credentials."@,
        }),
{
    match error {
        None => "Telegram stopped. Retry to reconnect.".to_owned(),
        Some(e) => join3(
            "Telegram could not continue: ",
            e,
            ". Retry or update your API credentials.",
        ),
    }
}

/// Whether the answer to that asks for other credentials; `None` stands for no
/// answer.
pub fn replaces_credentials(answer: Option<&str>) -> (r: bool)
    ensures
        r == (answer matches Some(a) && a@ == "credentials"@),
{
    match answer {
        Some(a) => same_str(a, "credentials"),
        None => false,
    }
}

} // verus!
