//! How long a server that was asked too often wants to be left alone.
use vstd::prelude::*;
use crate::text::{
    contains, copy_range, digits_at_most, find, find_from, has, is_digit, parse_digits, to_chars,
};

verus! {

/// The end of the digits that start at `i`.
pub open spec fn digits_end(s: Seq<char>, i: int) -> int
    decreases s.len() - i,
{
    if 0 <= i < s.len() && is_digit(s[i]) {
        digits_end(s, i + 1)
    } else {
        i
    }
}

/// The number that stands behind the first `mark`.
pub open spec fn number_behind(s: Seq<char>, mark: Seq<char>) -> Option<nat> {
    match find_from(s, mark, 0) {
        Some(i) => {
            let from = i + mark.len();
            parse_digits(s.subrange(from, digits_end(s, from)), u64::MAX as nat)
        },
        None => None,
    }
}

/// How many seconds a message asks to wait, where it asks to: the value it names,
/// or the number in the name of the error, or a minute where it names none.
pub open spec fn wait_of(message: Seq<char>) -> Option<nat> {
    if !contains(message, "FLOOD_WAIT"@) {
        None
    } else if number_behind(message, "(value: "@) is Some {
        number_behind(message, "(value: "@)
    } else if number_behind(message, "FLOOD_WAIT_"@) is Some {
        number_behind(message, "FLOOD_WAIT_"@)
    } else {
        Some(60)
    }
}

fn read_behind(v: &[char], mark: &str) -> (r: Option<u64>)
    ensures
        match r {
            Some(n) => number_behind(v@, mark@) == Some(n as nat),
            None => number_behind(v@, mark@) is None,
        },
{
    let m = to_chars(mark);
    match find(v, m.as_slice(), 0) {
        None => None,
        Some(i) => {
            let n = v.len();
            let from: usize = i + m.len();
            let mut e: usize = from;
            while e < n && '0' <= v[e] && v[e] <= '9'
                invariant
                    n == v@.len(),
                    from <= e <= n,
                    digits_end(v@, from as int) == digits_end(v@, e as int),
                decreases n - e,
            {
                e += 1;
            }
            digits_at_most(copy_range(v, from, e).as_slice(), u64::MAX)
        },
    }
}

/// How many seconds an error asks to wait; `None` where it is no such error.
pub fn flood_wait_secs(message: &str) -> (r: Option<u64>)
    ensures
        match r {
            Some(n) => wait_of(message@) == Some(n as nat),
            None => wait_of(message@) is None,
        },
{
    let v = to_chars(message);
    let asked = has(v.as_slice(), to_chars("FLOOD_WAIT").as_slice());
    if !asked {
        return None;
    }
    let value = read_behind(v.as_slice(), "(value: ");
    if value.is_some() {
        return value;
    }
    let named = read_behind(v.as_slice(), "FLOOD_WAIT_");
    if named.is_some() {
        return named;
    }
    Some(60)
}

/// A message that asks to wait always says for how long.
pub proof fn law_every_flood_has_a_wait(message: Seq<char>)
    ensures
        contains(message, "FLOOD_WAIT"@) <==> wait_of(message) is Some,
{
}

} // verus!
