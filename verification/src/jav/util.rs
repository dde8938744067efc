//! Small shared helpers: file names, AES key and IV derivation, the decoy
//! header some hosts prepend to segments, and a sliding-window speed estimator.
use std::collections::VecDeque;
use vstd::prelude::*;
use vstd::slice::slice_subrange;
use crate::jav::source::cf::{is_challenge_error, spec_challenge_error};
use crate::text::{
    ascii_lower, char_width, contains, copy_range, from_chars, has, lower_chars,
    starts_with, strip_leading, strip_trailing, to_chars, trim, trim_chars, trim_end,
    trim_end_char, trim_end_chars, trim_start_char, utf8_len, begins,
};

verus! {

// ── File names ───────────────────────────────────────────────────────────

/// Whether `c` is unsafe in a file name.
pub open spec fn is_reserved(c: char) -> bool {
    ||| c == '/'
    ||| c == '\\'
    ||| c == ':'
    ||| c == '*'
    ||| c == '?'
    ||| c == '"'
    ||| c == '<'
    ||| c == '>'
    ||| c == '|'
    ||| (c as u32) < 0x20
}

/// `s` with an underscore in place of every unsafe character.
pub open spec fn replaced(s: Seq<char>) -> Seq<char> {
    Seq::new(
        s.len(),
        |i: int|
            if is_reserved(s[i]) {
                '_'
            } else {
                s[i]
            },
    )
}

/// The longest prefix of `s` that takes at most `max` bytes.
pub open spec fn prefix_within(s: Seq<char>, max: nat) -> Seq<char>
    decreases s.len(),
{
    if utf8_len(s) <= max || s.len() == 0 {
        s
    } else {
        prefix_within(s.drop_last(), max)
    }
}

/// `s` cut to at most `max` bytes; where something was cut, the white space
/// before the cut goes too.
pub open spec fn truncated(s: Seq<char>, max: nat) -> Seq<char> {
    if utf8_len(s) <= max {
        s
    } else {
        trim_end(prefix_within(s, max))
    }
}

/// The longest file name, in bytes.
pub const MAX_NAME_BYTES: usize = 180;

/// The file name made of a title.
pub open spec fn file_name(title: Seq<char>) -> Seq<char> {
    let t = trim(replaced(title));
    truncated(trim_end_char(trim_start_char(t, '.'), '.'), MAX_NAME_BYTES as nat)
}

fn replace_reserved(v: &[char]) -> (r: Vec<char>)
    ensures
        r@ == replaced(v@),
{
    let mut r: Vec<char> = Vec::new();
    let mut i: usize = 0;
    while i < v.len()
        invariant
            i <= v@.len(),
            r@.len() == i,
            forall|j: int| 0 <= j < i ==> r@[j] == replaced(v@)[j],
        decreases v@.len() - i,
    {
        let c = v[i];
        if c == '/' || c == '\\' || c == ':' || c == '*' || c == '?' || c == '"' || c == '<' || c
            == '>' || c == '|' || (c as u32) < 0x20 {
            r.push('_');
        } else {
            r.push(c);
        }
        i += 1;
    }
    assert(r@ =~= replaced(v@));
    r
}

proof fn lemma_utf8_len_prefix(s: Seq<char>, i: int)
    requires
        0 <= i <= s.len(),
    ensures
        utf8_len(s.take(i)) + (s.len() - i) <= utf8_len(s),
    decreases s.len() - i,
{
    if i == s.len() {
        assert(s.take(i) =~= s);
    } else {
        lemma_utf8_len_prefix(s, i + 1);
        assert(s.take(i + 1).drop_last() =~= s.take(i));
    }
}

proof fn lemma_prefix_within(s: Seq<char>, max: nat, i: int)
    requires
        0 <= i <= s.len(),
        utf8_len(s.take(i)) <= max,
        i < s.len() ==> utf8_len(s.take(i + 1)) > max,
    ensures
        prefix_within(s, max) == s.take(i),
    decreases s.len(),
{
    if i == s.len() {
        assert(s.take(i) =~= s);
    } else {
        lemma_utf8_len_prefix(s, i + 1);
        let t = s.drop_last();
        assert(t.take(i) =~= s.take(i));
        if i < t.len() {
            assert(t.take(i + 1) =~= s.take(i + 1));
        }
        lemma_prefix_within(t, max, i);
    }
}

/// `v` cut to at most `max` bytes of UTF-8, at a character boundary.
pub fn truncate_bytes(v: &[char], max: usize) -> (r: Vec<char>)
    ensures
        r@ == truncated(v@, max as nat),
{
    let mut used: usize = 0;
    let mut i: usize = 0;
    assert(v@.take(0) =~= Seq::<char>::empty());
    while i < v.len()
        invariant
            i <= v@.len(),
            used == utf8_len(v@.take(i as int)),
            used <= max,
        decreases v@.len() - i,
    {
        let w = char_width(v[i]);
        assert(v@.take(i + 1).drop_last() =~= v@.take(i as int));
        if w > max - used {
            proof {
                lemma_prefix_within(v@, max as nat, i as int);
                lemma_utf8_len_prefix(v@, i + 1);
            }
            let head = copy_range(v, 0, i);
            assert(head@ =~= v@.take(i as int));
            return trim_end_chars(head.as_slice());
        }
        used += w;
        i += 1;
    }
    assert(v@.take(v@.len() as int) =~= v@);
    let r = copy_range(v, 0, v.len());
    assert(r@ =~= v@);
    r
}

/// Replace every character that is unsafe in a file name, drop white space and
/// dots at the ends, and keep well under the limit most file systems impose.
pub fn sanitize_filename(title: &str) -> (r: String)
    ensures
        r@ == file_name(title@),
{
    let v = to_chars(title);
    let cleaned = replace_reserved(v.as_slice());
    let trimmed = trim_chars(cleaned.as_slice());
    let head = strip_leading(trimmed.as_slice(), '.');
    let body = strip_trailing(head.as_slice(), '.');
    let cut = truncate_bytes(body.as_slice(), MAX_NAME_BYTES);
    from_chars(cut.as_slice())
}

proof fn lemma_sub_reserved(s: Seq<char>, a: int, b: int)
    requires
        0 <= a <= b <= s.len(),
        forall|i: int| 0 <= i < s.len() ==> !is_reserved(#[trigger] s[i]),
    ensures
        forall|i: int| 0 <= i < s.subrange(a, b).len() ==> !is_reserved(#[trigger] s.subrange(a, b)[i]),
{
}

proof fn lemma_trim_start_char_part(s: Seq<char>, c: char) -> (a: int)
    ensures
        0 <= a <= s.len(),
        trim_start_char(s, c) == s.subrange(a, s.len() as int),
    decreases s.len(),
{
    if s.len() > 0 && s[0] == c {
        let b = lemma_trim_start_char_part(s.skip(1), c);
        assert(s.skip(1).subrange(b, s.len() - 1) =~= s.subrange(b + 1, s.len() as int));
        b + 1
    } else {
        assert(s.subrange(0, s.len() as int) =~= s);
        0
    }
}

proof fn lemma_trim_end_char_part(s: Seq<char>, c: char) -> (b: int)
    ensures
        0 <= b <= s.len(),
        trim_end_char(s, c) == s.subrange(0, b),
    decreases s.len(),
{
    if s.len() > 0 && s.last() == c {
        let b = lemma_trim_end_char_part(s.drop_last(), c);
        assert(s.drop_last().subrange(0, b) =~= s.subrange(0, b));
        b
    } else {
        assert(s.subrange(0, s.len() as int) =~= s);
        s.len() as int
    }
}

proof fn lemma_trim_end_part(s: Seq<char>) -> (b: int)
    ensures
        0 <= b <= s.len(),
        trim_end(s) == s.subrange(0, b),
    decreases s.len(),
{
    if s.len() > 0 && crate::text::is_space(s.last()) {
        let b = lemma_trim_end_part(s.drop_last());
        assert(s.drop_last().subrange(0, b) =~= s.subrange(0, b));
        b
    } else {
        assert(s.subrange(0, s.len() as int) =~= s);
        s.len() as int
    }
}

proof fn lemma_prefix_within_part(s: Seq<char>, max: nat) -> (b: int)
    ensures
        0 <= b <= s.len(),
        prefix_within(s, max) == s.subrange(0, b),
        utf8_len(prefix_within(s, max)) <= max,
    decreases s.len(),
{
    if utf8_len(s) <= max || s.len() == 0 {
        assert(s.subrange(0, s.len() as int) =~= s);
        s.len() as int
    } else {
        let b = lemma_prefix_within_part(s.drop_last(), max);
        assert(s.drop_last().subrange(0, b) =~= s.subrange(0, b));
        b
    }
}

/// A file name never holds a character that is unsafe in one, whatever the
/// title, and never takes more than the permitted number of bytes.
pub proof fn law_file_name_is_safe(title: Seq<char>)
    ensures
        forall|i: int| 0 <= i < file_name(title).len() ==> !is_reserved(#[trigger] file_name(title)[i]),
        utf8_len(file_name(title)) <= MAX_NAME_BYTES,
{
    let s = replaced(title);
    assert(forall|i: int| 0 <= i < s.len() ==> !is_reserved(#[trigger] s[i]));
    crate::text::lemma_trim(s);
    let (a, b) = choose|a: int, b: int|
        0 <= a <= b <= s.len() && trim(s) == #[trigger] s.subrange(a, b);
    lemma_sub_reserved(s, a, b);
    let t = trim(s);
    let c = lemma_trim_start_char_part(t, '.');
    lemma_sub_reserved(t, c, t.len() as int);
    let u = trim_start_char(t, '.');
    let d = lemma_trim_end_char_part(u, '.');
    lemma_sub_reserved(u, 0, d);
    let w = trim_end_char(u, '.');
    if utf8_len(w) > MAX_NAME_BYTES {
        let e = lemma_prefix_within_part(w, MAX_NAME_BYTES as nat);
        lemma_sub_reserved(w, 0, e);
        let p = prefix_within(w, MAX_NAME_BYTES as nat);
        let f = lemma_trim_end_part(p);
        lemma_sub_reserved(p, 0, f);
        lemma_utf8_len_prefix(p, f);
        assert(p.take(f) =~= p.subrange(0, f));
    }
}

// ── Keys ─────────────────────────────────────────────────────────────────

/// The value of a hexadecimal digit.
pub open spec fn hex_digit(c: char) -> Option<u8> {
    if '0' <= c <= '9' {
        Some((c as u8 - '0' as u8) as u8)
    } else if 'a' <= c <= 'f' {
        Some((c as u8 - 'a' as u8 + 10) as u8)
    } else if 'A' <= c <= 'F' {
        Some((c as u8 - 'A' as u8 + 10) as u8)
    } else {
        None
    }
}

/// The byte that two characters write in hexadecimal: two digits, or a sign and
/// one.
pub open spec fn hex_pair(a: char, b: char) -> Option<u8> {
    match (hex_digit(a), hex_digit(b)) {
        (Some(x), Some(y)) => Some((x * 16 + y) as u8),
        (None, Some(y)) => if a == '+' {
            Some(y)
        } else {
            None
        },
        _ => None,
    }
}

/// `s` without a leading `0x` or `0X`.
pub open spec fn hex_body(s: Seq<char>) -> Seq<char> {
    if starts_with(s, "0x"@) || starts_with(s, "0X"@) {
        s.skip(2)
    } else {
        s
    }
}

/// Whether every two characters of `s` write a byte.
pub open spec fn all_hex_pairs(s: Seq<char>) -> bool {
    forall|k: int| 0 <= k < s.len() / 2 ==> hex_pair(#[trigger] s[2 * k], s[2 * k + 1]) is Some
}

/// The bytes that `s` writes in hexadecimal, where it writes at least one.
pub open spec fn spec_parse_hex(s: Seq<char>) -> Option<Seq<u8>> {
    let d = hex_body(s);
    if d.len() > 0 && d.len() % 2 == 0 && all_hex_pairs(d) {
        Some(Seq::new(d.len() / 2, |k: int| hex_pair(d[2 * k], d[2 * k + 1])->0))
    } else {
        None
    }
}

/// The value of a hexadecimal digit.
pub fn hex_value(c: char) -> (r: Option<u8>)
    ensures
        r == hex_digit(c),
        r matches Some(n) ==> n < 16,
{
    if '0' <= c && c <= '9' {
        Some(c as u8 - 48)
    } else if 'a' <= c && c <= 'f' {
        Some(c as u8 - 97 + 10)
    } else if 'A' <= c && c <= 'F' {
        Some(c as u8 - 65 + 10)
    } else {
        None
    }
}

fn hex_pair_value(a: char, b: char) -> (r: Option<u8>)
    ensures
        r == hex_pair(a, b),
{
    match (hex_value(a), hex_value(b)) {
        (Some(x), Some(y)) => Some(x * 16 + y),
        (None, Some(y)) => if a == '+' {
            Some(y)
        } else {
            None
        },
        _ => None,
    }
}

/// The bytes of a `0x…` hexadecimal blob, two characters each; `None` where it is
/// empty, has an odd number of characters or two of them write no byte.
pub fn parse_hex(s: &str) -> (r: Option<Vec<u8>>)
    ensures
        match r {
            Some(v) => spec_parse_hex(s@) == Some(v@),
            None => spec_parse_hex(s@) is None,
        },
{
    let all = to_chars(s);
    proof {
        reveal_strlit("0x");
        reveal_strlit("0X");
    }
    let start: usize = if begins(all.as_slice(), to_chars("0x").as_slice()) || begins(
        all.as_slice(),
        to_chars("0X").as_slice(),
    ) {
        2
    } else {
        0
    };
    let ghost d = hex_body(s@);
    assert(d =~= all@.skip(start as int));
    let n: usize = all.len() - start;
    if n == 0 || n % 2 != 0 {
        return None;
    }
    let mut out: Vec<u8> = Vec::new();
    let mut k: usize = 0;
    while k < n / 2
        invariant
            n == d.len(),
            n % 2 == 0,
            n + start == all@.len(),
            d == all@.skip(start as int),
            d == hex_body(s@),
            k <= n / 2,
            out@.len() == k,
            forall|j: int|
                0 <= j < k ==> hex_pair(#[trigger] d[2 * j], d[2 * j + 1]) == Some(out@[j]),
        decreases n / 2 - k,
    {
        let a = all[start + 2 * k];
        let b = all[start + 2 * k + 1];
        assert(d[2 * k as int] == a && d[2 * k + 1] == b);
        match hex_pair_value(a, b) {
            Some(x) => {
                out.push(x);
            },
            None => {
                return None;
            },
        }
        k += 1;
    }
    assert(all_hex_pairs(d)) by {
        assert forall|j: int| 0 <= j < d.len() / 2 implies hex_pair(
            #[trigger] d[2 * j],
            d[2 * j + 1],
        ) is Some by {}
    }
    assert(out@ =~= Seq::new(d.len() / 2, |k: int| hex_pair(d[2 * k], d[2 * k + 1])->0)) by {
        assert forall|j: int| 0 <= j < out@.len() implies out@[j] == hex_pair(
            d[2 * j],
            d[2 * j + 1],
        )->0 by {}
    }
    Some(out)
}

/// The last `len` bytes of `n` in big-endian order.
pub open spec fn big_endian(n: nat, len: nat) -> Seq<u8>
    decreases len,
{
    if len == 0 {
        Seq::empty()
    } else {
        big_endian(n / 256, (len - 1) as nat).push((n % 256) as u8)
    }
}

/// The initialization vector of segment number `index`: an explicit one,
/// padded with zeros on the left, or the number itself.
pub open spec fn segment_iv(index: nat, custom: Option<Seq<u8>>) -> Seq<u8> {
    match custom {
        Some(iv) => {
            let len = if iv.len() < 16 {
                iv.len() as int
            } else {
                16
            };
            Seq::new((16 - len) as nat, |i: int| 0u8) + iv.take(len)
        },
        None => big_endian(index, 16),
    }
}

/// The view of an optional byte vector.
pub open spec fn opt_bytes(o: Option<Vec<u8>>) -> Option<Seq<u8>> {
    match o {
        Some(v) => Some(v@),
        None => None,
    }
}

proof fn lemma_big_endian_len(n: nat, len: nat)
    ensures
        big_endian(n, len).len() == len,
    decreases len,
{
    if len > 0 {
        lemma_big_endian_len(n / 256, (len - 1) as nat);
    }
}

/// The number that bytes write, the first one being worth the most.
pub open spec fn byte_number(b: Seq<u8>) -> nat
    decreases b.len(),
{
    if b.len() == 0 {
        0
    } else {
        byte_number(b.drop_last()) * 256 + b.last() as nat
    }
}

/// How many numbers so many bytes can write.
spec fn byte_range_of(len: nat) -> nat
    decreases len,
{
    if len == 0 {
        1
    } else {
        256 * byte_range_of((len - 1) as nat)
    }
}

proof fn lemma_big_endian_number(n: nat, len: nat)
    requires
        n < byte_range_of(len),
    ensures
        byte_number(big_endian(n, len)) == n,
    decreases len,
{
    if len > 0 {
        lemma_big_endian_number(n / 256, (len - 1) as nat);
        let b = big_endian(n, len);
        assert(b.drop_last() =~= big_endian(n / 256, (len - 1) as nat));
        assert(b.last() == (n % 256) as u8);
    }
}

/// Without an explicit vector, that of a segment is its number in 16 bytes, so that
/// no two segments share one; an explicit vector is the same for every segment, with
/// zeros in front where it is shorter.
pub proof fn law_ivs_are_numbers_or_explicit(index: nat, custom: Option<Seq<u8>>)
    requires
        index <= u64::MAX,
    ensures
        segment_iv(index, custom).len() == 16,
        custom is None ==> byte_number(segment_iv(index, custom)) == index,
        custom matches Some(iv) ==> iv.len() <= 16 ==> forall|j: int|
            0 <= j < 16 ==> #[trigger] segment_iv(index, custom)[j] == (if j < 16 - iv.len() {
                0u8
            } else {
                iv[j - (16 - iv.len())]
            }),
{
    law_iv_has_sixteen_bytes(index, custom);
    if custom is None {
        reveal_with_fuel(byte_range_of, 17);
        lemma_big_endian_number(index, 16);
    }
}

/// The CBC initialization vector for segment `index`: the playlist's explicit
/// one, or the segment number as a big-endian 128-bit integer.
pub fn iv_for_segment(index: usize, custom_iv: &Option<Vec<u8>>) -> (r: [u8; 16])
    ensures
        r@ == segment_iv(index as nat, opt_bytes(*custom_iv)),
{
    let mut out: [u8; 16] = [0u8;16];
    match custom_iv {
        Some(iv) => {
            let len: usize = if iv.len() < 16 {
                iv.len()
            } else {
                16
            };
            let mut i: usize = 0;
            while i < len
                invariant
                    i <= len <= 16,
                    len <= iv@.len(),
                    out@.len() == 16,
                    forall|j: int| 0 <= j < 16 - len ==> out@[j] == 0,
                    forall|j: int| 0 <= j < i ==> out@[16 - len + j] == iv@[j],
                decreases len - i,
            {
                out[16 - len + i] = iv[i];
                i += 1;
            }
            assert(out@ =~= segment_iv(index as nat, Some(iv@)));
        },
        None => {
            let mut rest: usize = index;
            let mut i: usize = 16;
            assert(out@.skip(16) =~= Seq::<u8>::empty());
            assert(big_endian(index as nat, 16) + out@.skip(16) =~= big_endian(index as nat, 16));
            while i > 0
                invariant
                    i <= 16,
                    out@.len() == 16,
                    big_endian(index as nat, 16) == big_endian(rest as nat, i as nat) + out@.skip(
                        i as int,
                    ),
                decreases i,
            {
                let ghost before = out@;
                let b: u8 = (rest % 256) as u8;
                out[i - 1] = b;
                proof {
                    let head = big_endian(rest as nat / 256, (i - 1) as nat);
                    assert(out@.skip(i - 1) =~= seq![b] + before.skip(i as int));
                    assert(head.push(b) + before.skip(i as int) =~= head + (seq![b] + before.skip(
                        i as int,
                    )));
                }
                rest = rest / 256;
                i -= 1;
            }
            assert(out@.skip(0) =~= out@);
            assert(big_endian(rest as nat, 0) + out@ =~= out@);
        },
    }
    out
}

/// An initialization vector always has the 16 bytes that AES asks for.
pub proof fn law_iv_has_sixteen_bytes(index: nat, custom: Option<Seq<u8>>)
    ensures
        segment_iv(index, custom).len() == 16,
{
    lemma_big_endian_len(index, 16);
}

// ── Decoy headers ────────────────────────────────────────────────────────

/// The length of an MPEG-TS packet.
pub const PACKET: usize = 188;

/// The byte that starts an MPEG-TS packet.
pub const SYNC: u8 = 0x47;

/// The last offset at which a payload is looked for.
pub const LAST_OFFSET: usize = 8000;

/// Whether five evenly spaced packets start at offset `j`.
pub open spec fn packets_at(data: Seq<u8>, j: int) -> bool {
    &&& 0 <= j
    &&& j + 4 * PACKET < data.len()
    &&& data[j] == SYNC
    &&& data[j + PACKET] == SYNC
    &&& data[j + 2 * PACKET] == SYNC
    &&& data[j + 3 * PACKET] == SYNC
    &&& data[j + 4 * PACKET] == SYNC
}

/// The first offset at or after `from`, and within reach, where packets start.
pub open spec fn first_packets(data: Seq<u8>, from: int) -> Option<int>
    decreases LAST_OFFSET + 1 - from,
{
    if from > LAST_OFFSET || from + 4 * PACKET >= data.len() {
        None
    } else if packets_at(data, from) {
        Some(from)
    } else {
        first_packets(data, from + 1)
    }
}

/// The media in a segment: all of it where it starts with a packet; otherwise
/// what follows a decoy header, or nothing where no packets are found.
pub open spec fn payload(data: Seq<u8>) -> Seq<u8> {
    if data.len() == 0 || data[0] == SYNC {
        data
    } else {
        match first_packets(data, 0) {
            Some(j) => data.skip(j),
            None => Seq::empty(),
        }
    }
}

/// Find the first MPEG-TS sync byte that starts a run of five evenly spaced
/// packets and return the payload from there.
pub fn strip_fake_header(data: &[u8]) -> (r: &[u8])
    ensures
        r@ == payload(data@),
{
    if data.len() == 0 {
        return data;
    }
    if data[0] == SYNC {
        return data;
    }
    let mut j: usize = 0;
    while j <= LAST_OFFSET && data.len() > 4 * PACKET && j < data.len() - 4 * PACKET
        invariant
            j <= LAST_OFFSET + 1,
            data@.len() > 0,
            data@[0] != SYNC,
            first_packets(data@, 0) == first_packets(data@, j as int),
        decreases LAST_OFFSET + 1 - j,
    {
        if data[j] == SYNC && data[j + PACKET] == SYNC && data[j + 2 * PACKET] == SYNC && data[j + 3
            * PACKET] == SYNC && data[j + 4 * PACKET] == SYNC {
            let r = slice_subrange(data, j, data.len());
            assert(r@ =~= data@.skip(j as int));
            return r;
        }
        j += 1;
    }
    let r = slice_subrange(data, 0, 0);
    assert(r@ =~= Seq::<u8>::empty());
    r
}

proof fn lemma_first_packets(data: Seq<u8>, from: int)
    requires
        0 <= from,
    ensures
        match first_packets(data, from) {
            Some(j) => from <= j <= LAST_OFFSET && packets_at(data, j) && forall|k: int|
                from <= k < j ==> !packets_at(data, k),
            None => forall|k: int| from <= k <= LAST_OFFSET ==> !packets_at(data, k),
        },
    decreases LAST_OFFSET + 1 - from,
{
    if from > LAST_OFFSET || from + 4 * PACKET >= data.len() {
    } else if !packets_at(data, from) {
        lemma_first_packets(data, from + 1);
    }
}

/// What is left of a segment is a suffix of it that starts with a sync byte, or
/// nothing; and a decoy header of up to the permitted length in front of a run
/// of packets is always found.
pub proof fn law_payload_starts_with_a_packet(data: Seq<u8>)
    ensures
        payload(data).len() > 0 ==> payload(data)[0] == SYNC && exists|j: int|
            0 <= j <= data.len() && payload(data) == #[trigger] data.skip(j),
        forall|j: int|
            0 <= j <= LAST_OFFSET && #[trigger] packets_at(data, j) ==> payload(data).len() > 0,
{
    lemma_first_packets(data, 0);
    if data.len() > 0 && data[0] == SYNC {
        assert(payload(data) =~= data.skip(0));
    }
}

/// Stripping is idempotent: there is nothing left to strip in a payload.
pub proof fn law_payload_is_stable(data: Seq<u8>)
    ensures
        payload(payload(data)) == payload(data),
{
    law_payload_starts_with_a_packet(data);
}

// ── Hints ────────────────────────────────────────────────────────────────

/// The error text with the hint that a cookie may be needed, where the error
/// looks like a rejection that a cookie could cure.
pub open spec fn hinted(err: Seq<char>) -> Seq<char> {
    let l = ascii_lower(err);
    if !contains(l, "media request"@) && (spec_challenge_error(err) || contains(l, "forbidden"@)) {
        err
            + " (Cloudflare rejected the request — a fresh cf_clearance cookie may be needed)"@
    } else {
        err
    }
}

/// Append an actionable hint when an error looks like a Cloudflare block.
pub fn cloudflare_hint(err: &str) -> (r: String)
    ensures
        r@ == hinted(err@),
{
    let v = to_chars(err);
    let l = lower_chars(v.as_slice());
    let media = has(l.as_slice(), to_chars("media request").as_slice());
    let blocked = is_challenge_error(err) || has(l.as_slice(), to_chars("forbidden").as_slice());
    if !media && blocked {
        crate::text::join2(
            err,
            " (Cloudflare rejected the request — a fresh cf_clearance cookie may be needed)",
        )
    } else {
        from_chars(v.as_slice())
    }
}

// ── Speed ────────────────────────────────────────────────────────────────

/// Sliding-window download speed estimator over `(time, bytes so far)` samples.
/// Times are nanoseconds on any monotonic clock.
pub struct SpeedTracker {
    samples: VecDeque<(u64, u64)>,
    window: u64,
}

/// `s` without the leading samples that are more than `window` older than `now`.
pub open spec fn within_window(s: Seq<(u64, u64)>, now: u64, window: u64) -> Seq<(u64, u64)>
    decreases s.len(),
{
    if s.len() > 0 && now - s[0].0 > window {
        within_window(s.skip(1), now, window)
    } else {
        s
    }
}

/// The bytes and the time between the first and the last of some samples.
pub open spec fn spec_rate(s: Seq<(u64, u64)>) -> Option<(u64, u64)> {
    if s.len() < 2 || s.last().0 <= s[0].0 {
        None
    } else {
        Some(
            (
                if s.last().1 > s[0].1 {
                    (s.last().1 - s[0].1) as u64
                } else {
                    0
                },
                (s.last().0 - s[0].0) as u64,
            ),
        )
    }
}

impl SpeedTracker {
    /// The samples that are kept, oldest first.
    pub closed spec fn samples(&self) -> Seq<(u64, u64)> {
        self.samples@
    }

    /// The length of the window.
    pub closed spec fn window(&self) -> u64 {
        self.window
    }

    /// A tracker without samples over a window of that many nanoseconds.
    pub fn new(window: u64) -> (r: Self)
        ensures
            r.samples() == Seq::<(u64, u64)>::empty(),
            r.window() == window,
    {
        SpeedTracker { samples: VecDeque::new(), window }
    }

    /// Add a sample and forget those that have left the window.
    pub fn add_sample(&mut self, now: u64, bytes: u64)
        ensures
            final(self).window() == old(self).window(),
            final(self).samples() == within_window(
                old(self).samples().push((now, bytes)),
                now,
                old(self).window(),
            ),
    {
        self.samples.push_back((now, bytes));
        let ghost all = self.samples@;
        while self.samples.len() > 0 && now > self.samples[0].0 && now - self.samples[0].0
            > self.window
            invariant
                self.window == old(self).window,
                within_window(all, now, self.window) == within_window(
                    self.samples@,
                    now,
                    self.window,
                ),
            decreases self.samples@.len(),
        {
            let ghost before = self.samples@;
            let _ = self.samples.pop_front();
            assert(self.samples@ =~= before.skip(1));
        }
    }

    /// The bytes and the nanoseconds between the first and the last sample;
    /// `None` until there is enough data.
    pub fn rate(&self) -> (r: Option<(u64, u64)>)
        ensures
            r == spec_rate(self.samples()),
    {
        let n = self.samples.len();
        if n < 2 {
            return None;
        }
        let first = self.samples[0];
        let last = self.samples[n - 1];
        if last.0 <= first.0 {
            return None;
        }
        Some((last.1.saturating_sub(first.1), last.0 - first.0))
    }
}

} // verus!
