//! HLS playlist parsing.
//!
//! Handles master playlists (variant selection), media playlists, fMP4 init
//! segments, byte ranges and AES-128 key declarations. Segments are not
//! assumed to be MPEG-TS: they may be `.m4s`, ADTS AAC, or extension-less
//! URLs with query strings.
use vstd::prelude::*;
use crate::jav::util::{
    byte_number, iv_for_segment, law_ivs_are_numbers_or_explicit, opt_bytes, parse_hex, segment_iv,
    spec_parse_hex,
};
use crate::outside::std_text::{
    number_problem, to_lowercase, to_uppercase, u64_error, unicode_lower, unicode_upper,
};
use crate::outside::url::{join, url_join};
use crate::text::{
    begins, char_is_space, char_views, clone_opt, copy_range, digits_at_most, from_chars, index_of,
    is_space, line_list, lines, opt_view, parse_digits, parse_unsigned, position,
    same, split, split_char, starts_with, strip_leading, to_chars, trim, trim_chars,
    trim_start, trim_start_char, trim_start_chars, unsigned_at_most, views,
};

verus! {

// ── Types ────────────────────────────────────────────────────────────────

/// The key and initialization vector of an encrypted segment.
#[derive(Debug, Clone, PartialEq, Eq)]
pub struct Encryption {
    pub key_url: String,
    pub iv: [u8; 16],
}

/// One media segment (or init segment) of an HLS playlist.
#[derive(Debug, Clone, PartialEq, Eq)]
pub struct Segment {
    pub url: String,
    /// `(start, length)` from `#EXT-X-BYTERANGE:length@start`.
    pub byte_range: Option<(u64, u64)>,
    pub encryption: Option<Encryption>,
}

/// What a segment holds: its URL, its byte range, and the URL of its key with
/// the initialization vector.
pub struct SegmentView {
    pub url: Seq<char>,
    pub byte_range: Option<(u64, u64)>,
    pub encryption: Option<(Seq<char>, Seq<u8>)>,
}

impl View for Segment {
    type V = SegmentView;

    open spec fn view(&self) -> SegmentView {
        SegmentView {
            url: self.url@,
            byte_range: self.byte_range,
            encryption: match self.encryption {
                Some(e) => Some((e.key_url@, e.iv@)),
                None => None,
            },
        }
    }
}

/// One quality of a stream, as a master playlist offers it.
#[derive(Debug, Clone)]
pub struct Variant {
    pub uri: String,
    pub bandwidth: Option<usize>,
    pub resolution: Option<(usize, usize)>,
    pub audio_group: Option<String>,
}

/// What a variant holds.
pub struct VariantView {
    pub uri: Seq<char>,
    pub bandwidth: Option<usize>,
    pub resolution: Option<(usize, usize)>,
    pub audio_group: Option<Seq<char>>,
}

impl View for Variant {
    type V = VariantView;

    open spec fn view(&self) -> VariantView {
        VariantView {
            uri: self.uri@,
            bandwidth: self.bandwidth,
            resolution: self.resolution,
            audio_group: opt_view(self.audio_group),
        }
    }
}

/// The views of a list of segments.
pub open spec fn segment_views(v: Seq<Segment>) -> Seq<SegmentView> {
    Seq::new(v.len(), |i: int| v[i]@)
}

/// The view of an optional segment.
pub open spec fn opt_segment(o: Option<Segment>) -> Option<SegmentView> {
    match o {
        Some(s) => Some(s@),
        None => None,
    }
}

/// The views of a list of variants.
pub open spec fn variant_views(v: Seq<Variant>) -> Seq<VariantView> {
    Seq::new(v.len(), |i: int| v[i]@)
}

/// A media playlist.
#[derive(Debug)]
pub struct M3u8Info {
    /// Selected media playlist and its advertised quality, when available.
    pub variant: Variant,
    pub segments: Vec<Segment>,
    /// fMP4 init segment from `#EXT-X-MAP`, prepended when merging.
    pub init_segment: Option<Segment>,
    /// The selected external audio rendition, if audio is not muxed in video.
    pub audio: Option<Box<M3u8Info>>,
    /// The durations, in seconds and as they are written, of the segments that
    /// declare one.
    pub durations: Vec<String>,
}

/// Why a playlist cannot be used.
#[derive(Debug, Clone, PartialEq, Eq)]
pub enum PlaylistError {
    /// The media sequence is no number, for that reason.
    InvalidSequence(String),
    UnsupportedKeyFormat,
    MissingKeyUri,
    /// A reference does not resolve, for that reason.
    InvalidUrl(String),
    InvalidIv,
    UnsupportedMethod,
    DuplicateByteRange,
    InvalidByteRange,
    InitNeedsIv,
    ChangingInit,
    SequenceOverflow,
    NoRenditions,
}

/// What an error of a playlist is.
pub enum PlaylistFault {
    InvalidSequence(Seq<char>),
    UnsupportedKeyFormat,
    MissingKeyUri,
    InvalidUrl(Seq<char>),
    InvalidIv,
    UnsupportedMethod,
    DuplicateByteRange,
    InvalidByteRange,
    InitNeedsIv,
    ChangingInit,
    SequenceOverflow,
    NoRenditions,
}

impl View for PlaylistError {
    type V = PlaylistFault;

    open spec fn view(&self) -> PlaylistFault {
        match *self {
            PlaylistError::InvalidSequence(m) => PlaylistFault::InvalidSequence(m@),
            PlaylistError::UnsupportedKeyFormat => PlaylistFault::UnsupportedKeyFormat,
            PlaylistError::MissingKeyUri => PlaylistFault::MissingKeyUri,
            PlaylistError::InvalidUrl(m) => PlaylistFault::InvalidUrl(m@),
            PlaylistError::InvalidIv => PlaylistFault::InvalidIv,
            PlaylistError::UnsupportedMethod => PlaylistFault::UnsupportedMethod,
            PlaylistError::DuplicateByteRange => PlaylistFault::DuplicateByteRange,
            PlaylistError::InvalidByteRange => PlaylistFault::InvalidByteRange,
            PlaylistError::InitNeedsIv => PlaylistFault::InitNeedsIv,
            PlaylistError::ChangingInit => PlaylistFault::ChangingInit,
            PlaylistError::SequenceOverflow => PlaylistFault::SequenceOverflow,
            PlaylistError::NoRenditions => PlaylistFault::NoRenditions,
        }
    }
}

impl PlaylistFault {
    /// What the error is called in a message. A number or a reference that cannot
    /// be read has no words but those of its reader.
    pub open spec fn text(self) -> Seq<char> {
        match self {
            PlaylistFault::InvalidSequence(m) => m,
            PlaylistFault::UnsupportedKeyFormat => "unsupported HLS key format"@,
            PlaylistFault::MissingKeyUri => "AES key URI is missing"@,
            PlaylistFault::InvalidUrl(m) => m,
            PlaylistFault::InvalidIv => "invalid AES IV"@,
            PlaylistFault::UnsupportedMethod => "unsupported HLS encryption method"@,
            PlaylistFault::DuplicateByteRange => "duplicate HLS byte range"@,
            PlaylistFault::InvalidByteRange => "invalid HLS byte range"@,
            PlaylistFault::InitNeedsIv => "encrypted HLS init segment requires an explicit IV"@,
            PlaylistFault::ChangingInit => "changing HLS init segments are not supported"@,
            PlaylistFault::SequenceOverflow => "HLS media sequence overflow"@,
            PlaylistFault::NoRenditions => "HLS audio group has no renditions"@,
        }
    }
}

impl PlaylistError {
    /// What the error is called in a message.
    pub fn message(&self) -> (r: String)
        ensures
            r@ == self@.text(),
    {
        match self {
            PlaylistError::InvalidSequence(m) => m.as_str().to_owned(),
            PlaylistError::UnsupportedKeyFormat => "unsupported HLS key format".to_owned(),
            PlaylistError::MissingKeyUri => "AES key URI is missing".to_owned(),
            PlaylistError::InvalidUrl(m) => m.as_str().to_owned(),
            PlaylistError::InvalidIv => "invalid AES IV".to_owned(),
            PlaylistError::UnsupportedMethod => "unsupported HLS encryption method".to_owned(),
            PlaylistError::DuplicateByteRange => "duplicate HLS byte range".to_owned(),
            PlaylistError::InvalidByteRange => "invalid HLS byte range".to_owned(),
            PlaylistError::InitNeedsIv => {
                "encrypted HLS init segment requires an explicit IV".to_owned()
            },
            PlaylistError::ChangingInit => {
                "changing HLS init segments are not supported".to_owned()
            },
            PlaylistError::SequenceOverflow => "HLS media sequence overflow".to_owned(),
            PlaylistError::NoRenditions => "HLS audio group has no renditions".to_owned(),
        }
    }
}

// ── Byte ranges ──────────────────────────────────────────────────────────

/// The exclusive end of a byte range, where the range is not empty and its end
/// fits.
pub open spec fn spec_byte_range_end(start: u64, length: u64) -> Option<u64> {
    if length > 0 && start + length <= u64::MAX {
        Some((start + length) as u64)
    } else {
        None
    }
}

/// Exclusive end, shared by playlist continuation and HTTP range validation.
pub fn byte_range_end(start: u64, length: u64) -> (r: Result<u64, PlaylistError>)
    ensures
        match spec_byte_range_end(start, length) {
            Some(end) => r == Ok::<u64, PlaylistError>(end),
            None => r == Err::<u64, PlaylistError>(PlaylistError::InvalidByteRange),
        },
{
    match start.checked_add(length) {
        Some(end) => if length > 0 {
            Ok(end)
        } else {
            Err(PlaylistError::InvalidByteRange)
        },
        None => Err(PlaylistError::InvalidByteRange),
    }
}

/// `(start, length)` of a range written `length@start`, or `length` alone where
/// it continues at `last_end`.
pub open spec fn spec_byterange(value: Seq<char>, last_end: Option<u64>) -> Option<(u64, u64)> {
    let parts = split(trim(value), '@');
    let length = parse_digits(trim(parts[0]), u64::MAX as nat);
    let start = if parts.len() == 1 {
        match last_end {
            Some(e) => Some(e as nat),
            None => Some(0nat),
        }
    } else {
        parse_digits(trim(parts[1]), u64::MAX as nat)
    };
    match (length, start) {
        (Some(n), Some(s)) => if parts.len() <= 2 && spec_byte_range_end(
            s as u64,
            n as u64,
        ) is Some {
            Some((s as u64, n as u64))
        } else {
            None
        },
        _ => None,
    }
}

/// Parse an unquoted `BYTERANGE` value (`82112@752`, or `82112` when the
/// range continues from the previous one).
pub fn parse_byterange_attr(value: &[char], last_end: Option<u64>) -> (r: Result<
    (u64, u64),
    PlaylistError,
>)
    ensures
        match spec_byterange(value@, last_end) {
            Some(range) => r == Ok::<(u64, u64), PlaylistError>(range),
            None => r == Err::<(u64, u64), PlaylistError>(PlaylistError::InvalidByteRange),
        },
{
    let trimmed = trim_chars(value);
    let parts = split_char(trimmed.as_slice(), '@');
    let ghost pieces = split(trim(value@), '@');
    assert(char_views(parts@) == pieces);
    assert(pieces[0] == parts@[0]@);
    if parts.len() > 2 {
        return Err(PlaylistError::InvalidByteRange);
    }
    let length = match digits_at_most(trim_chars(parts[0].as_slice()).as_slice(), u64::MAX) {
        Some(n) => n,
        None => {
            return Err(PlaylistError::InvalidByteRange);
        },
    };
    let start = if parts.len() == 1 {
        match last_end {
            Some(e) => e,
            None => 0,
        }
    } else {
        assert(pieces[1] == parts@[1]@);
        match digits_at_most(trim_chars(parts[1].as_slice()).as_slice(), u64::MAX) {
            Some(n) => n,
            None => {
                return Err(PlaylistError::InvalidByteRange);
            },
        }
    };
    match byte_range_end(start, length) {
        Ok(_) => Ok((start, length)),
        Err(e) => Err(e),
    }
}

// ── Attribute lists ──────────────────────────────────────────────────────

/// The value of `NAME="value"` where it stands at the front of `s`.
pub open spec fn quoted_here(s: Seq<char>, name: Seq<char>) -> Option<Seq<char>> {
    let t = trim_start(s);
    if starts_with(t, name + seq!['=', '"']) {
        let v = t.skip(name.len() as int + 2);
        let e = index_of(v, '"', 0);
        if 0 < e < v.len() {
            Some(v.take(e))
        } else {
            None
        }
    } else {
        None
    }
}

/// The value of the first `NAME="value"` at the front of `s` or behind a comma.
pub open spec fn quoted_attr(s: Seq<char>, name: Seq<char>) -> Option<Seq<char>>
    decreases s.len(),
{
    let c = index_of(s, ',', 0);
    match quoted_here(s, name) {
        Some(v) => Some(v),
        None => if 0 <= c < s.len() {
            quoted_attr(s.skip(c + 1), name)
        } else {
            None
        },
    }
}

/// The end of an unquoted value that is looked at from `i` on.
pub open spec fn plain_end(v: Seq<char>, i: int) -> int
    decreases v.len() - i,
{
    if 0 <= i < v.len() && v[i] != ',' && !is_space(v[i]) {
        plain_end(v, i + 1)
    } else {
        i
    }
}

/// The value of `NAME=value` where it stands at the front of `s`.
pub open spec fn plain_here(s: Seq<char>, name: Seq<char>) -> Option<Seq<char>> {
    let t = trim_start(s);
    if starts_with(t, name + seq!['=']) {
        let v = t.skip(name.len() as int + 1);
        let e = plain_end(v, 0);
        if 0 < e {
            Some(v.take(e))
        } else {
            None
        }
    } else {
        None
    }
}

/// The value of the first `NAME=value` at the front of `s` or behind a comma.
pub open spec fn plain_attr(s: Seq<char>, name: Seq<char>) -> Option<Seq<char>>
    decreases s.len(),
{
    let c = index_of(s, ',', 0);
    match plain_here(s, name) {
        Some(v) => Some(v),
        None => if 0 <= c < s.len() {
            plain_attr(s.skip(c + 1), name)
        } else {
            None
        },
    }
}

fn find_quoted_here(s: &[char], name: &[char]) -> (r: Option<Vec<char>>)
    ensures
        match r {
            Some(v) => quoted_here(s@, name@) == Some(v@),
            None => quoted_here(s@, name@) is None,
        },
{
    let t = trim_start_chars(s);
    let mut pat = copy_range(name, 0, name.len());
    assert(pat@ =~= name@);
    pat.push('=');
    pat.push('"');
    assert(pat@ =~= name@ + seq!['=', '"']);
    if !begins(t.as_slice(), pat.as_slice()) {
        return None;
    }
    let v = copy_range(t.as_slice(), pat.len(), t.len());
    assert(v@ =~= t@.skip(name@.len() as int + 2));
    let e = position(v.as_slice(), '"', 0);
    if e == 0 || e == v.len() {
        return None;
    }
    let r = copy_range(v.as_slice(), 0, e);
    assert(r@ =~= v@.take(e as int));
    Some(r)
}

/// Extract a quoted attribute such as `URI="init.mp4"`.
pub fn extract_attr(attrs: &[char], name: &str) -> (r: Option<String>)
    ensures
        opt_view(r) == quoted_attr(attrs@, name@),
{
    let n = to_chars(name);
    let mut from: usize = 0;
    assert(attrs@.skip(0) =~= attrs@);
    loop
        invariant
            n@ == name@,
            from <= attrs@.len(),
            quoted_attr(attrs@, name@) == quoted_attr(attrs@.skip(from as int), name@),
        decreases attrs@.len() - from,
    {
        let rest = copy_range(attrs, from, attrs.len());
        assert(rest@ =~= attrs@.skip(from as int));
        match find_quoted_here(rest.as_slice(), n.as_slice()) {
            Some(v) => {
                return Some(from_chars(v.as_slice()));
            },
            None => {},
        }
        let c = position(rest.as_slice(), ',', 0);
        if c == rest.len() {
            return None;
        }
        assert(rest@.skip(c + 1) =~= attrs@.skip(from + c + 1));
        from = from + c + 1;
    }
}

fn find_plain_here(s: &[char], name: &[char]) -> (r: Option<Vec<char>>)
    ensures
        match r {
            Some(v) => plain_here(s@, name@) == Some(v@),
            None => plain_here(s@, name@) is None,
        },
{
    let t = trim_start_chars(s);
    let mut pat = copy_range(name, 0, name.len());
    assert(pat@ =~= name@);
    pat.push('=');
    assert(pat@ =~= name@ + seq!['=']);
    if !begins(t.as_slice(), pat.as_slice()) {
        return None;
    }
    let v = copy_range(t.as_slice(), pat.len(), t.len());
    assert(v@ =~= t@.skip(name@.len() as int + 1));
    let mut e: usize = 0;
    while e < v.len() && v[e] != ',' && !char_is_space(v[e])
        invariant
            e <= v@.len(),
            plain_end(v@, 0) == plain_end(v@, e as int),
        decreases v@.len() - e,
    {
        e += 1;
    }
    if e == 0 {
        return None;
    }
    let r = copy_range(v.as_slice(), 0, e);
    assert(r@ =~= v@.take(e as int));
    Some(r)
}

/// Extract an unquoted attribute such as `METHOD=AES-128`.
pub fn extract_unquoted_attr(attrs: &[char], name: &str) -> (r: Option<String>)
    ensures
        opt_view(r) == plain_attr(attrs@, name@),
{
    let n = to_chars(name);
    let mut from: usize = 0;
    assert(attrs@.skip(0) =~= attrs@);
    loop
        invariant
            n@ == name@,
            from <= attrs@.len(),
            plain_attr(attrs@, name@) == plain_attr(attrs@.skip(from as int), name@),
        decreases attrs@.len() - from,
    {
        let rest = copy_range(attrs, from, attrs.len());
        assert(rest@ =~= attrs@.skip(from as int));
        match find_plain_here(rest.as_slice(), n.as_slice()) {
            Some(v) => {
                return Some(from_chars(v.as_slice()));
            },
            None => {},
        }
        let c = position(rest.as_slice(), ',', 0);
        if c == rest.len() {
            return None;
        }
        assert(rest@.skip(c + 1) =~= attrs@.skip(from + c + 1));
        from = from + c + 1;
    }
}

/// Whether an attribute that was extracted has the given value.
fn attr_is(value: &Option<String>, expected: &str) -> (r: bool)
    ensures
        r == (opt_view(*value) == Some(expected@)),
{
    match value {
        Some(v) => crate::text::same_str(v.as_str(), expected),
        None => false,
    }
}

// ── Media playlists ──────────────────────────────────────────────────────

/// What has been read of a media playlist.
pub struct MediaState {
    pub segments: Seq<SegmentView>,
    pub init: Option<SegmentView>,
    /// The key that applies to the segments that follow.
    pub key: Option<Seq<char>>,
    /// The explicit initialization vector that applies with it.
    pub iv: Option<Seq<u8>>,
    /// The media sequence number of the next segment.
    pub sequence: nat,
    /// The byte range declared for the next segment.
    pub pending_range: Option<(u64, u64)>,
    /// Where a byte range without a start continues.
    pub last_end: Option<u64>,
    pub durations: Seq<Seq<char>>,
    /// The duration declared for the next segment.
    pub pending_duration: Option<Seq<char>>,
}

/// Nothing has been read.
pub open spec fn media_start() -> MediaState {
    MediaState {
        segments: Seq::empty(),
        init: None,
        key: None,
        iv: None,
        sequence: 0,
        pending_range: None,
        last_end: None,
        durations: Seq::empty(),
        pending_duration: None,
    }
}

/// The encryption of segment number `index` under the key in force.
pub open spec fn in_force(st: MediaState, index: nat) -> Option<(Seq<char>, Seq<u8>)> {
    match st.key {
        Some(k) => Some((k, segment_iv(index, st.iv))),
        None => None,
    }
}

/// `s` behind the prefix `p`; nothing where `s` does not begin with it.
pub open spec fn after(s: Seq<char>, p: Seq<char>) -> Seq<char> {
    if starts_with(s, p) {
        s.skip(p.len() as int)
    } else {
        Seq::empty()
    }
}

/// A key declaration replaces the key in force.
pub open spec fn key_line(st: MediaState, attrs: Seq<char>, base: Seq<char>) -> Result<
    MediaState,
    PlaylistFault,
> {
    let method = plain_attr(attrs, "METHOD"@);
    let format = quoted_attr(attrs, "KEYFORMAT"@);
    let uri = quoted_attr(attrs, "URI"@);
    let iv = plain_attr(attrs, "IV"@);
    if method == Some("NONE"@) {
        Ok(MediaState { key: None, iv: None, ..st })
    } else if method != Some("AES-128"@) {
        Err(PlaylistFault::UnsupportedMethod)
    } else if format is Some && format != Some("identity"@) {
        Err(PlaylistFault::UnsupportedKeyFormat)
    } else if uri is None {
        Err(PlaylistFault::MissingKeyUri)
    } else if url_join(base, uri->0) is Err {
        Err(PlaylistFault::InvalidUrl(url_join(base, uri->0)->Err_0))
    } else {
        let key = Some(url_join(base, uri->0)->Ok_0);
        match iv {
            None => Ok(MediaState { key, iv: None, ..st }),
            Some(text) => match spec_parse_hex(text) {
                Some(bytes) => if bytes.len() <= 16 {
                    Ok(MediaState { key, iv: Some(bytes), ..st })
                } else {
                    Err(PlaylistFault::InvalidIv)
                },
                None => Err(PlaylistFault::InvalidIv),
            },
        }
    }
}

/// The first comma from `i` on that stands outside quotes; the length of `s`
/// where there is none.
pub open spec fn outer_comma(s: Seq<char>, i: int, quoted: bool) -> int
    decreases s.len() - i,
{
    if i < 0 || i >= s.len() {
        s.len() as int
    } else if s[i] == '"' {
        outer_comma(s, i + 1, !quoted)
    } else if s[i] == ',' && !quoted {
        i
    } else {
        outer_comma(s, i + 1, quoted)
    }
}

/// The attributes of a list: its pieces between the commas outside quotes.
pub open spec fn outer_pieces(s: Seq<char>) -> Seq<Seq<char>>
    decreases s.len(),
{
    let e = outer_comma(s, 0, false);
    if 0 <= e < s.len() {
        seq![s.take(e)] + outer_pieces(s.skip(e + 1))
    } else {
        seq![s]
    }
}

/// `name` and `value` of an attribute; no value where there is no equals sign.
pub open spec fn attr_parts(attr: Seq<char>) -> (Seq<char>, Seq<char>) {
    let e = index_of(attr, '=', 0);
    if e < attr.len() {
        (attr.take(e), attr.skip(e + 1))
    } else {
        (attr, Seq::empty())
    }
}

/// What stands between the quotes of a quoted value.
pub open spec fn unquoted(value: Seq<char>) -> Option<Seq<char>> {
    if value.len() >= 2 && value[0] == '"' && value.last() == '"' {
        Some(value.subrange(1, value.len() - 1))
    } else {
        None
    }
}

/// The byte range among the attributes of an init segment: at most one.
pub open spec fn map_range(
    pieces: Seq<Seq<char>>,
    found: Option<(u64, u64)>,
    last_end: Option<u64>,
) -> Result<Option<(u64, u64)>, PlaylistFault>
    decreases pieces.len(),
{
    if pieces.len() == 0 {
        Ok(found)
    } else {
        let parts = attr_parts(pieces[0]);
        if trim(parts.0) != "BYTERANGE"@ {
            map_range(pieces.skip(1), found, last_end)
        } else if found is Some {
            Err(PlaylistFault::DuplicateByteRange)
        } else {
            match unquoted(trim(parts.1)) {
                Some(v) => match spec_byterange(v, last_end) {
                    Some(range) => map_range(pieces.skip(1), Some(range), last_end),
                    None => Err(PlaylistFault::InvalidByteRange),
                },
                None => Err(PlaylistFault::InvalidByteRange),
            }
        }
    }
}

/// A declaration of the init segment.
pub open spec fn map_line(st: MediaState, attrs: Seq<char>, base: Seq<char>) -> Result<
    MediaState,
    PlaylistFault,
> {
    match quoted_attr(attrs, "URI"@) {
        None => Ok(st),
        Some(uri) => match url_join(base, uri) {
            Err(e) => Err(PlaylistFault::InvalidUrl(e)),
            Ok(url) => match map_range(outer_pieces(attrs), None, st.last_end) {
                Err(e) => Err(e),
                Ok(range) => {
                    let last_end = match range {
                        Some(r) => Some((r.0 + r.1) as u64),
                        None => st.last_end,
                    };
                    let init = SegmentView {
                        url,
                        byte_range: range,
                        encryption: in_force(st, 0),
                    };
                    if st.key is Some && st.iv is None {
                        Err(PlaylistFault::InitNeedsIv)
                    } else if st.init is Some && st.init != Some(init) {
                        Err(PlaylistFault::ChangingInit)
                    } else {
                        Ok(MediaState { init: Some(init), last_end, ..st })
                    }
                },
            },
        },
    }
}

/// A declaration of the next segment's byte range.
pub open spec fn range_line(st: MediaState, value: Seq<char>) -> Result<MediaState, PlaylistFault> {
    match spec_byterange(value, st.last_end) {
        Some(range) => Ok(
            MediaState {
                pending_range: Some(range),
                last_end: Some((range.0 + range.1) as u64),
                ..st
            },
        ),
        None => Err(PlaylistFault::InvalidByteRange),
    }
}

/// The URI of a segment: the segment takes what was declared for it, and the
/// next one has the next sequence number.
pub open spec fn uri_line(st: MediaState, line: Seq<char>, base: Seq<char>) -> Result<
    MediaState,
    PlaylistFault,
> {
    match url_join(base, line) {
        Err(e) => Err(PlaylistFault::InvalidUrl(e)),
        Ok(url) => if st.sequence + 1 > usize::MAX {
            Err(PlaylistFault::SequenceOverflow)
        } else {
            Ok(
                MediaState {
                    segments: st.segments.push(
                        SegmentView {
                            url,
                            byte_range: st.pending_range,
                            encryption: in_force(st, st.sequence),
                        },
                    ),
                    pending_range: None,
                    sequence: st.sequence + 1,
                    durations: match st.pending_duration {
                        Some(d) => st.durations.push(d),
                        None => st.durations,
                    },
                    pending_duration: None,
                    ..st
                },
            )
        },
    }
}

/// A line of a playlist without the white space around it and without byte
/// order marks in front.
pub open spec fn clean_line(line: Seq<char>) -> Seq<char> {
    trim_start_char(trim(line), '\u{feff}')
}

/// A number that no machine word holds.
pub const TOO_LARGE: &'static str = "18446744073709551616";

/// What is said of a number that cannot be read: what is wrong with it, or that
/// it is too large.
pub open spec fn number_fault(value: Seq<char>) -> Seq<char> {
    match (u64_error(value), u64_error(TOO_LARGE@)) {
        (Some(m), _) => m,
        (None, Some(m)) => m,
        (None, None) => Seq::empty(),
    }
}

/// What one line does to what has been read. Comments and tags that are not
/// known do nothing.
pub open spec fn media_line(st: MediaState, raw: Seq<char>, base: Seq<char>) -> Result<
    MediaState,
    PlaylistFault,
> {
    let line = clean_line(raw);
    if line.len() == 0 {
        Ok(st)
    } else if line[0] != '#' {
        uri_line(st, line, base)
    } else if starts_with(line, "#EXTINF:"@) {
        let rest = after(line, "#EXTINF:"@);
        Ok(
            MediaState {
                pending_duration: Some(trim(rest.take(index_of(rest, ',', 0)))),
                ..st
            },
        )
    } else if starts_with(line, "#EXT-X-MEDIA-SEQUENCE:"@) {
        let value = trim(after(line, "#EXT-X-MEDIA-SEQUENCE:"@));
        match parse_unsigned(value, usize::MAX as nat) {
            Some(n) => Ok(MediaState { sequence: n, ..st }),
            None => Err(PlaylistFault::InvalidSequence(number_fault(value))),
        }
    } else if starts_with(line, "#EXT-X-KEY:"@) {
        key_line(st, after(line, "#EXT-X-KEY:"@), base)
    } else if starts_with(line, "#EXT-X-MAP"@) {
        map_line(st, trim(after(line, "#EXT-X-MAP:"@)), base)
    } else if starts_with(line, "#EXT-X-BYTERANGE"@) {
        range_line(st, after(line, "#EXT-X-BYTERANGE:"@))
    } else {
        Ok(st)
    }
}

/// What some lines do to what has been read; the first error ends the reading.
pub open spec fn media_lines(st: MediaState, ls: Seq<Seq<char>>, base: Seq<char>) -> Result<
    MediaState,
    PlaylistFault,
>
    decreases ls.len(),
{
    if ls.len() == 0 {
        Ok(st)
    } else {
        match media_line(st, ls[0], base) {
            Ok(next) => media_lines(next, ls.skip(1), base),
            Err(e) => Err(e),
        }
    }
}

/// What a media playlist holds.
pub open spec fn media_playlist(text: Seq<char>, base: Seq<char>) -> Result<
    MediaState,
    PlaylistFault,
> {
    media_lines(media_start(), lines(text), base)
}

struct MediaReader {
    segments: Vec<Segment>,
    init: Option<Segment>,
    key: Option<String>,
    iv: Option<Vec<u8>>,
    sequence: usize,
    pending_range: Option<(u64, u64)>,
    last_end: Option<u64>,
    durations: Vec<String>,
    pending_duration: Option<String>,
}

/// `line` behind the prefix `p`; nothing where `line` does not begin with it.
fn rest_after(line: &[char], p: &str) -> (r: Vec<char>)
    ensures
        r@ == after(line@, p@),
{
    let pat = to_chars(p);
    if begins(line, pat.as_slice()) {
        let r = copy_range(line, pat.len(), line.len());
        assert(r@ =~= line@.skip(p@.len() as int));
        r
    } else {
        let r: Vec<char> = Vec::new();
        assert(r@ =~= Seq::<char>::empty());
        r
    }
}

fn attr_list(s: &[char]) -> (r: Vec<Vec<char>>)
    ensures
        char_views(r@) == outer_pieces(s@),
{
    let mut r: Vec<Vec<char>> = Vec::new();
    let mut from: usize = 0;
    assert(s@.skip(0) =~= s@);
    assert(char_views(r@) + outer_pieces(s@) =~= outer_pieces(s@));
    loop
        invariant
            from <= s@.len(),
            outer_pieces(s@) == char_views(r@) + outer_pieces(s@.skip(from as int)),
        decreases s@.len() - from,
    {
        let rest = copy_range(s, from, s.len());
        assert(rest@ =~= s@.skip(from as int));
        let mut i: usize = 0;
        let mut quoted = false;
        while i < rest.len() && !(rest[i] == ',' && !quoted)
            invariant
                i <= rest@.len(),
                outer_comma(rest@, 0, false) == outer_comma(rest@, i as int, quoted),
            decreases rest@.len() - i,
        {
            if rest[i] == '"' {
                quoted = !quoted;
            }
            i += 1;
        }
        let piece = copy_range(rest.as_slice(), 0, i);
        assert(piece@ =~= rest@.take(i as int));
        let ghost before = r@;
        r.push(piece);
        assert(char_views(r@) =~= char_views(before) + seq![piece@]);
        if i == rest.len() {
            assert(piece@ =~= rest@);
            assert(char_views(r@) =~= outer_pieces(s@));
            return r;
        }
        assert(rest@.skip(i + 1) =~= s@.skip(from + i + 1));
        assert(char_views(before) + (seq![piece@] + outer_pieces(s@.skip(from + i + 1)))
            =~= char_views(r@) + outer_pieces(s@.skip(from + i + 1)));
        from = from + i + 1;
    }
}

fn find_map_range(attrs: &[char], last_end: Option<u64>) -> (r: Result<
    Option<(u64, u64)>,
    PlaylistError,
>)
    ensures
        match r {
            Ok(range) => map_range(outer_pieces(attrs@), None, last_end) == Ok::<
                Option<(u64, u64)>,
                PlaylistFault,
            >(range),
            Err(e) => map_range(outer_pieces(attrs@), None, last_end) == Err::<
                Option<(u64, u64)>,
                PlaylistFault,
            >(e@),
        },
{
    let pieces = attr_list(attrs);
    let ghost all = outer_pieces(attrs@);
    let mut found: Option<(u64, u64)> = None;
    let mut i: usize = 0;
    assert(all.skip(0) =~= all);
    while i < pieces.len()
        invariant
            i <= pieces@.len(),
            all == char_views(pieces@),
            map_range(all, None, last_end) == map_range(all.skip(i as int), found, last_end),
            all == outer_pieces(attrs@),
        decreases pieces@.len() - i,
    {
        let attr = &pieces[i];
        assert(all.skip(i as int)[0] == attr@);
        assert(all.skip(i as int).skip(1) =~= all.skip(i + 1));
        let e = position(attr.as_slice(), '=', 0);
        let (name, value) = if e < attr.len() {
            let name = copy_range(attr.as_slice(), 0, e);
            let value = copy_range(attr.as_slice(), e + 1, attr.len());
            assert(name@ =~= attr@.take(e as int));
            assert(value@ =~= attr@.skip(e + 1));
            (name, value)
        } else {
            let name = copy_range(attr.as_slice(), 0, attr.len());
            let value: Vec<char> = Vec::new();
            assert(name@ =~= attr@);
            assert(value@ =~= Seq::<char>::empty());
            (name, value)
        };
        assert((name@, value@) == attr_parts(attr@));
        let name = trim_chars(name.as_slice());
        let value = trim_chars(value.as_slice());
        if same(name.as_slice(), to_chars("BYTERANGE").as_slice()) {
            if found.is_some() {
                return Err(PlaylistError::DuplicateByteRange);
            }
            if value.len() < 2 || value[0] != '"' || value[value.len() - 1] != '"' {
                return Err(PlaylistError::InvalidByteRange);
            }
            let inner = copy_range(value.as_slice(), 1, value.len() - 1);
            match parse_byterange_attr(inner.as_slice(), last_end) {
                Ok(range) => {
                    found = Some(range);
                },
                Err(e) => {
                    return Err(e);
                },
            }
        }
        i += 1;
    }
    Ok(found)
}

/// Whether two segments are the same in every field.
fn same_segment(a: &Segment, b: &Segment) -> (r: bool)
    ensures
        r == (a@ == b@),
{
    let range = match (a.byte_range, b.byte_range) {
        (Some(x), Some(y)) => x.0 == y.0 && x.1 == y.1,
        (None, None) => true,
        _ => false,
    };
    let key = match (&a.encryption, &b.encryption) {
        (Some(x), Some(y)) => {
            let mut iv = true;
            let mut i: usize = 0;
            while i < 16
                invariant
                    i <= 16,
                    x.iv@.len() == 16,
                    y.iv@.len() == 16,
                    iv == (forall|j: int| 0 <= j < i ==> x.iv@[j] == y.iv@[j]),
                decreases 16 - i,
            {
                if x.iv[i] != y.iv[i] {
                    iv = false;
                }
                i += 1;
            }
            assert(iv == (x.iv@ == y.iv@)) by {
                if iv {
                    assert(x.iv@ =~= y.iv@);
                }
            }
            iv && crate::text::same_str(x.key_url.as_str(), y.key_url.as_str())
        },
        (None, None) => true,
        _ => false,
    };
    range && key && crate::text::same_str(a.url.as_str(), b.url.as_str())
}

impl MediaReader {
    spec fn state(&self) -> MediaState {
        MediaState {
            segments: segment_views(self.segments@),
            init: opt_segment(self.init),
            key: opt_view(self.key),
            iv: opt_bytes(self.iv),
            sequence: self.sequence as nat,
            pending_range: self.pending_range,
            last_end: self.last_end,
            durations: views(self.durations@),
            pending_duration: opt_view(self.pending_duration),
        }
    }

    fn encryption(&self, index: usize) -> (r: Option<Encryption>)
        ensures
            match r {
                Some(e) => in_force(self.state(), index as nat) == Some((e.key_url@, e.iv@)),
                None => in_force(self.state(), index as nat) is None,
            },
    {
        match &self.key {
            Some(k) => Some(Encryption { key_url: k.clone(), iv: iv_for_segment(index, &self.iv) }),
            None => None,
        }
    }

    fn key(&mut self, attrs: &[char], base: &str) -> (r: Result<(), PlaylistError>)
        ensures
            match r {
                Ok(_) => key_line(old(self).state(), attrs@, base@) == Ok::<MediaState, PlaylistFault>(final(self).state()),
                Err(e) => key_line(old(self).state(), attrs@, base@) == Err::<MediaState, PlaylistFault>(e@),
            },
    {
        let method = extract_unquoted_attr(attrs, "METHOD");
        if attr_is(&method, "NONE") {
            self.key = None;
            self.iv = None;
            return Ok(());
        }
        if !attr_is(&method, "AES-128") {
            return Err(PlaylistError::UnsupportedMethod);
        }
        let format = extract_attr(attrs, "KEYFORMAT");
        if format.is_some() && !attr_is(&format, "identity") {
            return Err(PlaylistError::UnsupportedKeyFormat);
        }
        let uri = match extract_attr(attrs, "URI") {
            Some(u) => u,
            None => {
                return Err(PlaylistError::MissingKeyUri);
            },
        };
        let key = match join(base, uri.as_str()) {
            Ok(k) => k,
            Err(e) => {
                return Err(PlaylistError::InvalidUrl(e));
            },
        };
        match extract_unquoted_attr(attrs, "IV") {
            None => {
                self.iv = None;
            },
            Some(text) => match parse_hex(text.as_str()) {
                Some(bytes) => {
                    if bytes.len() > 16 {
                        return Err(PlaylistError::InvalidIv);
                    }
                    self.iv = Some(bytes);
                },
                None => {
                    return Err(PlaylistError::InvalidIv);
                },
            },
        }
        self.key = Some(key);
        Ok(())
    }

    fn map(&mut self, attrs: &[char], base: &str) -> (r: Result<(), PlaylistError>)
        ensures
            match r {
                Ok(_) => map_line(old(self).state(), attrs@, base@) == Ok::<MediaState, PlaylistFault>(final(self).state()),
                Err(e) => map_line(old(self).state(), attrs@, base@) == Err::<MediaState, PlaylistFault>(e@),
            },
    {
        let uri = match extract_attr(attrs, "URI") {
            Some(u) => u,
            None => {
                return Ok(());
            },
        };
        let url = match join(base, uri.as_str()) {
            Ok(u) => u,
            Err(e) => {
                return Err(PlaylistError::InvalidUrl(e));
            },
        };
        let range = match find_map_range(attrs, self.last_end) {
            Ok(r) => r,
            Err(e) => {
                return Err(e);
            },
        };
        proof {
            lemma_map_range(outer_pieces(attrs@), None, self.last_end);
        }
        let last_end = match range {
            Some((start, length)) => Some(start + length),
            None => self.last_end,
        };
        if self.key.is_some() && self.iv.is_none() {
            return Err(PlaylistError::InitNeedsIv);
        }
        let init = Segment { url, byte_range: range, encryption: self.encryption(0) };
        if let Some(previous) = &self.init {
            if !same_segment(previous, &init) {
                return Err(PlaylistError::ChangingInit);
            }
        }
        self.last_end = last_end;
        self.init = Some(init);
        Ok(())
    }

    fn range(&mut self, value: &[char]) -> (r: Result<(), PlaylistError>)
        ensures
            match r {
                Ok(_) => range_line(old(self).state(), value@) == Ok::<MediaState, PlaylistFault>(final(self).state()),
                Err(e) => range_line(old(self).state(), value@) == Err::<MediaState, PlaylistFault>(e@),
            },
    {
        match parse_byterange_attr(value, self.last_end) {
            Ok((start, length)) => {
                self.pending_range = Some((start, length));
                self.last_end = Some(start + length);
                Ok(())
            },
            Err(e) => Err(e),
        }
    }

    fn uri(&mut self, line: &[char], base: &str) -> (r: Result<(), PlaylistError>)
        ensures
            match r {
                Ok(_) => uri_line(old(self).state(), line@, base@) == Ok::<MediaState, PlaylistFault>(final(self).state()),
                Err(e) => uri_line(old(self).state(), line@, base@) == Err::<MediaState, PlaylistFault>(e@),
            },
    {
        let url = match join(base, from_chars(line).as_str()) {
            Ok(u) => u,
            Err(e) => {
                return Err(PlaylistError::InvalidUrl(e));
            },
        };
        let next = match self.sequence.checked_add(1) {
            Some(n) => n,
            None => {
                return Err(PlaylistError::SequenceOverflow);
            },
        };
        let encryption = self.encryption(self.sequence);
        let segment = Segment { url, byte_range: self.pending_range, encryption };
        let ghost expected = SegmentView {
            url: url_join(base@, line@)->Ok_0,
            byte_range: self.pending_range,
            encryption: in_force(self.state(), self.sequence as nat),
        };
        assert(segment@ == expected);
        self.segments.push(segment);
        assert(segment_views(self.segments@) =~= segment_views(old(self).segments@).push(expected));
        self.pending_range = None;
        self.sequence = next;
        let pending = self.pending_duration.take();
        if let Some(d) = pending {
            self.durations.push(d);
            assert(views(self.durations@) =~= views(old(self).durations@).push(d@));
        }
        Ok(())
    }

    fn line(&mut self, raw: &[char], base: &str) -> (r: Result<(), PlaylistError>)
        ensures
            match r {
                Ok(_) => media_line(old(self).state(), raw@, base@) == Ok::<MediaState, PlaylistFault>(final(self).state()),
                Err(e) => media_line(old(self).state(), raw@, base@) == Err::<MediaState, PlaylistFault>(e@),
            },
    {
        let trimmed = trim_chars(raw);
        let line = strip_leading(trimmed.as_slice(), '\u{feff}');
        if line.len() == 0 {
            return Ok(());
        }
        if line[0] != '#' {
            return self.uri(line.as_slice(), base);
        }
        if begins(line.as_slice(), to_chars("#EXTINF:").as_slice()) {
            let rest = rest_after(line.as_slice(), "#EXTINF:");
            let e = position(rest.as_slice(), ',', 0);
            let head = copy_range(rest.as_slice(), 0, e);
            assert(head@ =~= rest@.take(e as int));
            let value = trim_chars(head.as_slice());
            self.pending_duration = Some(from_chars(value.as_slice()));
            return Ok(());
        }
        if begins(line.as_slice(), to_chars("#EXT-X-MEDIA-SEQUENCE:").as_slice()) {
            let rest = rest_after(line.as_slice(), "#EXT-X-MEDIA-SEQUENCE:");
            let value = trim_chars(rest.as_slice());
            return match unsigned_at_most(value.as_slice(), usize::MAX as u64) {
                Some(n) => {
                    self.sequence = n as usize;
                    Ok(())
                },
                None => Err(PlaylistError::InvalidSequence(number_error(value.as_slice()))),
            };
        }
        if begins(line.as_slice(), to_chars("#EXT-X-KEY:").as_slice()) {
            let rest = rest_after(line.as_slice(), "#EXT-X-KEY:");
            return self.key(rest.as_slice(), base);
        }
        if begins(line.as_slice(), to_chars("#EXT-X-MAP").as_slice()) {
            let rest = rest_after(line.as_slice(), "#EXT-X-MAP:");
            let attrs = trim_chars(rest.as_slice());
            return self.map(attrs.as_slice(), base);
        }
        if begins(line.as_slice(), to_chars("#EXT-X-BYTERANGE").as_slice()) {
            let rest = rest_after(line.as_slice(), "#EXT-X-BYTERANGE:");
            return self.range(rest.as_slice());
        }
        Ok(())
    }
}

fn number_error(value: &[char]) -> (r: String)
    ensures
        r@ == number_fault(value@),
{
    match (number_problem(from_chars(value).as_str()), number_problem(TOO_LARGE)) {
        (Some(m), _) => m,
        (None, Some(m)) => m,
        (None, None) => String::new(),
    }
}

proof fn lemma_map_range(
    pieces: Seq<Seq<char>>,
    found: Option<(u64, u64)>,
    last_end: Option<u64>,
)
    requires
        found matches Some(r) ==> r.0 + r.1 <= u64::MAX && r.1 > 0,
    ensures
        map_range(pieces, found, last_end) matches Ok(Some(r)) ==> r.0 + r.1 <= u64::MAX && r.1 > 0,
    decreases pieces.len(),
{
    if pieces.len() > 0 {
        let parts = attr_parts(pieces[0]);
        if trim(parts.0) != "BYTERANGE"@ {
            lemma_map_range(pieces.skip(1), found, last_end);
        } else if found is None {
            if let Some(v) = unquoted(trim(parts.1)) {
                if let Some(range) = spec_byterange(v, last_end) {
                    lemma_map_range(pieces.skip(1), Some(range), last_end);
                }
            }
        }
    }
}

/// Read a media playlist: its segments with their byte ranges and keys, and its
/// init segment, every URL resolved against `base_url`.
pub fn parse_media_m3u8(text: &str, base_url: &str) -> (r: Result<M3u8Info, PlaylistError>)
    ensures
        match media_playlist(text@, base_url@) {
            Ok(st) => {
                &&& r is Ok
                &&& segment_views(r->Ok_0.segments@) == st.segments
                &&& opt_segment(r->Ok_0.init_segment) == st.init
                &&& views(r->Ok_0.durations@) == st.durations
                &&& r->Ok_0.audio is None
                &&& r->Ok_0.variant@ == (VariantView {
                    uri: base_url@,
                    bandwidth: None,
                    resolution: None,
                    audio_group: None,
                })
            },
            Err(e) => r matches Err(x) && x@ == e,
        },
{
    let all = line_list(to_chars(text).as_slice());
    let ghost ls = lines(text@);
    let mut reader = MediaReader {
        segments: Vec::new(),
        init: None,
        key: None,
        iv: None,
        sequence: 0,
        pending_range: None,
        last_end: None,
        durations: Vec::new(),
        pending_duration: None,
    };
    assert(reader.state().segments =~= media_start().segments);
    assert(reader.state().durations =~= media_start().durations);
    assert(ls.skip(0) =~= ls);
    let mut i: usize = 0;
    while i < all.len()
        invariant
            i <= all@.len(),
            ls == char_views(all@),
            ls == lines(text@),
            media_playlist(text@, base_url@) == media_lines(
                reader.state(),
                ls.skip(i as int),
                base_url@,
            ),
        decreases all@.len() - i,
    {
        assert(ls.skip(i as int)[0] == all@[i as int]@);
        assert(ls.skip(i as int).skip(1) =~= ls.skip(i + 1));
        match reader.line(all[i].as_slice(), base_url) {
            Ok(_) => {},
            Err(e) => {
                return Err(e);
            },
        }
        i += 1;
    }
    Ok(
        M3u8Info {
            variant: Variant {
                uri: from_chars(to_chars(base_url).as_slice()),
                bandwidth: None,
                resolution: None,
                audio_group: None,
            },
            segments: reader.segments,
            init_segment: reader.init,
            audio: None,
            durations: reader.durations,
        },
    )
}

// ── Laws of media playlists ──────────────────────────────────────────────

/// A byte range that can be requested: not empty, and its end fits.
pub open spec fn sound_range(r: Option<(u64, u64)>) -> bool {
    r matches Some(range) ==> range.1 > 0 && range.0 + range.1 <= u64::MAX
}

/// Every byte range in what has been read can be requested, and every
/// initialization vector has 16 bytes.
pub open spec fn sound(st: MediaState) -> bool {
    &&& sound_range(st.pending_range)
    &&& st.init matches Some(s) ==> sound_range(s.byte_range) && sound_key(s.encryption)
    &&& forall|i: int|
        0 <= i < st.segments.len() ==> sound_range((#[trigger] st.segments[i]).byte_range)
            && sound_key(st.segments[i].encryption)
}

/// An initialization vector with 16 bytes.
pub open spec fn sound_key(e: Option<(Seq<char>, Seq<u8>)>) -> bool {
    e matches Some(k) ==> k.1.len() == 16
}

proof fn lemma_line_keeps_sound(st: MediaState, raw: Seq<char>, base: Seq<char>)
    requires
        sound(st),
    ensures
        media_line(st, raw, base) matches Ok(next) ==> sound(next),
{
    crate::jav::util::law_iv_has_sixteen_bytes(st.sequence, st.iv);
    crate::jav::util::law_iv_has_sixteen_bytes(0, st.iv);
    let attrs = trim(after(clean_line(raw), "#EXT-X-MAP:"@));
    lemma_map_range(outer_pieces(attrs), None, st.last_end);
}

proof fn lemma_lines_keep_sound(st: MediaState, ls: Seq<Seq<char>>, base: Seq<char>)
    requires
        sound(st),
    ensures
        media_lines(st, ls, base) matches Ok(end) ==> sound(end),
    decreases ls.len(),
{
    if ls.len() > 0 {
        lemma_line_keeps_sound(st, ls[0], base);
        if let Ok(next) = media_line(st, ls[0], base) {
            lemma_lines_keep_sound(next, ls.skip(1), base);
        }
    }
}

/// Whatever a playlist says, the byte ranges of its segments are not empty and
/// do not overflow, and the initialization vectors fit AES.
pub proof fn law_playlist_is_sound(text: Seq<char>, base: Seq<char>)
    ensures
        media_playlist(text, base) matches Ok(st) ==> sound(st),
{
    lemma_lines_keep_sound(media_start(), lines(text), base);
}

/// A range without a start continues where the range before it ended.
pub proof fn law_range_continues(st: MediaState, first: Seq<char>, second: Seq<char>)
    requires
        range_line(st, first) is Ok,
        split(trim(second), '@').len() == 1,
        range_line(range_line(st, first)->Ok_0, second) is Ok,
    ensures
        ({
            let one = range_line(st, first)->Ok_0;
            let two = range_line(one, second)->Ok_0;
            one.pending_range matches Some(a) && two.pending_range matches Some(b) && b.0 == a.0
                + a.1
        }),
{
}

/// The key in force is the last one declared: `METHOD=NONE` leaves the segments
/// that follow in the clear, whatever was declared before.
pub proof fn law_method_none_clears_the_key(
    st: MediaState,
    attrs: Seq<char>,
    line: Seq<char>,
    base: Seq<char>,
)
    requires
        plain_attr(attrs, "METHOD"@) == Some("NONE"@),
    ensures
        key_line(st, attrs, base) matches Ok(next) && (uri_line(next, line, base) matches Ok(end)
            ==> end.segments.last().encryption is None),
{
}

/// Whether a line is the address of a segment.
pub open spec fn names_segment(raw: Seq<char>) -> bool {
    clean_line(raw).len() > 0 && clean_line(raw)[0] != '#'
}

/// Whether a line is a tag of that name.
pub open spec fn is_tag(raw: Seq<char>, tag: Seq<char>) -> bool {
    starts_with(clean_line(raw), tag)
}

/// The addresses of segments among some lines.
pub open spec fn addresses(ls: Seq<Seq<char>>) -> Seq<Seq<char>>
    decreases ls.len(),
{
    if ls.len() == 0 {
        Seq::empty()
    } else if names_segment(ls[0]) {
        seq![clean_line(ls[0])] + addresses(ls.skip(1))
    } else {
        addresses(ls.skip(1))
    }
}

/// Each line changes what it is about and nothing else: only a key declaration
/// changes the key and its vector, only the address of a segment adds one, only a
/// declaration of an init segment changes that. A segment takes the byte range, the
/// duration and the number that were due, and the key in force; they are used up,
/// the key is not.
pub proof fn law_lines_change_what_they_are_about(st: MediaState, raw: Seq<char>, base: Seq<char>)
    ensures
        media_line(st, raw, base) matches Ok(next) ==> {
            &&& !is_tag(raw, "#EXT-X-KEY:"@) ==> next.key == st.key && next.iv == st.iv
            &&& !is_tag(raw, "#EXT-X-MAP"@) ==> next.init == st.init
            &&& !is_tag(raw, "#EXT-X-BYTERANGE"@) && !names_segment(raw) ==> next.pending_range
                == st.pending_range
            &&& !is_tag(raw, "#EXT-X-BYTERANGE"@) && !is_tag(raw, "#EXT-X-MAP"@) ==> next.last_end
                == st.last_end
            &&& !is_tag(raw, "#EXTINF:"@) && !names_segment(raw) ==> next.pending_duration
                == st.pending_duration
            &&& !is_tag(raw, "#EXT-X-MEDIA-SEQUENCE:"@) && !names_segment(raw) ==> next.sequence
                == st.sequence
            &&& !names_segment(raw) ==> next.segments == st.segments && next.durations
                == st.durations
            &&& names_segment(raw) ==> {
                let one = next.segments.last();
                &&& next.segments.len() == st.segments.len() + 1 && next.segments.drop_last()
                    =~= st.segments
                &&& url_join(base, clean_line(raw)) == Ok::<Seq<char>, Seq<char>>(one.url)
                &&& one.byte_range == st.pending_range && next.pending_range is None
                &&& st.key is None ==> one.encryption is None
                &&& st.key matches Some(k) ==> one.encryption == Some(
                    (k, segment_iv(st.sequence, st.iv)),
                )
                &&& next.sequence == st.sequence + 1
                &&& next.pending_duration is None && next.durations =~= st.durations + (
                match st.pending_duration {
                    Some(d) => seq![d],
                    None => Seq::empty(),
                })
            }
        },
{
    reveal_strlit("#EXT-X-KEY:");
    reveal_strlit("#EXT-X-MAP");
    reveal_strlit("#EXT-X-BYTERANGE");
    reveal_strlit("#EXTINF:");
    reveal_strlit("#EXT-X-MEDIA-SEQUENCE:");
    if let Ok(next) = media_line(st, raw, base) {
        let line = clean_line(raw);
        if names_segment(raw) {
            assert(forall|p: Seq<char>| p.len() > 0 && p[0] == '#' ==> !#[trigger] starts_with(line, p));
            assert(next.segments.drop_last() =~= st.segments);
        }
    }
}

/// Each declaration is heeded: a key, an init segment and a byte range are read from
/// what stands behind their tags, a media sequence is the number of the next segment,
/// and a duration is what stands in front of the first comma. Comments, blank lines and
/// other tags do nothing.
pub proof fn law_declarations_are_heeded(st: MediaState, raw: Seq<char>, base: Seq<char>)
    ensures
        ({
            let line = clean_line(raw);
            let next = media_line(st, raw, base);
            &&& is_tag(raw, "#EXT-X-KEY:"@) ==> next == key_line(st, line.skip(11), base)
            &&& is_tag(raw, "#EXT-X-MAP:"@) ==> next == map_line(st, trim(line.skip(11)), base)
            &&& is_tag(raw, "#EXT-X-BYTERANGE:"@) ==> next == range_line(st, line.skip(17))
            &&& is_tag(raw, "#EXT-X-MEDIA-SEQUENCE:"@) ==> (match parse_unsigned(
                trim(line.skip(22)),
                usize::MAX as nat,
            ) {
                Some(n) => next is Ok && next->Ok_0.sequence == n,
                None => next is Err,
            })
            &&& is_tag(raw, "#EXTINF:"@) ==> next is Ok && next->Ok_0.pending_duration == Some(
                trim(line.skip(8).take(index_of(line.skip(8), ',', 0))),
            )
            &&& line.len() == 0 ==> next == Ok::<MediaState, PlaylistFault>(st)
            &&& line.len() > 0 && line[0] == '#' && !is_tag(raw, "#EXT"@) ==> next == Ok::<
                MediaState,
                PlaylistFault,
            >(st)
            &&& names_segment(raw) && url_join(base, line) is Ok && st.sequence < usize::MAX
                ==> next is Ok
        }),
{
    reveal_strlit("#EXT-X-KEY:");
    reveal_strlit("#EXT-X-MAP");
    reveal_strlit("#EXT-X-MAP:");
    reveal_strlit("#EXT-X-BYTERANGE");
    reveal_strlit("#EXT-X-BYTERANGE:");
    reveal_strlit("#EXTINF:");
    reveal_strlit("#EXT-X-MEDIA-SEQUENCE:");
    reveal_strlit("#EXT");
    let line = clean_line(raw);
    lemma_tag(line, "#EXT-X-KEY:"@);
    lemma_tag(line, "#EXT-X-MAP"@);
    lemma_tag(line, "#EXT-X-MAP:"@);
    lemma_tag(line, "#EXT-X-BYTERANGE"@);
    lemma_tag(line, "#EXT-X-BYTERANGE:"@);
    lemma_tag(line, "#EXTINF:"@);
    lemma_tag(line, "#EXT-X-MEDIA-SEQUENCE:"@);
    assert("#EXT-X-KEY:"@[0] == '#' && "#EXT-X-KEY:"@[1] == 'E' && "#EXT-X-KEY:"@[2] == 'X'
        && "#EXT-X-KEY:"@[3] == 'T' && "#EXT-X-KEY:"@[4] == '-' && "#EXT-X-KEY:"@[7] == 'K'
        && "#EXT-X-KEY:"@[8] == 'E');
    assert("#EXT-X-MAP"@[0] == '#' && "#EXT-X-MAP"@[1] == 'E' && "#EXT-X-MAP"@[2] == 'X'
        && "#EXT-X-MAP"@[3] == 'T' && "#EXT-X-MAP"@[4] == '-' && "#EXT-X-MAP"@[7] == 'M'
        && "#EXT-X-MAP"@[8] == 'A');
    assert("#EXT-X-MAP:"@[0] == '#' && "#EXT-X-MAP:"@[1] == 'E' && "#EXT-X-MAP:"@[2] == 'X'
        && "#EXT-X-MAP:"@[3] == 'T' && "#EXT-X-MAP:"@[4] == '-' && "#EXT-X-MAP:"@[7] == 'M'
        && "#EXT-X-MAP:"@[8] == 'A');
    assert("#EXT-X-BYTERANGE"@[0] == '#' && "#EXT-X-BYTERANGE"@[1] == 'E'
        && "#EXT-X-BYTERANGE"@[2] == 'X' && "#EXT-X-BYTERANGE"@[3] == 'T'
        && "#EXT-X-BYTERANGE"@[4] == '-' && "#EXT-X-BYTERANGE"@[7] == 'B'
        && "#EXT-X-BYTERANGE"@[8] == 'Y');
    assert("#EXT-X-BYTERANGE:"@[0] == '#' && "#EXT-X-BYTERANGE:"@[1] == 'E'
        && "#EXT-X-BYTERANGE:"@[2] == 'X' && "#EXT-X-BYTERANGE:"@[3] == 'T'
        && "#EXT-X-BYTERANGE:"@[4] == '-' && "#EXT-X-BYTERANGE:"@[7] == 'B'
        && "#EXT-X-BYTERANGE:"@[8] == 'Y');
    assert("#EXTINF:"@[0] == '#' && "#EXTINF:"@[1] == 'E' && "#EXTINF:"@[2] == 'X'
        && "#EXTINF:"@[3] == 'T' && "#EXTINF:"@[4] == 'I');
    assert("#EXT-X-MEDIA-SEQUENCE:"@[0] == '#' && "#EXT-X-MEDIA-SEQUENCE:"@[1] == 'E'
        && "#EXT-X-MEDIA-SEQUENCE:"@[2] == 'X' && "#EXT-X-MEDIA-SEQUENCE:"@[3] == 'T'
        && "#EXT-X-MEDIA-SEQUENCE:"@[4] == '-' && "#EXT-X-MEDIA-SEQUENCE:"@[7] == 'M'
        && "#EXT-X-MEDIA-SEQUENCE:"@[8] == 'E');
    if starts_with(line, "#EXT-X-MAP:"@) {
        assert(line.subrange(0, 10) =~= "#EXT-X-MAP"@);
    }
    if starts_with(line, "#EXT-X-BYTERANGE:"@) {
        assert(line.subrange(0, 16) =~= "#EXT-X-BYTERANGE"@);
    }
    if line.len() >= 4 && line[0] == '#' && line[1] == 'E' && line[2] == 'X' && line[3] == 'T' {
        assert(line.subrange(0, 4) =~= "#EXT"@);
    }
}

proof fn lemma_tag(line: Seq<char>, tag: Seq<char>)
    ensures
        starts_with(line, tag) ==> line.len() >= tag.len() && forall|i: int|
            0 <= i < tag.len() ==> line[i] == #[trigger] tag[i],
{
    if starts_with(line, tag) {
        let head = line.subrange(0, tag.len() as int);
        assert forall|i: int| 0 <= i < tag.len() implies line[i] == #[trigger] tag[i] by {
            assert(head[i] == line[i]);
        }
    }
}

/// A playlist is read only where each of its lines can be: one that cannot refuses it.
pub proof fn law_bad_lines_refuse_the_playlist(
    st: MediaState,
    ls: Seq<Seq<char>>,
    base: Seq<char>,
    k: int,
)
    requires
        0 <= k < ls.len(),
    ensures
        media_lines(st, ls, base) is Ok ==> media_lines(st, ls.take(k), base) is Ok && media_line(
            media_lines(st, ls.take(k), base)->Ok_0,
            ls[k],
            base,
        ) is Ok,
        media_lines(st, ls.take(k), base) matches Ok(s) ==> (media_line(s, ls[k], base)
            matches Err(e) ==> media_lines(st, ls, base) == Err::<MediaState, PlaylistFault>(e)),
    decreases ls.len(),
{
    if k == 0 {
        assert(ls.take(0) =~= Seq::<Seq<char>>::empty());
    } else {
        assert(ls.take(k)[0] == ls[0]);
        assert(ls.take(k).skip(1) =~= ls.skip(1).take(k - 1));
        assert(ls.skip(1)[k - 1] == ls[k]);
        if let Ok(next) = media_line(st, ls[0], base) {
            law_bad_lines_refuse_the_playlist(next, ls.skip(1), base, k - 1);
        }
    }
}

/// A key that is declared as it should be is accepted.
pub proof fn law_proper_keys_are_accepted(st: MediaState, attrs: Seq<char>, base: Seq<char>)
    ensures
        plain_attr(attrs, "METHOD"@) == Some("NONE"@) ==> key_line(st, attrs, base) is Ok,
        plain_attr(attrs, "METHOD"@) == Some("AES-128"@) && quoted_attr(attrs, "KEYFORMAT"@) is None
            && quoted_attr(attrs, "URI"@) is Some && url_join(base, quoted_attr(attrs, "URI"@)->0) is Ok
            && (plain_attr(attrs, "IV"@) matches Some(t) ==> spec_parse_hex(t) is Some
            && spec_parse_hex(t)->0.len() <= 16) ==> key_line(st, attrs, base) is Ok,
{
}

/// A key stays in force until the next declaration: among lines without one, every
/// segment is encrypted with the key that was declared before them, under its
/// explicit vector, with zeros in front where it is short, or under its own number
/// where there is none; and where no key is in force, none is.
pub proof fn law_key_stays_in_force(st: MediaState, ls: Seq<Seq<char>>, base: Seq<char>, i: int)
    requires
        st.sequence <= usize::MAX,
        st.iv matches Some(b) ==> b.len() <= 16,
        forall|k: int|
            0 <= k < ls.len() ==> !is_tag(#[trigger] ls[k], "#EXT-X-KEY:"@) && !is_tag(
                ls[k],
                "#EXT-X-MEDIA-SEQUENCE:"@,
            ),
        media_lines(st, ls, base) is Ok,
        st.segments.len() <= i < (media_lines(st, ls, base)->Ok_0).segments.len(),
    ensures
        ({
            let end = media_lines(st, ls, base)->Ok_0;
            let e = end.segments[i].encryption;
            &&& end.key == st.key && end.iv == st.iv
            &&& st.key is None ==> e is None
            &&& st.key matches Some(k) ==> e is Some && (e->0).0 == k && (e->0).1.len() == 16
            &&& st.key is Some && st.iv is None ==> byte_number((e->0).1) == st.sequence + (i
                - st.segments.len())
            &&& st.key is Some && st.iv is Some ==> forall|j: int|
                0 <= j < 16 ==> #[trigger] (e->0).1[j] == (if j < 16 - st.iv->0.len() {
                    0u8
                } else {
                    st.iv->0[j - (16 - st.iv->0.len())]
                })
        }),
    decreases ls.len(),
{
    if ls.len() > 0 {
        law_lines_change_what_they_are_about(st, ls[0], base);
        let next = media_line(st, ls[0], base)->Ok_0;
        let rest = ls.skip(1);
        assert(!is_tag(ls[0], "#EXT-X-KEY:"@));
        assert forall|k: int| 0 <= k < rest.len() implies !is_tag(
            #[trigger] rest[k],
            "#EXT-X-KEY:"@,
        ) && !is_tag(rest[k], "#EXT-X-MEDIA-SEQUENCE:"@) by {
            assert(rest[k] == ls[k + 1]);
        }
        law_segments_stay(next, rest, base);
        let end = media_lines(st, ls, base)->Ok_0;
        if i < next.segments.len() {
            assert(names_segment(ls[0]));
            assert(end.segments[i] == next.segments[i]);
            law_ivs_are_numbers_or_explicit(st.sequence, st.iv);
            lemma_keys_stay(next, rest, base);
        } else {
            law_key_stays_in_force(next, rest, base, i);
        }
    }
}

proof fn lemma_keys_stay(st: MediaState, ls: Seq<Seq<char>>, base: Seq<char>)
    requires
        forall|k: int| 0 <= k < ls.len() ==> !is_tag(#[trigger] ls[k], "#EXT-X-KEY:"@),
        media_lines(st, ls, base) is Ok,
    ensures
        (media_lines(st, ls, base)->Ok_0).key == st.key,
        (media_lines(st, ls, base)->Ok_0).iv == st.iv,
    decreases ls.len(),
{
    if ls.len() > 0 {
        law_lines_change_what_they_are_about(st, ls[0], base);
        let rest = ls.skip(1);
        assert(!is_tag(ls[0], "#EXT-X-KEY:"@));
        assert forall|k: int| 0 <= k < rest.len() implies !is_tag(
            #[trigger] rest[k],
            "#EXT-X-KEY:"@,
        ) by {
            assert(rest[k] == ls[k + 1]);
        }
        lemma_keys_stay(media_line(st, ls[0], base)->Ok_0, rest, base);
    }
}

/// What lines follow a segment, they leave it as it is.
pub proof fn law_segments_stay(st: MediaState, ls: Seq<Seq<char>>, base: Seq<char>)
    ensures
        media_lines(st, ls, base) matches Ok(end) ==> end.segments.len() >= st.segments.len()
            && end.segments.take(st.segments.len() as int) =~= st.segments,
    decreases ls.len(),
{
    if ls.len() > 0 {
        law_lines_change_what_they_are_about(st, ls[0], base);
        if let Ok(next) = media_line(st, ls[0], base) {
            law_segments_stay(next, ls.skip(1), base);
            if let Ok(end) = media_lines(next, ls.skip(1), base) {
                assert forall|k: int| 0 <= k < st.segments.len() implies end.segments[k]
                    == st.segments[k] by {
                    assert(end.segments[k] == end.segments.take(next.segments.len() as int)[k]);
                    if names_segment(ls[0]) {
                        assert(next.segments.drop_last()[k] == st.segments[k]);
                    }
                }
            }
        }
    }
}

/// A playlist has one segment for each address in it, in their order, each resolved
/// against the address of the playlist.
pub proof fn law_segments_follow_their_addresses(st: MediaState, ls: Seq<Seq<char>>, base: Seq<char>)
    ensures
        media_lines(st, ls, base) matches Ok(end) ==> {
            &&& end.segments.len() == st.segments.len() + addresses(ls).len()
            &&& forall|i: int|
                0 <= i < addresses(ls).len() ==> url_join(base, #[trigger] addresses(ls)[i])
                    == Ok::<Seq<char>, Seq<char>>(end.segments[st.segments.len() + i].url)
        },
    decreases ls.len(),
{
    if ls.len() > 0 {
        law_lines_change_what_they_are_about(st, ls[0], base);
        if let Ok(next) = media_line(st, ls[0], base) {
            let rest = ls.skip(1);
            law_segments_follow_their_addresses(next, rest, base);
            law_segments_stay(next, rest, base);
            if let Ok(end) = media_lines(next, rest, base) {
                let all = addresses(ls);
                assert forall|i: int| 0 <= i < all.len() implies url_join(base, #[trigger] all[i])
                    == Ok::<Seq<char>, Seq<char>>(end.segments[st.segments.len() + i].url) by {
                    if names_segment(ls[0]) {
                        if i == 0 {
                            assert(end.segments[st.segments.len() as int] == end.segments.take(
                                next.segments.len() as int,
                            )[st.segments.len() as int]);
                        } else {
                            assert(all[i] == addresses(rest)[i - 1]);
                        }
                    }
                }
            }
        }
    }
}

/// A byte range is for the next segment alone: among lines that declare none, the
/// first segment takes the one that is due, and the others are whole files.
pub proof fn law_ranges_are_used_once(st: MediaState, ls: Seq<Seq<char>>, base: Seq<char>, i: int)
    requires
        forall|k: int| 0 <= k < ls.len() ==> !is_tag(#[trigger] ls[k], "#EXT-X-BYTERANGE"@),
        media_lines(st, ls, base) is Ok,
        st.segments.len() <= i < (media_lines(st, ls, base)->Ok_0).segments.len(),
    ensures
        (media_lines(st, ls, base)->Ok_0).segments[i].byte_range == (if i == st.segments.len() {
            st.pending_range
        } else {
            None
        }),
    decreases ls.len(),
{
    if ls.len() > 0 {
        law_lines_change_what_they_are_about(st, ls[0], base);
        let next = media_line(st, ls[0], base)->Ok_0;
        let rest = ls.skip(1);
        assert(!is_tag(ls[0], "#EXT-X-BYTERANGE"@));
        assert forall|k: int| 0 <= k < rest.len() implies !is_tag(
            #[trigger] rest[k],
            "#EXT-X-BYTERANGE"@,
        ) by {
            assert(rest[k] == ls[k + 1]);
        }
        law_segments_stay(next, rest, base);
        let end = media_lines(st, ls, base)->Ok_0;
        if i < next.segments.len() {
            assert(end.segments[i] == end.segments.take(next.segments.len() as int)[i]);
        } else {
            law_ranges_are_used_once(next, rest, base, i);
        }
    }
}

/// A key that is declared replaces the one before, together with its vector: the key
/// is where its address leads, and a vector that is not given is none, whatever was
/// in force.
pub proof fn law_declared_keys_replace(st: MediaState, attrs: Seq<char>, base: Seq<char>)
    ensures
        key_line(st, attrs, base) matches Ok(next) ==> {
            &&& plain_attr(attrs, "METHOD"@) == Some("NONE"@) || plain_attr(attrs, "METHOD"@) == Some(
                "AES-128"@,
            )
            &&& plain_attr(attrs, "METHOD"@) == Some("NONE"@) ==> next.key is None && next.iv is None
            &&& plain_attr(attrs, "METHOD"@) != Some("NONE"@) ==> {
                &&& quoted_attr(attrs, "URI"@) is Some && next.key is Some
                &&& url_join(base, quoted_attr(attrs, "URI"@)->0) == Ok::<Seq<char>, Seq<char>>(
                    next.key->0,
                )
                &&& plain_attr(attrs, "IV"@) is None ==> next.iv is None
                &&& plain_attr(attrs, "IV"@) matches Some(t) ==> next.iv is Some && spec_parse_hex(t)
                    == next.iv && next.iv->0.len() <= 16
                &&& quoted_attr(attrs, "KEYFORMAT"@) matches Some(f) ==> f == "identity"@
            }
            &&& next.segments == st.segments && next.init == st.init && next.sequence == st.sequence
                && next.pending_range == st.pending_range && next.last_end == st.last_end
        },
{
    reveal_strlit("NONE");
    reveal_strlit("AES-128");
}

/// There is one init segment: once declared, a playlist that declares another is
/// refused. It lies where its address leads, and where a key is in force it is
/// encrypted with it, under a vector that was given.
pub proof fn law_one_init_segment(st: MediaState, attrs: Seq<char>, base: Seq<char>)
    ensures
        map_line(st, attrs, base) matches Ok(next) ==> {
            &&& quoted_attr(attrs, "URI"@) is None ==> next == st
            &&& quoted_attr(attrs, "URI"@) matches Some(uri) ==> {
                &&& next.init is Some && url_join(base, uri) == Ok::<Seq<char>, Seq<char>>(
                    next.init->0.url,
                )
                &&& next.init->0.byte_range matches Some(b) ==> next.last_end == Some(
                    (b.0 + b.1) as u64,
                )
                &&& next.init->0.byte_range is None ==> next.last_end == st.last_end
                &&& st.key is None ==> next.init->0.encryption is None
                &&& st.key matches Some(k) ==> st.iv is Some && next.init->0.encryption == Some(
                    (k, segment_iv(0, st.iv)),
                )
            }
            &&& st.init is Some ==> next.init == st.init
            &&& next.segments == st.segments && next.key == st.key && next.iv == st.iv
                && next.pending_range == st.pending_range
        },
{
}

/// A range that is declared is the one that is due: its length, and its start where
/// one is written, are the numbers in it, and the next range without a start begins
/// where it ends.
pub proof fn law_declared_ranges_are_due(st: MediaState, value: Seq<char>)
    ensures
        range_line(st, value) matches Ok(next) ==> {
            let parts = split(trim(value), '@');
            let b = next.pending_range->0;
            &&& next.pending_range is Some && parts.len() <= 2
            &&& parse_digits(trim(parts[0]), u64::MAX as nat) == Some(b.1 as nat)
            &&& parts.len() == 2 ==> parse_digits(trim(parts[1]), u64::MAX as nat) == Some(
                b.0 as nat,
            )
            &&& parts.len() == 1 && st.last_end is Some ==> Some(b.0) == st.last_end
            &&& parts.len() == 1 && st.last_end is None ==> b.0 == 0
            &&& b.1 > 0 && b.0 + b.1 <= u64::MAX && next.last_end == Some((b.0 + b.1) as u64)
            &&& next.segments == st.segments && next.key == st.key && next.iv == st.iv && next.init
                == st.init
        },
{
}

/// A playlist has a segment for each address in it and no other; without a key
/// declaration none is encrypted, and without byte ranges all are whole files.
pub proof fn law_plain_playlists(text: Seq<char>, base: Seq<char>)
    ensures
        media_playlist(text, base) matches Ok(end) ==> {
            let all = lines(text);
            &&& end.segments.len() == addresses(all).len()
            &&& forall|i: int|
                0 <= i < addresses(all).len() ==> url_join(base, #[trigger] addresses(all)[i])
                    == Ok::<Seq<char>, Seq<char>>(end.segments[i].url)
            &&& (forall|k: int|
                0 <= k < all.len() ==> !is_tag(#[trigger] all[k], "#EXT-X-KEY:"@) && !is_tag(
                    all[k],
                    "#EXT-X-MEDIA-SEQUENCE:"@,
                )) ==> forall|i: int|
                0 <= i < end.segments.len() ==> (#[trigger] end.segments[i]).encryption is None
            &&& (forall|k: int|
                0 <= k < all.len() ==> !is_tag(#[trigger] all[k], "#EXT-X-BYTERANGE"@)) ==> forall|
                i: int,
            |
                0 <= i < end.segments.len() ==> (#[trigger] end.segments[i]).byte_range is None
        },
{
    let all = lines(text);
    law_segments_follow_their_addresses(media_start(), all, base);
    if let Ok(end) = media_playlist(text, base) {
        assert forall|i: int| 0 <= i < addresses(all).len() implies url_join(
            base,
            #[trigger] addresses(all)[i],
        ) == Ok::<Seq<char>, Seq<char>>(end.segments[i].url) by {
            assert(media_start().segments.len() + i == i);
        }
        if forall|k: int|
            0 <= k < all.len() ==> !is_tag(#[trigger] all[k], "#EXT-X-KEY:"@) && !is_tag(
                all[k],
                "#EXT-X-MEDIA-SEQUENCE:"@,
            ) {
            assert forall|i: int| 0 <= i < end.segments.len() implies (
            #[trigger] end.segments[i]).encryption is None by {
                law_key_stays_in_force(media_start(), all, base, i);
            }
        }
        if forall|k: int| 0 <= k < all.len() ==> !is_tag(#[trigger] all[k], "#EXT-X-BYTERANGE"@) {
            assert forall|i: int| 0 <= i < end.segments.len() implies (
            #[trigger] end.segments[i]).byte_range is None by {
                law_ranges_are_used_once(media_start(), all, base, i);
            }
        }
    }
}

/// Segments are never dropped or changed by what follows them.
pub proof fn law_segments_only_grow(st: MediaState, raw: Seq<char>, base: Seq<char>)
    ensures
        media_line(st, raw, base) matches Ok(next) ==> st.segments.is_prefix_of(next.segments)
            && next.segments.len() <= st.segments.len() + 1,
{
}

// ── Master playlists ─────────────────────────────────────────────────────

/// What the attributes of a variant say of its bandwidth and its resolution.
pub open spec fn stream_attrs(
    pieces: Seq<Seq<char>>,
    bandwidth: Option<usize>,
    resolution: Option<(usize, usize)>,
) -> (Option<usize>, Option<(usize, usize)>)
    decreases pieces.len(),
{
    if pieces.len() == 0 {
        (bandwidth, resolution)
    } else {
        let attr = pieces[0];
        let e = index_of(attr, '=', 0);
        let name = unicode_upper(trim(attr.take(e)));
        let value = trim(attr.skip(e + 1));
        if e >= attr.len() {
            stream_attrs(pieces.skip(1), bandwidth, resolution)
        } else if name == "BANDWIDTH"@ {
            stream_attrs(pieces.skip(1), spec_usize(value), resolution)
        } else if name == "RESOLUTION"@ && size_of(value) is Some {
            stream_attrs(pieces.skip(1), bandwidth, size_of(value))
        } else {
            stream_attrs(pieces.skip(1), bandwidth, resolution)
        }
    }
}

/// The machine-sized number that `s` writes in decimal.
pub open spec fn spec_usize(s: Seq<char>) -> Option<usize> {
    match parse_unsigned(s, usize::MAX as nat) {
        Some(n) => Some(n as usize),
        None => None,
    }
}

/// The two numbers of a size written `WIDTHxHEIGHT`.
pub open spec fn size_of(value: Seq<char>) -> Option<(usize, usize)> {
    let x = index_of(value, 'x', 0);
    if x >= value.len() {
        None
    } else {
        match (spec_usize(value.take(x)), spec_usize(value.skip(x + 1))) {
            (Some(w), Some(h)) => Some((w, h)),
            _ => None,
        }
    }
}

fn read_usize(v: &[char]) -> (r: Option<usize>)
    ensures
        r == spec_usize(v@),
{
    match unsigned_at_most(v, usize::MAX as u64) {
        Some(n) => Some(n as usize),
        None => None,
    }
}

fn read_size(value: &[char]) -> (r: Option<(usize, usize)>)
    ensures
        r == size_of(value@),
{
    let x = position(value, 'x', 0);
    if x == value.len() {
        return None;
    }
    let w = copy_range(value, 0, x);
    let h = copy_range(value, x + 1, value.len());
    assert(w@ =~= value@.take(x as int));
    assert(h@ =~= value@.skip(x + 1));
    match (read_usize(w.as_slice()), read_usize(h.as_slice())) {
        (Some(w), Some(h)) => Some((w, h)),
        _ => None,
    }
}

/// The bandwidth and the resolution in a variant's tag.
pub fn parse_stream_inf(line: &[char]) -> (r: (Option<usize>, Option<(usize, usize)>))
    ensures
        r == stream_attrs(split(after(line@, "#EXT-X-STREAM-INF:"@), ','), None, None),
{
    let rest = rest_after(line, "#EXT-X-STREAM-INF:");
    let pieces = split_char(rest.as_slice(), ',');
    let ghost all = split(rest@, ',');
    let mut bandwidth: Option<usize> = None;
    let mut resolution: Option<(usize, usize)> = None;
    let mut i: usize = 0;
    assert(all.skip(0) =~= all);
    while i < pieces.len()
        invariant
            i <= pieces@.len(),
            all == char_views(pieces@),
            stream_attrs(all, None, None) == stream_attrs(
                all.skip(i as int),
                bandwidth,
                resolution,
            ),
        decreases pieces@.len() - i,
    {
        let attr = &pieces[i];
        assert(all.skip(i as int)[0] == attr@);
        assert(all.skip(i as int).skip(1) =~= all.skip(i + 1));
        let e = position(attr.as_slice(), '=', 0);
        if e < attr.len() {
            let name = copy_range(attr.as_slice(), 0, e);
            let value = copy_range(attr.as_slice(), e + 1, attr.len());
            assert(name@ =~= attr@.take(e as int));
            assert(value@ =~= attr@.skip(e + 1));
            let name = to_uppercase(from_chars(trim_chars(name.as_slice()).as_slice()).as_str());
            let value = trim_chars(value.as_slice());
            if crate::text::same_str(name.as_str(), "BANDWIDTH") {
                bandwidth = read_usize(value.as_slice());
            } else if crate::text::same_str(name.as_str(), "RESOLUTION") {
                let size = read_size(value.as_slice());
                if size.is_some() {
                    resolution = size;
                }
            }
        }
        i += 1;
    }
    (bandwidth, resolution)
}

/// The first line from `i` on that names a URI; the number of lines where none
/// does.
pub open spec fn next_uri(ls: Seq<Seq<char>>, i: int) -> int
    decreases ls.len() - i,
{
    if i < 0 || i >= ls.len() {
        ls.len() as int
    } else if ls[i].len() > 0 && ls[i][0] != '#' {
        i
    } else {
        next_uri(ls, i + 1)
    }
}

/// The variant that a tag and the URI below it declare.
pub open spec fn variant_of(tag: Seq<char>, uri: Seq<char>) -> VariantView {
    let attrs = after(tag, "#EXT-X-STREAM-INF:"@);
    let quality = stream_attrs(split(attrs, ','), None, None);
    VariantView {
        uri,
        bandwidth: quality.0,
        resolution: quality.1,
        audio_group: quoted_attr(attrs, "AUDIO"@),
    }
}

proof fn lemma_next_uri(ls: Seq<Seq<char>>, i: int)
    requires
        0 <= i,
    ensures
        i <= next_uri(ls, i) || next_uri(ls, i) == ls.len(),
        0 <= next_uri(ls, i) <= ls.len(),
    decreases ls.len() - i,
{
    if i < ls.len() && !(ls[i].len() > 0 && ls[i][0] != '#') {
        lemma_next_uri(ls, i + 1);
    }
}

/// The variants that trimmed lines declare: each tag with the next line that
/// names a URI, where that URI resolves.
pub open spec fn master_lines(ls: Seq<Seq<char>>, base: Seq<char>) -> Seq<VariantView>
    decreases ls.len(),
    via master_lines_decreases
{
    if ls.len() == 0 {
        Seq::empty()
    } else if starts_with(ls[0], "#EXT-X-STREAM-INF:"@) {
        let j = next_uri(ls, 1);
        if j >= ls.len() {
            Seq::empty()
        } else {
            (match url_join(base, ls[j]) {
                Ok(uri) => seq![variant_of(ls[0], uri)],
                Err(_) => Seq::empty(),
            }) + master_lines(ls.skip(j + 1), base)
        }
    } else {
        master_lines(ls.skip(1), base)
    }
}

#[via_fn]
proof fn master_lines_decreases(ls: Seq<Seq<char>>, base: Seq<char>) {
    lemma_next_uri(ls, 1);
}

/// Every line of `ls` without the white space around it.
pub open spec fn trimmed_lines(ls: Seq<Seq<char>>) -> Seq<Seq<char>> {
    Seq::new(ls.len(), |i: int| trim(ls[i]))
}

fn trimmed_list(v: &[char]) -> (r: Vec<Vec<char>>)
    ensures
        char_views(r@) == trimmed_lines(lines(v@)),
{
    let all = line_list(v);
    let mut r: Vec<Vec<char>> = Vec::new();
    let mut i: usize = 0;
    while i < all.len()
        invariant
            i <= all@.len(),
            r@.len() == i,
            forall|k: int| 0 <= k < i ==> (#[trigger] r@[k])@ == trim(all@[k]@),
        decreases all@.len() - i,
    {
        r.push(trim_chars(all[i].as_slice()));
        i += 1;
    }
    assert(char_views(r@) =~= trimmed_lines(char_views(all@)));
    r
}

/// Split a master playlist into its variants, resolving relative URIs.
pub fn parse_master_variants(text: &str, base_url: &str) -> (r: Vec<Variant>)
    ensures
        variant_views(r@) == master_lines(trimmed_lines(lines(text@)), base_url@),
{
    let all = trimmed_list(to_chars(text).as_slice());
    let ghost ls = trimmed_lines(lines(text@));
    let tag = to_chars("#EXT-X-STREAM-INF:");
    let mut r: Vec<Variant> = Vec::new();
    let mut i: usize = 0;
    assert(ls.skip(0) =~= ls);
    assert(variant_views(r@) + master_lines(ls, base_url@) =~= master_lines(ls, base_url@));
    while i < all.len()
        invariant
            i <= all@.len(),
            tag@ == "#EXT-X-STREAM-INF:"@,
            ls == char_views(all@),
            ls == trimmed_lines(lines(text@)),
            master_lines(ls, base_url@) == variant_views(r@) + master_lines(
                ls.skip(i as int),
                base_url@,
            ),
        decreases all@.len() - i,
    {
        let ghost here = ls.skip(i as int);
        assert(here[0] == all@[i as int]@);
        if begins(all[i].as_slice(), tag.as_slice()) {
            let mut j: usize = i + 1;
            while j < all.len() && !(all[j].len() > 0 && all[j][0] != '#')
                invariant
                    i < j <= all@.len(),
                    ls == char_views(all@),
                    here == ls.skip(i as int),
                    next_uri(here, 1) == next_uri(here, j - i),
                decreases all@.len() - j,
            {
                assert(here[j - i] == all@[j as int]@);
                j += 1;
            }
            if j == all.len() {
                assert(variant_views(r@) =~= variant_views(r@) + Seq::<VariantView>::empty());
                return r;
            }
            assert(here[j - i] == all@[j as int]@);
            assert(here.skip(j - i + 1) =~= ls.skip(j + 1));
            let ghost before = variant_views(r@);
            let ghost rest = master_lines(ls.skip(j + 1), base_url@);
            if let Ok(uri) = join(base_url, from_chars(all[j].as_slice()).as_str()) {
                let (bandwidth, resolution) = parse_stream_inf(all[i].as_slice());
                let attrs = rest_after(all[i].as_slice(), "#EXT-X-STREAM-INF:");
                let v = Variant {
                    uri,
                    bandwidth,
                    resolution,
                    audio_group: extract_attr(attrs.as_slice(), "AUDIO"),
                };
                let ghost seen = v@;
                r.push(v);
                assert(seen == variant_of(here[0], uri@));
                assert(variant_views(r@) =~= before + seq![seen]);
                assert(before + (seq![seen] + rest) =~= (before + seq![seen]) + rest);
            } else {
                assert(Seq::<VariantView>::empty() + rest =~= rest);
            }
            i = j + 1;
        } else {
            assert(here.skip(1) =~= ls.skip(i + 1));
            i += 1;
        }
    }
    assert(variant_views(r@) =~= variant_views(r@) + Seq::<VariantView>::empty());
    r
}

// ── Choosing a quality ───────────────────────────────────────────────────

/// The height of a variant, 0 where it is not declared.
pub open spec fn height(v: VariantView) -> usize {
    match v.resolution {
        Some(r) => r.1,
        None => 0,
    }
}

/// The bandwidth of a variant, 0 where it is not declared.
pub open spec fn rate(v: VariantView) -> usize {
    match v.bandwidth {
        Some(b) => b,
        None => 0,
    }
}

/// Whether `a` has a lower quality than `b`: a lower height, or the same height
/// and a lower bandwidth.
pub open spec fn below(a: VariantView, b: VariantView) -> bool {
    height(a) < height(b) || (height(a) == height(b) && rate(a) < rate(b))
}

/// Whether `i` is the last of the variants of the lowest height bound that have
/// the highest quality among those of at most that height.
pub open spec fn best_within(vs: Seq<VariantView>, limit: usize, i: int) -> bool {
    &&& 0 <= i < vs.len()
    &&& height(vs[i]) <= limit
    &&& forall|j: int|
        0 <= j < vs.len() && height(#[trigger] vs[j]) <= limit ==> below(vs[j], vs[i]) || (!below(
            vs[i],
            vs[j],
        ) && j <= i)
}

/// Whether `i` is the first of the variants of the lowest quality.
pub open spec fn worst(vs: Seq<VariantView>, i: int) -> bool {
    &&& 0 <= i < vs.len()
    &&& forall|j: int|
        0 <= j < vs.len() ==> below(vs[i], #[trigger] vs[j]) || (!below(vs[j], vs[i]) && i <= j)
}

/// Whether `i` is the variant that a preference asks for: `lowest`, `highest`
/// (or nothing), or a target height that should not be exceeded where that is
/// possible.
pub open spec fn preferred(vs: Seq<VariantView>, pref: Seq<char>, i: int) -> bool {
    let p = unicode_lower(trim(pref));
    let target = spec_usize(p);
    if p == "lowest"@ {
        worst(vs, i)
    } else if p == "highest"@ || p.len() == 0 || target is None || !(exists|j: int|
        0 <= j < vs.len() && height(#[trigger] vs[j]) <= target->0) {
        best_within(vs, usize::MAX, i)
    } else {
        best_within(vs, target->0, i)
    }
}

fn height_of(v: &Variant) -> (r: usize)
    ensures
        r == height(v@),
{
    match v.resolution {
        Some(r) => r.1,
        None => 0,
    }
}

fn rate_of(v: &Variant) -> (r: usize)
    ensures
        r == rate(v@),
{
    match v.bandwidth {
        Some(b) => b,
        None => 0,
    }
}

fn is_below(a: &Variant, b: &Variant) -> (r: bool)
    ensures
        r == below(a@, b@),
{
    height_of(a) < height_of(b) || (height_of(a) == height_of(b) && rate_of(a) < rate_of(b))
}

fn find_best(variants: &[Variant], limit: usize) -> (r: Option<usize>)
    ensures
        match r {
            Some(i) => best_within(variant_views(variants@), limit, i as int),
            None => forall|j: int|
                0 <= j < variants@.len() ==> height((#[trigger] variants@[j])@) > limit,
        },
{
    let ghost vs = variant_views(variants@);
    let mut best: Option<usize> = None;
    let mut k: usize = 0;
    while k < variants.len()
        invariant
            k <= variants@.len(),
            vs == variant_views(variants@),
            match best {
                Some(i) => i < k && height(vs[i as int]) <= limit && forall|j: int|
                    0 <= j < k && height(#[trigger] vs[j]) <= limit ==> below(vs[j], vs[i as int])
                        || (!below(vs[i as int], vs[j]) && j <= i),
                None => forall|j: int| 0 <= j < k ==> height((#[trigger] variants@[j])@) > limit,
            },
        decreases variants@.len() - k,
    {
        assert(vs[k as int] == variants@[k as int]@);
        if height_of(&variants[k]) <= limit {
            match best {
                Some(i) => {
                    assert(vs[i as int] == variants@[i as int]@);
                    if !is_below(&variants[k], &variants[i]) {
                        best = Some(k);
                    }
                },
                None => {
                    assert forall|j: int| 0 <= j < k implies height(#[trigger] vs[j]) > limit by {
                        assert(vs[j] == variants@[j]@);
                    }
                    best = Some(k);
                },
            }
        }
        k += 1;
    }
    best
}

fn find_worst(variants: &[Variant]) -> (r: usize)
    requires
        variants@.len() > 0,
    ensures
        worst(variant_views(variants@), r as int),
{
    let ghost vs = variant_views(variants@);
    let mut w: usize = 0;
    let mut k: usize = 1;
    while k < variants.len()
        invariant
            1 <= k <= variants@.len(),
            vs == variant_views(variants@),
            w < k,
            forall|j: int|
                0 <= j < k ==> below(vs[w as int], #[trigger] vs[j]) || (!below(vs[j], vs[w as int])
                    && w <= j),
        decreases variants@.len() - k,
    {
        assert(vs[k as int] == variants@[k as int]@);
        assert(vs[w as int] == variants@[w as int]@);
        if is_below(&variants[k], &variants[w]) {
            w = k;
        }
        k += 1;
    }
    w
}

/// A copy of a variant.
pub fn clone_variant(v: &Variant) -> (r: Variant)
    ensures
        r@ == v@,
{
    Variant {
        uri: v.uri.clone(),
        bandwidth: v.bandwidth,
        resolution: v.resolution,
        audio_group: clone_opt(&v.audio_group),
    }
}

/// Pick a variant by preference: `lowest`, `highest`, or a target height.
pub fn select_variant(variants: &[Variant], pref: &str) -> (r: Option<Variant>)
    ensures
        r is None <==> variants@.len() == 0,
        r matches Some(v) ==> exists|i: int|
            preferred(variant_views(variants@), pref@, i) && v@ == (#[trigger] variants@[i])@,
{
    if variants.len() == 0 {
        return None;
    }
    let ghost vs = variant_views(variants@);
    let p = to_lowercase(crate::text::trim_str(pref).as_str());
    let ghost first = variants@[0];
    assert(vs[0] == first@);
    if crate::text::same_str(p.as_str(), "lowest") {
        let i = find_worst(variants);
        assert(preferred(vs, pref@, i as int));
        return Some(clone_variant(&variants[i]));
    }
    let chars = to_chars(p.as_str());
    let plain = crate::text::same_str(p.as_str(), "highest") || chars.len() == 0;
    if !plain {
        if let Some(target) = read_usize(chars.as_slice()) {
            if let Some(i) = find_best(variants, target) {
                assert(preferred(vs, pref@, i as int));
                return Some(clone_variant(&variants[i]));
            }
            assert forall|j: int| 0 <= j < vs.len() implies height(#[trigger] vs[j]) > target by {
                assert(vs[j] == variants@[j]@);
            }
        }
    }
    match find_best(variants, usize::MAX) {
        Some(i) => {
            assert(preferred(vs, pref@, i as int));
            Some(clone_variant(&variants[i]))
        },
        None => {
            assert(height(first@) > usize::MAX);
            None
        },
    }
}

proof fn lemma_some_worst(vs: Seq<VariantView>) -> (i: int)
    requires
        vs.len() > 0,
    ensures
        worst(vs, i),
    decreases vs.len(),
{
    let last = vs.len() - 1;
    if last == 0 {
        0
    } else {
        let head = vs.drop_last();
        let k = lemma_some_worst(head);
        assert forall|j: int| 0 <= j < last implies (below(head[k], #[trigger] vs[j]) || (!below(
            vs[j],
            head[k],
        ) && k <= j)) by {
            assert(head[j] == vs[j]);
        }
        if below(vs[last], vs[k]) {
            last
        } else {
            k
        }
    }
}

proof fn lemma_some_best(vs: Seq<VariantView>, limit: usize, w: int) -> (i: int)
    requires
        0 <= w < vs.len(),
        height(vs[w]) <= limit,
    ensures
        best_within(vs, limit, i),
    decreases vs.len(),
{
    let last = vs.len() - 1;
    let head = vs.drop_last();
    if exists|j: int| 0 <= j < last && height(#[trigger] head[j]) <= limit {
        let w = choose|j: int| 0 <= j < last && height(#[trigger] head[j]) <= limit;
        let k = lemma_some_best(head, limit, w);
        assert forall|j: int| 0 <= j < last && height(#[trigger] vs[j]) <= limit implies (below(
            vs[j],
            head[k],
        ) || (!below(head[k], vs[j]) && j <= k)) by {
            assert(head[j] == vs[j]);
        }
        if height(vs[last]) <= limit && !below(vs[last], vs[k]) {
            last
        } else {
            k
        }
    } else {
        assert forall|j: int| 0 <= j < last implies height(#[trigger] vs[j]) > limit by {
            assert(head[j] == vs[j]);
        }
        last
    }
}

/// Among some variants, one is preferred.
pub proof fn lemma_some_preferred(vs: Seq<VariantView>, pref: Seq<char>)
    requires
        vs.len() > 0,
    ensures
        exists|i: int| preferred(vs, pref, i),
{
    let p = unicode_lower(trim(pref));
    let target = spec_usize(p);
    let i = if p == "lowest"@ {
        lemma_some_worst(vs)
    } else if p == "highest"@ || p.len() == 0 || target is None || !(exists|j: int|
        0 <= j < vs.len() && height(#[trigger] vs[j]) <= target->0) {
        lemma_some_best(vs, usize::MAX, 0)
    } else {
        let j = choose|j: int| 0 <= j < vs.len() && height(#[trigger] vs[j]) <= target->0;
        lemma_some_best(vs, target->0, j)
    };
    assert(preferred(vs, pref, i));
}

/// The height that a variant says it has; none where it does not.
pub open spec fn said_height(v: VariantView) -> int {
    match v.resolution {
        Some((_, h)) => h as int,
        None => 0,
    }
}

/// The bandwidth that a variant says it needs; none where it does not.
pub open spec fn said_rate(v: VariantView) -> int {
    match v.bandwidth {
        Some(b) => b as int,
        None => 0,
    }
}

/// What is chosen is what was asked for: with `lowest`, no variant is smaller; with a
/// height that some variant keeps to, the chosen one keeps to it and none that does
/// is taller; in all other cases none is taller. Among equally tall ones the bandwidth
/// decides in the same way.
pub proof fn law_choice_is_what_was_asked_for(vs: Seq<VariantView>, pref: Seq<char>, i: int, j: int)
    requires
        preferred(vs, pref, i),
        0 <= j < vs.len(),
    ensures
        0 <= i < vs.len(),
        ({
            let p = unicode_lower(trim(pref));
            let n = parse_unsigned(p, usize::MAX as nat);
            let (a, b) = (vs[i], vs[j]);
            if p == "lowest"@ {
                said_height(a) < said_height(b) || (said_height(a) == said_height(b) && said_rate(a)
                    <= said_rate(b))
            } else if p != "highest"@ && n is Some && (exists|k: int|
                0 <= k < vs.len() && said_height(#[trigger] vs[k]) <= n->0) {
                &&& said_height(a) <= n->0
                &&& said_height(b) <= n->0 ==> said_height(b) < said_height(a) || (said_height(b)
                    == said_height(a) && said_rate(b) <= said_rate(a))
            } else {
                said_height(b) < said_height(a) || (said_height(b) == said_height(a) && said_rate(b)
                    <= said_rate(a))
            }
        }),
{
    let p = unicode_lower(trim(pref));
    let n = parse_unsigned(p, usize::MAX as nat);
    assert(forall|k: int| 0 <= k < vs.len() ==> said_height(#[trigger] vs[k]) == height(vs[k]));
    if n is Some && (exists|k: int| 0 <= k < vs.len() && said_height(#[trigger] vs[k]) <= n->0) {
        let k = choose|k: int| 0 <= k < vs.len() && said_height(#[trigger] vs[k]) <= n->0;
        assert(height(vs[k]) <= spec_usize(p)->0);
        assert(p.len() > 0);
    }
    if spec_usize(p) is Some && exists|k: int|
        0 <= k < vs.len() && height(#[trigger] vs[k]) <= spec_usize(p)->0 {
        let k = choose|k: int| 0 <= k < vs.len() && height(#[trigger] vs[k]) <= spec_usize(p)->0;
        assert(said_height(vs[k]) <= n->0);
    }
}

/// A master playlist offers one variant for each announcement that an address
/// follows, in their order; the address is resolved against that of the playlist.
/// Other lines in front of an announcement are passed over.
pub proof fn law_variants_are_announced(
    tag: Seq<char>,
    line: Seq<char>,
    rest: Seq<Seq<char>>,
    base: Seq<char>,
)
    ensures
        starts_with(tag, "#EXT-X-STREAM-INF:"@) && line.len() > 0 && line[0] != '#' ==> (
        match url_join(base, line) {
            Ok(uri) => {
                let all = master_lines(seq![tag, line] + rest, base);
                &&& all.len() == master_lines(rest, base).len() + 1
                &&& all.skip(1) =~= master_lines(rest, base)
                &&& all[0].uri == uri
                &&& all[0].audio_group == quoted_attr(
                    tag.skip("#EXT-X-STREAM-INF:"@.len() as int),
                    "AUDIO"@,
                )
            },
            Err(_) => master_lines(seq![tag, line] + rest, base) == master_lines(rest, base),
        }),
        !starts_with(tag, "#EXT-X-STREAM-INF:"@) ==> master_lines(seq![tag] + rest, base)
            == master_lines(rest, base),
{
    let ls = seq![tag, line] + rest;
    assert(ls[0] == tag && ls[1] == line);
    assert(ls.skip(2) =~= rest);
    assert((seq![tag] + rest).skip(1) =~= rest);
    if starts_with(tag, "#EXT-X-STREAM-INF:"@) && line.len() > 0 && line[0] != '#' {
        assert(next_uri(ls, 1) == 1);
        if let Ok(uri) = url_join(base, line) {
            assert(master_lines(ls, base) =~= seq![variant_of(tag, uri)] + master_lines(rest, base));
        } else {
            assert(master_lines(ls, base) =~= master_lines(rest, base));
        }
    }
}

/// What a variant says of itself is read from its attributes: the bandwidth is the
/// number behind its name, the resolution the two numbers behind its own, and an
/// attribute of another name says nothing of either.
pub proof fn law_variant_attributes(attr: Seq<char>)
    ensures
        ({
            let parts = attr_parts(attr);
            let name = unicode_upper(trim(parts.0));
            let value = trim(parts.1);
            let (bandwidth, resolution) = stream_attrs(seq![attr], None, None);
            let x = index_of(value, 'x', 0);
            &&& attr.contains('=') && name == "BANDWIDTH"@ ==> resolution is None && match bandwidth {
                Some(b) => parse_unsigned(value, usize::MAX as nat) == Some(b as nat),
                None => parse_unsigned(value, usize::MAX as nat) is None,
            }
            &&& attr.contains('=') && name == "RESOLUTION"@ ==> bandwidth is None && (resolution
                matches Some((w, h)) ==> x < value.len() && parse_unsigned(
                value.take(x),
                usize::MAX as nat,
            ) == Some(w as nat) && parse_unsigned(value.skip(x + 1), usize::MAX as nat) == Some(
                h as nat,
            ))
            &&& name != "BANDWIDTH"@ && name != "RESOLUTION"@ ==> bandwidth is None && resolution is None
        }),
{
    reveal_strlit("BANDWIDTH");
    reveal_strlit("RESOLUTION");
    assert("BANDWIDTH"@.len() != "RESOLUTION"@.len());
    assert(seq![attr].skip(1) =~= Seq::<Seq<char>>::empty());
    reveal_with_fuel(stream_attrs, 2);
    crate::text::lemma_index_of(attr, '=', 0);
}

/// A preference picks one variant and no other.
pub proof fn law_preference_is_unambiguous(vs: Seq<VariantView>, pref: Seq<char>, i: int, j: int)
    requires
        preferred(vs, pref, i),
        preferred(vs, pref, j),
    ensures
        i == j,
{
    let a = vs[i];
    let b = vs[j];
    assert(below(a, b) ==> !below(b, a));
}

/// A target height is never exceeded by the variant picked for it, as long as
/// some variant stays within it.
pub proof fn law_target_height_is_kept(
    vs: Seq<VariantView>,
    pref: Seq<char>,
    target: usize,
    i: int,
    j: int,
)
    requires
        preferred(vs, pref, i),
        spec_usize(unicode_lower(trim(pref))) == Some(target),
        unicode_lower(trim(pref)) != "lowest"@,
        unicode_lower(trim(pref)) != "highest"@,
        0 <= j < vs.len(),
        height(vs[j]) <= target,
    ensures
        height(vs[i]) <= target,
{
}

// ── Audio renditions ─────────────────────────────────────────────────────

/// The attributes of a line that declares an audio rendition of the group.
pub open spec fn rendition(line: Seq<char>, group: Seq<char>) -> Option<Seq<char>> {
    let attrs = after(trim(line), "#EXT-X-MEDIA:"@);
    if starts_with(trim(line), "#EXT-X-MEDIA:"@) && plain_attr(attrs, "TYPE"@) == Some("AUDIO"@)
        && quoted_attr(attrs, "GROUP-ID"@) == Some(group) {
        Some(attrs)
    } else {
        None
    }
}

/// The attributes of the audio renditions of a group, in playlist order.
pub open spec fn renditions(ls: Seq<Seq<char>>, group: Seq<char>) -> Seq<Seq<char>>
    decreases ls.len(),
{
    if ls.len() == 0 {
        Seq::empty()
    } else {
        let head = renditions(ls.drop_last(), group);
        match rendition(ls.last(), group) {
            Some(attrs) => head.push(attrs),
            None => head,
        }
    }
}

/// How far back a rendition stands: renditions that are not the default come
/// after those that are, and those not selected automatically after the others.
pub open spec fn rendition_rank(attrs: Seq<char>) -> int {
    (if plain_attr(attrs, "DEFAULT"@) == Some("YES"@) {
        0int
    } else {
        2
    }) + (if plain_attr(attrs, "AUTOSELECT"@) == Some("YES"@) {
        0int
    } else {
        1
    })
}

/// Whether `i` is the first of the renditions that stand furthest in front.
pub open spec fn best_rendition(rs: Seq<Seq<char>>, i: int) -> bool {
    &&& 0 <= i < rs.len()
    &&& forall|j: int|
        0 <= j < rs.len() ==> rendition_rank(rs[i]) < rendition_rank(#[trigger] rs[j]) || (
        rendition_rank(rs[i]) == rendition_rank(rs[j]) && i <= j)
}

fn rank_of(attrs: &[char]) -> (r: u8)
    ensures
        r == rendition_rank(attrs@),
{
    let a: u8 = if attr_is(&extract_unquoted_attr(attrs, "DEFAULT"), "YES") {
        0
    } else {
        2
    };
    let b: u8 = if attr_is(&extract_unquoted_attr(attrs, "AUTOSELECT"), "YES") {
        0
    } else {
        1
    };
    a + b
}

fn rendition_list(all: &Vec<Vec<char>>, group: &str) -> (r: Vec<Vec<char>>)
    ensures
        char_views(r@) == renditions(char_views(all@), group@),
{
    let ghost ls = char_views(all@);
    let tag = to_chars("#EXT-X-MEDIA:");
    let mut r: Vec<Vec<char>> = Vec::new();
    let mut i: usize = 0;
    assert(char_views(r@) =~= renditions(ls.take(0), group@));
    while i < all.len()
        invariant
            i <= all@.len(),
            ls == char_views(all@),
            tag@ == "#EXT-X-MEDIA:"@,
            char_views(r@) == renditions(ls.take(i as int), group@),
        decreases all@.len() - i,
    {
        assert(ls.take(i + 1).drop_last() =~= ls.take(i as int));
        assert(ls.take(i + 1).last() == all@[i as int]@);
        let line = trim_chars(all[i].as_slice());
        if begins(line.as_slice(), tag.as_slice()) {
            let attrs = rest_after(line.as_slice(), "#EXT-X-MEDIA:");
            if attr_is(&extract_unquoted_attr(attrs.as_slice(), "TYPE"), "AUDIO") && attr_is(
                &extract_attr(attrs.as_slice(), "GROUP-ID"),
                group,
            ) {
                let ghost before = char_views(r@);
                let ghost a = attrs@;
                r.push(attrs);
                assert(char_views(r@) =~= before.push(a));
            }
        }
        i += 1;
    }
    assert(ls.take(ls.len() as int) =~= ls);
    r
}

/// The audio that is taken is a default one where the group has one; among those
/// that are alike in that, one that players choose by themselves where there is one;
/// and the first of what is then left.
pub proof fn law_default_audio_is_taken(rs: Seq<Seq<char>>, i: int, j: int)
    requires
        best_rendition(rs, i),
        0 <= j < rs.len(),
    ensures
        ({
            let default_i = plain_attr(rs[i], "DEFAULT"@) == Some("YES"@);
            let default_j = plain_attr(rs[j], "DEFAULT"@) == Some("YES"@);
            let auto_i = plain_attr(rs[i], "AUTOSELECT"@) == Some("YES"@);
            let auto_j = plain_attr(rs[j], "AUTOSELECT"@) == Some("YES"@);
            &&& 0 <= i < rs.len()
            &&& default_j ==> default_i
            &&& default_j == default_i && auto_j ==> auto_i
            &&& default_j == default_i && auto_j == auto_i ==> i <= j
        }),
{
}

/// The audio of a group is what the playlist declares as such, in its order, and
/// nothing else.
pub proof fn law_audio_belongs_to_its_group(
    ls: Seq<Seq<char>>,
    line: Seq<char>,
    group: Seq<char>,
)
    ensures
        ({
            let t = trim(line);
            let attrs = t.skip("#EXT-X-MEDIA:"@.len() as int);
            let belongs = starts_with(t, "#EXT-X-MEDIA:"@) && plain_attr(attrs, "TYPE"@) == Some(
                "AUDIO"@,
            ) && quoted_attr(attrs, "GROUP-ID"@) == Some(group);
            &&& renditions(Seq::empty(), group).len() == 0
            &&& belongs ==> renditions(ls.push(line), group) == renditions(ls, group).push(attrs)
            &&& !belongs ==> renditions(ls.push(line), group) == renditions(ls, group)
        }),
{
    assert(ls.push(line).drop_last() =~= ls);
}

/// Prefer the group's default rendition, then autoselect, then playlist order.
/// A rendition without a URI declares audio carried in the video playlist.
pub fn select_audio_uri(text: &str, base_url: &str, group: &str) -> (r: Result<
    Option<String>,
    PlaylistError,
>)
    ensures
        ({
            let rs = renditions(lines(text@), group@);
            if rs.len() == 0 {
                r matches Err(x) && x@ == PlaylistFault::NoRenditions
            } else {
                exists|i: int|
                    best_rendition(rs, i) && (match quoted_attr(#[trigger] rs[i], "URI"@) {
                        None => r == Ok::<Option<String>, PlaylistError>(None),
                        Some(uri) => match url_join(base_url@, uri) {
                            Ok(url) => r is Ok && opt_view(r->Ok_0) == Some(url),
                            Err(m) => r matches Err(x) && x@ == PlaylistFault::InvalidUrl(m),
                        },
                    })
            }
        }),
{
    let all = line_list(to_chars(text).as_slice());
    let list = rendition_list(&all, group);
    let ghost rs = renditions(lines(text@), group@);
    assert(rs == char_views(list@));
    if list.len() == 0 {
        return Err(PlaylistError::NoRenditions);
    }
    let mut best: usize = 0;
    let mut k: usize = 1;
    while k < list.len()
        invariant
            1 <= k <= list@.len(),
            rs == char_views(list@),
            best < k,
            forall|j: int|
                0 <= j < k ==> rendition_rank(rs[best as int]) < rendition_rank(#[trigger] rs[j])
                    || (rendition_rank(rs[best as int]) == rendition_rank(rs[j]) && best <= j),
        decreases list@.len() - k,
    {
        assert(rs[k as int] == list@[k as int]@);
        assert(rs[best as int] == list@[best as int]@);
        if rank_of(list[k].as_slice()) < rank_of(list[best].as_slice()) {
            best = k;
        }
        k += 1;
    }
    assert(rs[best as int] == list@[best as int]@);
    assert(best_rendition(rs, best as int));
    match extract_attr(list[best].as_slice(), "URI") {
        None => Ok(None),
        Some(uri) => match join(base_url, uri.as_str()) {
            Ok(url) => Ok(Some(url)),
            Err(e) => Err(PlaylistError::InvalidUrl(e)),
        },
    }
}

} // verus!
