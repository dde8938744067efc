//! From a video page to the playlists and segments behind it.
//!
//! The player's script is packed; decoding it as data yields the address of a
//! master playlist.
pub mod m3u8;
pub mod resolve;

use vstd::prelude::*;
use vstd::utf8::encode_utf8;
use crate::jav::source::http::{body_text, is_block_page, validate_media_body};
use crate::jav::source::stream::m3u8::{
    best_rendition, clone_variant, lemma_some_preferred, law_preference_is_unambiguous, preferred, quoted_attr,
    rendition_rank, renditions, select_audio_uri, select_variant, variant_views, M3u8Info, PlaylistError,
    PlaylistFault, Variant, VariantView,
};
use crate::outside::html::{attrs, html_attrs, html_texts, texts};
use crate::outside::pattern::{
    captures, group_views, match_views, regex_captures, spans_within,
};
use crate::outside::std_text::{debug_text, quoted};
use crate::outside::url::{join, origin, url_join, url_origin};
use crate::rewrite::{found_spans, law_splice_of_itself, spans, splice, spliced, token};
use crate::text::{
    begins, char_views, clone_opt, contains, copy_range, from_chars, has, index_of, join2,
    join3, line_list, lines, opt_view, parse_unsigned, position, push_all, same_str, split,
    split_char, starts_with, str_has, strip_leading, to_chars, trim, trim_chars, trim_start,
    trim_start_char, trim_start_chars, trim_str, unsigned_at_most, unsigned_digits, views,
};

verus! {

/// What kind of payload a resolved stream contains.
#[derive(Debug, Clone, Copy, PartialEq, Eq, Structural)]
pub enum StreamKind {
    Hls,
}

/// A stream that can be downloaded.
#[derive(Debug)]
pub struct ResolvedStream {
    pub title: String,
    pub playlist: M3u8Info,
    pub kind: StreamKind,
}

/// Title plus the playlist scraped out of a video page.
#[derive(Debug, PartialEq, Eq)]
pub struct VideoPage {
    pub title: String,
    /// Master playlist advertised by the player, if the page carried one.
    pub playlist_url: Option<String>,
}

// ── The page ─────────────────────────────────────────────────────────────

/// All of some texts in a row.
pub open spec fn joined(parts: Seq<Seq<char>>) -> Seq<char>
    decreases parts.len(),
{
    if parts.len() == 0 {
        Seq::empty()
    } else {
        joined(parts.drop_last()) + parts.last()
    }
}

/// All of some texts in a row.
pub fn join_all(parts: &Vec<String>) -> (r: String)
    ensures
        r@ == joined(views(parts@)),
{
    let ghost all = views(parts@);
    let mut out: Vec<char> = Vec::new();
    let mut i: usize = 0;
    assert(out@ =~= joined(all.take(0)));
    while i < parts.len()
        invariant
            i <= parts@.len(),
            all == views(parts@),
            out@ == joined(all.take(i as int)),
        decreases parts@.len() - i,
    {
        assert(all.take(i + 1).drop_last() =~= all.take(i as int));
        assert(all.take(i + 1).last() == parts@[i as int]@);
        push_all(&mut out, to_chars(parts[i].as_str()).as_slice());
        i += 1;
    }
    assert(all.take(all.len() as int) =~= all);
    from_chars(out.as_slice())
}

/// The title of a page: its heading, or what it is to be shared as, or its own
/// title, whichever is the first that is not blank.
pub open spec fn title_of(heading: Seq<char>, shared: Option<Seq<char>>, own: Seq<char>) -> Seq<
    char,
> {
    if trim(heading).len() > 0 {
        trim(heading)
    } else if shared is Some && trim(shared->0).len() > 0 {
        trim(shared->0)
    } else {
        trim(own)
    }
}

/// The title of a page, from its heading, what it is to be shared as, and its
/// own title.
pub fn page_title(heading: &str, shared: &Option<String>, own: &str) -> (r: String)
    ensures
        r@ == title_of(heading@, opt_view(*shared), own@),
{
    let h = trim_str(heading);
    if to_chars(h.as_str()).len() > 0 {
        return h;
    }
    if let Some(s) = shared {
        let t = trim_str(s.as_str());
        if to_chars(t.as_str()).len() > 0 {
            return t;
        }
    }
    trim_str(own)
}

/// The attribute of the first of some elements.
pub open spec fn first_attr(values: Seq<Option<Seq<char>>>) -> Option<Seq<char>> {
    if values.len() == 0 {
        None
    } else {
        values[0]
    }
}

/// The attribute of the first of some elements.
pub fn first_value(values: &Vec<Option<String>>) -> (r: Option<String>)
    ensures
        opt_view(r) == first_attr(group_views(values@)),
{
    if values.len() == 0 {
        return None;
    }
    clone_opt(&values[0])
}

/// Pure parser for a video page.
pub fn parse_video_page(html: &str) -> (r: VideoPage)
    ensures
        r.title@ == title_of(
            joined(html_texts(html@, "h1"@)),
            first_attr(html_attrs(html@, "meta[property=\"og:title\"]"@, "content"@)),
            joined(html_texts(html@, "title"@)),
        ),
        opt_view(r.playlist_url) == playlist_in(html@),
{
    let heading = join_all(&texts(html, "h1"));
    let shared = first_value(&attrs(html, "meta[property=\"og:title\"]", "content"));
    let own = join_all(&texts(html, "title"));
    VideoPage {
        title: page_title(heading.as_str(), &shared, own.as_str()),
        playlist_url: extract_m3u8_url(html),
    }
}

/// The site origin a page belongs to, used as the `Referer` for its media.
pub open spec fn page_origin(url: Seq<char>) -> Seq<char> {
    match url_origin(url) {
        Some(o) => o + "/"@,
        None => "https://missav.ai/"@,
    }
}

/// The site origin a page belongs to, used as the `Referer` for its media.
pub fn origin_of(url: &str) -> (r: String)
    ensures
        r@ == page_origin(url@),
{
    match origin(url) {
        Some(o) => join2(o.as_str(), "/"),
        None => "https://missav.ai/".to_owned(),
    }
}

// ── The playlist's address ───────────────────────────────────────────────

/// A playlist assigned to the player.
pub const PLAY: &'static str = "urlPlay[\\s=:'\"]+(https?://[^\\s'\"\\\\]+\\.m3u8[^\\s'\"\\\\]*)";

/// Any playlist.
pub const ANY: &'static str = "(https?://[^\\s'\"\\\\]+\\.m3u8[^\\s'\"\\\\]*)";

/// A master playlist.
pub const DEDICATED: &'static str = "https?://[^\\s'\"\\\\]+/playlist\\.m3u8[^\\s'\"\\\\]*";

/// A packed script: its payload, its radix and its dictionary.
pub const PACKED: &'static str =
    "\\}\\(\\s*'((?:\\\\.|[^'\\\\])*)'\\s*,\\s*(\\d+)\\s*,\\s*\\d+\\s*,\\s*'((?:\\\\.|[^'\\\\])*)'\\.split\\('\\|'\\)";

/// A reference to a dictionary.
pub const WORD: &'static str = "\\b[0-9a-z]+\\b";

/// What a group of the first match matched.
pub open spec fn first_group(found: Seq<Seq<Option<Seq<char>>>>, group: int) -> Option<Seq<char>> {
    if found.len() > 0 && 0 <= group < found[0].len() {
        found[0][group]
    } else {
        None
    }
}

/// What a group of the first match matched.
pub fn group_of_first(found: &Vec<Vec<Option<String>>>, group: usize) -> (r: Option<String>)
    ensures
        opt_view(r) == first_group(match_views(found@), group as int),
{
    let ghost all = match_views(found@);
    if found.len() == 0 {
        return None;
    }
    assert(all[0] == group_views(found@[0]@));
    if group >= found[0].len() {
        return None;
    }
    clone_opt(&found[0][group])
}

/// The playlist address in a page: one assigned to the player, or any other;
/// then, in the packed scripts, a master playlist, or any other.
pub open spec fn playlist_in(body: Seq<char>) -> Option<Seq<char>> {
    let packed = unpacked(regex_captures(PACKED@, body));
    if first_group(regex_captures(PLAY@, body), 1) is Some {
        first_group(regex_captures(PLAY@, body), 1)
    } else if first_group(regex_captures(ANY@, body), 1) is Some {
        first_group(regex_captures(ANY@, body), 1)
    } else if first_group(regex_captures(DEDICATED@, packed), 0) is Some {
        first_group(regex_captures(DEDICATED@, packed), 0)
    } else {
        first_group(regex_captures(ANY@, packed), 1)
    }
}

/// Find a `.m3u8` URL, including inside a packed player script.
pub fn extract_m3u8_url(body: &str) -> (r: Option<String>)
    ensures
        opt_view(r) == playlist_in(body@),
{
    let play = group_of_first(&captures(PLAY, body), 1);
    if play.is_some() {
        return play;
    }
    let any = group_of_first(&captures(ANY, body), 1);
    if any.is_some() {
        return any;
    }
    let packed = decode_packed_scripts(body);
    let dedicated = group_of_first(&captures(DEDICATED, packed.as_str()), 0);
    if dedicated.is_some() {
        return dedicated;
    }
    group_of_first(&captures(ANY, packed.as_str()), 1)
}

/// A playlist that a page names in the clear is taken before one in a packed script,
/// and one that is assigned to the player before any other. Where the page names
/// none, the first master playlist in its unpacked scripts is taken, so that the
/// quality can still be chosen; only where they have none, the first playlist of any
/// kind. Where there is none at all, nothing is found.
pub proof fn law_master_playlists_are_preferred(body: Seq<char>)
    ensures
        ({
            let play = regex_captures(
                "urlPlay[\\s=:'\"]+(https?://[^\\s'\"\\\\]+\\.m3u8[^\\s'\"\\\\]*)"@,
                body,
            );
            let any = regex_captures(
                "(https?://[^\\s'\"\\\\]+\\.m3u8[^\\s'\"\\\\]*)"@,
                body,
            );
            let packed = unpacked(regex_captures(PACKED@, body));
            let master = regex_captures(
                "https?://[^\\s'\"\\\\]+/playlist\\.m3u8[^\\s'\"\\\\]*"@,
                packed,
            );
            let other = regex_captures(
                "(https?://[^\\s'\"\\\\]+\\.m3u8[^\\s'\"\\\\]*)"@,
                packed,
            );
            &&& play.len() > 0 && play[0].len() > 1 && play[0][1] is Some ==> playlist_in(body)
                == play[0][1]
            &&& play.len() == 0 && any.len() > 0 && any[0].len() > 1 && any[0][1] is Some
                ==> playlist_in(body) == any[0][1]
            &&& play.len() == 0 && any.len() == 0 && master.len() > 0 && master[0].len() > 0
                && master[0][0] is Some ==> playlist_in(body) == master[0][0]
            &&& play.len() == 0 && any.len() == 0 && master.len() == 0 && other.len() > 0
                && other[0].len() > 1 ==> playlist_in(body) == other[0][1]
            &&& play.len() == 0 && any.len() == 0 && master.len() == 0 && other.len() == 0
                ==> playlist_in(body) is None
        }),
{
}

/// Scripts are unpacked one by one, in their order, each on lines of its own; what
/// names no usable radix is no script.
pub proof fn law_scripts_are_unpacked_one_by_one(
    a: Seq<Seq<Option<Seq<char>>>>,
    b: Seq<Seq<Option<Seq<char>>>>,
)
    ensures
        unpacked(a + b) == unpacked(a) + unpacked(b),
        b.len() == 1 && b[0].len() == 4 && b[0][1] is Some && b[0][2] is Some && b[0][3] is Some ==> (
        match parse_unsigned(b[0][2]->0, u32::MAX as nat) {
            Some(n) => if 2 <= n <= 36 {
                unpacked(b) == substituted(
                    unescaped(b[0][1]->0),
                    found_spans("\\b[0-9a-z]+\\b"@, unescaped(b[0][1]->0)),
                    n as u32,
                    split(unescaped(b[0][3]->0), '|'),
                ) + seq!['\n']
            } else {
                unpacked(b) == Seq::<char>::empty()
            },
            None => unpacked(b) == Seq::<char>::empty(),
        }),
    decreases b.len(),
{
    if b.len() == 0 {
        assert(a + b =~= a);
        assert(unpacked(a) + Seq::<char>::empty() =~= unpacked(a));
    } else {
        law_scripts_are_unpacked_one_by_one(a, b.drop_last());
        assert((a + b).drop_last() =~= a + b.drop_last());
        assert((a + b).last() == b.last());
        assert(unpacked(a + b) =~= unpacked(a) + unpacked(b));
        if b.len() == 1 && b[0].len() == 4 && b[0][1] is Some && b[0][2] is Some && b[0][3] is Some {
            assert(b.drop_last() =~= Seq::empty());
            assert(unpacked(b.drop_last()) =~= Seq::<char>::empty());
            assert(b.last() == b[0]);
            if let Some(n) = parse_unsigned(b[0][2]->0, u32::MAX as nat) {
                if 2 <= n <= 36 {
                    assert(unpacked(b) =~= substituted(
                        unescaped(b[0][1]->0),
                        found_spans("\\b[0-9a-z]+\\b"@, unescaped(b[0][1]->0)),
                        n as u32,
                        split(unescaped(b[0][3]->0), '|'),
                    ) + seq!['\n']);
                }
            }
        }
    }
}

/// What a group of a match matched; nothing where it took no part.
pub open spec fn group_text(found: Seq<Option<Seq<char>>>, group: int) -> Seq<char> {
    if 0 <= group < found.len() && found[group] is Some {
        found[group]->0
    } else {
        Seq::empty()
    }
}

/// The radix that a packed script names, where it is one.
pub open spec fn radix_of(text: Seq<char>) -> Option<u32> {
    match parse_unsigned(text, u32::MAX as nat) {
        Some(n) => if 2 <= n <= 36 {
            Some(n as u32)
        } else {
            None
        },
        None => None,
    }
}

/// The packed scripts of a page, unpacked, each followed by a line feed.
pub open spec fn unpacked(found: Seq<Seq<Option<Seq<char>>>>) -> Seq<char>
    decreases found.len(),
{
    if found.len() == 0 {
        Seq::empty()
    } else {
        let head = unpacked(found.drop_last());
        let one = found.last();
        let payload = unescaped(group_text(one, 1));
        match radix_of(group_text(one, 2)) {
            Some(radix) => head + substituted(
                payload,
                found_spans(WORD@, payload),
                radix,
                split(unescaped(group_text(one, 3)), '|'),
            ) + seq!['\n'],
            None => head,
        }
    }
}

fn text_of_group(found: &Vec<Option<String>>, group: usize) -> (r: String)
    ensures
        r@ == group_text(group_views(found@), group as int),
{
    if group < found.len() {
        if let Some(s) = &found[group] {
            return s.clone();
        }
    }
    let r = String::new();
    assert(r@ =~= Seq::<char>::empty());
    r
}

/// Unpack the packed scripts that were found in a page.
pub fn unpack_all(found: &Vec<Vec<Option<String>>>) -> (r: String)
    ensures
        r@ == unpacked(match_views(found@)),
{
    let ghost all = match_views(found@);
    let mut out: Vec<char> = Vec::new();
    let mut i: usize = 0;
    assert(out@ =~= unpacked(all.take(0)));
    while i < found.len()
        invariant
            i <= found@.len(),
            all == match_views(found@),
            out@ == unpacked(all.take(i as int)),
        decreases found@.len() - i,
    {
        assert(all.take(i + 1).drop_last() =~= all.take(i as int));
        assert(all.take(i + 1).last() == group_views(found@[i as int]@));
        let one = &found[i];
        let payload = unescape_packed_string(text_of_group(one, 1).as_str());
        let digits = to_chars(text_of_group(one, 2).as_str());
        let radix = match unsigned_at_most(digits.as_slice(), u32::MAX as u64) {
            Some(n) => if 2 <= n && n <= 36 {
                Some(n as u32)
            } else {
                None
            },
            None => None,
        };
        if let Some(radix) = radix {
            let dictionary = unescape_packed_string(text_of_group(one, 3).as_str());
            let script = unpack_script(payload.as_str(), radix, dictionary.as_str());
            let ghost before = out@;
            push_all(&mut out, to_chars(script.as_str()).as_slice());
            out.push('\n');
            assert(out@ =~= before + script@ + seq!['\n']);
        }
        i += 1;
    }
    assert(all.take(all.len() as int) =~= all);
    from_chars(out.as_slice())
}

/// Decode every packed script in `body`, concatenated. The dictionary is
/// treated purely as data; received code is never executed.
pub fn decode_packed_scripts(body: &str) -> (r: String)
    ensures
        r@ == unpacked(regex_captures(PACKED@, body@)),
{
    unpack_all(&captures(PACKED, body))
}

// ── Packed scripts ───────────────────────────────────────────────────────

/// The value of a digit, which may be a letter.
pub open spec fn digit_value(c: char) -> Option<nat> {
    if '0' <= c <= '9' {
        Some((c as u32 - '0' as u32) as nat)
    } else if 'a' <= c <= 'z' {
        Some((c as u32 - 'a' as u32 + 10) as nat)
    } else if 'A' <= c <= 'Z' {
        Some((c as u32 - 'A' as u32 + 10) as nat)
    } else {
        None
    }
}

/// Whether `c` is a digit in a radix.
pub open spec fn is_digit_in(c: char, radix: u32) -> bool {
    digit_value(c) matches Some(d) && d < radix
}

/// The number that digits write in a radix.
pub open spec fn radix_value(s: Seq<char>, radix: u32) -> nat
    decreases s.len(),
{
    if s.len() == 0 {
        0
    } else {
        radix_value(s.drop_last(), radix) * (radix as nat) + digit_value(s.last())->0
    }
}

/// The number that `s` writes in a radix, where it writes one that a machine
/// word holds.
pub open spec fn parse_radix(s: Seq<char>, radix: u32) -> Option<nat> {
    let d = unsigned_digits(s);
    if d.len() > 0 && (forall|i: int| 0 <= i < d.len() ==> is_digit_in(#[trigger] d[i], radix))
        && radix_value(d, radix) <= usize::MAX {
        Some(radix_value(d, radix))
    } else {
        None
    }
}

fn digit_of(c: char) -> (r: Option<u32>)
    ensures
        match r {
            Some(d) => digit_value(c) == Some(d as nat),
            None => digit_value(c) is None,
        },
        r matches Some(d) ==> d < 36,
{
    if '0' <= c && c <= '9' {
        Some(c as u32 - 48)
    } else if 'a' <= c && c <= 'z' {
        Some(c as u32 - 97 + 10)
    } else if 'A' <= c && c <= 'Z' {
        Some(c as u32 - 65 + 10)
    } else {
        None
    }
}

proof fn lemma_radix_prefix(s: Seq<char>, radix: u32, i: int)
    requires
        forall|k: int| 0 <= k < s.len() ==> is_digit_in(#[trigger] s[k], radix),
        0 <= i <= s.len(),
        radix >= 2,
    ensures
        radix_value(s.take(i), radix) <= radix_value(s, radix),
    decreases s.len() - i,
{
    if i == s.len() {
        assert(s.take(i) =~= s);
    } else {
        lemma_radix_prefix(s, radix, i + 1);
        let t = s.take(i + 1);
        assert(t.drop_last() =~= s.take(i));
        assert(is_digit_in(s[i], radix));
        let v = radix_value(s.take(i), radix);
        assert(v * (radix as nat) >= v) by (nonlinear_arith)
            requires
                radix >= 2,
        ;
    }
}

/// The number that `v` writes in a radix, where a machine word holds it.
pub fn number_in(v: &[char], radix: u32) -> (r: Option<usize>)
    requires
        2 <= radix <= 36,
    ensures
        match r {
            Some(n) => parse_radix(v@, radix) == Some(n as nat),
            None => parse_radix(v@, radix) is None,
        },
{
    let start: usize = if v.len() > 0 && v[0] == '+' {
        1
    } else {
        0
    };
    let ghost d = unsigned_digits(v@);
    assert(d =~= v@.skip(start as int));
    if start == v.len() {
        return None;
    }
    let mut n: usize = 0;
    let mut i: usize = start;
    assert(d.take(0) =~= Seq::<char>::empty());
    while i < v.len()
        invariant
            2 <= radix <= 36,
            start <= i <= v@.len(),
            d == v@.skip(start as int),
            d == unsigned_digits(v@),
            forall|k: int| 0 <= k < i - start ==> is_digit_in(#[trigger] d[k], radix),
            n == radix_value(d.take(i - start), radix),
        decreases v@.len() - i,
    {
        let ghost k = i - start;
        assert(d[k] == v@[i as int]);
        let digit = match digit_of(v[i]) {
            Some(x) => x,
            None => {
                assert(!is_digit_in(d[k], radix));
                return None;
            },
        };
        if digit >= radix {
            assert(!is_digit_in(d[k], radix));
            return None;
        }
        assert(is_digit_in(d[k], radix));
        let ghost t = d.take(k + 1);
        assert(t.drop_last() =~= d.take(k));
        assert(t.last() == d[k]);
        assert(radix_value(t, radix) == n * (radix as nat) + digit);
        let next = match n.checked_mul(radix as usize) {
            Some(m) => m.checked_add(digit as usize),
            None => None,
        };
        match next {
            Some(m) => {
                n = m;
            },
            None => {
                proof {
                    assert(radix_value(t, radix) > usize::MAX);
                    if forall|j: int| 0 <= j < d.len() ==> is_digit_in(#[trigger] d[j], radix) {
                        lemma_radix_prefix(d, radix, k + 1);
                    }
                }
                return None;
            },
        }
        i += 1;
    }
    assert(d.take(d.len() as int) =~= d);
    Some(n)
}

/// The word that a reference stands for: the word of that number, where there is
/// one that is not empty, or the reference itself.
pub open spec fn word_for(token: Seq<char>, radix: u32, words: Seq<Seq<char>>) -> Seq<char> {
    match parse_radix(token, radix) {
        Some(i) => if i < words.len() && words[i as int].len() > 0 {
            words[i as int]
        } else {
            token
        },
        None => token,
    }
}

/// The words that the spans of a text refer to.
pub open spec fn words_for(
    text: Seq<char>,
    spans: Seq<(usize, usize)>,
    radix: u32,
    words: Seq<Seq<char>>,
) -> Seq<Seq<char>> {
    Seq::new(spans.len(), |i: int| word_for(token(text, spans[i]), radix, words))
}

/// A text with every span replaced by the word it refers to.
pub open spec fn substituted(
    text: Seq<char>,
    spans: Seq<(usize, usize)>,
    radix: u32,
    words: Seq<Seq<char>>,
) -> Seq<char> {
    spliced(text, spans, words_for(text, spans, radix, words))
}

/// Replace every span of a text by the word it refers to.
pub fn substitute(text: &str, spans: &Vec<(usize, usize)>, radix: u32, dictionary: &str) -> (r:
    String)
    requires
        2 <= radix <= 36,
        spans_within(spans@, text@.len()),
    ensures
        r@ == substituted(text@, spans@, radix, split(dictionary@, '|')),
{
    let v = to_chars(text);
    let words = split_char(to_chars(dictionary).as_slice(), '|');
    let ghost ws = split(dictionary@, '|');
    let ghost expected = words_for(text@, spans@, radix, ws);
    assert(ws == char_views(words@));
    let mut subs: Vec<Vec<char>> = Vec::new();
    let mut n: usize = 0;
    while n < spans.len()
        invariant
            2 <= radix <= 36,
            n <= spans@.len(),
            v@ == text@,
            ws == char_views(words@),
            spans_within(spans@, text@.len()),
            expected == words_for(text@, spans@, radix, ws),
            subs@.len() == n,
            forall|k: int| 0 <= k < n ==> (#[trigger] subs@[k])@ == expected[k],
        decreases spans@.len() - n,
    {
        let (from, to) = spans[n];
        assert(spans@[n as int].0 <= spans@[n as int].1);
        let t = copy_range(v.as_slice(), from, to);
        match number_in(t.as_slice(), radix) {
            Some(i) => {
                if i < words.len() && words[i].len() > 0 {
                    assert(ws[i as int] == words@[i as int]@);
                    let w = copy_range(words[i].as_slice(), 0, words[i].len());
                    assert(w@ =~= ws[i as int]);
                    subs.push(w);
                } else {
                    if i < words.len() {
                        assert(ws[i as int] == words@[i as int]@);
                    }
                    subs.push(t);
                }
            },
            None => {
                subs.push(t);
            },
        }
        n += 1;
    }
    assert(char_views(subs@) =~= expected);
    from_chars(splice(v.as_slice(), spans, &subs).as_slice())
}

/// Substitute dictionary references in a packed payload. Letters are digits
/// above base 10 too.
pub fn unpack_script(payload: &str, radix: u32, dictionary: &str) -> (r: String)
    requires
        2 <= radix <= 36,
    ensures
        r@ == substituted(
            payload@,
            found_spans(WORD@, payload@),
            radix,
            split(dictionary@, '|'),
        ),
{
    substitute(payload, &spans(WORD, payload), radix, dictionary)
}

/// The character that an escaped one stands for.
pub open spec fn escape_value(c: char) -> char {
    if c == 'n' {
        '\n'
    } else if c == 'r' {
        '\r'
    } else if c == 't' {
        '\t'
    } else {
        c
    }
}

/// A quoted string without its escapes.
pub open spec fn unescaped(s: Seq<char>) -> Seq<char>
    decreases s.len(),
{
    if s.len() == 0 {
        Seq::empty()
    } else if s[0] != '\\' {
        seq![s[0]] + unescaped(s.skip(1))
    } else if s.len() == 1 {
        seq!['\\']
    } else {
        seq![escape_value(s[1])] + unescaped(s.skip(2))
    }
}

/// A quoted string without its escapes.
pub fn unescape_packed_string(value: &str) -> (r: String)
    ensures
        r@ == unescaped(value@),
{
    let v = to_chars(value);
    let mut out: Vec<char> = Vec::new();
    let mut i: usize = 0;
    assert(v@.skip(0) =~= v@);
    assert(out@ + unescaped(v@) =~= unescaped(v@));
    while i < v.len()
        invariant
            i <= v@.len(),
            v@ == value@,
            unescaped(value@) == out@ + unescaped(v@.skip(i as int)),
        decreases v@.len() - i,
    {
        let ghost rest = v@.skip(i as int);
        let ghost before = out@;
        let c = v[i];
        if c != '\\' {
            out.push(c);
            assert(rest.skip(1) =~= v@.skip(i + 1));
            assert(before + (seq![c] + unescaped(v@.skip(i + 1))) =~= out@ + unescaped(
                v@.skip(i + 1),
            ));
            i += 1;
        } else if i + 1 == v.len() {
            out.push('\\');
            assert(v@.skip(i + 1) =~= Seq::<char>::empty());
            assert(unescaped(v@.skip(i + 1)) =~= Seq::<char>::empty());
            assert(before + seq!['\\'] =~= out@ + unescaped(v@.skip(i + 1)));
            i += 1;
        } else {
            let e = v[i + 1];
            let x = if e == 'n' {
                '\n'
            } else if e == 'r' {
                '\r'
            } else if e == 't' {
                '\t'
            } else {
                e
            };
            out.push(x);
            assert(rest[1] == e);
            assert(rest.skip(2) =~= v@.skip(i + 2));
            assert(before + (seq![x] + unescaped(v@.skip(i + 2))) =~= out@ + unescaped(
                v@.skip(i + 2),
            ));
            i += 2;
        }
    }
    assert(v@.skip(i as int) =~= Seq::<char>::empty());
    assert(out@ + Seq::<char>::empty() =~= out@);
    from_chars(out.as_slice())
}

/// Whether a dictionary has a word for a reference.
pub open spec fn is_known(token: Seq<char>, radix: u32, words: Seq<Seq<char>>) -> bool {
    parse_radix(token, radix) matches Some(i) && i < words.len() && words[i as int].len() > 0
}

/// References that the dictionary does not have stay as they are: where it has
/// none of them, nothing changes, wherever they stand.
pub proof fn law_unknown_references_stay(
    text: Seq<char>,
    spans: Seq<(usize, usize)>,
    radix: u32,
    words: Seq<Seq<char>>,
)
    requires
        spans_within(spans, text.len()),
        forall|i: int|
            0 <= i < spans.len() ==> !is_known(token(text, #[trigger] spans[i]), radix, words),
    ensures
        substituted(text, spans, radix, words) == text,
{
    let subs = words_for(text, spans, radix, words);
    assert forall|i: int| 0 <= i < spans.len() implies #[trigger] subs[i] == token(
        text,
        spans[i],
    ) by {
        assert(!is_known(token(text, spans[i]), radix, words));
    }
    law_splice_of_itself(text, spans, subs);
}

/// A reference is a number, whose digits may be letters: a single digit is worth
/// itself, letters go on from ten, and each further digit counts the ones in front of
/// it once more in the radix.
pub proof fn law_references_are_numbers(front: Seq<char>, c: char, radix: u32)
    requires
        2 <= radix <= 36,
    ensures
        '0' <= c <= '9' && radix > c as u32 - '0' as u32 ==> parse_radix(seq![c], radix) == Some(
            (c as u32 - '0' as u32) as nat,
        ),
        'a' <= c <= 'z' && c as u32 - 'a' as u32 + 10 < radix ==> parse_radix(seq![c], radix)
            == Some((c as u32 - 'a' as u32 + 10) as nat),
        c as u32 >= 'a' as u32 && c as u32 - 'a' as u32 + 10 >= radix ==> parse_radix(
            seq![c],
            radix,
        ) is None,
        parse_radix(front, radix) matches Some(n) ==> parse_radix(seq![c], radix) matches Some(d)
            ==> front.len() > 0 && front[0] != '+' && c != '+' && n * radix + d <= usize::MAX
            ==> parse_radix(front.push(c), radix) == Some((n * radix + d) as nat),
{
    let one = seq![c];
    assert(one.drop_last() =~= Seq::<char>::empty());
    assert(one.last() == c);
    assert(radix_value(Seq::<char>::empty(), radix) == 0);
    assert(0 * (radix as nat) == 0);
    assert(radix_value(one, radix) == 0 * (radix as nat) + digit_value(c)->0);
    assert(one[0] == c);
    if c != '+' {
        assert(unsigned_digits(one) == one);
        if is_digit_in(c, radix) {
            assert(forall|i: int| 0 <= i < one.len() ==> is_digit_in(#[trigger] one[i], radix));
        } else {
            assert(!is_digit_in(one[0], radix));
        }
    }
    if front.len() > 0 && front[0] != '+' && c != '+' && parse_radix(front, radix) is Some
        && parse_radix(one, radix) is Some {
        let all = front.push(c);
        assert(all[0] == front[0]);
        assert(unsigned_digits(all) == all);
        assert(unsigned_digits(front) == front);
        assert(all.drop_last() =~= front);
        assert(all.last() == c);
        assert(is_digit_in(one[0], radix));
        assert forall|i: int| 0 <= i < all.len() implies is_digit_in(#[trigger] all[i], radix) by {
            if i < front.len() {
                assert(is_digit_in(front[i], radix));
            }
        }
    }
}

/// A reference that the dictionary has a word for becomes that word, and what stands
/// around it stays.
pub proof fn law_references_become_their_words(
    text: Seq<char>,
    span: (usize, usize),
    radix: u32,
    words: Seq<Seq<char>>,
)
    requires
        span.0 <= span.1 <= text.len(),
    ensures
        parse_radix(text.subrange(span.0 as int, span.1 as int), radix) matches Some(i) ==> i
            < words.len() && words[i as int].len() > 0 ==> substituted(text, seq![span], radix, words)
            == text.take(span.0 as int) + words[i as int] + text.skip(span.1 as int),
{
    let spans = seq![span];
    let subs = words_for(text, spans, radix, words);
    assert(subs[0] == word_for(token(text, span), radix, words));
    reveal_with_fuel(crate::rewrite::spliced_upto, 2);
    assert(crate::rewrite::spliced_upto(text, spans, subs, 0) =~= Seq::<char>::empty());
    assert(text.subrange(0, span.0 as int) =~= text.take(span.0 as int));
    assert(crate::rewrite::spliced_upto(text, spans, subs, 1) =~= text.take(span.0 as int)
        + subs[0]);
}

/// A backslash makes the character behind it stand for itself, but for line feeds,
/// carriage returns and tabs; what has none stays as it is.
pub proof fn law_escapes_are_undone(c: char, rest: Seq<char>)
    ensures
        unescaped(Seq::empty()) == Seq::<char>::empty(),
        c != '\\' ==> unescaped(seq![c] + rest) == seq![c] + unescaped(rest),
        c != 'n' && c != 'r' && c != 't' ==> unescaped(seq!['\\', c] + rest) == seq![c] + unescaped(
            rest,
        ),
        unescaped(seq!['\\', 'n'] + rest) == seq!['\n'] + unescaped(rest),
        unescaped(seq!['\\', 'r'] + rest) == seq!['\r'] + unescaped(rest),
        unescaped(seq!['\\', 't'] + rest) == seq!['\t'] + unescaped(rest),
{
    assert((seq![c] + rest).skip(1) =~= rest);
    assert((seq!['\\', c] + rest).skip(2) =~= rest);
    assert((seq!['\\', 'n'] + rest).skip(2) =~= rest);
    assert((seq!['\\', 'r'] + rest).skip(2) =~= rest);
    assert((seq!['\\', 't'] + rest).skip(2) =~= rest);
}

// ── Resolving playlists ──────────────────────────────────────────────────

/// How deep playlists may refer to each other.
pub const MAX_DEPTH: usize = 5;

/// How often a playlist is asked for.
pub const ATTEMPTS: usize = 3;

/// How a request for a playlist ended.
#[derive(Debug, Clone)]
pub enum PlaylistAnswer {
    /// Asking again cannot help.
    Rejected(String),
    /// The request, or reading its body, failed.
    Failed(String),
    /// The body, as text.
    Body(String),
}

/// What follows the answer to a request for a playlist.
#[derive(Debug, Clone, PartialEq, Eq)]
pub enum PlaylistStep {
    /// The playlist can be read.
    Read,
    /// Ask again after so many milliseconds.
    Retry(u64),
    /// The playlist cannot be had.
    Fail(String),
}

/// Whether a text is a playlist.
pub open spec fn is_playlist(text: Seq<char>) -> bool {
    starts_with(trim_start(trim_start_char(text, '\u{feff}')), "#EXTM3U"@)
}

/// What follows the answer to a request for a playlist, as a value.
pub enum StepView {
    Read,
    Retry(u64),
    Fail(Seq<char>),
}

impl View for PlaylistStep {
    type V = StepView;

    open spec fn view(&self) -> StepView {
        match self {
            PlaylistStep::Read => StepView::Read,
            PlaylistStep::Retry(ms) => StepView::Retry(*ms),
            PlaylistStep::Fail(m) => StepView::Fail(m@),
        }
    }
}

/// What follows the answer to request number `attempt`.
pub open spec fn step_after(url: Seq<char>, attempt: int, answer: PlaylistAnswer) -> StepView {
    match answer {
        PlaylistAnswer::Rejected(e) => StepView::Fail(e@),
        PlaylistAnswer::Failed(e) => if attempt < ATTEMPTS {
            StepView::Retry((300 * attempt) as u64)
        } else {
            StepView::Fail(e@)
        },
        PlaylistAnswer::Body(t) => if encode_utf8(t@).len() == 0 || is_block_page(
            body_text(encode_utf8(t@)),
        ) {
            StepView::Fail(
                "media request for "@ + url
                    + ": empty, HTML or Cloudflare response instead of media"@,
            )
        } else if !is_playlist(t@) {
            StepView::Fail("invalid HLS playlist at "@ + url + ": missing #EXTM3U"@)
        } else {
            StepView::Read
        },
    }
}

/// What follows the answer to request number `attempt` (from 1 on) for a
/// playlist. A rejection and a body that is no playlist are final; a failure is
/// final at the last attempt only, and the pause before the next one grows.
pub fn after_answer(url: &str, attempt: usize, answer: &PlaylistAnswer) -> (r: PlaylistStep)
    requires
        1 <= attempt <= ATTEMPTS,
    ensures
        r@ == step_after(url@, attempt as int, *answer),
{
    match answer {
        PlaylistAnswer::Rejected(e) => PlaylistStep::Fail(e.clone()),
        PlaylistAnswer::Failed(e) => {
            if attempt < ATTEMPTS {
                PlaylistStep::Retry(300 * attempt as u64)
            } else {
                PlaylistStep::Fail(e.clone())
            }
        },
        PlaylistAnswer::Body(t) => {
            if let Err(rejected) = validate_media_body(url, t.as_str().as_bytes()) {
                return PlaylistStep::Fail(rejected.0);
            }
            let body = strip_leading(to_chars(t.as_str()).as_slice(), '\u{feff}');
            let body = trim_start_chars(body.as_slice());
            if !begins(body.as_slice(), to_chars("#EXTM3U").as_slice()) {
                return PlaylistStep::Fail(
                    join3("invalid HLS playlist at ", url, ": missing #EXTM3U"),
                );
            }
            PlaylistStep::Read
        },
    }
}

/// A playlist is asked for three times at most, with pauses that grow; only what did
/// not get through is asked for again. A refusal ends it at once, and so does a body
/// that is no playlist; one that is read has its mark in front.
pub proof fn law_playlists_are_asked_for_thrice(
    url: Seq<char>,
    attempt: int,
    answer: PlaylistAnswer,
)
    requires
        1 <= attempt <= 3,
    ensures
        ({
            let step = step_after(url, attempt, answer);
            &&& step is Retry <==> answer is Failed && attempt < 3
            &&& step matches StepView::Retry(ms) ==> ms == 300 * attempt
            &&& answer matches PlaylistAnswer::Rejected(e) ==> step == StepView::Fail(e@)
            &&& answer matches PlaylistAnswer::Failed(e) ==> attempt == 3 ==> step
                == StepView::Fail(e@)
            &&& step is Read ==> answer is Body
            &&& answer matches PlaylistAnswer::Body(t) ==> step is Read ==> starts_with(
                trim_start(trim_start_char(t@, '\u{feff}')),
                "#EXTM3U"@,
            ) && !is_block_page(body_text(encode_utf8(t@)))
            &&& answer matches PlaylistAnswer::Body(t) ==> encode_utf8(t@).len() > 0
                && !is_block_page(body_text(encode_utf8(t@))) && starts_with(
                trim_start(trim_start_char(t@, '\u{feff}')),
                "#EXTM3U"@,
            ) ==> step is Read
        }),
{
}

/// What a playlist consists of.
#[derive(Debug, Clone, Copy, PartialEq, Eq, Structural)]
pub enum PlaylistKind {
    /// Variants to choose from.
    Master,
    /// Segments.
    Media,
    /// Neither is declared; it may list other playlists.
    Index,
}

/// What a playlist consists of.
pub open spec fn kind_of(text: Seq<char>) -> PlaylistKind {
    if contains(text, "#EXT-X-STREAM-INF"@) {
        PlaylistKind::Master
    } else if contains(text, "#EXTINF:"@) {
        PlaylistKind::Media
    } else {
        PlaylistKind::Index
    }
}

/// What a playlist consists of.
pub fn playlist_kind(text: &str) -> (r: PlaylistKind)
    ensures
        r == kind_of(text@),
{
    if str_has(text, "#EXT-X-STREAM-INF") {
        PlaylistKind::Master
    } else if str_has(text, "#EXTINF:") {
        PlaylistKind::Media
    } else {
        PlaylistKind::Index
    }
}

/// The playlist that a line names, where it names one that resolves.
pub open spec fn playlist_on(raw: Seq<char>, base: Seq<char>) -> Option<Seq<char>> {
    let line = trim(raw);
    if line.len() == 0 || line[0] == '#' || !contains(
        line.take(index_of(line, '?', 0)),
        ".m3u8"@,
    ) {
        None
    } else {
        match url_join(base, line) {
            Ok(u) => Some(u),
            Err(_) => None,
        }
    }
}

/// The playlists that some lines name, in their order.
pub open spec fn playlists_on(ls: Seq<Seq<char>>, base: Seq<char>) -> Seq<Seq<char>>
    decreases ls.len(),
{
    if ls.len() == 0 {
        Seq::empty()
    } else {
        let head = playlists_on(ls.drop_last(), base);
        match playlist_on(ls.last(), base) {
            Some(u) => head.push(u),
            None => head,
        }
    }
}

/// The playlists that a playlist lists.
pub fn listed_playlists(text: &str, base_url: &str) -> (r: Vec<String>)
    ensures
        views(r@) == playlists_on(lines(text@), base_url@),
{
    let all = line_list(to_chars(text).as_slice());
    let ghost ls = lines(text@);
    let mut r: Vec<String> = Vec::new();
    let mut i: usize = 0;
    assert(views(r@) =~= playlists_on(ls.take(0), base_url@));
    while i < all.len()
        invariant
            i <= all@.len(),
            ls == char_views(all@),
            views(r@) == playlists_on(ls.take(i as int), base_url@),
        decreases all@.len() - i,
    {
        assert(ls.take(i + 1).drop_last() =~= ls.take(i as int));
        assert(ls.take(i + 1).last() == all@[i as int]@);
        let line = trim_chars(all[i].as_slice());
        if line.len() > 0 && line[0] != '#' {
            let q = position(line.as_slice(), '?', 0);
            let head = copy_range(line.as_slice(), 0, q);
            assert(head@ =~= line@.take(q as int));
            if has(head.as_slice(), to_chars(".m3u8").as_slice()) {
                if let Ok(u) = join(base_url, from_chars(line.as_slice()).as_str()) {
                    let ghost before = views(r@);
                    let ghost text_of = u@;
                    r.push(u);
                    assert(views(r@) =~= before.push(text_of));
                }
            }
        }
        i += 1;
    }
    assert(ls.take(ls.len() as int) =~= ls);
    r
}

/// The quality of a playlist that was read for a variant: what it says itself,
/// or what the variant says of it. Its audio group is the variant's.
pub fn with_quality(info: M3u8Info, variant: &Variant) -> (r: M3u8Info)
    ensures
        r.segments == info.segments,
        r.init_segment == info.init_segment,
        r.audio == info.audio,
        r.durations == info.durations,
        r.variant@ == (VariantView {
            uri: info.variant@.uri,
            bandwidth: if info.variant.bandwidth is Some {
                info.variant.bandwidth
            } else {
                variant.bandwidth
            },
            resolution: if info.variant.resolution is Some {
                info.variant.resolution
            } else {
                variant.resolution
            },
            audio_group: variant@.audio_group,
        }),
{
    let bandwidth = if info.variant.bandwidth.is_some() {
        info.variant.bandwidth
    } else {
        variant.bandwidth
    };
    let resolution = if info.variant.resolution.is_some() {
        info.variant.resolution
    } else {
        variant.resolution
    };
    M3u8Info {
        variant: Variant {
            uri: info.variant.uri,
            bandwidth,
            resolution,
            audio_group: clone_opt(&variant.audio_group),
        },
        segments: info.segments,
        init_segment: info.init_segment,
        audio: info.audio,
        durations: info.durations,
    }
}

/// The variants of some playlists.
pub open spec fn variants_of(infos: Seq<M3u8Info>) -> Seq<VariantView> {
    Seq::new(infos.len(), |i: int| infos[i].variant@)
}

/// The first variant from `i` on with that address.
pub open spec fn first_at(vs: Seq<VariantView>, uri: Seq<char>, i: int) -> int
    decreases vs.len() - i,
{
    if i < 0 || i >= vs.len() || vs[i].uri == uri {
        i
    } else {
        first_at(vs, uri, i + 1)
    }
}

/// Which of the playlists that were read for the variants of a master playlist
/// is downloaded: the first with the address of the one that is preferred.
pub open spec fn choice(vs: Seq<VariantView>, resolution: Seq<char>) -> int {
    let best = choose|i: int| preferred(vs, resolution, i);
    first_at(vs, vs[best].uri, 0)
}

/// Which of the playlists that were read for the variants of a master playlist
/// is downloaded: the first with the address of the one that is preferred.
pub fn choose_playlist(infos: &Vec<M3u8Info>, resolution: &str) -> (r: usize)
    requires
        infos@.len() > 0,
    ensures
        r == choice(variants_of(infos@), resolution@),
        r < infos@.len(),
{
    let mut list: Vec<Variant> = Vec::new();
    let mut k: usize = 0;
    let ghost vs = variants_of(infos@);
    while k < infos.len()
        invariant
            k <= infos@.len(),
            vs == variants_of(infos@),
            list@.len() == k,
            forall|j: int| 0 <= j < k ==> (#[trigger] list@[j])@ == vs[j],
        decreases infos@.len() - k,
    {
        list.push(clone_variant(&infos[k].variant));
        k += 1;
    }
    assert(variant_views(list@) =~= vs);
    let best = match select_variant(list.as_slice(), resolution) {
        Some(v) => v,
        None => {
            return 0;
        },
    };
    let ghost chosen = choose|i: int|
        preferred(vs, resolution@, i) && best@ == (#[trigger] list@[i])@;
    assert(0 <= chosen < vs.len() && best@ == vs[chosen]);
    proof {
        law_preference_is_unambiguous(
            vs,
            resolution@,
            chosen,
            choose|i: int| preferred(vs, resolution@, i),
        );
    }
    let mut r: usize = 0;
    while r < infos.len() && !same_str(infos[r].variant.uri.as_str(), best.uri.as_str())
        invariant
            r <= chosen,
            0 <= chosen < vs.len(),
            vs == variants_of(infos@),
            best@ == vs[chosen],
            first_at(vs, vs[chosen].uri, 0) == first_at(vs, vs[chosen].uri, r as int),
        decreases infos@.len() - r,
    {
        assert(vs[r as int].uri == infos@[r as int].variant.uri@);
        r += 1;
    }
    assert(vs[r as int].uri == infos@[r as int].variant.uri@);
    r
}

proof fn lemma_first_at(vs: Seq<VariantView>, uri: Seq<char>, i: int, j: int)
    requires
        0 <= i <= j < vs.len(),
        vs[j].uri == uri,
    ensures
        i <= first_at(vs, uri, i) <= j,
        vs[first_at(vs, uri, i)].uri == uri,
    decreases j - i,
{
    if vs[i].uri != uri {
        lemma_first_at(vs, uri, i + 1, j);
    }
}

/// A choice is made among the variants there are.
pub proof fn lemma_choice(vs: Seq<VariantView>, resolution: Seq<char>)
    requires
        vs.len() > 0,
    ensures
        0 <= choice(vs, resolution) < vs.len(),
{
    lemma_some_preferred(vs, resolution);
    let best = choose|i: int| preferred(vs, resolution, i);
    lemma_first_at(vs, vs[best].uri, 0, best);
}

/// What is chosen among resolved playlists is a preferred one, or the first that
/// shares its address.
pub proof fn law_chosen_playlists_are_preferred(vs: Seq<VariantView>, resolution: Seq<char>)
    requires
        vs.len() > 0,
    ensures
        0 <= choice(vs, resolution) < vs.len(),
        exists|i: int|
            preferred(vs, resolution, i) && 0 <= i < vs.len() && (#[trigger] vs[i]).uri == vs[choice(
                vs,
                resolution,
            )].uri && choice(vs, resolution) <= i,
{
    lemma_choice(vs, resolution);
    lemma_some_preferred(vs, resolution);
    let best = choose|i: int| preferred(vs, resolution, i);
    assert(preferred(vs, resolution, best));
    lemma_first_at(vs, vs[best].uri, 0, best);
    assert(vs[best].uri == vs[choice(vs, resolution)].uri);
}

/// The address of the audio of a group in a master playlist; nothing where the
/// group's audio is carried by the video.
pub open spec fn audio_address(text: Seq<char>, base: Seq<char>, group: Seq<char>) -> Result<
    Option<Seq<char>>,
    PlaylistFault,
> {
    let rs = renditions(lines(text), group);
    if rs.len() == 0 {
        Err(PlaylistFault::NoRenditions)
    } else {
        let best = choose|i: int| best_rendition(rs, i);
        match quoted_attr(rs[best], "URI"@) {
            None => Ok(None),
            Some(uri) => match url_join(base, uri) {
                Ok(url) => Ok(Some(url)),
                Err(e) => Err(PlaylistFault::InvalidUrl(e)),
            },
        }
    }
}

/// The address of the audio that goes with a variant of a master playlist;
/// nothing where the variant names no audio group, or carries its audio itself.
pub fn audio_playlist(text: &str, base_url: &str, group: &Option<String>) -> (r: Result<
    Option<String>,
    PlaylistError,
>)
    ensures
        match *group {
            None => r == Ok::<Option<String>, PlaylistError>(None),
            Some(g) => match audio_address(text@, base_url@, g@) {
                Ok(found) => r is Ok && opt_view(r->Ok_0) == found,
                Err(e) => r matches Err(x) && x@ == e,
            },
        },
{
    match group {
        None => Ok(None),
        Some(g) => {
            let r = select_audio_uri(text, base_url, g.as_str());
            proof {
                let rs = renditions(lines(text@), g@);
                if rs.len() > 0 {
                    assert(exists|i: int| best_rendition(rs, i));
                    let best = choose|i: int| best_rendition(rs, i);
                    assert forall|i: int| best_rendition(rs, i) implies i == best by {
                        assert(rendition_rank(rs[i]) <= rendition_rank(rs[best]));
                        assert(rendition_rank(rs[best]) <= rendition_rank(rs[i]));
                    }
                }
            }
            r
        },
    }
}

/// Join the audio to a playlist. Audio without segments, or that refers to other
/// audio, cannot be joined.
pub fn with_audio(info: M3u8Info, audio: M3u8Info) -> (r: Option<M3u8Info>)
    ensures
        if audio.segments@.len() == 0 || audio.audio is Some {
            r is None
        } else {
            r matches Some(both) && both.variant == info.variant && both.segments == info.segments
                && both.init_segment == info.init_segment && both.durations == info.durations
                && both.audio == Some(Box::new(audio))
        },
{
    if audio.segments.len() == 0 || audio.audio.is_some() {
        return None;
    }
    Some(
        M3u8Info {
            variant: info.variant,
            segments: info.segments,
            init_segment: info.init_segment,
            audio: Some(Box::new(audio)),
            durations: info.durations,
        },
    )
}

/// What a video page shows, with the address of its playlist. A page without one
/// is an error.
pub fn fetch_video_page(html: &str) -> (r: Result<VideoPage, String>)
    ensures
        ({
            let title = title_of(
                joined(html_texts(html@, "h1"@)),
                first_attr(html_attrs(html@, "meta[property=\"og:title\"]"@, "content"@)),
                joined(html_texts(html@, "title"@)),
            );
            match playlist_in(html@) {
                Some(u) => r matches Ok(page) && page.title@ == title && opt_view(
                    page.playlist_url,
                ) == Some(u),
                None => r matches Err(e) && e@ == "no playlist found on the page (title: "@
                    + debug_text(title) + ") — the player markup may have changed"@,
            }
        }),
{
    let page = parse_video_page(html);
    if page.playlist_url.is_none() {
        let title = quoted(page.title.as_str());
        return Err(
            join3(
                "no playlist found on the page (title: ",
                title.as_str(),
                ") — the player markup may have changed",
            ),
        );
    }
    Ok(page)
}

/// The stream of a video page, once its playlist has been followed or could not
/// be.
pub fn resolve_stream(title: &str, playlist_url: &str, playlist: Result<M3u8Info, String>) -> (r:
    Result<ResolvedStream, String>)
    ensures
        match playlist {
            Ok(info) => r matches Ok(s) && s.title@ == title@ && s.playlist == info && s.kind
                == StreamKind::Hls,
            Err(why) => r matches Err(e) && e@ == "cannot read the playlist "@ + playlist_url@
                + ": "@ + why@,
        },
{
    match playlist {
        Ok(info) => Ok(
            ResolvedStream { title: title.to_owned(), playlist: info, kind: StreamKind::Hls },
        ),
        Err(why) => {
            let head = join3("cannot read the playlist ", playlist_url, ": ");
            Err(join2(head.as_str(), why.as_str()))
        },
    }
}

} // verus!
