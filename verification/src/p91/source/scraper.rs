//! Scraping listings and video pages.
//!
//! Listing pages are grids of cards, in the order the category asks for, so the
//! position of a card is its rank. Video pages hide the player source behind an
//! obfuscated alias for `unescape`; decoding its argument as data yields the
//! `<source>` tag.
use vstd::prelude::*;
use vstd::utf8::{
    char_is_scalar, char_u32_cast, encode_scalar, encode_utf8, encode_utf8_decode_utf8,
    encode_utf8_valid_utf8, has_width_1_encoding, is_ascii_chars, is_ascii_chars_encode_utf8,
    is_scalar,
};
use crate::configuration::jav::{is_web, same_opt};
use crate::configuration::listing::{
    filter_pattern, filter_refusal, listing_of, TitleMatcher,
};
use crate::configuration::p91::{own_listing, Config};
use crate::jav::source::http::{strip_www, without_www};
use crate::jav::source::scraper::{
    char_is_alnum, cover, cover_of, find_duration, first_duration, is_alnum, nth, nth_attrs,
    nth_texts, or_empty, text_or_empty,
};
use crate::jav::source::stream::{
    first_attr, first_group, first_value, group_of_first, join_all, joined,
};
use crate::outside::html::{
    html_inner_attrs, html_inner_texts, html_texts, inner_attrs, inner_texts, list_views, texts,
};
use crate::outside::pattern::{
    captures, group_views, match_views, regex_captures, regex_compiles, regex_error, regex_matches,
    spans_within,
};
use crate::outside::std_text::{from_utf8_lossy, text_of};
use crate::outside::url::{
    host, join, pair_views, path, query_pairs, url_host, url_join, url_path, url_query_pairs,
    url_scheme,
};
use crate::rewrite::{found_spans, spans, splice, spliced, token};
use crate::text::{
    all_digits, ascii_lower, begins, char_views, clone_opt, copy_range, ends, ends_with,
    from_chars, is_digit, join2, join3, lower_chars, opt_view, parse_unsigned, push_all, same, same_str,
    split, split_char, starts_with, strip_trailing, to_chars, trim, trim_chars, trim_end_char,
    trim_str, unsigned_at_most, views,
};

pub use crate::jav::source::scraper::parse_duration;

verus! {

/// `char::from_u32`: the character with that number; `None` for surrogates and
/// for numbers beyond the last character.
pub assume_specification[ char::from_u32 ](i: u32) -> (r: Option<char>)
    ensures
        r == (if i <= 0x10ffff && !(0xd800 <= i <= 0xdfff) {
            Some(i as char)
        } else {
            None
        }),
;

/// One video of a listing.
#[derive(Debug, Clone, PartialEq, Eq)]
pub struct VideoCard {
    /// View key taken from the URL.
    pub id: String,
    pub url: String,
    pub title: String,
    pub image_url: String,
    /// Runtime badge in seconds; `None` when the card omits it.
    pub duration_secs: Option<u64>,
    /// 1-based position in the listing.
    pub rank: Option<usize>,
    /// Internal video id of the card, used to verify that the page we fetched is
    /// the video the listing actually pointed at.
    pub vid: Option<String>,
    /// The card advertises a higher-quality version.
    pub hd: bool,
    /// The card is flagged as an original upload.
    pub original: bool,
}

/// What a card holds.
pub struct CardView {
    pub id: Seq<char>,
    pub url: Seq<char>,
    pub title: Seq<char>,
    pub image_url: Seq<char>,
    pub duration_secs: Option<u64>,
    pub rank: Option<usize>,
    pub vid: Option<Seq<char>>,
    pub hd: bool,
    pub original: bool,
}

impl View for VideoCard {
    type V = CardView;

    open spec fn view(&self) -> CardView {
        CardView {
            id: self.id@,
            url: self.url@,
            title: self.title@,
            image_url: self.image_url@,
            duration_secs: self.duration_secs,
            rank: self.rank,
            vid: opt_view(self.vid),
            hd: self.hd,
            original: self.original,
        }
    }
}

/// What some cards hold.
pub open spec fn card_views(v: Seq<VideoCard>) -> Seq<CardView> {
    Seq::new(v.len(), |i: int| v[i]@)
}

// ── Addresses ────────────────────────────────────────────────────────────

/// Whether a host, in lower case, is the site's.
pub open spec fn site_host(host: Seq<char>) -> bool {
    let h = without_www(host);
    h == "91porn.com"@ || ends_with(h, ".91porn.com"@)
}

/// Whether a host, in lower case, is the site's.
pub fn is_site_host(host: &str) -> (r: bool)
    ensures
        r == site_host(host@),
{
    let h = to_chars(strip_www(host).as_str());
    same(h.as_slice(), to_chars("91porn.com").as_slice()) || ends(
        h.as_slice(),
        to_chars(".91porn.com").as_slice(),
    )
}

/// Whether `s` consists of ASCII letters and digits.
pub open spec fn all_alnum(s: Seq<char>) -> bool {
    forall|i: int| 0 <= i < s.len() ==> is_alnum(#[trigger] s[i])
}

/// Whether a key is one of a video: letters and digits, at least one and at most
/// 64.
pub open spec fn view_key(key: Seq<char>) -> bool {
    0 < key.len() <= 64 && all_alnum(key)
}

/// A view key is a non-empty run of ASCII alphanumerics.
pub fn is_view_key(key: &str) -> (r: bool)
    ensures
        r == view_key(key@),
{
    let v = to_chars(key);
    if v.len() == 0 || v.len() > 64 {
        return false;
    }
    let mut i: usize = 0;
    while i < v.len()
        invariant
            i <= v@.len(),
            v@ == key@,
            forall|j: int| 0 <= j < i ==> is_alnum(#[trigger] v@[j]),
        decreases v@.len() - i,
    {
        if !char_is_alnum(v[i]) {
            assert(!is_alnum(v@[i as int]));
            return false;
        }
        i += 1;
    }
    true
}

/// The value of the first parameter with that name.
pub open spec fn parameter(pairs: Seq<(Seq<char>, Seq<char>)>, name: Seq<char>) -> Option<Seq<char>>
    decreases pairs.len(),
{
    if pairs.len() == 0 {
        None
    } else if pairs[0].0 == name {
        Some(pairs[0].1)
    } else {
        parameter(pairs.skip(1), name)
    }
}

fn find_parameter(pairs: &Vec<(String, String)>, name: &str) -> (r: Option<String>)
    ensures
        opt_view(r) == parameter(pair_views(pairs@), name@),
{
    let ghost all = pair_views(pairs@);
    let mut i: usize = 0;
    assert(all.skip(0) =~= all);
    while i < pairs.len()
        invariant
            i <= pairs@.len(),
            all == pair_views(pairs@),
            parameter(all, name@) == parameter(all.skip(i as int), name@),
        decreases pairs@.len() - i,
    {
        assert(all.skip(i as int)[0] == (pairs@[i as int].0@, pairs@[i as int].1@));
        assert(all.skip(i as int).skip(1) =~= all.skip(i + 1));
        if same_str(pairs[i].0.as_str(), name) {
            return Some(pairs[i].1.clone());
        }
        i += 1;
    }
    None
}

/// The view key of a video page.
pub open spec fn video_id(url: Seq<char>) -> Option<Seq<char>> {
    let page = split(trim_end_char(url_path(url)->0, '/'), '/').last();
    let key = parameter(url_query_pairs(url)->0, "viewkey"@);
    if url_path(url) is None || url_query_pairs(url) is None || url_host(url) is None || !(
    url_scheme(url) == Some("http"@) || url_scheme(url) == Some("https"@)) || !site_host(
        ascii_lower(url_host(url)->0),
    ) || !(page == "view_video.php"@ || page == "view_video_hd.php"@) || key is None || !view_key(
        key->0,
    ) {
        None
    } else {
        key
    }
}

/// Extract the view key from a video page URL.
pub fn video_id_from_url(url: &str) -> (r: Option<String>)
    ensures
        opt_view(r) == video_id(url@),
{
    let (h, p, pairs) = match (host(url), path(url), query_pairs(url)) {
        (Some(h), Some(p), Some(q)) => (h, p, q),
        _ => {
            return None;
        },
    };
    let l = lower_chars(to_chars(h.as_str()).as_slice());
    if !is_web(url) || !is_site_host(from_chars(l.as_slice()).as_str()) {
        return None;
    }
    let t = strip_trailing(to_chars(p.as_str()).as_slice(), '/');
    let parts = split_char(t.as_slice(), '/');
    let ghost all = split(t@, '/');
    let page = &parts[parts.len() - 1];
    assert(all.last() == page@);
    if !same(page.as_slice(), to_chars("view_video.php").as_slice()) && !same(
        page.as_slice(),
        to_chars("view_video_hd.php").as_slice(),
    ) {
        return None;
    }
    match find_parameter(&pairs, "viewkey") {
        Some(key) => if is_view_key(key.as_str()) {
            Some(key)
        } else {
            None
        },
        None => None,
    }
}

/// A URL made absolute: one without a scheme is fetched securely, one without a
/// host is the site's.
pub open spec fn absolute_of(url: Seq<char>) -> Seq<char> {
    let u = trim(url);
    if starts_with(u, "http://"@) || starts_with(u, "https://"@) {
        u
    } else if starts_with(u, "//"@) {
        "https://"@ + u.skip(2)
    } else if starts_with(u, "/"@) {
        "https://www.91porn.com"@ + u
    } else {
        u
    }
}

/// Resolve a possibly protocol-relative or site-relative URL.
pub fn absolute(url: &str) -> (r: String)
    ensures
        r@ == absolute_of(url@),
{
    let u = trim_chars(to_chars(url).as_slice());
    if begins(u.as_slice(), to_chars("http://").as_slice()) || begins(
        u.as_slice(),
        to_chars("https://").as_slice(),
    ) {
        return from_chars(u.as_slice());
    }
    proof {
        reveal_strlit("//");
    }
    if begins(u.as_slice(), to_chars("//").as_slice()) {
        let rest = copy_range(u.as_slice(), 2, u.len());
        assert(rest@ =~= u@.skip(2));
        return join2("https://", from_chars(rest.as_slice()).as_str());
    }
    let text = from_chars(u.as_slice());
    if begins(u.as_slice(), to_chars("/").as_slice()) {
        return join2("https://www.91porn.com", text.as_str());
    }
    text
}

/// The id in the address of a cover.
pub const THUMB: &'static str = "/thumb/(\\d+)\\.";

/// Numeric id from a cover URL.
pub fn thumb_id(url: &str) -> (r: Option<String>)
    ensures
        opt_view(r) == first_group(regex_captures(THUMB@, url@), 1),
{
    group_of_first(&captures(THUMB, url), 1)
}

// ── Entities ─────────────────────────────────────────────────────────────

/// An entity: a number in decimal or hexadecimal, or a name.
pub const ENTITY: &'static str = "&(#[0-9]+|#[xX][0-9a-fA-F]+|[a-zA-Z]+);";

/// The character with that number, where there is one.
pub open spec fn char_numbered(n: Option<nat>) -> Option<char> {
    match n {
        Some(i) => if i <= 0x10ffff && !(0xd800 <= i <= 0xdfff) {
            Some(i as char)
        } else {
            None
        },
        None => None,
    }
}

/// The number that hexadecimal digits write, where a 32-bit word holds it.
pub open spec fn hex_u32(s: Seq<char>) -> Option<nat> {
    match crate::jav::source::stream::parse_radix(s, 16) {
        Some(n) => if n <= u32::MAX {
            Some(n)
        } else {
            None
        },
        None => None,
    }
}

/// The character that an entity stands for, from what is between `&` and `;`.
pub open spec fn entity_char(body: Seq<char>) -> Option<char> {
    if starts_with(body, "#x"@) || starts_with(body, "#X"@) {
        char_numbered(hex_u32(body.skip(2)))
    } else if starts_with(body, "#"@) {
        char_numbered(parse_unsigned(body.skip(1), u32::MAX as nat))
    } else if body == "amp"@ {
        Some('&')
    } else if body == "lt"@ {
        Some('<')
    } else if body == "gt"@ {
        Some('>')
    } else if body == "quot"@ {
        Some('"')
    } else if body == "apos"@ {
        Some('\'')
    } else if body == "nbsp"@ {
        Some(' ')
    } else {
        None
    }
}

/// What an entity is replaced by: its character, or itself.
pub open spec fn entity_text(entity: Seq<char>) -> Seq<char> {
    if entity.len() < 2 {
        entity
    } else {
        match entity_char(entity.subrange(1, entity.len() - 1)) {
            Some(c) => seq![c],
            None => entity,
        }
    }
}

/// A text with its entities replaced, without white space around it.
pub open spec fn decoded(text: Seq<char>, spans: Seq<(usize, usize)>) -> Seq<char> {
    trim(
        spliced(text, spans, Seq::new(spans.len(), |i: int| entity_text(token(text, spans[i])))),
    )
}

fn numbered(n: Option<u64>) -> (r: Option<char>)
    ensures
        r == char_numbered(
            match n {
                Some(i) => Some(i as nat),
                None => None,
            },
        ),
{
    match n {
        Some(i) => if i <= 0x10ffff {
            char::from_u32(i as u32)
        } else {
            None
        },
        None => None,
    }
}

/// The character that an entity stands for, from what is between `&` and `;`.
pub fn entity_value(body: &[char]) -> (r: Option<char>)
    ensures
        r == entity_char(body@),
{
    proof {
        reveal_strlit("#x");
        reveal_strlit("#X");
        reveal_strlit("#");
    }
    if begins(body, to_chars("#x").as_slice()) || begins(body, to_chars("#X").as_slice()) {
        let rest = copy_range(body, 2, body.len());
        assert(rest@ =~= body@.skip(2));
        let n = match crate::jav::source::stream::number_in(rest.as_slice(), 16) {
            Some(n) => if n <= 0xffff_ffff {
                Some(n as u64)
            } else {
                None
            },
            None => None,
        };
        return numbered(n);
    }
    if begins(body, to_chars("#").as_slice()) {
        let rest = copy_range(body, 1, body.len());
        assert(rest@ =~= body@.skip(1));
        return numbered(unsigned_at_most(rest.as_slice(), u32::MAX as u64));
    }
    if same(body, to_chars("amp").as_slice()) {
        Some('&')
    } else if same(body, to_chars("lt").as_slice()) {
        Some('<')
    } else if same(body, to_chars("gt").as_slice()) {
        Some('>')
    } else if same(body, to_chars("quot").as_slice()) {
        Some('"')
    } else if same(body, to_chars("apos").as_slice()) {
        Some('\'')
    } else if same(body, to_chars("nbsp").as_slice()) {
        Some(' ')
    } else {
        None
    }
}

/// Replace the entities at some places of a text, and trim it.
pub fn decode_spans(text: &str, spans: &Vec<(usize, usize)>) -> (r: String)
    requires
        spans_within(spans@, text@.len()),
    ensures
        r@ == decoded(text@, spans@),
{
    let v = to_chars(text);
    let ghost expected = Seq::new(spans@.len(), |i: int| entity_text(token(text@, spans@[i])));
    let mut subs: Vec<Vec<char>> = Vec::new();
    let mut n: usize = 0;
    while n < spans.len()
        invariant
            n <= spans@.len(),
            v@ == text@,
            spans_within(spans@, text@.len()),
            expected == Seq::new(spans@.len(), |i: int| entity_text(token(text@, spans@[i]))),
            subs@.len() == n,
            forall|k: int| 0 <= k < n ==> (#[trigger] subs@[k])@ == expected[k],
        decreases spans@.len() - n,
    {
        let (from, to) = spans[n];
        assert(spans@[n as int].0 <= spans@[n as int].1);
        let t = copy_range(v.as_slice(), from, to);
        assert(t@ == token(text@, spans@[n as int]));
        if t.len() < 2 {
            subs.push(t);
        } else {
            let body = copy_range(t.as_slice(), 1, t.len() - 1);
            match entity_value(body.as_slice()) {
                Some(c) => {
                    let mut one: Vec<char> = Vec::new();
                    one.push(c);
                    assert(one@ =~= seq![c]);
                    subs.push(one);
                },
                None => {
                    subs.push(t);
                },
            }
        }
        n += 1;
    }
    assert(char_views(subs@) =~= expected);
    let whole = splice(v.as_slice(), spans, &subs);
    from_chars(trim_chars(whole.as_slice()).as_slice())
}

/// A text with its entities replaced, without white space around it.
pub open spec fn plain_text(text: Seq<char>) -> Seq<char> {
    decoded(text, found_spans(ENTITY@, text))
}

/// Trim white space and decode the HTML entities the site writes into titles.
pub fn entity_decoded(text: &str) -> (r: String)
    ensures
        r@ == plain_text(text@),
{
    decode_spans(text, &spans(ENTITY, text))
}

// ── Listings ─────────────────────────────────────────────────────────────

/// What a card of a listing page shows.
#[derive(Debug, Clone)]
pub struct RawCard {
    /// Where its links lead.
    pub links: Vec<Option<String>>,
    /// Its titles.
    pub titles: Vec<String>,
    /// What stands for its images.
    pub alts: Vec<Option<String>>,
    /// Where its images come from once they are shown.
    pub lazy: Vec<Option<String>>,
    /// Where its images come from.
    pub sources: Vec<Option<String>>,
    /// Its duration badges.
    pub badges: Vec<String>,
    /// The ids of its covers.
    pub thumbs: Vec<Option<String>>,
    /// It is flagged as HD.
    pub hd: bool,
    /// It is flagged as an original upload.
    pub original: bool,
}

/// What a card of a listing page shows.
pub struct RawView {
    pub links: Seq<Option<Seq<char>>>,
    pub titles: Seq<Seq<char>>,
    pub alts: Seq<Option<Seq<char>>>,
    pub lazy: Seq<Option<Seq<char>>>,
    pub sources: Seq<Option<Seq<char>>>,
    pub badges: Seq<Seq<char>>,
    pub thumbs: Seq<Option<Seq<char>>>,
    pub hd: bool,
    pub original: bool,
}

impl View for RawCard {
    type V = RawView;

    open spec fn view(&self) -> RawView {
        RawView {
            links: group_views(self.links@),
            titles: views(self.titles@),
            alts: group_views(self.alts@),
            lazy: group_views(self.lazy@),
            sources: group_views(self.sources@),
            badges: views(self.badges@),
            thumbs: group_views(self.thumbs@),
            hd: self.hd,
            original: self.original,
        }
    }
}

/// What some cards show.
pub open spec fn raw_views(v: Seq<RawCard>) -> Seq<RawView> {
    Seq::new(v.len(), |i: int| v[i]@)
}

/// The first link that leads to a video, made absolute.
pub open spec fn detail_link(links: Seq<Option<Seq<char>>>) -> Option<Seq<char>>
    decreases links.len(),
{
    if links.len() == 0 {
        None
    } else if links[0] is Some && video_id(absolute_of(links[0]->0)) is Some {
        Some(absolute_of(links[0]->0))
    } else {
        detail_link(links.skip(1))
    }
}

/// The first attribute that is there.
pub open spec fn first_present(values: Seq<Option<Seq<char>>>) -> Option<Seq<char>>
    decreases values.len(),
{
    if values.len() == 0 {
        None
    } else if values[0] is Some {
        values[0]
    } else {
        first_present(values.skip(1))
    }
}

/// Whether `s` is a number.
pub open spec fn is_number(s: Seq<char>) -> bool {
    s.len() > 0 && all_digits(s)
}

/// The video id in the id of a cover.
pub open spec fn vid_of(thumb: Option<Seq<char>>) -> Option<Seq<char>> {
    if thumb is Some && starts_with(thumb->0, "playvthumb_"@) && is_number(thumb->0.skip(11)) {
        Some(thumb->0.skip(11))
    } else {
        None
    }
}

/// The title of a card: its own, or what stands for its image, or its id.
pub open spec fn card_title(raw: RawView, id: Seq<char>) -> Seq<char> {
    let own = plain_text(joined(raw.titles));
    let alt = plain_text(or_empty(first_attr(raw.alts)));
    if own.len() > 0 {
        own
    } else if alt.len() > 0 {
        alt
    } else {
        id
    }
}

/// Whether a card with that id is among some cards.
pub open spec fn has_id(cards: Seq<CardView>, id: Seq<char>) -> bool {
    exists|i: int| 0 <= i < cards.len() && (#[trigger] cards[i]).id == id
}

/// Whether the two ids of a card agree: that of its cover's element, and that in
/// its cover's address.
pub open spec fn ids_agree(raw: RawView) -> bool {
    let image = cover(first_attr(raw.lazy), first_attr(raw.sources));
    let vid = vid_of(first_present(raw.thumbs));
    vid is Some && vid == first_group(regex_captures(THUMB@, image), 1)
}

/// The cards of a listing: each that leads to a video that none before it leads
/// to, and whose own two ids agree, ranked by its position.
pub open spec fn cards_of(raw: Seq<RawView>) -> Seq<CardView>
    decreases raw.len(),
{
    if raw.len() == 0 {
        Seq::empty()
    } else {
        let head = cards_of(raw.drop_last());
        let one = raw.last();
        match detail_link(one.links) {
            None => head,
            Some(url) => {
                let id = video_id(url)->0;
                if has_id(head, id) || !ids_agree(one) {
                    head
                } else {
                    head.push(
                        CardView {
                            id,
                            url: absolute_of(url),
                            title: card_title(one, id),
                            image_url: absolute_of(
                                cover(first_attr(one.lazy), first_attr(one.sources)),
                            ),
                            duration_secs: first_duration(one.badges),
                            rank: Some((head.len() + 1) as usize),
                            vid: vid_of(first_present(one.thumbs)),
                            hd: one.hd,
                            original: one.original,
                        },
                    )
                }
            },
        }
    }
}

fn find_link(links: &Vec<Option<String>>) -> (r: Option<(String, String)>)
    ensures
        match r {
            Some((url, id)) => detail_link(group_views(links@)) == Some(url@) && video_id(url@)
                == Some(id@),
            None => detail_link(group_views(links@)) is None,
        },
{
    let ghost all = group_views(links@);
    let mut i: usize = 0;
    assert(all.skip(0) =~= all);
    while i < links.len()
        invariant
            i <= links@.len(),
            all == group_views(links@),
            detail_link(all) == detail_link(all.skip(i as int)),
        decreases links@.len() - i,
    {
        assert(all.skip(i as int)[0] == opt_view(links@[i as int]));
        assert(all.skip(i as int).skip(1) =~= all.skip(i + 1));
        if let Some(href) = &links[i] {
            let url = absolute(href.as_str());
            if let Some(id) = video_id_from_url(url.as_str()) {
                return Some((url, id));
            }
        }
        i += 1;
    }
    None
}

fn find_present(values: &Vec<Option<String>>) -> (r: Option<String>)
    ensures
        opt_view(r) == first_present(group_views(values@)),
{
    let ghost all = group_views(values@);
    let mut i: usize = 0;
    assert(all.skip(0) =~= all);
    while i < values.len()
        invariant
            i <= values@.len(),
            all == group_views(values@),
            first_present(all) == first_present(all.skip(i as int)),
        decreases values@.len() - i,
    {
        assert(all.skip(i as int)[0] == opt_view(values@[i as int]));
        assert(all.skip(i as int).skip(1) =~= all.skip(i + 1));
        if values[i].is_some() {
            return clone_opt(&values[i]);
        }
        i += 1;
    }
    None
}

fn chars_are_number(v: &[char]) -> (r: bool)
    ensures
        r == is_number(v@),
{
    if v.len() == 0 {
        return false;
    }
    let mut i: usize = 0;
    while i < v.len()
        invariant
            i <= v@.len(),
            forall|j: int| 0 <= j < i ==> is_digit(#[trigger] v@[j]),
        decreases v@.len() - i,
    {
        if !('0' <= v[i] && v[i] <= '9') {
            assert(!is_digit(v@[i as int]));
            return false;
        }
        i += 1;
    }
    true
}

fn vid_in(thumb: &Option<String>) -> (r: Option<String>)
    ensures
        opt_view(r) == vid_of(opt_view(*thumb)),
{
    match thumb {
        None => None,
        Some(t) => {
            let v = to_chars(t.as_str());
            proof {
                reveal_strlit("playvthumb_");
            }
            if !begins(v.as_slice(), to_chars("playvthumb_").as_slice()) {
                return None;
            }
            let rest = copy_range(v.as_slice(), 11, v.len());
            assert(rest@ =~= t@.skip(11));
            if chars_are_number(rest.as_slice()) {
                Some(from_chars(rest.as_slice()))
            } else {
                None
            }
        },
    }
}

/// Build the cards of a listing from what its page shows.
pub fn build_cards(raw: &Vec<RawCard>) -> (r: Vec<VideoCard>)
    ensures
        card_views(r@) == cards_of(raw_views(raw@)),
{
    let ghost all = raw_views(raw@);
    let mut cards: Vec<VideoCard> = Vec::new();
    let mut i: usize = 0;
    assert(card_views(cards@) =~= cards_of(all.take(0)));
    while i < raw.len()
        invariant
            i <= raw@.len(),
            cards@.len() <= i,
            all == raw_views(raw@),
            card_views(cards@) == cards_of(all.take(i as int)),
        decreases raw@.len() - i,
    {
        assert(all.take(i + 1).drop_last() =~= all.take(i as int));
        assert(all.take(i + 1).last() == raw@[i as int]@);
        let one = &raw[i];
        if let Some((url, id)) = find_link(&one.links) {
            let ghost head = card_views(cards@);
            let mut known = false;
            let mut k: usize = 0;
            while k < cards.len()
                invariant
                    k <= cards@.len(),
                    head == card_views(cards@),
                    known == exists|j: int| 0 <= j < k && (#[trigger] head[j]).id == id@,
                decreases cards@.len() - k,
            {
                assert(head[k as int].id == cards@[k as int].id@);
                if same_str(cards[k].id.as_str(), id.as_str()) {
                    known = true;
                }
                k += 1;
            }
            assert(known == has_id(head, id@));
            let image = cover_of(&one.lazy, &one.sources);
            let vid = vid_in(&find_present(&one.thumbs));
            let agree = vid.is_some() && same_opt(&vid, &thumb_id(image.as_str()));
            if !known && agree {
                let mut title = entity_decoded(join_all(&one.titles).as_str());
                if to_chars(title.as_str()).len() == 0 {
                    title = entity_decoded(text_or_empty(&first_value(&one.alts)).as_str());
                }
                if to_chars(title.as_str()).len() == 0 {
                    title = id.clone();
                }
                let rank = cards.len() + 1;
                let card = VideoCard {
                    id,
                    url: absolute(url.as_str()),
                    title,
                    image_url: absolute(image.as_str()),
                    duration_secs: find_duration(&one.badges),
                    rank: Some(rank),
                    vid,
                    hd: one.hd,
                    original: one.original,
                };
                let ghost seen = card@;
                cards.push(card);
                assert(card_views(cards@) =~= head.push(seen));
            }
        }
        i += 1;
    }
    assert(all.take(all.len() as int) =~= all);
    cards
}

/// The element that holds a card.
pub const CARD: &'static str = "div.well.well-sm.videos-text-align";

/// The links of a card that may lead to its video.
pub const CARD_LINK: &'static str = "a[href*=\"view_video.php?viewkey=\"]";

/// What the cards of a page show.
pub open spec fn raw_cards(html: Seq<char>) -> Seq<RawView> {
    let links = html_inner_attrs(html, CARD@, CARD_LINK@, "href"@);
    Seq::new(
        links.len(),
        |i: int|
            RawView {
                links: links[i],
                titles: nth(html_inner_texts(html, CARD@, "span.video-title"@), i),
                alts: nth(html_inner_attrs(html, CARD@, "img"@, "alt"@), i),
                lazy: nth(html_inner_attrs(html, CARD@, "img"@, "data-src"@), i),
                sources: nth(html_inner_attrs(html, CARD@, "img"@, "src"@), i),
                badges: nth(html_inner_texts(html, CARD@, "span.duration"@), i),
                thumbs: nth(html_inner_attrs(html, CARD@, "div.thumb-overlay"@, "id"@), i),
                hd: nth(html_inner_texts(html, CARD@, "div.hd-text-icon"@), i).len() > 0,
                original: nth(html_inner_texts(html, CARD@, "div.original-text-icon"@), i).len()
                    > 0,
            },
    )
}

fn read_cards(html: &str) -> (r: Vec<RawCard>)
    ensures
        raw_views(r@) == raw_cards(html@),
{
    let links = inner_attrs(html, CARD, CARD_LINK, "href");
    let titles = inner_texts(html, CARD, "span.video-title");
    let alts = inner_attrs(html, CARD, "img", "alt");
    let lazy = inner_attrs(html, CARD, "img", "data-src");
    let sources = inner_attrs(html, CARD, "img", "src");
    let badges = inner_texts(html, CARD, "span.duration");
    let thumbs = inner_attrs(html, CARD, "div.thumb-overlay", "id");
    let hds = inner_texts(html, CARD, "div.hd-text-icon");
    let originals = inner_texts(html, CARD, "div.original-text-icon");
    let ghost expected = raw_cards(html@);
    let mut r: Vec<RawCard> = Vec::new();
    let mut i: usize = 0;
    while i < links.len()
        invariant
            i <= links@.len(),
            expected == raw_cards(html@),
            match_views(links@) == html_inner_attrs(html@, CARD@, CARD_LINK@, "href"@),
            list_views(titles@) == html_inner_texts(html@, CARD@, "span.video-title"@),
            match_views(alts@) == html_inner_attrs(html@, CARD@, "img"@, "alt"@),
            match_views(lazy@) == html_inner_attrs(html@, CARD@, "img"@, "data-src"@),
            match_views(sources@) == html_inner_attrs(html@, CARD@, "img"@, "src"@),
            list_views(badges@) == html_inner_texts(html@, CARD@, "span.duration"@),
            match_views(thumbs@) == html_inner_attrs(html@, CARD@, "div.thumb-overlay"@, "id"@),
            list_views(hds@) == html_inner_texts(html@, CARD@, "div.hd-text-icon"@),
            list_views(originals@) == html_inner_texts(html@, CARD@, "div.original-text-icon"@),
            r@.len() == i,
            forall|k: int| 0 <= k < i ==> (#[trigger] r@[k])@ == expected[k],
        decreases links@.len() - i,
    {
        let hd_texts = nth_texts(&hds, i);
        let original_texts = nth_texts(&originals, i);
        let one = RawCard {
            links: nth_attrs(&links, i),
            titles: nth_texts(&titles, i),
            alts: nth_attrs(&alts, i),
            lazy: nth_attrs(&lazy, i),
            sources: nth_attrs(&sources, i),
            badges: nth_texts(&badges, i),
            thumbs: nth_attrs(&thumbs, i),
            hd: hd_texts.len() > 0,
            original: original_texts.len() > 0,
        };
        assert(views(hd_texts@).len() == hd_texts@.len());
        assert(views(original_texts@).len() == original_texts@.len());
        assert(one@ == expected[i as int]);
        r.push(one);
        i += 1;
    }
    assert(raw_views(r@) =~= expected);
    r
}

/// Pure parser for a listing page.
pub fn parse_list(html: &str) -> (r: Vec<VideoCard>)
    ensures
        card_views(r@) == cards_of(raw_cards(html@)),
{
    build_cards(&read_cards(html))
}

/// Whether the filters of a configuration keep a card: the HD flag where it is
/// asked for, a known duration that is long enough, and the title.
pub open spec fn passes(
    card: CardView,
    hd_only: bool,
    min_duration: u64,
    matcher: Option<TitleMatcher>,
) -> bool {
    &&& hd_only ==> card.hd
    &&& card.duration_secs matches Some(d) ==> d >= min_duration
    &&& matcher matches Some(m) ==> m.keeps(card.title)
}

/// The cards that the filters keep, in their order.
pub open spec fn filtered(
    cards: Seq<CardView>,
    hd_only: bool,
    min_duration: u64,
    matcher: Option<TitleMatcher>,
) -> Seq<CardView>
    decreases cards.len(),
{
    if cards.len() == 0 {
        Seq::empty()
    } else {
        let head = filtered(cards.drop_last(), hd_only, min_duration, matcher);
        if passes(cards.last(), hd_only, min_duration, matcher) {
            head.push(cards.last())
        } else {
            head
        }
    }
}

/// A copy of a card.
pub fn clone_card(c: &VideoCard) -> (r: VideoCard)
    ensures
        r@ == c@,
{
    VideoCard {
        id: c.id.clone(),
        url: c.url.clone(),
        title: c.title.clone(),
        image_url: c.image_url.clone(),
        duration_secs: c.duration_secs,
        rank: c.rank,
        vid: clone_opt(&c.vid),
        hd: c.hd,
        original: c.original,
    }
}

/// Shared listing filters: HD-only, minimum duration, and the title matcher.
/// Unknown durations stay eligible rather than being silently dropped.
pub fn apply_filters(cards: &mut Vec<VideoCard>, cfg: &Config, matcher: &Option<TitleMatcher>)
    ensures
        card_views(final(cards)@) == filtered(
            card_views(old(cards)@),
            cfg.hd_only,
            cfg.min_duration_secs,
            *matcher,
        ),
{
    let ghost all = card_views(cards@);
    let mut kept: Vec<VideoCard> = Vec::new();
    let mut i: usize = 0;
    assert(card_views(kept@) =~= filtered(
        all.take(0),
        cfg.hd_only,
        cfg.min_duration_secs,
        *matcher,
    ));
    while i < cards.len()
        invariant
            i <= cards@.len(),
            all == card_views(cards@),
            card_views(kept@) == filtered(
                all.take(i as int),
                cfg.hd_only,
                cfg.min_duration_secs,
                *matcher,
            ),
        decreases cards@.len() - i,
    {
        assert(all.take(i + 1).drop_last() =~= all.take(i as int));
        assert(all.take(i + 1).last() == cards@[i as int]@);
        let card = &cards[i];
        let long = match card.duration_secs {
            Some(d) => d >= cfg.min_duration_secs,
            None => true,
        };
        let titled = match matcher {
            Some(m) => m.is_match(card.title.as_str()),
            None => true,
        };
        if (!cfg.hd_only || card.hd) && long && titled {
            let ghost before = card_views(kept@);
            kept.push(clone_card(card));
            assert(card_views(kept@) =~= before.push(cards@[i as int]@));
        }
        i += 1;
    }
    assert(all.take(all.len() as int) =~= all);
    *cards = kept;
}

/// A listing never holds two cards for one video, and its ranks count the cards
/// from one.
pub proof fn law_cards_are_distinct_and_ranked(raw: Seq<RawView>)
    requires
        raw.len() < usize::MAX,
    ensures
        forall|i: int, j: int|
            0 <= i < j < cards_of(raw).len() ==> (#[trigger] cards_of(raw)[i]).id != (
            #[trigger] cards_of(raw)[j]).id,
        forall|i: int|
            0 <= i < cards_of(raw).len() ==> (#[trigger] cards_of(raw)[i]).rank == Some(
                (i + 1) as usize,
            ),
        cards_of(raw).len() <= raw.len(),
    decreases raw.len(),
{
    if raw.len() > 0 {
        law_cards_are_distinct_and_ranked(raw.drop_last());
        let head = cards_of(raw.drop_last());
        let all = cards_of(raw);
        if all != head {
            assert(all.len() == head.len() + 1);
            assert(forall|i: int| 0 <= i < head.len() ==> all[i] == head[i]);
            assert(!has_id(head, all.last().id));
            assert forall|i: int, j: int| 0 <= i < j < all.len() implies (#[trigger] all[i]).id != (
            #[trigger] all[j]).id by {
                if j == head.len() {
                    assert(all[i] == head[i]);
                    assert(head[i].id != all.last().id);
                } else {
                    assert(all[i] == head[i] && all[j] == head[j]);
                }
            }
        }
    }
}

/// Every card of a listing names the video id of its own cover; cards whose ids
/// disagree, as those of stale copies do, never get in.
pub proof fn law_cards_have_video_ids(raw: Seq<RawView>, i: int)
    requires
        0 <= i < cards_of(raw).len(),
    ensures
        cards_of(raw)[i].vid matches Some(vid) && is_number(vid),
    decreases raw.len(),
{
    if raw.len() > 0 {
        let head = cards_of(raw.drop_last());
        if i < head.len() {
            law_cards_have_video_ids(raw.drop_last(), i);
            assert(cards_of(raw)[i] == head[i]);
        }
    }
}

/// The link of a card is its first one that leads to a video.
pub proof fn law_first_video_link_counts(links: Seq<Option<Seq<char>>>, k: int)
    requires
        0 <= k < links.len(),
        links[k] is Some,
        video_id(absolute_of(links[k]->0)) is Some,
        forall|j: int|
            0 <= j < k ==> (#[trigger] links[j]) is None || video_id(absolute_of(links[j]->0)) is None,
    ensures
        detail_link(links) == Some(absolute_of(links[k]->0)),
    decreases k,
{
    if k > 0 {
        let rest = links.skip(1);
        assert(links[0] is None || video_id(absolute_of(links[0]->0)) is None);
        assert forall|j: int| 0 <= j < k - 1 implies (#[trigger] rest[j]) is None || video_id(
            absolute_of(rest[j]->0),
        ) is None by {
            assert(rest[j] == links[j + 1]);
        }
        law_first_video_link_counts(rest, k - 1);
    }
}

/// A listing yields a card for each of its boxes that leads to a video which is not
/// there yet and whose two ids agree; what is marked in the box is marked on the
/// card. Any other box yields nothing, and no box changes the cards of others.
pub proof fn law_boxes_become_cards(raw: Seq<RawView>, one: RawView)
    requires
        raw.len() < usize::MAX,
    ensures
        ({
            let head = cards_of(raw);
            let all = cards_of(raw.push(one));
            let image = cover(first_attr(one.lazy), first_attr(one.sources));
            let thumb = first_present(one.thumbs);
            let agree = thumb is Some && starts_with(thumb->0, "playvthumb_"@) && is_number(
                thumb->0.skip(11),
            ) && first_group(regex_captures("/thumb/(\\d+)\\."@, image), 1) == Some(
                thumb->0.skip(11),
            );
            match detail_link(one.links) {
                None => all == head,
                Some(url) => {
                    let id = video_id(url);
                    let known = exists|i: int|
                        0 <= i < head.len() && (#[trigger] head[i]).id == id->0;
                    &&& known || !agree ==> all == head
                    &&& !known && agree ==> {
                        let c = all.last();
                        &&& all.len() == head.len() + 1 && all.drop_last() =~= head
                        &&& c.id == id->0 && c.url == absolute_of(url)
                        &&& c.hd == one.hd && c.original == one.original
                        &&& c.vid == Some(thumb->0.skip(11)) && c.image_url == absolute_of(image)
                        &&& c.rank == Some((head.len() + 1) as usize)
                        &&& c.duration_secs == first_duration(one.badges)
                        &&& plain_text(joined(one.titles)).len() > 0 ==> c.title == plain_text(
                            joined(one.titles),
                        )
                        &&& plain_text(joined(one.titles)).len() == 0 && one.alts.len() > 0
                            && one.alts[0] is Some && plain_text(one.alts[0]->0).len() > 0
                            ==> c.title == plain_text(one.alts[0]->0)
                        &&& plain_text(joined(one.titles)).len() == 0 && one.alts.len() > 0
                            && one.alts[0] is Some && plain_text(one.alts[0]->0).len() == 0
                            ==> c.title == c.id
                    }
                },
            }
        }),
{
    assert(raw.push(one).drop_last() =~= raw);
}

/// An address names a video only on the site itself, over HTTP, on the page of a
/// video, with a key of at most 64 letters and digits; the key is its id.
pub proof fn law_ids_come_from_video_pages(url: Seq<char>)
    ensures
        video_id(url) matches Some(id) ==> {
            let host = ascii_lower(url_host(url)->0);
            &&& url_scheme(url) == Some("http"@) || url_scheme(url) == Some("https"@)
            &&& without_www(host) == "91porn.com"@ || ends_with(without_www(host), ".91porn.com"@)
            &&& 0 < id.len() <= 64
            &&& forall|i: int| 0 <= i < id.len() ==> is_alnum(#[trigger] id[i])
            &&& parameter(url_query_pairs(url)->0, "viewkey"@) == Some(id)
        },
{
}

/// Each filter holds on its own, whatever the others are: what is kept is high
/// definition where only that is wanted, is not known to be shorter than the least
/// duration, and has a title that the matcher, where there is one, matches. Nothing
/// else is dropped, and the order stays.
pub proof fn law_each_filter_holds(
    cards: Seq<CardView>,
    hd_only: bool,
    min_duration: u64,
    matcher: Option<TitleMatcher>,
)
    ensures
        ({
            let kept = filtered(cards, hd_only, min_duration, matcher);
            &&& hd_only ==> forall|i: int| 0 <= i < kept.len() ==> (#[trigger] kept[i]).hd
            &&& forall|i: int|
                0 <= i < kept.len() ==> ((#[trigger] kept[i]).duration_secs matches Some(d) ==> d
                    >= min_duration)
            &&& matcher matches Some(m) ==> forall|i: int|
                0 <= i < kept.len() ==> regex_matches(
                    m.pattern@,
                    m.ignore_case,
                    (#[trigger] kept[i]).title,
                )
            &&& forall|i: int| 0 <= i < kept.len() ==> cards.contains(#[trigger] kept[i])
            &&& forall|j: int|
                0 <= j < cards.len() && (hd_only ==> cards[j].hd) && (cards[j].duration_secs
                    matches Some(d) ==> d >= min_duration) && (matcher matches Some(m)
                    ==> regex_matches(m.pattern@, m.ignore_case, cards[j].title))
                    ==> kept.contains(#[trigger] cards[j])
            &&& kept == cards.filter(
                |c: CardView|
                    (hd_only ==> c.hd) && (c.duration_secs matches Some(d) ==> d >= min_duration)
                        && (matcher matches Some(m) ==> regex_matches(
                        m.pattern@,
                        m.ignore_case,
                        c.title,
                    )),
            )
        }),
    decreases cards.len(),
{
    reveal(Seq::filter);
    if cards.len() > 0 {
        let rest = cards.drop_last();
        law_each_filter_holds(rest, hd_only, min_duration, matcher);
        let head = filtered(rest, hd_only, min_duration, matcher);
        let kept = filtered(cards, hd_only, min_duration, matcher);
        assert forall|i: int| 0 <= i < kept.len() implies cards.contains(#[trigger] kept[i]) by {
            if i < head.len() {
                assert(rest.contains(head[i]));
                let k = choose|k: int| 0 <= k < rest.len() && rest[k] == head[i];
                assert(cards[k] == kept[i]);
            } else {
                assert(cards[cards.len() - 1] == kept[i]);
            }
        }
        assert forall|j: int|
            0 <= j < cards.len() && (hd_only ==> cards[j].hd) && (cards[j].duration_secs
                matches Some(d) ==> d >= min_duration) && (matcher matches Some(m)
                ==> regex_matches(m.pattern@, m.ignore_case, cards[j].title)) implies kept.contains(
            #[trigger] cards[j],
        ) by {
            if j < rest.len() {
                assert(rest[j] == cards[j]);
                assert(head.contains(rest[j]));
                let k = choose|k: int| 0 <= k < head.len() && head[k] == rest[j];
                assert(kept[k] == cards[j]);
            } else {
                assert(kept[kept.len() - 1] == cards[j]);
            }
        }
    }
}

/// Filtering drops cards and does nothing else: what it keeps passes the
/// filters, and filtering again changes nothing.
pub proof fn law_filters_are_idempotent(
    cards: Seq<CardView>,
    hd_only: bool,
    min_duration: u64,
    matcher: Option<TitleMatcher>,
)
    ensures
        filtered(filtered(cards, hd_only, min_duration, matcher), hd_only, min_duration, matcher)
            == filtered(cards, hd_only, min_duration, matcher),
    decreases cards.len(),
{
    if cards.len() > 0 {
        law_filters_are_idempotent(cards.drop_last(), hd_only, min_duration, matcher);
        let head = filtered(cards.drop_last(), hd_only, min_duration, matcher);
        if passes(cards.last(), hd_only, min_duration, matcher) {
            let all = head.push(cards.last());
            assert(all.drop_last() =~= head);
        }
    }
}

// ── Video pages ──────────────────────────────────────────────────────────

/// What a video page yields: a title and one progressive media URL.
#[derive(Debug, PartialEq, Eq)]
pub struct VideoPage {
    pub title: String,
    pub source_url: Option<String>,
    /// Internal video id the site rendered.
    pub vid: Option<String>,
}

/// The first heading that names the video.
pub open spec fn first_heading(headings: Seq<Seq<char>>) -> Seq<char>
    decreases headings.len(),
{
    if headings.len() == 0 {
        Seq::empty()
    } else {
        let t = plain_text(headings[0]);
        if t.len() > 0 && !starts_with(t, "Video Information"@) {
            t
        } else {
            first_heading(headings.skip(1))
        }
    }
}

/// The title of a video page: its heading, or its own title.
pub open spec fn page_title(headings: Seq<Seq<char>>, own: Seq<char>) -> Seq<char> {
    if first_heading(headings).len() > 0 {
        first_heading(headings)
    } else {
        plain_text(own)
    }
}

/// The title of a video page, from its headings and its own title.
pub fn title_of_page(headings: &Vec<String>, own: &str) -> (r: String)
    ensures
        r@ == page_title(views(headings@), own@),
{
    let ghost all = views(headings@);
    let mut i: usize = 0;
    assert(all.skip(0) =~= all);
    while i < headings.len()
        invariant
            i <= headings@.len(),
            all == views(headings@),
            first_heading(all) == first_heading(all.skip(i as int)),
        decreases headings@.len() - i,
    {
        assert(all.skip(i as int)[0] == headings@[i as int]@);
        assert(all.skip(i as int).skip(1) =~= all.skip(i + 1));
        let t = entity_decoded(headings[i].as_str());
        let v = to_chars(t.as_str());
        if v.len() > 0 && !begins(v.as_slice(), to_chars("Video Information").as_slice()) {
            return t;
        }
        i += 1;
    }
    entity_decoded(own)
}

/// The video id that a page shows.
pub open spec fn shown_vid(text: Seq<char>) -> Option<Seq<char>> {
    if is_number(trim(text)) {
        Some(trim(text))
    } else {
        None
    }
}

/// The video id that a page shows, from the text of its element.
pub fn page_vid(text: &str) -> (r: Option<String>)
    ensures
        opt_view(r) == shown_vid(text@),
{
    let v = trim_chars(to_chars(text).as_slice());
    if chars_are_number(v.as_slice()) {
        Some(from_chars(v.as_slice()))
    } else {
        None
    }
}

/// Pure parser for a video page.
pub fn parse_video_page(html: &str) -> (r: VideoPage)
    ensures
        r.title@ == page_title(
            html_texts(html@, "div#videodetails h4"@),
            joined(html_texts(html@, "title"@)),
        ),
        opt_view(r.source_url) == source_in(html@),
        opt_view(r.vid) == shown_vid(joined(html_texts(html@, "div#VID"@))),
{
    let headings = texts(html, "div#videodetails h4");
    let own = join_all(&texts(html, "title"));
    VideoPage {
        title: title_of_page(&headings, own.as_str()),
        source_url: extract_source_url(html),
        vid: page_vid(join_all(&texts(html, "div#VID")).as_str()),
    }
}

/// A call that writes an obfuscated tag.
pub const CALL: &'static str =
    "(?s)document\\.write\\(\\s*strencode2\\(\\s*(?:\"((?:\\\\.|[^\"\\\\])*)\"|'((?:\\\\.|[^'\\\\])*)')\\s*\\)\\s*\\)";

/// A comment.
pub const COMMENT: &'static str = "(?s)<!--.*?-->";

/// A source tag.
pub const SOURCE: &'static str =
    "(?i)<source[^>]*\\bsrc\\s*=\\s*(?:\"([^\"]+)\"|'([^']+)')";

/// What the first of two groups that took part matched.
pub open spec fn either_group(found: Seq<Option<Seq<char>>>, a: int, b: int) -> Option<Seq<char>> {
    if 0 <= a < found.len() && found[a] is Some {
        found[a]
    } else if 0 <= b < found.len() {
        found[b]
    } else {
        None
    }
}

fn either(found: &Vec<Option<String>>, a: usize, b: usize) -> (r: Option<String>)
    ensures
        opt_view(r) == either_group(group_views(found@), a as int, b as int),
{
    if a < found.len() && found[a].is_some() {
        clone_opt(&found[a])
    } else if b < found.len() {
        clone_opt(&found[b])
    } else {
        None
    }
}

/// What some calls write, each followed by a line feed.
pub open spec fn calls_write(found: Seq<Seq<Option<Seq<char>>>>) -> Seq<char>
    decreases found.len(),
{
    if found.len() == 0 {
        Seq::empty()
    } else {
        calls_write(found.drop_last()) + unescape_text(
            or_empty(either_group(found.last(), 1, 2)),
        ) + seq!['\n']
    }
}

/// What the calls that were found in a page write.
pub fn decode_calls(found: &Vec<Vec<Option<String>>>) -> (r: String)
    ensures
        r@ == calls_write(match_views(found@)),
{
    let ghost all = match_views(found@);
    let mut out: Vec<char> = Vec::new();
    let mut i: usize = 0;
    assert(out@ =~= calls_write(all.take(0)));
    while i < found.len()
        invariant
            i <= found@.len(),
            all == match_views(found@),
            out@ == calls_write(all.take(i as int)),
        decreases found@.len() - i,
    {
        assert(all.take(i + 1).drop_last() =~= all.take(i as int));
        assert(all.take(i + 1).last() == group_views(found@[i as int]@));
        let payload = text_or_empty(&either(&found[i], 1, 2));
        let text = unescape(payload.as_str());
        let ghost before = out@;
        push_all(&mut out, to_chars(text.as_str()).as_slice());
        out.push('\n');
        assert(out@ =~= before + text@ + seq!['\n']);
        i += 1;
    }
    assert(all.take(all.len() as int) =~= all);
    from_chars(out.as_slice())
}

/// Decode every obfuscated payload on the page; `None` where that leaves
/// nothing.
pub fn decode_strencode2_calls(html: &str) -> (r: Option<String>)
    ensures
        ({
            let text = calls_write(regex_captures(CALL@, html@));
            if trim(text).len() == 0 {
                r is None
            } else {
                opt_view(r) == Some(text)
            }
        }),
{
    let text = decode_calls(&captures(CALL, html));
    if to_chars(trim_str(text.as_str()).as_str()).len() == 0 {
        None
    } else {
        Some(text)
    }
}

/// The address in the first source tag that was found.
pub open spec fn source_of(found: Seq<Seq<Option<Seq<char>>>>) -> Option<Seq<char>> {
    if found.len() == 0 {
        None
    } else {
        match either_group(found[0], 1, 2) {
            Some(u) => if trim(u).len() == 0 {
                None
            } else {
                Some(trim(u))
            },
            None => None,
        }
    }
}

/// The address in the first source tag that was found.
pub fn source_in_matches(found: &Vec<Vec<Option<String>>>) -> (r: Option<String>)
    ensures
        opt_view(r) == source_of(match_views(found@)),
{
    if found.len() == 0 {
        return None;
    }
    assert(match_views(found@)[0] == group_views(found@[0]@));
    match either(&found[0], 1, 2) {
        Some(u) => {
            let t = trim_str(u.as_str());
            if to_chars(t.as_str()).len() == 0 {
                None
            } else {
                Some(t)
            }
        },
        None => None,
    }
}

/// First `<source src="…">` in an HTML fragment.
pub fn first_source(html: &str) -> (r: Option<String>)
    ensures
        opt_view(r) == source_of(regex_captures(SOURCE@, html@)),
{
    source_in_matches(&captures(SOURCE, html))
}

/// A text without its spans.
pub open spec fn cut(text: Seq<char>, spans: Seq<(usize, usize)>) -> Seq<char> {
    spliced(text, spans, Seq::new(spans.len(), |i: int| Seq::<char>::empty()))
}

/// Remove some places of a text.
pub fn cut_spans(text: &str, spans: &Vec<(usize, usize)>) -> (r: String)
    requires
        spans_within(spans@, text@.len()),
    ensures
        r@ == cut(text@, spans@),
{
    let v = to_chars(text);
    let mut subs: Vec<Vec<char>> = Vec::new();
    let mut n: usize = 0;
    while n < spans.len()
        invariant
            n <= spans@.len(),
            subs@.len() == n,
            forall|k: int| 0 <= k < n ==> (#[trigger] subs@[k])@ == Seq::<char>::empty(),
        decreases spans@.len() - n,
    {
        let none: Vec<char> = Vec::new();
        assert(none@ =~= Seq::<char>::empty());
        subs.push(none);
        n += 1;
    }
    assert(char_views(subs@) =~= Seq::new(spans@.len(), |i: int| Seq::<char>::empty()));
    from_chars(splice(v.as_slice(), spans, &subs).as_slice())
}

/// A page without its comments.
pub fn strip_comments(html: &str) -> (r: String)
    ensures
        r@ == cut(html@, found_spans(COMMENT@, html@)),
{
    cut_spans(html, &spans(COMMENT, html))
}

/// The source of a video page: that in what its obfuscated calls write, or else
/// that in the page itself without its comments.
pub open spec fn source_in(html: Seq<char>) -> Option<Seq<char>> {
    let written = calls_write(regex_captures(CALL@, html));
    let hidden = source_of(regex_captures(SOURCE@, written));
    if trim(written).len() > 0 && hidden is Some {
        hidden
    } else {
        source_of(regex_captures(SOURCE@, cut(html, found_spans(COMMENT@, html))))
    }
}

/// Recover the `<source>` URL hidden behind `strencode2`. Older pages embed the
/// tag directly, beside a commented-out placeholder.
pub fn extract_source_url(html: &str) -> (r: Option<String>)
    ensures
        opt_view(r) == source_in(html@),
{
    if let Some(written) = decode_strencode2_calls(html) {
        let hidden = first_source(written.as_str());
        if hidden.is_some() {
            return hidden;
        }
    }
    first_source(strip_comments(html).as_str())
}

/// Why the source of a video page cannot be used.
#[derive(Debug, Clone, PartialEq, Eq)]
pub enum SourceError {
    /// The page has none.
    Missing,
    /// It does not resolve against the page's address, for that reason.
    InvalidUrl(String),
    /// It is not one of the web.
    Scheme,
}

/// The address of the media of a page, from the source the page names.
pub fn media_source(page_url: &str, source: &Option<String>) -> (r: Result<String, SourceError>)
    ensures
        match *source {
            None => r == Err::<String, SourceError>(SourceError::Missing),
            Some(s) => match url_join(page_url@, plain_text(s@)) {
                Err(m) => r matches Err(SourceError::InvalidUrl(e)) && e@ == m,
                Ok(u) => if url_scheme(u) == Some("http"@) || url_scheme(u) == Some("https"@) {
                    r is Ok && r->Ok_0@ == u
                } else {
                    r == Err::<String, SourceError>(SourceError::Scheme)
                },
            },
        },
{
    match source {
        None => Err(SourceError::Missing),
        Some(s) => match join(page_url, entity_decoded(s.as_str()).as_str()) {
            Err(e) => Err(SourceError::InvalidUrl(e)),
            Ok(u) => if is_web(u.as_str()) {
                Ok(u)
            } else {
                Err(SourceError::Scheme)
            },
        },
    }
}

// ── Escapes ──────────────────────────────────────────────────────────────

/// The source of a video that a page writes by script wins over one in its markup;
/// one in a comment does not count.
pub proof fn law_written_sources_win(html: Seq<char>)
    ensures
        ({
            let source = "(?i)<source[^>]*\\bsrc\\s*=\\s*(?:\"([^\"]+)\"|'([^']+)')"@;
            let written = calls_write(regex_captures(CALL@, html));
            let hidden = regex_captures(source, written);
            let shown = regex_captures(source, cut(html, found_spans("(?s)<!--.*?-->"@, html)));
            &&& trim(written).len() > 0 && hidden.len() > 0 && hidden[0].len() == 3 && hidden[0][1]
                is Some && trim(hidden[0][1]->0).len() > 0 ==> source_in(html) == Some(
                trim(hidden[0][1]->0),
            )
            &&& trim(written).len() > 0 && hidden.len() > 0 && hidden[0].len() == 3 && hidden[0][1]
                is None && hidden[0][2] is Some && trim(hidden[0][2]->0).len() > 0 ==> source_in(html)
                == Some(trim(hidden[0][2]->0))
            &&& hidden.len() == 0 && shown.len() > 0 && shown[0].len() == 3 && shown[0][1] is Some
                && trim(shown[0][1]->0).len() > 0 ==> source_in(html) == Some(
                trim(shown[0][1]->0),
            )
            &&& hidden.len() == 0 && shown.len() > 0 && shown[0].len() == 3 && shown[0][1] is None
                && shown[0][2] is Some && trim(shown[0][2]->0).len() > 0 ==> source_in(html) == Some(
                trim(shown[0][2]->0),
            )
            &&& hidden.len() == 0 && shown.len() == 0 ==> source_in(html) is None
        }),
{
}

/// What a page writes by script is what each of its calls writes, in their order,
/// unescaped, whichever quotes stand around it.
pub proof fn law_calls_write_in_order(
    found: Seq<Seq<Option<Seq<char>>>>,
    one: Seq<Option<Seq<char>>>,
)
    requires
        one.len() == 3,
    ensures
        calls_write(Seq::empty()) == Seq::<char>::empty(),
        one[1] matches Some(t) ==> calls_write(found.push(one)) == calls_write(found)
            + unescape_text(t) + seq!['\n'],
        one[1] is None && one[2] is Some ==> calls_write(found.push(one)) == calls_write(found)
            + unescape_text(one[2]->0) + seq!['\n'],
{
    assert(found.push(one).drop_last() =~= found);
}

/// The value of a hexadecimal digit.
pub open spec fn hex_byte(b: u8) -> Option<nat> {
    if 48 <= b <= 57 {
        Some((b - 48) as nat)
    } else if 97 <= b <= 102 {
        Some((b - 97 + 10) as nat)
    } else if 65 <= b <= 70 {
        Some((b - 65 + 10) as nat)
    } else {
        None
    }
}

/// Whether `s` consists of hexadecimal digits, at least one.
pub open spec fn all_hex(s: Seq<u8>) -> bool {
    s.len() > 0 && forall|i: int| 0 <= i < s.len() ==> hex_byte(#[trigger] s[i]) is Some
}

/// The number that hexadecimal digits write.
pub open spec fn hex_number(s: Seq<u8>) -> nat
    decreases s.len(),
{
    if s.len() == 0 {
        0
    } else {
        hex_number(s.drop_last()) * 16 + hex_byte(s.last())->0
    }
}

fn hex_digit_value(b: u8) -> (r: Option<u32>)
    ensures
        match r {
            Some(d) => hex_byte(b) == Some(d as nat) && d < 16,
            None => hex_byte(b) is None,
        },
{
    if 48 <= b && b <= 57 {
        Some((b - 48) as u32)
    } else if 97 <= b && b <= 102 {
        Some((b - 97 + 10) as u32)
    } else if 65 <= b && b <= 70 {
        Some((b - 65 + 10) as u32)
    } else {
        None
    }
}

proof fn lemma_hex_bound(s: Seq<u8>)
    requires
        s.len() <= 7,
        forall|i: int| 0 <= i < s.len() ==> hex_byte(#[trigger] s[i]) is Some,
    ensures
        hex_number(s) <= 0xfff_ffff,
        s.len() <= 6 ==> hex_number(s) <= 0xff_ffff,
        s.len() <= 5 ==> hex_number(s) <= 0xf_ffff,
        s.len() <= 4 ==> hex_number(s) <= 0xffff,
        s.len() <= 3 ==> hex_number(s) <= 0xfff,
        s.len() <= 2 ==> hex_number(s) <= 0xff,
        s.len() <= 1 ==> hex_number(s) <= 0xf,
    decreases s.len(),
{
    if s.len() > 0 {
        assert(hex_byte(s[s.len() - 1]) is Some);
        lemma_hex_bound(s.drop_last());
    }
}

/// Parse a run of at most eight hexadecimal ASCII digits.
pub fn hex_value(digits: &[u8]) -> (r: Option<u32>)
    requires
        digits@.len() <= 8,
    ensures
        match r {
            Some(n) => all_hex(digits@) && n == hex_number(digits@),
            None => !all_hex(digits@),
        },
{
    if digits.len() == 0 {
        return None;
    }
    let mut acc: u32 = 0;
    let mut i: usize = 0;
    assert(digits@.take(0) =~= Seq::<u8>::empty());
    while i < digits.len()
        invariant
            i <= digits@.len() <= 8,
            forall|j: int| 0 <= j < i ==> hex_byte(#[trigger] digits@[j]) is Some,
            acc == hex_number(digits@.take(i as int)),
        decreases digits@.len() - i,
    {
        let d = match hex_digit_value(digits[i]) {
            Some(d) => d,
            None => {
                assert(hex_byte(digits@[i as int]) is None);
                return None;
            },
        };
        proof {
            lemma_hex_bound(digits@.take(i as int));
            assert(digits@.take(i + 1).drop_last() =~= digits@.take(i as int));
        }
        acc = acc * 16 + d;
        i += 1;
    }
    assert(digits@.take(digits@.len() as int) =~= digits@);
    Some(acc)
}

/// Whether `%uXXXX` stands at the front of `b`.
pub open spec fn unit_at(b: Seq<u8>) -> bool {
    b.len() >= 6 && b[0] == 37 && (b[1] == 117 || b[1] == 85) && all_hex(b.subrange(2, 6))
}

/// Whether `%xx` stands at the front of `b`.
pub open spec fn byte_at(b: Seq<u8>) -> bool {
    b.len() >= 3 && b[0] == 37 && all_hex(b.subrange(1, 3))
}

/// The bytes of the character with that number; none where there is no such
/// character.
pub open spec fn unit_bytes(code: nat) -> Seq<u8> {
    match char_numbered(Some(code)) {
        Some(c) => encode_utf8(seq![c]),
        None => Seq::empty(),
    }
}

/// Whether `%uXXXX%uXXXX` stands at the front of `b`, with the two halves of a
/// surrogate pair.
pub open spec fn pair_at(b: Seq<u8>) -> bool {
    &&& unit_at(b)
    &&& 0xd800 <= hex_number(b.subrange(2, 6)) <= 0xdbff
    &&& unit_at(b.skip(6))
    &&& 0xdc00 <= hex_number(b.skip(6).subrange(2, 6)) <= 0xdfff
}

/// The number of the character that a surrogate pair writes.
pub open spec fn pair_code(high: nat, low: nat) -> nat {
    (0x10000 + (high - 0xd800) * 0x400 + (low - 0xdc00)) as nat
}

/// Bytes with their escapes replaced: a code unit by its character, a surrogate
/// pair by the character it writes, a byte by itself. What is no valid escape
/// stays, and half a pair alone is dropped.
pub open spec fn unescape_bytes(b: Seq<u8>) -> Seq<u8>
    decreases b.len(),
{
    if b.len() == 0 {
        Seq::empty()
    } else if pair_at(b) {
        unit_bytes(
            pair_code(hex_number(b.subrange(2, 6)), hex_number(b.skip(6).subrange(2, 6))),
        ) + unescape_bytes(b.skip(12))
    } else if unit_at(b) {
        unit_bytes(hex_number(b.subrange(2, 6))) + unescape_bytes(b.skip(6))
    } else if byte_at(b) {
        seq![hex_number(b.subrange(1, 3)) as u8] + unescape_bytes(b.skip(3))
    } else {
        seq![b[0]] + unescape_bytes(b.skip(1))
    }
}

/// A text with its escapes replaced.
pub open spec fn unescape_text(text: Seq<char>) -> Seq<char> {
    text_of(unescape_bytes(encode_utf8(text)))
}

fn push_bytes(v: &mut Vec<u8>, tail: &[u8])
    ensures
        final(v)@ == old(v)@ + tail@,
{
    let ghost start = v@;
    let mut i: usize = 0;
    while i < tail.len()
        invariant
            i <= tail@.len(),
            v@ == start + tail@.take(i as int),
        decreases tail@.len() - i,
    {
        assert((start + tail@.take(i as int)).push(tail@[i as int]) =~= start + tail@.take(i + 1));
        v.push(tail[i]);
        i += 1;
    }
    assert(tail@.take(tail@.len() as int) =~= tail@);
}

fn push_unit(v: &mut Vec<u8>, code: u32)
    ensures
        final(v)@ == old(v)@ + unit_bytes(code as nat),
{
    match char::from_u32(code) {
        Some(c) => {
            let mut s = String::new();
            s.push(c);
            assert(s@ =~= seq![c]);
            push_bytes(v, s.as_str().as_bytes());
        },
        None => {
            assert(v@ + Seq::<u8>::empty() =~= v@);
        },
    }
}

/// The code of `%uXXXX`, where that stands at `i`.
fn unit_code(b: &[u8], i: usize) -> (r: Option<u32>)
    requires
        i <= b@.len(),
    ensures
        match r {
            Some(code) => unit_at(b@.skip(i as int)) && code == hex_number(
                b@.skip(i as int).subrange(2, 6),
            ) && code <= 0xffff,
            None => !unit_at(b@.skip(i as int)),
        },
{
    if b.len() - i >= 6 && b[i] == 37 && (b[i + 1] == 117 || b[i + 1] == 85) {
        let digits = vstd::slice::slice_subrange(b, i + 2, i + 6);
        assert(digits@ =~= b@.skip(i as int).subrange(2, 6));
        let code = hex_value(digits);
        proof {
            if code is Some {
                lemma_hex_bound(digits@);
            }
        }
        code
    } else {
        None
    }
}

/// Replace the escapes in some bytes.
pub fn unescape_raw(b: &[u8]) -> (r: Vec<u8>)
    ensures
        r@ == unescape_bytes(b@),
{
    let mut out: Vec<u8> = Vec::new();
    let mut i: usize = 0;
    assert(b@.skip(0) =~= b@);
    assert(out@ + unescape_bytes(b@) =~= unescape_bytes(b@));
    while i < b.len()
        invariant
            i <= b@.len(),
            unescape_bytes(b@) == out@ + unescape_bytes(b@.skip(i as int)),
        decreases b@.len() - i,
    {
        let ghost rest = b@.skip(i as int);
        let ghost before = out@;
        if let Some(high) = unit_code(b, i) {
            assert(rest.skip(6) =~= b@.skip(i + 6));
            if 0xd800 <= high && high <= 0xdbff {
                if let Some(low) = unit_code(b, i + 6) {
                    if 0xdc00 <= low && low <= 0xdfff {
                        let code: u32 = 0x10000 + (high - 0xd800) * 0x400 + (low - 0xdc00);
                        assert(pair_at(rest));
                        assert(code == pair_code(high as nat, low as nat));
                        push_unit(&mut out, code);
                        assert(rest.skip(12) =~= b@.skip(i + 12));
                        assert(before + (unit_bytes(code as nat) + unescape_bytes(b@.skip(i + 12)))
                            =~= out@ + unescape_bytes(b@.skip(i + 12)));
                        i += 12;
                        continue;
                    }
                }
            }
            assert(!pair_at(rest));
            push_unit(&mut out, high);
            assert(before + (unit_bytes(high as nat) + unescape_bytes(b@.skip(i + 6))) =~= out@
                + unescape_bytes(b@.skip(i + 6)));
            i += 6;
            continue;
        }
        assert(!unit_at(rest));
        if b[i] == 37 && b.len() - i >= 3 {
            let digits = vstd::slice::slice_subrange(b, i + 1, i + 3);
            assert(digits@ =~= rest.subrange(1, 3));
            if let Some(code) = hex_value(digits) {
                assert(byte_at(rest));
                proof {
                    lemma_hex_bound(digits@);
                }
                out.push(code as u8);
                assert(rest.skip(3) =~= b@.skip(i + 3));
                assert(before + (seq![code as u8] + unescape_bytes(b@.skip(i + 3))) =~= out@
                    + unescape_bytes(b@.skip(i + 3)));
                i += 3;
                continue;
            }
        }
        assert(!byte_at(rest));
        out.push(b[i]);
        assert(rest.skip(1) =~= b@.skip(i + 1));
        assert(before + (seq![b@[i as int]] + unescape_bytes(b@.skip(i + 1))) =~= out@
            + unescape_bytes(b@.skip(i + 1)));
        i += 1;
    }
    assert(b@.skip(i as int) =~= Seq::<u8>::empty());
    assert(out@ + Seq::<u8>::empty() =~= out@);
    out
}

/// JavaScript's `unescape`: `%xx` byte escapes plus `%uXXXX` code units, two of
/// which may write one character as a surrogate pair.
///
/// Unlike `decodeURIComponent` it never treats `+` as a space, and invalid
/// escapes are left as literal text.
pub fn unescape(input: &str) -> (r: String)
    ensures
        r@ == unescape_text(input@),
{
    from_utf8_lossy(unescape_raw(input.as_bytes()).as_slice())
}

/// Bytes without a percent sign have no escapes.
pub proof fn law_plain_bytes_are_kept(b: Seq<u8>)
    requires
        forall|i: int| 0 <= i < b.len() ==> #[trigger] b[i] != 37,
    ensures
        unescape_bytes(b) == b,
    decreases b.len(),
{
    if b.len() > 0 {
        assert(b[0] != 37);
        let t = b.skip(1);
        assert forall|i: int| 0 <= i < t.len() implies #[trigger] t[i] != 37 by {
            assert(t[i] == b[i + 1]);
        }
        law_plain_bytes_are_kept(t);
        assert(seq![b[0]] + t =~= b);
    } else {
        assert(b =~= Seq::<u8>::empty());
    }
}

proof fn lemma_scalar_bytes(c: u32)
    requires
        is_scalar(c),
        c != 37,
    ensures
        forall|i: int| 0 <= i < encode_scalar(c).len() ==> #[trigger] encode_scalar(c)[i] != 37,
{
    let low = (c & 0x3F) as u8;
    let mid = ((c >> 6) & 0x3F) as u8;
    let high = ((c >> 12) & 0x3F) as u8;
    let two = ((c >> 6) & 0x1F) as u8;
    let three = ((c >> 12) & 0x0F) as u8;
    let four = ((c >> 18) & 0x7) as u8;
    if has_width_1_encoding(c) {
        assert((c & 0x7F) as u8 == c) by (bit_vector)
            requires
                c <= 0x7F,
        ;
    }
    assert((0x80u8 | low) >= 0x80 && (0x80u8 | mid) >= 0x80 && (0x80u8 | high) >= 0x80 && (0xC0u8
        | two) >= 0x80 && (0xE0u8 | three) >= 0x80 && (0xF0u8 | four) >= 0x80) by (bit_vector);
}

proof fn lemma_no_percent(text: Seq<char>)
    requires
        !text.contains('%'),
    ensures
        forall|i: int| 0 <= i < encode_utf8(text).len() ==> #[trigger] encode_utf8(text)[i] != 37,
    decreases text.len(),
{
    if text.len() > 0 {
        let c = text[0] as u32;
        let rest = text.drop_first();
        assert(text.contains(text[0]));
        char_is_scalar(text[0]);
        char_u32_cast(text[0], c);
        assert(c != 37);
        lemma_scalar_bytes(c);
        assert forall|x: char| rest.contains(x) implies text.contains(x) by {
            let i = choose|i: int| 0 <= i < rest.len() && rest[i] == x;
            assert(text[i + 1] == x);
        }
        lemma_no_percent(rest);
        let head = encode_scalar(c);
        let tail = encode_utf8(rest);
        assert forall|i: int| 0 <= i < encode_utf8(text).len() implies #[trigger] encode_utf8(
            text,
        )[i] != 37 by {
            if i < head.len() {
                assert(encode_utf8(text)[i] == head[i]);
            } else {
                assert(encode_utf8(text)[i] == tail[i - head.len()]);
            }
        }
    }
}

/// A text without a percent sign has no escapes.
pub proof fn law_plain_text_is_kept(text: Seq<char>)
    requires
        !text.contains('%'),
    ensures
        unescape_text(text) == text,
{
    lemma_no_percent(text);
    law_plain_bytes_are_kept(encode_utf8(text));
    encode_utf8_valid_utf8(text);
    encode_utf8_decode_utf8(text);
}

/// The digit that writes a number below sixteen.
pub open spec fn hex_digit(d: int) -> u8 {
    if d < 10 {
        (48 + d) as u8
    } else {
        (87 + d) as u8
    }
}

/// Some bytes with every one of them escaped.
pub open spec fn escaped(b: Seq<u8>) -> Seq<u8>
    decreases b.len(),
{
    if b.len() == 0 {
        Seq::empty()
    } else {
        seq![37u8, hex_digit(b[0] as int / 16), hex_digit(b[0] as int % 16)] + escaped(b.skip(1))
    }
}

/// The text in which every byte of a text is escaped.
pub open spec fn escaped_text(text: Seq<char>) -> Seq<char> {
    let e = escaped(encode_utf8(text));
    Seq::new(e.len(), |i: int| e[i] as char)
}

proof fn lemma_hex_two(a: u8, b: u8)
    requires
        hex_byte(a) is Some,
        hex_byte(b) is Some,
    ensures
        hex_number(seq![a, b]) == hex_byte(a)->0 * 16 + hex_byte(b)->0,
{
    let s = seq![a, b];
    assert(s.drop_last() =~= seq![a]);
    assert(seq![a].drop_last() =~= Seq::<u8>::empty());
    assert(hex_number(seq![a]) == hex_byte(a)->0) by {
        assert(hex_number(Seq::<u8>::empty()) == 0);
        assert(seq![a].last() == a);
    }
    assert(s.last() == b);
}

/// Escaped bytes are read back.
pub proof fn law_escaped_bytes_are_read_back(b: Seq<u8>)
    ensures
        unescape_bytes(escaped(b)) == b,
    decreases b.len(),
{
    if b.len() > 0 {
        let e = escaped(b);
        let x = hex_digit(b[0] as int / 16);
        let y = hex_digit(b[0] as int % 16);
        law_escaped_bytes_are_read_back(b.skip(1));
        assert(e[0] == 37 && e[1] == x && e[2] == y);
        assert(e.subrange(1, 3) =~= seq![x, y]);
        assert(hex_byte(x) == Some((b[0] as int / 16) as nat));
        assert(hex_byte(y) == Some((b[0] as int % 16) as nat));
        assert(all_hex(seq![x, y]));
        lemma_hex_two(x, y);
        assert(byte_at(e));
        assert(!unit_at(e));
        assert(e.skip(3) =~= escaped(b.skip(1)));
        assert(hex_number(seq![x, y]) as u8 == b[0]);
        assert(seq![b[0]] + b.skip(1) =~= b);
    } else {
        assert(b =~= Seq::<u8>::empty());
    }
}

proof fn lemma_escaped_is_ascii(b: Seq<u8>)
    ensures
        forall|i: int| 0 <= i < escaped(b).len() ==> #[trigger] escaped(b)[i] < 128,
    decreases b.len(),
{
    if b.len() > 0 {
        lemma_escaped_is_ascii(b.skip(1));
        let tail = escaped(b.skip(1));
        assert forall|i: int| 0 <= i < escaped(b).len() implies #[trigger] escaped(b)[i] < 128 by {
            if i >= 3 {
                assert(escaped(b)[i] == tail[i - 3]);
            }
        }
    }
}

/// A text of which every byte is escaped is read back as it was.
pub proof fn law_escaped_text_is_read_back(text: Seq<char>)
    ensures
        unescape_text(escaped_text(text)) == text,
{
    let b = encode_utf8(text);
    let e = escaped(b);
    let chars = escaped_text(text);
    lemma_escaped_is_ascii(b);
    assert forall|i: int| 0 <= i < chars.len() implies '\0' <= #[trigger] chars[i] <= '\u{7f}' by {
        assert(e[i] < 128);
    }
    assert(is_ascii_chars(chars));
    is_ascii_chars_encode_utf8(chars);
    assert(encode_utf8(chars) =~= e) by {
        assert forall|i: int| 0 <= i < e.len() implies encode_utf8(chars)[i] == #[trigger] e[i] by {
            assert(chars[i] as u8 == encode_utf8(chars)[i]);
        }
    }
    law_escaped_bytes_are_read_back(b);
    encode_utf8_valid_utf8(text);
    encode_utf8_decode_utf8(text);
}

/// The cards of a page of the listing that the filters keep. A page without any
/// card is an error, one whose cards the filters drop is not.
pub fn fetch_popular(cfg: &Config, page: usize, html: &str) -> (r: Result<Vec<VideoCard>, String>)
    ensures
        ({
            let pattern = filter_pattern(cfg.title_filter@, cfg.title_filter_regex);
            let blank = trim(cfg.title_filter@).len() == 0;
            let cards = cards_of(raw_cards(html@));
            if !blank && !regex_compiles(pattern, !cfg.title_filter_regex) {
                r matches Err(e) && e@ == filter_refusal(
                    regex_error(pattern, !cfg.title_filter_regex)->0,
                )
            } else if cards.len() == 0 {
                r matches Err(e) && e@ == "no videos parsed from "@ + listing_of(
                    cfg.site_base@,
                    cfg.popular_path@,
                    own_listing(),
                    page as nat,
                ) + " — the markup may have changed"@
            } else {
                &&& r is Ok
                &&& exists|m: Option<TitleMatcher>|
                    #![trigger filtered(cards, cfg.hd_only, cfg.min_duration_secs, m)]
                    card_views(r->Ok_0@) == filtered(
                        cards,
                        cfg.hd_only,
                        cfg.min_duration_secs,
                        m,
                    ) && match m {
                        None => blank,
                        Some(t) => !blank && t.pattern@ == pattern && t.ignore_case
                            == !cfg.title_filter_regex,
                    }
            }
        }),
{
    let matcher = match cfg.title_matcher() {
        Ok(m) => m,
        Err(e) => {
            return Err(e.detail());
        },
    };
    let mut cards = parse_list(html);
    if cards.len() == 0 {
        let url = cfg.popular_url(page);
        return Err(
            join3("no videos parsed from ", url.as_str(), " — the markup may have changed"),
        );
    }
    apply_filters(&mut cards, cfg, &matcher);
    Ok(cards)
}

/// What a video page shows, with the address of its media. A page without media
/// is an error, and so is one whose media cannot be fetched from the web.
pub fn fetch_video_page(url: &str, html: &str) -> (r: Result<VideoPage, String>)
    ensures
        match source_in(html@) {
            None => r matches Err(e) && e@ == "no video source found on "@ + url@
                + " — the player markup may have changed"@,
            Some(s) => match url_join(url@, plain_text(s)) {
                Err(m) => r matches Err(e) && e@ == m,
                Ok(u) => if url_scheme(u) == Some("http"@) || url_scheme(u) == Some("https"@) {
                    r matches Ok(page) && opt_view(page.source_url) == Some(u) && page.title@
                        == page_title(
                        html_texts(html@, "div#videodetails h4"@),
                        joined(html_texts(html@, "title"@)),
                    ) && opt_view(page.vid) == shown_vid(joined(html_texts(html@, "div#VID"@)))
                } else {
                    r matches Err(e) && e@ == "invalid media URL scheme"@
                },
            },
        },
{
    let page = parse_video_page(html);
    match media_source(url, &page.source_url) {
        Ok(source) => Ok(
            VideoPage { title: page.title, source_url: Some(source), vid: page.vid },
        ),
        Err(SourceError::Missing) => Err(
            join3("no video source found on ", url, " — the player markup may have changed"),
        ),
        Err(SourceError::InvalidUrl(e)) => Err(e),
        Err(SourceError::Scheme) => Err("invalid media URL scheme".to_owned()),
    }
}

} // verus!
