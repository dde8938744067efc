//! Scraping a listing.
//!
//! Listing pages are grids of `div.thumbnail` cards. Each card repeats the same
//! detail link several times (thumbnail, duration overlay, headline) and carries
//! the cover image plus a duration badge. The listing is requested pre-sorted,
//! so the position of a card is its rank.
use vstd::prelude::*;
use crate::outside::html::{
    html_inner_attrs, html_inner_texts, inner_attrs, inner_texts, list_views,
};
use crate::outside::pattern::{group_views, match_views, regex_compiles, regex_error, regex_matches};
use crate::outside::url::{host, path, url_host, url_path, url_scheme};
use crate::configuration::jav::{is_web, Config};
use crate::configuration::listing::{
    filter_pattern, filter_refusal, listing_of, TitleMatcher,
};
use crate::jav::source::stream::{first_attr, first_value};
use crate::text::{
    all_digits, ascii_lower, char_views, clone_opt, copy_range, decimal_value, ends, ends_with,
    from_chars, index_of, is_digit, is_space, join2, join3, lemma_index_of, lower_chars, opt_view,
    parse_unsigned, same, same_str, split, split_char, strip_trailing, to_chars, trim, trim_chars,
    trim_end, trim_end_char, trim_start, trim_str, unsigned_at_most, views,
};

verus! {

/// One video of a listing.
#[derive(Debug, Clone, PartialEq, Eq)]
pub struct VideoCard {
    /// Detail slug taken from the URL.
    pub id: String,
    pub url: String,
    pub title: String,
    pub image_url: String,
    /// Runtime badge in seconds; `None` when the card omits it.
    pub duration_secs: Option<u64>,
    /// 1-based position in the listing.
    pub rank: Option<usize>,
}

/// What a card holds.
pub struct CardView {
    pub id: Seq<char>,
    pub url: Seq<char>,
    pub title: Seq<char>,
    pub image_url: Seq<char>,
    pub duration_secs: Option<u64>,
    pub rank: Option<usize>,
}

impl View for VideoCard {
    type V = CardView;

    open spec fn view(&self) -> CardView {
        CardView {
            id: self.id@,
            url: self.url@,
            title: self.title@,
            image_url: self.image_url@,
            duration_secs: self.duration_secs,
            rank: self.rank,
        }
    }
}

/// What some cards hold.
pub open spec fn card_views(v: Seq<VideoCard>) -> Seq<CardView> {
    Seq::new(v.len(), |i: int| v[i]@)
}

// ── Durations ────────────────────────────────────────────────────────────

/// The number of seconds that the first `n` parts of a clock time make.
pub open spec fn clock_seconds(parts: Seq<Seq<char>>, n: int) -> Option<nat>
    decreases n,
{
    if n <= 0 {
        Some(0)
    } else {
        match (clock_seconds(parts, n - 1), parse_unsigned(trim(parts[n - 1]), u64::MAX as nat)) {
            (Some(total), Some(value)) => if total * 60 + value <= u64::MAX {
                Some(total * 60 + value)
            } else {
                None
            },
            _ => None,
        }
    }
}

/// The seconds of a `H:MM:SS` or `M:SS` badge: at least two parts.
pub open spec fn duration_of(text: Seq<char>) -> Option<nat> {
    let parts = split(trim(text), ':');
    if trim(text).len() == 0 || parts.len() < 2 {
        None
    } else {
        clock_seconds(parts, parts.len() as int)
    }
}

/// An optional number of seconds as a machine word.
pub open spec fn opt_u64(o: Option<nat>) -> Option<u64> {
    match o {
        Some(n) => Some(n as u64),
        None => None,
    }
}

/// Turn a `H:MM:SS` / `M:SS` duration badge into seconds.
pub fn parse_duration(text: &str) -> (r: Option<u64>)
    ensures
        r == opt_u64(duration_of(text@)),
        duration_of(text@) matches Some(n) ==> n <= u64::MAX,
{
    let t = trim_chars(to_chars(text).as_slice());
    let parts = split_char(t.as_slice(), ':');
    let ghost ps = split(trim(text@), ':');
    assert(ps == char_views(parts@));
    if t.len() == 0 || parts.len() < 2 {
        return None;
    }
    let mut total: u64 = 0;
    let mut i: usize = 0;
    while i < parts.len()
        invariant
            i <= parts@.len(),
            ps == char_views(parts@),
            ps == split(trim(text@), ':'),
            trim(text@).len() > 0,
            ps.len() >= 2,
            clock_seconds(ps, i as int) == Some(total as nat),
        decreases parts@.len() - i,
    {
        assert(ps[i as int] == parts@[i as int]@);
        let value = unsigned_at_most(trim_chars(parts[i].as_slice()).as_slice(), u64::MAX);
        let next = match (value, total.checked_mul(60)) {
            (Some(v), Some(m)) => m.checked_add(v),
            _ => None,
        };
        match next {
            Some(n) => {
                total = n;
            },
            None => {
                proof {
                    assert(clock_seconds(ps, i + 1) is None);
                    lemma_clock_fails(ps, i + 1, ps.len() as int);
                }
                return None;
            },
        }
        i += 1;
    }
    Some(total)
}

proof fn lemma_clock_fails(parts: Seq<Seq<char>>, i: int, n: int)
    requires
        0 <= i <= n,
        clock_seconds(parts, i) is None,
    ensures
        clock_seconds(parts, n) is None,
    decreases n - i,
{
    if i < n {
        lemma_clock_fails(parts, i, n - 1);
    }
}

proof fn lemma_index_of_push(s: Seq<char>, x: char, c: char, from: int)
    requires
        0 <= from <= s.len(),
    ensures
        index_of(s.push(x), c, from) == (if index_of(s, c, from) < s.len() {
            index_of(s, c, from)
        } else if x == c {
            s.len() as int
        } else {
            s.len() as int + 1
        }),
    decreases s.len() - from,
{
    let t = s.push(x);
    if from < s.len() {
        assert(t[from] == s[from]);
        if s[from] != c {
            lemma_index_of_push(s, x, c, from + 1);
        }
    } else {
        assert(t[from] == x);
        assert(index_of(t, c, from + 1) == t.len());
    }
}

/// One more character is one more at the end of the last piece, or begins a new
/// one.
proof fn lemma_split_push(s: Seq<char>, x: char, c: char)
    ensures
        split(s, c).len() > 0,
        split(s.push(x), c) == (if x == c {
            split(s, c).push(Seq::empty())
        } else {
            split(s, c).drop_last().push(split(s, c).last().push(x))
        }),
    decreases s.len(),
{
    let t = s.push(x);
    let i = index_of(s, c, 0);
    lemma_index_of(s, c, 0);
    lemma_index_of_push(s, x, c, 0);
    if i < s.len() {
        let rest = s.skip(i + 1);
        lemma_split_push(rest, x, c);
        assert(t.take(i) =~= s.take(i));
        assert(t.skip(i + 1) =~= rest.push(x));
        assert(split(s, c).last() == split(rest, c).last());
        assert(split(t, c) =~= (if x == c {
            split(s, c).push(Seq::empty())
        } else {
            split(s, c).drop_last().push(split(s, c).last().push(x))
        }));
    } else if x == c {
        assert(t.take(s.len() as int) =~= s);
        assert(t.skip(s.len() as int + 1) =~= Seq::empty());
        assert(split(Seq::empty(), c) =~= seq![Seq::<char>::empty()]);
        assert(split(t, c) =~= split(s, c).push(Seq::empty()));
    } else {
        assert(split(t, c) =~= split(s, c).drop_last().push(split(s, c).last().push(x)));
    }
}

proof fn lemma_split_part(s: Seq<char>, c: char, b: Seq<char>)
    requires
        !b.contains(c),
    ensures
        split(s.push(c) + b, c) == split(s, c).push(b),
    decreases b.len(),
{
    if b.len() == 0 {
        assert(s.push(c) + b =~= s.push(c));
        lemma_split_push(s, c, c);
        assert(b =~= Seq::empty());
    } else {
        let d = b.drop_last();
        assert(b.contains(b.last()));
        assert forall|x: char| d.contains(x) implies b.contains(x) by {
            let i = choose|i: int| 0 <= i < d.len() && d[i] == x;
            assert(b[i] == x);
        }
        lemma_split_part(s, c, d);
        lemma_split_push(s.push(c) + d, b.last(), c);
        assert(s.push(c) + b =~= (s.push(c) + d).push(b.last()));
        assert(d.push(b.last()) =~= b);
        assert(split(s, c).push(d).drop_last() =~= split(s, c));
    }
}

proof fn lemma_trim_start_more(s: Seq<char>, r: Seq<char>)
    ensures
        trim_start(s).len() > 0 ==> trim_start(s + r) == trim_start(s) + r,
        trim_start(s).len() == 0 ==> trim_start(s + r) == trim_start(r),
    decreases s.len(),
{
    if s.len() == 0 {
        assert(s + r =~= r);
    } else if is_space(s[0]) {
        lemma_trim_start_more(s.skip(1), r);
        assert((s + r).skip(1) =~= s.skip(1) + r);
    }
}

proof fn lemma_trim_push_space(s: Seq<char>, x: char)
    requires
        is_space(x),
    ensures
        trim(s.push(x)) == trim(s),
{
    lemma_trim_start_more(s, seq![x]);
    assert(s.push(x) =~= s + seq![x]);
    if trim_start(s).len() > 0 {
        assert((trim_start(s) + seq![x]).drop_last() =~= trim_start(s));
    } else {
        assert(seq![x].skip(1) =~= Seq::empty());
        assert(seq![x][0] == x);
        assert(trim_start(Seq::<char>::empty()) =~= Seq::empty());
        assert(trim_start(seq![x]) =~= Seq::empty());
        assert(trim_start(s) =~= Seq::empty());
    }
}

/// Whether two lists of parts are the same but for white space around them.
spec fn same_parts(p: Seq<Seq<char>>, q: Seq<Seq<char>>) -> bool {
    &&& p.len() == q.len()
    &&& forall|i: int| 0 <= i < p.len() ==> trim(#[trigger] p[i]) == trim(q[i])
}

proof fn lemma_split_trim_end(s: Seq<char>, c: char)
    requires
        !is_space(c),
    ensures
        same_parts(split(s, c), split(trim_end(s), c)),
    decreases s.len(),
{
    if s.len() > 0 && is_space(s.last()) {
        let d = s.drop_last();
        let x = s.last();
        lemma_split_trim_end(d, c);
        lemma_split_push(d, x, c);
        assert(d.push(x) =~= s);
        lemma_trim_push_space(split(d, c).last(), x);
        assert forall|i: int| 0 <= i < split(s, c).len() implies trim(#[trigger] split(s, c)[i])
            == trim(split(trim_end(s), c)[i]) by {
            assert(trim(split(d, c)[i]) == trim(split(trim_end(d), c)[i]));
        }
    }
}

proof fn lemma_clock_same(p: Seq<Seq<char>>, q: Seq<Seq<char>>, n: int)
    requires
        n <= p.len(),
        n <= q.len(),
        forall|i: int| 0 <= i < n ==> trim(#[trigger] p[i]) == trim(q[i]),
    ensures
        clock_seconds(p, n) == clock_seconds(q, n),
    decreases n,
{
    if n > 0 {
        lemma_clock_same(p, q, n - 1);
        assert(trim(p[n - 1]) == trim(q[n - 1]));
    }
}

proof fn lemma_trim_digits(b: Seq<char>)
    requires
        b.len() > 0,
        all_digits(b),
    ensures
        trim(b) == b,
{
    assert(is_digit(b[0]) && is_digit(b[b.len() - 1]));
}

/// A length with one more part after a colon is sixty times the length before it
/// plus that part, as far as a machine word goes.
pub proof fn law_parts_add_up(a: Seq<char>, b: Seq<char>)
    requires
        duration_of(a) is Some,
        b.len() > 0,
        all_digits(b),
        decimal_value(b) <= u64::MAX,
    ensures
        ({
            let n = 60 * duration_of(a)->0 + decimal_value(b);
            duration_of(a + ":"@ + b) == (if n <= u64::MAX {
                Some(n)
            } else {
                None
            })
        }),
{
    reveal_strlit(":");
    let whole = a + ":"@ + b;
    let start = trim_start(a);
    assert(trim_end(Seq::<char>::empty()).len() == 0);
    assert(start.len() > 0);
    let rest = seq![':'] + b;
    assert(whole =~= a + rest);
    lemma_trim_start_more(a, rest);
    let body = start.push(':') + b;
    assert(start + rest =~= body);
    assert(is_digit(b[b.len() - 1]));
    assert(body.last() == b.last());
    assert(trim(whole) == body);
    assert(!b.contains(':')) by {
        if b.contains(':') {
            let i = choose|i: int| 0 <= i < b.len() && b[i] == ':';
            assert(is_digit(b[i]));
        }
    }
    lemma_split_part(start, ':', b);
    lemma_split_trim_end(start, ':');
    let parts = split(trim(a), ':');
    let more = split(trim(whole), ':');
    assert(more == split(start, ':').push(b));
    assert forall|i: int| 0 <= i < parts.len() implies trim(#[trigger] more[i]) == trim(
        parts[i],
    ) by {
        assert(trim(split(start, ':')[i]) == trim(parts[i]));
    }
    lemma_clock_same(more, parts, parts.len() as int);
    lemma_trim_digits(b);
    assert(b[0] != '+') by {
        assert(is_digit(b[0]));
    }
}

/// Whether a text is a duration badge.
pub fn looks_like_duration(text: &str) -> (r: bool)
    ensures
        r == (duration_of(text@) is Some),
{
    parse_duration(text).is_some()
}

// ── Addresses ────────────────────────────────────────────────────────────

/// Whether `c` separates the groups of a slug.
pub open spec fn is_separator(c: char) -> bool {
    c == '-' || c == '_'
}

/// Whether `c` is an ASCII letter or digit.
pub open spec fn is_alnum(c: char) -> bool {
    ||| '0' <= c <= '9'
    ||| 'a' <= c <= 'z'
    ||| 'A' <= c <= 'Z'
}

/// Whether `c` is an ASCII letter or digit.
pub fn char_is_alnum(c: char) -> (r: bool)
    ensures
        r == is_alnum(c),
{
    ('0' <= c && c <= '9') || ('a' <= c && c <= 'z') || ('A' <= c && c <= 'Z')
}

/// Whether `c` is a lowercase ASCII letter or a digit.
pub open spec fn is_slug_char(c: char) -> bool {
    '0' <= c <= '9' || 'a' <= c <= 'z'
}

/// Whether a slug looks like a catalogue number: lowercase letters and digits in
/// at least two groups, with one separator between two groups and none at the
/// ends.
pub open spec fn slug_ok(s: Seq<char>) -> bool {
    &&& s.len() >= 3
    &&& forall|i: int| 0 <= i < s.len() ==> is_slug_char(#[trigger] s[i]) || is_separator(s[i])
    &&& !is_separator(s[0])
    &&& !is_separator(s.last())
    &&& forall|i: int|
        0 <= i < s.len() - 1 ==> !(is_separator(#[trigger] s[i]) && is_separator(s[i + 1]))
    &&& exists|i: int| 0 <= i < s.len() && is_separator(#[trigger] s[i])
}

/// A slug looks like a catalogue number: lowercase alphanumerics in at least two
/// groups separated by hyphens or underscores.
pub fn is_video_slug(v: &[char]) -> (r: bool)
    ensures
        r == slug_ok(v@),
{
    if v.len() < 3 {
        return false;
    }
    let mut seen = false;
    let mut before = true;
    let mut i: usize = 0;
    while i < v.len()
        invariant
            i <= v@.len(),
            v@.len() >= 3,
            forall|j: int| 0 <= j < i ==> is_slug_char(#[trigger] v@[j]) || is_separator(v@[j]),
            i == 0 ==> before,
            i > 0 ==> before == is_separator(v@[i - 1]),
            i > 0 ==> !is_separator(v@[0]),
            forall|j: int|
                0 <= j < i - 1 ==> !(is_separator(#[trigger] v@[j]) && is_separator(v@[j + 1])),
            seen == exists|j: int| 0 <= j < i && is_separator(#[trigger] v@[j]),
        decreases v@.len() - i,
    {
        let c = v[i];
        if c == '-' || c == '_' {
            assert(is_separator(v@[i as int]));
            if before {
                assert(i > 0 ==> is_separator(v@[i - 1]) && is_separator(v@[i - 1 + 1]));
                return false;
            }
            seen = true;
            before = true;
        } else if ('0' <= c && c <= '9') || ('a' <= c && c <= 'z') {
            before = false;
        } else {
            assert(!is_slug_char(v@[i as int]) && !is_separator(v@[i as int]));
            return false;
        }
        i += 1;
    }
    assert(v@.last() == v@[v@.len() - 1]);
    !before && seen
}

/// The segments that are not empty.
pub open spec fn solid(segments: Seq<Seq<char>>) -> Seq<Seq<char>>
    decreases segments.len(),
{
    if segments.len() == 0 {
        Seq::empty()
    } else {
        let head = solid(segments.drop_last());
        if segments.last().len() == 0 {
            head
        } else {
            head.push(segments.last())
        }
    }
}

fn solid_segments(path: &str) -> (r: Vec<Vec<char>>)
    ensures
        char_views(r@) == solid(split(path@, '/')),
{
    let parts = split_char(to_chars(path).as_slice(), '/');
    let ghost all = split(path@, '/');
    assert(all == char_views(parts@));
    let mut r: Vec<Vec<char>> = Vec::new();
    let mut i: usize = 0;
    assert(char_views(r@) =~= solid(all.take(0)));
    while i < parts.len()
        invariant
            i <= parts@.len(),
            all == char_views(parts@),
            char_views(r@) == solid(all.take(i as int)),
        decreases parts@.len() - i,
    {
        assert(all.take(i + 1).drop_last() =~= all.take(i as int));
        assert(all.take(i + 1).last() == parts@[i as int]@);
        if parts[i].len() > 0 {
            let ghost before = char_views(r@);
            let p = copy_range(parts[i].as_slice(), 0, parts[i].len());
            assert(p@ =~= parts@[i as int]@);
            r.push(p);
            assert(char_views(r@) =~= before.push(parts@[i as int]@));
        }
        i += 1;
    }
    assert(all.take(all.len() as int) =~= all);
    r
}

/// Whether a host is the site's.
pub open spec fn is_site(host: Seq<char>) -> bool {
    let h = ascii_lower(host);
    h == "missav.ai"@ || ends_with(h, ".missav.ai"@)
}

/// The slug of a video page: the last segment of its path.
pub open spec fn video_id(url: Seq<char>) -> Option<Seq<char>> {
    let segments = solid(split(url_path(url)->0, '/'));
    if url_path(url) is None || url_host(url) is None || !(url_scheme(url) == Some("http"@)
        || url_scheme(url) == Some("https"@)) || !is_site(url_host(url)->0) || segments.len() == 0
        || !slug_ok(segments.last()) {
        None
    } else {
        Some(segments.last())
    }
}

/// Extract the detail slug from a video URL. Section pages have no slug and are
/// rejected, keeping navigation links out of the results.
pub fn video_id_from_url(url: &str) -> (r: Option<String>)
    ensures
        opt_view(r) == video_id(url@),
{
    let h = match host(url) {
        Some(h) => h,
        None => {
            return None;
        },
    };
    let p = match path(url) {
        Some(p) => p,
        None => {
            return None;
        },
    };
    if !is_web(url) {
        return None;
    }
    let l = lower_chars(to_chars(h.as_str()).as_slice());
    if !same(l.as_slice(), to_chars("missav.ai").as_slice()) && !ends(
        l.as_slice(),
        to_chars(".missav.ai").as_slice(),
    ) {
        return None;
    }
    let segments = solid_segments(p.as_str());
    let ghost all = solid(split(p@, '/'));
    if segments.len() == 0 {
        return None;
    }
    let last = &segments[segments.len() - 1];
    assert(all.last() == last@);
    if is_video_slug(last.as_slice()) {
        Some(from_chars(last.as_slice()))
    } else {
        None
    }
}

/// The language segment of a video URL: the one in front of the slug.
pub open spec fn language_in(url: Seq<char>) -> Option<Seq<char>> {
    match url_path(url) {
        Some(p) => {
            let segments = solid(split(p, '/'));
            if p.len() > 0 && p[0] == '/' && segments.len() >= 2 {
                Some(segments[segments.len() - 2])
            } else {
                None
            }
        },
        None => None,
    }
}

/// The language segment of a video URL, when present.
pub fn language_of(url: &str) -> (r: Option<String>)
    ensures
        opt_view(r) == language_in(url@),
{
    let p = match path(url) {
        Some(p) => p,
        None => {
            return None;
        },
    };
    let chars = to_chars(p.as_str());
    if chars.len() == 0 || chars[0] != '/' {
        return None;
    }
    let segments = solid_segments(p.as_str());
    let ghost all = solid(split(p@, '/'));
    if segments.len() < 2 {
        return None;
    }
    let n = segments.len();
    assert(all[n - 2] == segments@[n - 2]@);
    Some(from_chars(segments[n - 2].as_slice()))
}

// ── Cards ────────────────────────────────────────────────────────────────

/// What a card of a listing page shows.
#[derive(Debug, Clone)]
pub struct RawCard {
    /// Where its links lead.
    pub links: Vec<Option<String>>,
    /// What its links say.
    pub headlines: Vec<String>,
    /// What stands for its images.
    pub alts: Vec<Option<String>>,
    /// Where its images come from once they are shown.
    pub lazy: Vec<Option<String>>,
    /// Where its images come from.
    pub sources: Vec<Option<String>>,
    /// Its badges.
    pub badges: Vec<String>,
}

/// What a card of a listing page shows.
pub struct RawView {
    pub links: Seq<Option<Seq<char>>>,
    pub headlines: Seq<Seq<char>>,
    pub alts: Seq<Option<Seq<char>>>,
    pub lazy: Seq<Option<Seq<char>>>,
    pub sources: Seq<Option<Seq<char>>>,
    pub badges: Seq<Seq<char>>,
}

impl View for RawCard {
    type V = RawView;

    open spec fn view(&self) -> RawView {
        RawView {
            links: group_views(self.links@),
            headlines: views(self.headlines@),
            alts: group_views(self.alts@),
            lazy: group_views(self.lazy@),
            sources: group_views(self.sources@),
            badges: views(self.badges@),
        }
    }
}

/// What some cards show.
pub open spec fn raw_views(v: Seq<RawCard>) -> Seq<RawView> {
    Seq::new(v.len(), |i: int| v[i]@)
}

/// Whether a link leads to a video, in the language asked for.
pub open spec fn leads(link: Option<Seq<char>>, language: Option<Seq<char>>) -> bool {
    link matches Some(href) && video_id(href) is Some && (language is Some ==> language_in(href)
        == language)
}

/// The first link that leads to a video.
pub open spec fn detail_link(
    links: Seq<Option<Seq<char>>>,
    language: Option<Seq<char>>,
) -> Option<Seq<char>>
    decreases links.len(),
{
    if links.len() == 0 {
        None
    } else if leads(links[0], language) {
        links[0]
    } else {
        detail_link(links.skip(1), language)
    }
}

/// The first headline that says something other than a duration.
pub open spec fn first_headline(headlines: Seq<Seq<char>>) -> Seq<char>
    decreases headlines.len(),
{
    if headlines.len() == 0 {
        Seq::empty()
    } else if trim(headlines[0]).len() > 0 && duration_of(trim(headlines[0])) is None {
        trim(headlines[0])
    } else {
        first_headline(headlines.skip(1))
    }
}

/// `o`, or nothing.
pub open spec fn or_empty(o: Option<Seq<char>>) -> Seq<char> {
    match o {
        Some(s) => s,
        None => Seq::empty(),
    }
}

/// The title of a card: its headline, or what stands for its image, or its id.
pub open spec fn card_title(raw: RawView, id: Seq<char>) -> Seq<char> {
    if first_headline(raw.headlines).len() > 0 {
        first_headline(raw.headlines)
    } else if trim(or_empty(first_attr(raw.alts))).len() > 0 {
        trim(or_empty(first_attr(raw.alts)))
    } else {
        id
    }
}

/// The cover of a card.
pub open spec fn cover(lazy: Option<Seq<char>>, source: Option<Seq<char>>) -> Seq<char> {
    match lazy {
        Some(s) => s,
        None => or_empty(source),
    }
}

/// The first badge that is a duration.
pub open spec fn first_duration(badges: Seq<Seq<char>>) -> Option<u64>
    decreases badges.len(),
{
    if badges.len() == 0 {
        None
    } else if duration_of(badges[0]) is Some {
        opt_u64(duration_of(badges[0]))
    } else {
        first_duration(badges.skip(1))
    }
}

/// Whether a card with that id is among some cards.
pub open spec fn has_id(cards: Seq<CardView>, id: Seq<char>) -> bool {
    exists|i: int| 0 <= i < cards.len() && (#[trigger] cards[i]).id == id
}

/// The cards of a listing: each that leads to a video that none before it leads
/// to, ranked by its position.
pub open spec fn cards_of(raw: Seq<RawView>, language: Option<Seq<char>>) -> Seq<CardView>
    decreases raw.len(),
{
    if raw.len() == 0 {
        Seq::empty()
    } else {
        let head = cards_of(raw.drop_last(), language);
        let one = raw.last();
        match detail_link(one.links, language) {
            None => head,
            Some(url) => {
                let id = video_id(url)->0;
                if has_id(head, id) {
                    head
                } else {
                    head.push(
                        CardView {
                            id,
                            url,
                            title: card_title(one, id),
                            image_url: cover(first_attr(one.lazy), first_attr(one.sources)),
                            duration_secs: first_duration(one.badges),
                            rank: Some((head.len() + 1) as usize),
                        },
                    )
                }
            },
        }
    }
}

fn find_link(links: &Vec<Option<String>>, language: &Option<String>) -> (r: Option<
    (String, String),
>)
    ensures
        match r {
            Some((url, id)) => detail_link(group_views(links@), opt_view(*language)) == Some(url@)
                && video_id(url@) == Some(id@),
            None => detail_link(group_views(links@), opt_view(*language)) is None,
        },
{
    let ghost all = group_views(links@);
    let mut i: usize = 0;
    assert(all.skip(0) =~= all);
    while i < links.len()
        invariant
            i <= links@.len(),
            all == group_views(links@),
            detail_link(all, opt_view(*language)) == detail_link(
                all.skip(i as int),
                opt_view(*language),
            ),
        decreases links@.len() - i,
    {
        assert(all.skip(i as int)[0] == opt_view(links@[i as int]));
        assert(all.skip(i as int).skip(1) =~= all.skip(i + 1));
        if let Some(href) = &links[i] {
            if let Some(id) = video_id_from_url(href.as_str()) {
                let wanted = match language {
                    Some(want) => match language_of(href.as_str()) {
                        Some(has) => same_str(has.as_str(), want.as_str()),
                        None => false,
                    },
                    None => true,
                };
                if wanted {
                    return Some((href.clone(), id));
                }
            }
        }
        i += 1;
    }
    None
}

fn find_headline(headlines: &Vec<String>) -> (r: String)
    ensures
        r@ == first_headline(views(headlines@)),
{
    let ghost all = views(headlines@);
    let mut i: usize = 0;
    assert(all.skip(0) =~= all);
    while i < headlines.len()
        invariant
            i <= headlines@.len(),
            all == views(headlines@),
            first_headline(all) == first_headline(all.skip(i as int)),
        decreases headlines@.len() - i,
    {
        assert(all.skip(i as int)[0] == headlines@[i as int]@);
        assert(all.skip(i as int).skip(1) =~= all.skip(i + 1));
        let t = trim_str(headlines[i].as_str());
        if to_chars(t.as_str()).len() > 0 && !looks_like_duration(t.as_str()) {
            return t;
        }
        i += 1;
    }
    let r = String::new();
    assert(r@ =~= Seq::<char>::empty());
    r
}

/// The first badge that is a duration.
pub fn find_duration(badges: &Vec<String>) -> (r: Option<u64>)
    ensures
        r == first_duration(views(badges@)),
{
    let ghost all = views(badges@);
    let mut i: usize = 0;
    assert(all.skip(0) =~= all);
    while i < badges.len()
        invariant
            i <= badges@.len(),
            all == views(badges@),
            first_duration(all) == first_duration(all.skip(i as int)),
        decreases badges@.len() - i,
    {
        assert(all.skip(i as int)[0] == badges@[i as int]@);
        assert(all.skip(i as int).skip(1) =~= all.skip(i + 1));
        let d = parse_duration(badges[i].as_str());
        if d.is_some() {
            return d;
        }
        i += 1;
    }
    None
}

/// `o`, or nothing.
pub fn text_or_empty(o: &Option<String>) -> (r: String)
    ensures
        r@ == or_empty(opt_view(*o)),
{
    match o {
        Some(s) => s.clone(),
        None => {
            let r = String::new();
            assert(r@ =~= Seq::<char>::empty());
            r
        },
    }
}

/// The cover of a card.
pub fn cover_of(lazy: &Vec<Option<String>>, sources: &Vec<Option<String>>) -> (r: String)
    ensures
        r@ == cover(first_attr(group_views(lazy@)), first_attr(group_views(sources@))),
{
    match first_value(lazy) {
        Some(s) => s,
        None => text_or_empty(&first_value(sources)),
    }
}

/// Build the cards of a listing from what its page shows, optionally keeping
/// only one language subtree.
pub fn build_cards(raw: &Vec<RawCard>, language: &Option<String>) -> (r: Vec<VideoCard>)
    ensures
        card_views(r@) == cards_of(raw_views(raw@), opt_view(*language)),
{
    let ghost all = raw_views(raw@);
    let mut cards: Vec<VideoCard> = Vec::new();
    let mut i: usize = 0;
    assert(card_views(cards@) =~= cards_of(all.take(0), opt_view(*language)));
    while i < raw.len()
        invariant
            i <= raw@.len(),
            cards@.len() <= i,
            all == raw_views(raw@),
            card_views(cards@) == cards_of(all.take(i as int), opt_view(*language)),
        decreases raw@.len() - i,
    {
        assert(all.take(i + 1).drop_last() =~= all.take(i as int));
        assert(all.take(i + 1).last() == raw@[i as int]@);
        let one = &raw[i];
        if let Some((url, id)) = find_link(&one.links, language) {
            let ghost head = card_views(cards@);
            let mut known = false;
            let mut k: usize = 0;
            while k < cards.len()
                invariant
                    k <= cards@.len(),
                    head == card_views(cards@),
                    known == exists|j: int| 0 <= j < k && (#[trigger] head[j]).id == id@,
                decreases cards@.len() - k,
            {
                assert(head[k as int].id == cards@[k as int].id@);
                if same_str(cards[k].id.as_str(), id.as_str()) {
                    known = true;
                }
                k += 1;
            }
            assert(known == has_id(head, id@));
            if !known {
                let mut title = find_headline(&one.headlines);
                if to_chars(title.as_str()).len() == 0 {
                    title = trim_str(text_or_empty(&first_value(&one.alts)).as_str());
                }
                if to_chars(title.as_str()).len() == 0 {
                    title = id.clone();
                }
                let rank = cards.len() + 1;
                let card = VideoCard {
                    id,
                    url,
                    title,
                    image_url: cover_of(&one.lazy, &one.sources),
                    duration_secs: find_duration(&one.badges),
                    rank: Some(rank),
                };
                let ghost seen = card@;
                cards.push(card);
                assert(card_views(cards@) =~= head.push(seen));
            }
        }
        i += 1;
    }
    assert(all.take(all.len() as int) =~= all);
    cards
}

/// Item `i` of a list of lists; nothing where there is none.
pub open spec fn nth<T>(v: Seq<Seq<T>>, i: int) -> Seq<T> {
    if 0 <= i < v.len() {
        v[i]
    } else {
        Seq::empty()
    }
}

/// The element that holds a card.
pub const CARD: &'static str = "div.thumbnail";

/// The links of a card that may lead to its video.
pub const CARD_LINK: &'static str = "a[href*=\"missav.ai\"]";

/// What the cards of a page show.
pub open spec fn raw_cards(html: Seq<char>) -> Seq<RawView> {
    let links = html_inner_attrs(html, CARD@, CARD_LINK@, "href"@);
    Seq::new(
        links.len(),
        |i: int|
            RawView {
                links: links[i],
                headlines: nth(html_inner_texts(html, CARD@, "div a"@), i),
                alts: nth(html_inner_attrs(html, CARD@, "img"@, "alt"@), i),
                lazy: nth(html_inner_attrs(html, CARD@, "img"@, "data-src"@), i),
                sources: nth(html_inner_attrs(html, CARD@, "img"@, "src"@), i),
                badges: nth(html_inner_texts(html, CARD@, "span"@), i),
            },
    )
}

/// Item `i` of a list of attribute lists; nothing where there is none.
pub fn nth_attrs(v: &Vec<Vec<Option<String>>>, i: usize) -> (r: Vec<Option<String>>)
    ensures
        group_views(r@) == nth(match_views(v@), i as int),
{
    let mut out: Vec<Option<String>> = Vec::new();
    if i < v.len() {
        let mut k: usize = 0;
        while k < v[i].len()
            invariant
                i < v@.len(),
                k <= v@[i as int]@.len(),
                out@.len() == k,
                forall|j: int|
                    0 <= j < k ==> opt_view(#[trigger] out@[j]) == opt_view(v@[i as int]@[j]),
            decreases v@[i as int]@.len() - k,
        {
            out.push(clone_opt(&v[i][k]));
            k += 1;
        }
        assert(group_views(out@) =~= match_views(v@)[i as int]);
    } else {
        assert(group_views(out@) =~= Seq::empty());
    }
    out
}

/// Item `i` of a list of text lists; nothing where there is none.
pub fn nth_texts(v: &Vec<Vec<String>>, i: usize) -> (r: Vec<String>)
    ensures
        views(r@) == nth(list_views(v@), i as int),
{
    let mut out: Vec<String> = Vec::new();
    if i < v.len() {
        let mut k: usize = 0;
        while k < v[i].len()
            invariant
                i < v@.len(),
                k <= v@[i as int]@.len(),
                out@.len() == k,
                forall|j: int| 0 <= j < k ==> (#[trigger] out@[j])@ == v@[i as int]@[j]@,
            decreases v@[i as int]@.len() - k,
        {
            out.push(v[i][k].clone());
            k += 1;
        }
        assert(views(out@) =~= list_views(v@)[i as int]);
    } else {
        assert(views(out@) =~= Seq::empty());
    }
    out
}

fn read_cards(html: &str) -> (r: Vec<RawCard>)
    ensures
        raw_views(r@) == raw_cards(html@),
{
    let links = inner_attrs(html, CARD, CARD_LINK, "href");
    let headlines = inner_texts(html, CARD, "div a");
    let alts = inner_attrs(html, CARD, "img", "alt");
    let lazy = inner_attrs(html, CARD, "img", "data-src");
    let sources = inner_attrs(html, CARD, "img", "src");
    let badges = inner_texts(html, CARD, "span");
    let ghost expected = raw_cards(html@);
    let mut r: Vec<RawCard> = Vec::new();
    let mut i: usize = 0;
    while i < links.len()
        invariant
            i <= links@.len(),
            expected == raw_cards(html@),
            match_views(links@) == html_inner_attrs(html@, CARD@, CARD_LINK@, "href"@),
            list_views(headlines@) == html_inner_texts(html@, CARD@, "div a"@),
            match_views(alts@) == html_inner_attrs(html@, CARD@, "img"@, "alt"@),
            match_views(lazy@) == html_inner_attrs(html@, CARD@, "img"@, "data-src"@),
            match_views(sources@) == html_inner_attrs(html@, CARD@, "img"@, "src"@),
            list_views(badges@) == html_inner_texts(html@, CARD@, "span"@),
            r@.len() == i,
            forall|k: int| 0 <= k < i ==> (#[trigger] r@[k])@ == expected[k],
        decreases links@.len() - i,
    {
        let one = RawCard {
            links: nth_attrs(&links, i),
            headlines: nth_texts(&headlines, i),
            alts: nth_attrs(&alts, i),
            lazy: nth_attrs(&lazy, i),
            sources: nth_attrs(&sources, i),
            badges: nth_texts(&badges, i),
        };
        assert(one@ == expected[i as int]);
        r.push(one);
        i += 1;
    }
    assert(raw_views(r@) =~= expected);
    r
}

/// Pure parser for a listing page, without a language restriction.
pub fn parse_list(html: &str) -> (r: Vec<VideoCard>)
    ensures
        card_views(r@) == cards_of(raw_cards(html@), None),
{
    parse_list_for_language(html, None)
}

/// Parse a listing, optionally keeping only one language subtree so that the
/// language switcher links on the page cannot smuggle in duplicates.
pub fn parse_list_for_language(html: &str, language: Option<&str>) -> (r: Vec<VideoCard>)
    ensures
        card_views(r@) == cards_of(
            raw_cards(html@),
            match language {
                Some(l) => Some(l@),
                None => None,
            },
        ),
{
    let want: Option<String> = match language {
        Some(l) => Some(from_chars(to_chars(l).as_slice())),
        None => None,
    };
    build_cards(&read_cards(html), &want)
}

/// The cards whose titles a matcher keeps.
pub open spec fn kept_titles(cards: Seq<CardView>, keeps: spec_fn(Seq<char>) -> bool) -> Seq<
    CardView,
>
    decreases cards.len(),
{
    if cards.len() == 0 {
        Seq::empty()
    } else {
        let head = kept_titles(cards.drop_last(), keeps);
        if keeps(cards.last().title) {
            head.push(cards.last())
        } else {
            head
        }
    }
}

/// The title filter drops the cards whose titles it does not keep and does nothing
/// else: what is kept is kept as it was, in its order.
pub proof fn law_titles_are_filtered(cards: Seq<CardView>, keeps: spec_fn(Seq<char>) -> bool)
    ensures
        kept_titles(cards, keeps) == cards.filter(|c: CardView| keeps(c.title)),
        forall|i: int|
            0 <= i < kept_titles(cards, keeps).len() ==> keeps(
                (#[trigger] kept_titles(cards, keeps)[i]).title,
            ),
        forall|j: int|
            0 <= j < cards.len() && keeps(cards[j].title) ==> kept_titles(cards, keeps).contains(
                #[trigger] cards[j],
            ),
    decreases cards.len(),
{
    reveal(Seq::filter);
    if cards.len() > 0 {
        let rest = cards.drop_last();
        law_titles_are_filtered(rest, keeps);
        let head = kept_titles(rest, keeps);
        let kept = kept_titles(cards, keeps);
        assert forall|j: int| 0 <= j < cards.len() && keeps(cards[j].title) implies kept.contains(
            #[trigger] cards[j],
        ) by {
            if j < rest.len() {
                assert(rest[j] == cards[j]);
                let k = choose|k: int| 0 <= k < head.len() && head[k] == rest[j];
                assert(kept[k] == cards[j]);
            } else {
                assert(kept[kept.len() - 1] == cards[j]);
            }
        }
    }
}

/// A copy of a card.
pub fn clone_card(c: &VideoCard) -> (r: VideoCard)
    ensures
        r@ == c@,
{
    VideoCard {
        id: c.id.clone(),
        url: c.url.clone(),
        title: c.title.clone(),
        image_url: c.image_url.clone(),
        duration_secs: c.duration_secs,
        rank: c.rank,
    }
}

/// Keep the cards whose titles match, where there is a matcher; their ranks
/// stay.
pub fn filter_titles(cards: &Vec<VideoCard>, matcher: &Option<TitleMatcher>) -> (r: Vec<VideoCard>)
    ensures
        match *matcher {
            Some(m) => card_views(r@) == kept_titles(
                card_views(cards@),
                |t: Seq<char>| m.keeps(t),
            ),
            None => card_views(r@) == card_views(cards@),
        },
{
    let ghost all = card_views(cards@);
    let ghost keeps = |t: Seq<char>|
        match *matcher {
            Some(m) => m.keeps(t),
            None => true,
        };
    let mut r: Vec<VideoCard> = Vec::new();
    let mut i: usize = 0;
    assert(card_views(r@) =~= kept_titles(all.take(0), keeps));
    while i < cards.len()
        invariant
            i <= cards@.len(),
            all == card_views(cards@),
            keeps == (|t: Seq<char>|
                match *matcher {
                    Some(m) => m.keeps(t),
                    None => true,
                }),
            card_views(r@) == kept_titles(all.take(i as int), keeps),
        decreases cards@.len() - i,
    {
        assert(all.take(i + 1).drop_last() =~= all.take(i as int));
        assert(all.take(i + 1).last() == cards@[i as int]@);
        let keep = match matcher {
            Some(m) => m.is_match(cards[i].title.as_str()),
            None => true,
        };
        if keep {
            let ghost before = card_views(r@);
            r.push(clone_card(&cards[i]));
            assert(card_views(r@) =~= before.push(cards@[i as int]@));
        }
        i += 1;
    }
    assert(all.take(all.len() as int) =~= all);
    proof {
        match matcher {
            Some(m) => {
                lemma_kept_ext(all, keeps, |t: Seq<char>| m.keeps(t));
            },
            None => {
                lemma_kept_all(all, keeps);
            },
        }
    }
    r
}

proof fn lemma_kept_ext(
    cards: Seq<CardView>,
    a: spec_fn(Seq<char>) -> bool,
    b: spec_fn(Seq<char>) -> bool,
)
    requires
        forall|t: Seq<char>| #[trigger] a(t) == b(t),
    ensures
        kept_titles(cards, a) == kept_titles(cards, b),
    decreases cards.len(),
{
    if cards.len() > 0 {
        lemma_kept_ext(cards.drop_last(), a, b);
        assert(a(cards.last().title) == b(cards.last().title));
    }
}

proof fn lemma_kept_all(cards: Seq<CardView>, a: spec_fn(Seq<char>) -> bool)
    requires
        forall|t: Seq<char>| #[trigger] a(t),
    ensures
        kept_titles(cards, a) == cards,
    decreases cards.len(),
{
    if cards.len() > 0 {
        lemma_kept_all(cards.drop_last(), a);
        assert(a(cards.last().title));
        assert(cards.drop_last().push(cards.last()) =~= cards);
    }
}

/// A listing never holds two cards for one video, and its ranks count the cards
/// from one.
pub proof fn law_cards_are_distinct_and_ranked(
    raw: Seq<RawView>,
    language: Option<Seq<char>>,
)
    requires
        raw.len() < usize::MAX,
    ensures
        forall|i: int, j: int|
            0 <= i < j < cards_of(raw, language).len() ==> (#[trigger] cards_of(
                raw,
                language,
            )[i]).id != (#[trigger] cards_of(raw, language)[j]).id,
        forall|i: int|
            0 <= i < cards_of(raw, language).len() ==> (#[trigger] cards_of(raw, language)[i]).rank
                == Some((i + 1) as usize),
        cards_of(raw, language).len() <= raw.len(),
    decreases raw.len(),
{
    if raw.len() > 0 {
        law_cards_are_distinct_and_ranked(raw.drop_last(), language);
        let head = cards_of(raw.drop_last(), language);
        let all = cards_of(raw, language);
        if all != head {
            assert(all.len() == head.len() + 1);
            assert(forall|i: int| 0 <= i < head.len() ==> all[i] == head[i]);
            assert(!has_id(head, all.last().id));
            assert forall|i: int, j: int| 0 <= i < j < all.len() implies (#[trigger] all[i]).id != (
            #[trigger] all[j]).id by {
                if j == head.len() {
                    assert(all[i] == head[i]);
                    assert(head[i].id != all.last().id);
                } else {
                    assert(all[i] == head[i] && all[j] == head[j]);
                }
            }
        }
    }
}

/// The link of a card is its first one that leads to a video, in the language asked
/// for where one is.
pub proof fn law_first_video_link_counts(
    links: Seq<Option<Seq<char>>>,
    language: Option<Seq<char>>,
    k: int,
)
    requires
        0 <= k < links.len(),
        links[k] is Some,
        video_id(links[k]->0) is Some,
        language is Some ==> language_in(links[k]->0) == language,
        forall|j: int|
            0 <= j < k ==> (#[trigger] links[j]) is None || video_id(links[j]->0) is None || (
            language is Some && language_in(links[j]->0) != language),
    ensures
        detail_link(links, language) == links[k],
    decreases k,
{
    if k > 0 {
        let rest = links.skip(1);
        assert(!leads(links[0], language));
        assert forall|j: int| 0 <= j < k - 1 implies (#[trigger] rest[j]) is None || video_id(
            rest[j]->0,
        ) is None || (language is Some && language_in(rest[j]->0) != language) by {
            assert(rest[j] == links[j + 1]);
        }
        law_first_video_link_counts(rest, language, k - 1);
    }
}

/// A listing yields a card for each of its boxes that leads to a video which is not
/// there yet; any other box yields nothing, and no box changes the cards of others.
pub proof fn law_boxes_become_cards(
    raw: Seq<RawView>,
    one: RawView,
    language: Option<Seq<char>>,
)
    requires
        raw.len() < usize::MAX,
    ensures
        ({
            let head = cards_of(raw, language);
            let all = cards_of(raw.push(one), language);
            match detail_link(one.links, language) {
                None => all == head,
                Some(url) => {
                    let id = video_id(url)->0;
                    let known = exists|i: int| 0 <= i < head.len() && (#[trigger] head[i]).id == id;
                    &&& known ==> all == head
                    &&& !known ==> {
                        let c = all.last();
                        &&& all.len() == head.len() + 1 && all.drop_last() =~= head
                        &&& c.id == id && c.url == url && c.rank == Some((head.len() + 1) as usize)
                        &&& c.duration_secs == first_duration(one.badges)
                        &&& first_headline(one.headlines).len() > 0 ==> c.title == first_headline(
                            one.headlines,
                        )
                        &&& one.lazy.len() > 0 && one.lazy[0] is Some ==> c.image_url
                            == one.lazy[0]->0
                    }
                },
            }
        }),
{
    assert(raw.push(one).drop_last() =~= raw);
}

/// The headline of a card is its first text that is neither blank nor a duration; its
/// duration is that of the first badge that is one.
pub proof fn law_headlines_and_durations(texts: Seq<Seq<char>>, k: int)
    requires
        0 <= k < texts.len(),
    ensures
        trim(texts[k]).len() > 0 && duration_of(trim(texts[k])) is None && (forall|j: int|
            0 <= j < k ==> trim(#[trigger] texts[j]).len() == 0 || duration_of(trim(texts[j])) is Some)
            ==> first_headline(texts) == trim(texts[k]),
        duration_of(texts[k]) is Some && (forall|j: int|
            0 <= j < k ==> duration_of(#[trigger] texts[j]) is None) ==> first_duration(texts) == Some(
            duration_of(texts[k])->0 as u64,
        ),
    decreases k,
{
    if k > 0 {
        let rest = texts.skip(1);
        law_headlines_and_durations(rest, k - 1);
        assert(rest[k - 1] == texts[k]);
        if forall|j: int|
            0 <= j < k ==> trim(#[trigger] texts[j]).len() == 0 || duration_of(trim(texts[j])) is Some {
            assert(trim(texts[0]).len() == 0 || duration_of(trim(texts[0])) is Some);
            assert forall|j: int| 0 <= j < k - 1 implies trim(#[trigger] rest[j]).len() == 0
                || duration_of(trim(rest[j])) is Some by {
                assert(rest[j] == texts[j + 1]);
            }
        }
        if forall|j: int| 0 <= j < k ==> duration_of(#[trigger] texts[j]) is None {
            assert(duration_of(texts[0]) is None);
            assert forall|j: int| 0 <= j < k - 1 implies duration_of(#[trigger] rest[j]) is None by {
                assert(rest[j] == texts[j + 1]);
            }
        }
    }
}

/// An address names a video only on the site itself, over HTTP; the last part of its
/// path is the id, and it is one that no other page of the site has.
pub proof fn law_ids_come_from_video_pages(url: Seq<char>)
    ensures
        video_id(url) matches Some(id) ==> {
            let host = ascii_lower(url_host(url)->0);
            &&& url_scheme(url) == Some("http"@) || url_scheme(url) == Some("https"@)
            &&& host == "missav.ai"@ || ends_with(host, ".missav.ai"@)
            &&& solid(split(url_path(url)->0, '/')).last() == id
            &&& id.len() >= 3 && id[0] != '-' && id[0] != '_' && id.last() != '-' && id.last() != '_'
            &&& exists|i: int| 0 <= i < id.len() && ((#[trigger] id[i]) == '-' || id[i] == '_')
            &&& forall|i: int|
                0 <= i < id.len() ==> ('0' <= (#[trigger] id[i]) <= '9') || ('a' <= id[i] <= 'z')
                    || id[i] == '-' || id[i] == '_'
        },
{
    if let Some(id) = video_id(url) {
        let i = choose|i: int| 0 <= i < id.len() && is_separator(#[trigger] id[i]);
        assert(id[i] == '-' || id[i] == '_');
        assert(!is_separator(id[0]) && !is_separator(id.last()));
        assert forall|i: int| 0 <= i < id.len() implies ('0' <= (#[trigger] id[i]) <= '9') || ('a'
            <= id[i] <= 'z') || id[i] == '-' || id[i] == '_' by {
            assert(is_slug_char(id[i]) || is_separator(id[i]));
        }
    }
}

/// Every card of a listing leads to the video it is named after, in the language
/// asked for.
pub proof fn law_cards_lead_to_their_videos(
    raw: Seq<RawView>,
    language: Option<Seq<char>>,
    i: int,
)
    requires
        0 <= i < cards_of(raw, language).len(),
    ensures
        video_id(cards_of(raw, language)[i].url) == Some(cards_of(raw, language)[i].id),
        language is Some ==> language_in(cards_of(raw, language)[i].url) == language,
    decreases raw.len(),
{
    if raw.len() > 0 {
        let head = cards_of(raw.drop_last(), language);
        lemma_detail_link(raw.last().links, language);
        if i < head.len() {
            law_cards_lead_to_their_videos(raw.drop_last(), language, i);
            assert(cards_of(raw, language)[i] == head[i]);
        }
    }
}

proof fn lemma_detail_link(links: Seq<Option<Seq<char>>>, language: Option<Seq<char>>)
    ensures
        detail_link(links, language) matches Some(url) ==> leads(Some(url), language),
    decreases links.len(),
{
    if links.len() > 0 && !leads(links[0], language) {
        lemma_detail_link(links.skip(1), language);
    }
}

/// The referer of requests for listings: the site.
pub fn site_referer(cfg: &Config) -> (r: String)
    ensures
        r@ == trim_end_char(cfg.site_base@, '/') + "/"@,
{
    let head = strip_trailing(to_chars(cfg.site_base.as_str()).as_slice(), '/');
    join2(from_chars(head.as_slice()).as_str(), "/")
}

/// The cards of a page of the listing that the title filter keeps. A page without
/// any card is an error, one whose cards the filter drops is not.
pub fn fetch_popular(cfg: &Config, page: usize, html: &str) -> (r: Result<Vec<VideoCard>, String>)
    ensures
        ({
            let pattern = filter_pattern(cfg.title_filter@, cfg.title_filter_regex);
            let blank = trim(cfg.title_filter@).len() == 0;
            let language = crate::configuration::jav::language_in(cfg.popular_path@);
            let cards = cards_of(raw_cards(html@), language);
            if !blank && !regex_compiles(pattern, !cfg.title_filter_regex) {
                r matches Err(e) && e@ == filter_refusal(
                    regex_error(pattern, !cfg.title_filter_regex)->0,
                )
            } else if cards.len() == 0 {
                r matches Err(e) && e@ == "no videos parsed from "@ + listing_of(
                    cfg.site_base@,
                    cfg.popular_path@,
                    "popular"@,
                    page as nat,
                ) + " — the markup may have changed"@
            } else if blank {
                r matches Ok(v) && card_views(v@) == cards
            } else {
                r matches Ok(v) && card_views(v@) == kept_titles(
                    cards,
                    |t: Seq<char>| regex_matches(pattern, !cfg.title_filter_regex, t),
                )
            }
        }),
{
    let matcher = match cfg.title_matcher() {
        Ok(m) => m,
        Err(e) => {
            return Err(e.detail());
        },
    };
    let language = cfg.language_filter();
    let cards = match &language {
        Some(l) => parse_list_for_language(html, Some(l.as_str())),
        None => parse_list_for_language(html, None),
    };
    if cards.len() == 0 {
        let url = cfg.popular_url(page);
        return Err(
            join3("no videos parsed from ", url.as_str(), " — the markup may have changed"),
        );
    }
    proof {
        if matcher is Some {
            let m = matcher->0;
            let keeps = |t: Seq<char>| m.keeps(t);
            let matches = |t: Seq<char>|
                regex_matches(
                    filter_pattern(cfg.title_filter@, cfg.title_filter_regex),
                    !cfg.title_filter_regex,
                    t,
                );
            assert(keeps =~= matches);
        }
    }
    Ok(filter_titles(&cards, &matcher))
}

} // verus!
