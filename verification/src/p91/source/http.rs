//! Requests to the site, and the session they share.
//!
//! The site hands out a session cookie on the first listing request and serves
//! the video actually named only to requests that carry it; without the cookie
//! every video page returns a different random video. So the listing must be
//! visited once per session before any video page is resolved.
use vstd::prelude::*;
use crate::jav::source::http::{
    header_views, is_html, referer_for, referer_of, success,
    Header, MediaHead, ACCEPT_HTML,
};
use crate::text::{
    begins, copy_range, decimal, decimal_chars, from_chars, has,
    has_char, join2, join3, lower_chars, opt_view, starts_with, to_chars, trim,
    trim_chars, trim_str, views,
};

verus! {

/// Fallback user agent. It names the same browser as the TLS fingerprint that
/// requests are made with.
pub const DEFAULT_USER_AGENT: &'static str = "Mozilla/5.0 (Macintosh; Intel Mac OS X 10_15_7) AppleWebKit/537.36 (KHTML, like Gecko) Chrome/149.0.0.0 Safari/537.36";

/// The site origin a page belongs to, used as the `Referer` for its media.
pub fn origin_of(url: &str) -> (r: Option<String>)
    ensures
        opt_view(r) == referer_of(url@),
{
    referer_for(url)
}

// ── Requests ─────────────────────────────────────────────────────────────

/// The user agent header, where a user agent is configured.
pub open spec fn agent_header(user_agent: Seq<char>) -> Seq<(Seq<char>, Seq<char>)> {
    if trim(user_agent).len() == 0 {
        Seq::empty()
    } else {
        seq![("user-agent"@, trim(user_agent))]
    }
}

/// A header that is there or not.
pub open spec fn opt_header(name: Seq<char>, value: Option<Seq<char>>) -> Seq<
    (Seq<char>, Seq<char>),
> {
    match value {
        Some(v) => seq![(name, v)],
        None => Seq::empty(),
    }
}

/// The value of a `Range` header: from `start` to `end`, or to the end of the
/// file.
pub open spec fn range_text(start: u64, end: Option<u64>) -> Seq<char> {
    "bytes="@ + decimal(start as nat) + "-"@ + (match end {
        Some(e) => decimal(e as nat),
        None => Seq::empty(),
    })
}

fn push_header(headers: &mut Vec<Header>, name: &str, value: &str)
    ensures
        header_views(final(headers)@) == header_views(old(headers)@).push((name@, value@)),
{
    let ghost before = header_views(headers@);
    headers.push(
        Header {
            name: from_chars(to_chars(name).as_slice()),
            value: from_chars(to_chars(value).as_slice()),
        },
    );
    assert(header_views(headers@) =~= before.push((name@, value@)));
}

/// The headers of a request for a page.
pub fn page_request(referer: &Option<String>, user_agent: &str) -> (r: Vec<Header>)
    ensures
        header_views(r@) == seq![("accept"@, ACCEPT_HTML@)] + opt_header(
            "referer"@,
            opt_view(*referer),
        ) + agent_header(user_agent@),
{
    let mut headers: Vec<Header> = Vec::new();
    assert(header_views(headers@) =~= Seq::empty());
    push_header(&mut headers, "accept", ACCEPT_HTML);
    let ghost first = header_views(headers@);
    assert(first =~= seq![("accept"@, ACCEPT_HTML@)]);
    if let Some(value) = referer {
        push_header(&mut headers, "referer", value.as_str());
    }
    let ghost second = header_views(headers@);
    assert(second =~= first + opt_header("referer"@, opt_view(*referer)));
    let ua = trim_str(user_agent);
    if to_chars(ua.as_str()).len() > 0 {
        push_header(&mut headers, "user-agent", ua.as_str());
    }
    assert(header_views(headers@) =~= second + agent_header(user_agent@));
    headers
}

/// The value of a `Range` header.
pub fn range_header(start: u64, end: Option<u64>) -> (r: String)
    ensures
        r@ == range_text(start, end),
{
    let low = from_chars(decimal_chars(start).as_slice());
    let head = join3("bytes=", low.as_str(), "-");
    match end {
        Some(e) => {
            let high = from_chars(decimal_chars(e).as_slice());
            join2(head.as_str(), high.as_str())
        },
        None => {
            assert(head@ + Seq::<char>::empty() =~= head@);
            head
        },
    }
}

/// The headers of a request for media, optionally for a byte range.
pub fn media_request(page: &str, user_agent: &str, range: Option<(u64, Option<u64>)>) -> (r: Vec<
    Header,
>)
    ensures
        header_views(r@) == opt_header("referer"@, referer_of(page@)) + agent_header(user_agent@)
            + opt_header(
            "range"@,
            match range {
                Some(b) => Some(range_text(b.0, b.1)),
                None => None,
            },
        ),
{
    let mut headers: Vec<Header> = Vec::new();
    assert(header_views(headers@) =~= Seq::empty());
    if let Some(value) = origin_of(page) {
        push_header(&mut headers, "referer", value.as_str());
    }
    let ghost first = header_views(headers@);
    assert(first =~= opt_header("referer"@, referer_of(page@)));
    let ua = trim_str(user_agent);
    if to_chars(ua.as_str()).len() > 0 {
        push_header(&mut headers, "user-agent", ua.as_str());
    }
    let ghost second = header_views(headers@);
    assert(second =~= first + agent_header(user_agent@));
    if let Some((start, end)) = range {
        let value = range_header(start, end);
        push_header(&mut headers, "range", value.as_str());
        assert(header_views(headers@) =~= second + seq![("range"@, range_text(start, end))]);
    } else {
        assert(header_views(headers@) =~= second + Seq::<(Seq<char>, Seq<char>)>::empty());
    }
    headers
}

// ── Answers ──────────────────────────────────────────────────────────────

/// Whether a page can be used: a successful answer that is not blank.
pub fn text_response(url: &str, status: u16, status_line: &str, body: &str) -> (r: Result<
    (),
    String,
>)
    ensures
        if !success(status) {
            r matches Err(m) && m@ == "HTTP "@ + status_line@ + " for "@ + url@
        } else if trim(body@).len() == 0 {
            r matches Err(m) && m@ == "empty response for "@ + url@ + " (HTTP "@ + status_line@
                + ")"@
        } else {
            r is Ok
        },
{
    if !(200 <= status && status < 300) {
        let head = join3("HTTP ", status_line, " for ");
        return Err(join2(head.as_str(), url));
    }
    if to_chars(trim_str(body).as_str()).len() == 0 {
        let head = join3("empty response for ", url, " (HTTP ");
        return Err(join3(head.as_str(), status_line, ")"));
    }
    Ok(())
}

/// Whether the answer to a request for media can be used: a success that is no
/// page, or the answer that the range asked for is not there.
pub fn media_response(url: &str, head: &MediaHead) -> (r: Result<(), String>)
    ensures
        if !success(head.status) && head.status != 416 {
            r matches Err(m) && m@ == "media request for "@ + url@ + ": HTTP "@ + head.status_line@
        } else if is_html(*head) && head.status != 416 {
            r matches Err(m) && m@ == "media request for "@ + url@ + ": HTML instead of media"@
        } else {
            r is Ok
        },
{
    let ok = 200 <= head.status && head.status < 300;
    if !ok && head.status != 416 {
        let text = join3("media request for ", url, ": HTTP ");
        return Err(join2(text.as_str(), head.status_line.as_str()));
    }
    let html = match &head.content_type {
        Some(v) => has(
            lower_chars(to_chars(v.as_str()).as_slice()).as_slice(),
            to_chars("text/html").as_slice(),
        ),
        None => false,
    };
    if html && head.status != 416 {
        return Err(join3("media request for ", url, ": HTML instead of media"));
    }
    Ok(())
}

// ── The session ──────────────────────────────────────────────────────────

/// Whether `c` ends a cookie.
pub open spec fn ends_pair(c: char) -> bool {
    c == ';' || c == '\n' || c == '\r'
}

/// The first position from `i` on of a character that ends a cookie.
pub open spec fn pair_end(s: Seq<char>, i: int) -> int
    decreases s.len() - i,
{
    if 0 <= i < s.len() && !ends_pair(s[i]) {
        pair_end(s, i + 1)
    } else {
        i
    }
}

/// The cookies in a header: the pieces that name a value, each to be sent with
/// every path.
pub open spec fn cookies_in(s: Seq<char>) -> Seq<Seq<char>>
    decreases s.len(),
    via cookies_in_decreases
{
    let e = pair_end(s, 0);
    let pair = trim(s.take(e));
    let one = if pair.len() > 0 && pair.contains('=') {
        seq![pair + "; Path=/"@]
    } else {
        Seq::empty()
    };
    if e >= s.len() {
        one
    } else {
        one + cookies_in(s.skip(e + 1))
    }
}

#[via_fn]
proof fn cookies_in_decreases(s: Seq<char>) {
    lemma_pair_end(s, 0);
}

proof fn lemma_pair_end(s: Seq<char>, i: int)
    requires
        0 <= i <= s.len(),
    ensures
        i <= pair_end(s, i) <= s.len(),
    decreases s.len() - i,
{
    if i < s.len() && !ends_pair(s[i]) {
        lemma_pair_end(s, i + 1);
    }
}

/// A cookie header without its name and the white space around it.
pub open spec fn header_body(cookie: Seq<char>) -> Seq<char> {
    let c = trim(cookie);
    if starts_with(c, "Cookie:"@) || starts_with(c, "cookie:"@) {
        trim(c.skip(7))
    } else {
        c
    }
}

/// The cookies to seed a session with: none without a site.
pub open spec fn seeds(cookie: Option<Seq<char>>, site: Seq<char>) -> Seq<Seq<char>> {
    match cookie {
        Some(c) => if trim(site).len() == 0 {
            Seq::empty()
        } else {
            cookies_in(header_body(c))
        },
        None => Seq::empty(),
    }
}

/// The cookies in a header.
pub fn split_cookies(v: &[char]) -> (r: Vec<String>)
    ensures
        views(r@) == cookies_in(v@),
{
    let mut r: Vec<String> = Vec::new();
    let mut from: usize = 0;
    assert(v@.skip(0) =~= v@);
    assert(views(r@) + cookies_in(v@) =~= cookies_in(v@));
    loop
        invariant
            from <= v@.len(),
            cookies_in(v@) == views(r@) + cookies_in(v@.skip(from as int)),
        decreases v@.len() - from,
    {
        let rest = copy_range(v, from, v.len());
        assert(rest@ =~= v@.skip(from as int));
        let mut e: usize = 0;
        while e < rest.len() && !(rest[e] == ';' || rest[e] == '\n' || rest[e] == '\r')
            invariant
                e <= rest@.len(),
                pair_end(rest@, 0) == pair_end(rest@, e as int),
            decreases rest@.len() - e,
        {
            e += 1;
        }
        let head = copy_range(rest.as_slice(), 0, e);
        assert(head@ =~= rest@.take(e as int));
        let pair = trim_chars(head.as_slice());
        let ghost before = views(r@);
        let ghost one = if pair@.len() > 0 && pair@.contains('=') {
            seq![pair@ + "; Path=/"@]
        } else {
            Seq::empty()
        };
        if pair.len() > 0 && has_char(pair.as_slice(), '=') {
            r.push(join2(from_chars(pair.as_slice()).as_str(), "; Path=/"));
        }
        assert(views(r@) =~= before + one);
        if e == rest.len() {
            return r;
        }
        assert(rest@.skip(e + 1) =~= v@.skip(from + e + 1));
        assert(before + (one + cookies_in(v@.skip(from + e + 1))) =~= (before + one) + cookies_in(
            v@.skip(from + e + 1),
        ));
        from = from + e + 1;
    }
}

/// The credentials in use and whether the listing has been visited with them.
///
/// Replacing the credentials starts a new generation. What belongs to an older
/// generation can no longer change the session.
#[derive(Debug)]
pub struct Session {
    /// Counts the credentials.
    pub generation: u64,
    /// The cookies the current generation starts with.
    pub cookies: Vec<String>,
    /// The site they belong to.
    pub site: String,
    /// The listing has been visited.
    pub warmed: bool,
}

/// An operation's hold on the credentials that it started with.
#[derive(Debug, Clone, Copy, PartialEq, Eq, Structural)]
pub struct Ticket {
    pub generation: u64,
}

/// The credentials were replaced while an operation ran.
#[derive(Debug, Clone, Copy, PartialEq, Eq, Structural)]
pub struct SessionChanged;

impl SessionChanged {
    /// What the error is called in a message.
    pub fn message(self) -> (r: &'static str)
        ensures
            r@ == "91Porn session changed; retry the operation"@,
    {
        "91Porn session changed; retry the operation"
    }
}

impl Session {
    /// A cold session of a guest.
    pub fn new() -> (r: Self)
        ensures
            r.generation == 0,
            r.cookies@.len() == 0,
            r.site@ == Seq::<char>::empty(),
            !r.warmed,
    {
        Session { generation: 0, cookies: Vec::new(), site: String::new(), warmed: false }
    }

    /// Replace the credentials: a new generation, which is cold.
    pub fn set_configured_cookies(&mut self, cookie: &Option<String>, site_base: &str)
        requires
            old(self).generation < u64::MAX,
        ensures
            replaced(*old(self), *final(self)),
            views(final(self).cookies@) == seeds(opt_view(*cookie), site_base@),
            final(self).site@ == trim(site_base@),
    {
        let site = trim_str(site_base);
        let mut cookies: Vec<String> = Vec::new();
        assert(views(cookies@) =~= Seq::empty());
        if let Some(c) = cookie {
            let text = trim_chars(to_chars(c.as_str()).as_slice());
            proof {
                reveal_strlit("Cookie:");
                reveal_strlit("cookie:");
            }
            let named = begins(text.as_slice(), to_chars("Cookie:").as_slice()) || begins(
                text.as_slice(),
                to_chars("cookie:").as_slice(),
            );
            let body = if named {
                let rest = copy_range(text.as_slice(), 7, text.len());
                assert(rest@ =~= text@.skip(7));
                trim_chars(rest.as_slice())
            } else {
                text
            };
            if to_chars(site.as_str()).len() > 0 {
                cookies = split_cookies(body.as_slice());
            }
        }
        self.generation = self.generation + 1;
        self.cookies = cookies;
        self.site = site;
        self.warmed = false;
    }

    /// True once the current generation has established a site session.
    pub fn is_warm(&self) -> (r: bool)
        ensures
            r == self.warmed,
    {
        self.warmed
    }

    /// A hold on the current credentials.
    pub fn ticket(&self) -> (r: Ticket)
        ensures
            r.generation == self.generation,
            holds(*self, r),
    {
        Ticket { generation: self.generation }
    }

    /// Whether an operation still holds the current credentials.
    pub fn check_current(&self, ticket: &Ticket) -> (r: Result<(), SessionChanged>)
        ensures
            r is Ok <==> holds(*self, *ticket),
    {
        if ticket.generation == self.generation {
            Ok(())
        } else {
            Err(SessionChanged)
        }
    }

    /// Only the generation that actually performed the listing can become warm.
    pub fn mark_warm(&mut self, ticket: &Ticket) -> (r: Result<(), SessionChanged>)
        ensures
            if holds(*old(self), *ticket) {
                r is Ok && *final(self) == (Session { warmed: true, ..*old(self) })
            } else {
                r is Err && *final(self) == *old(self)
            },
    {
        if ticket.generation != self.generation {
            return Err(SessionChanged);
        }
        self.warmed = true;
        Ok(())
    }

    /// A stale operation must not invalidate a replacement session.
    pub fn reset(&mut self, ticket: &Ticket) -> (r: Result<(), SessionChanged>)
        ensures
            if holds(*old(self), *ticket) {
                r is Ok && *final(self) == (Session { warmed: false, ..*old(self) })
            } else {
                r is Err && *final(self) == *old(self)
            },
    {
        if ticket.generation != self.generation {
            return Err(SessionChanged);
        }
        self.warmed = false;
        Ok(())
    }

    /// Whether an operation has to visit the listing first. Asked again once no
    /// other operation of the generation is visiting it, so that callers share
    /// one visit.
    pub fn ensure(&self, ticket: &Ticket) -> (r: Result<bool, SessionChanged>)
        ensures
            if holds(*self, *ticket) {
                r == Ok::<bool, SessionChanged>(!self.warmed)
            } else {
                r is Err
            },
    {
        if ticket.generation != self.generation {
            return Err(SessionChanged);
        }
        Ok(!self.warmed)
    }
}

/// Whether an operation holds the credentials of a session.
pub open spec fn holds(s: Session, ticket: Ticket) -> bool {
    ticket.generation == s.generation
}

/// Whether a session is what replacing the credentials of another one makes of
/// it.
pub open spec fn replaced(before: Session, after: Session) -> bool {
    after.generation == before.generation + 1 && !after.warmed
}

/// Once the credentials are replaced, an operation that started before holds the
/// session no longer, however often they are replaced: it can neither warm nor
/// reset it.
pub proof fn law_stale_tickets_are_powerless(sessions: Seq<Session>, ticket: Ticket)
    requires
        sessions.len() >= 2,
        holds(sessions[0], ticket),
        forall|i: int|
            0 <= i < sessions.len() - 1 ==> replaced(#[trigger] sessions[i], sessions[i + 1]),
    ensures
        !holds(sessions.last(), ticket),
        sessions.last().generation == sessions[0].generation + sessions.len() - 1,
    decreases sessions.len(),
{
    let before = sessions.drop_last();
    assert(replaced(sessions[sessions.len() - 2], sessions[sessions.len() - 2 + 1]));
    if sessions.len() > 2 {
        assert forall|i: int| 0 <= i < before.len() - 1 implies replaced(
            #[trigger] before[i],
            before[i + 1],
        ) by {
            assert(replaced(sessions[i], sessions[i + 1]));
        }
        law_stale_tickets_are_powerless(before, ticket);
        assert(before.last() == sessions[sessions.len() - 2]);
    }
}

/// Every cookie of a pasted header is sent, in its order: the first one, where it names
/// a value, and then those behind the semicolon.
pub proof fn law_every_cookie_is_sent(first: Seq<char>, rest: Seq<char>)
    requires
        forall|i: int|
            0 <= i < first.len() ==> (#[trigger] first[i]) != ';' && first[i] != '\n' && first[i]
                != '\r',
    ensures
        trim(first).len() > 0 && trim(first).contains('=') ==> cookies_in(first + seq![';'] + rest)
            == seq![trim(first) + "; Path=/"@] + cookies_in(rest),
        !trim(first).contains('=') ==> cookies_in(first + seq![';'] + rest) == cookies_in(rest),
        trim(first).len() > 0 && trim(first).contains('=') ==> cookies_in(first) == seq![
            trim(first) + "; Path=/"@,
        ],
{
    let whole = first + seq![';'] + rest;
    lemma_pair_end_at(whole, first.len() as int, 0);
    lemma_pair_end_at(first, first.len() as int, 0);
    assert(whole.take(first.len() as int) =~= first);
    assert(whole.skip(first.len() as int + 1) =~= rest);
    assert(first.take(first.len() as int) =~= first);
    assert(Seq::<Seq<char>>::empty() + cookies_in(rest) =~= cookies_in(rest));
}

proof fn lemma_pair_end_at(s: Seq<char>, n: int, i: int)
    requires
        0 <= i <= n <= s.len(),
        forall|k: int| 0 <= k < n ==> !ends_pair(#[trigger] s[k]),
        n < s.len() ==> ends_pair(s[n]),
    ensures
        pair_end(s, i) == n,
    decreases n - i,
{
    if i < n {
        lemma_pair_end_at(s, n, i + 1);
    }
}

} // verus!
