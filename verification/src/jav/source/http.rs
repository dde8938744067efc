//! Requests: which headers they carry, and what the answers mean.
use vstd::prelude::*;
use crate::jav::source::cf::{is_cloudflare_challenge, spec_challenge_page, Credentials};
use crate::outside::std_text::{from_utf8_lossy, text_of, to_lowercase, unicode_lower};
use crate::outside::url::{host, origin, url_host, url_origin};
use crate::text::{
    ascii_lower, begins, contains, copy_range, decimal, decimal_chars, ends, ends_with, find,
    find_from, found_at, from_chars, has, is_space, join2, join3, lemma_find, lower_chars,
    opt_view, same, same_str, starts_with, strip_leading, strip_trailing, to_chars, trim,
    trim_chars, trim_end_char, trim_start, trim_start_char, trim_start_chars, trim_str,
};

verus! {

/// A browser-like `Accept` header for navigation requests.
pub const ACCEPT_HTML: &'static str =
    "text/html,application/xhtml+xml,application/xml;q=0.9,image/avif,image/webp,*/*;q=0.8";

/// One header of a request.
#[derive(Debug, Clone, PartialEq, Eq)]
pub struct Header {
    pub name: String,
    pub value: String,
}

/// The names and values of some headers.
pub open spec fn header_views(v: Seq<Header>) -> Seq<(Seq<char>, Seq<char>)> {
    Seq::new(v.len(), |i: int| (v[i].name@, v[i].value@))
}

fn push_header(headers: &mut Vec<Header>, name: &str, value: &str)
    ensures
        header_views(final(headers)@) == header_views(old(headers)@).push((name@, value@)),
{
    let ghost before = header_views(headers@);
    headers.push(
        Header {
            name: from_chars(to_chars(name).as_slice()),
            value: from_chars(to_chars(value).as_slice()),
        },
    );
    assert(header_views(headers@) =~= before.push((name@, value@)));
}

// ── Cookies ──────────────────────────────────────────────────────────────

/// Whether `c` ends a cookie's value.
pub open spec fn ends_cookie(c: char) -> bool {
    c == ';' || c == ',' || c == '\n' || c == '\r'
}

/// The first position from `i` on of a character that ends a cookie's value.
pub open spec fn cookie_end(s: Seq<char>, i: int) -> int
    decreases s.len() - i,
{
    if 0 <= i < s.len() && !ends_cookie(s[i]) {
        cookie_end(s, i + 1)
    } else {
        i
    }
}

/// The bare clearance value in what was pasted: behind `cf_clearance=`, up to
/// the end of that cookie, or all of it where that does not occur; without
/// white space and quotes around it.
pub open spec fn clearance(raw: Seq<char>) -> Seq<char> {
    let t = trim(raw);
    let value = match find_from(t, "cf_clearance="@, 0) {
        Some(i) => {
            let rest = t.skip(i + 13);
            trim(rest.take(cookie_end(rest, 0)))
        },
        None => t,
    };
    trim_end_char(trim_start_char(trim(value), '"'), '"')
}

/// Normalise whatever the user pasted into a bare `cf_clearance` value.
/// Accepts a raw value, `cf_clearance=value`, or a full `Cookie:` header.
pub fn normalize_cf_clearance(raw: &str) -> (r: String)
    ensures
        r@ == clearance(raw@),
{
    let t = trim_chars(to_chars(raw).as_slice());
    let name = to_chars("cf_clearance=");
    proof {
        reveal_strlit("cf_clearance=");
    }
    let value = match find(t.as_slice(), name.as_slice(), 0) {
        Some(i) => {
            let n = t.len();
            let rest = copy_range(t.as_slice(), i + 13, n);
            assert(rest@ =~= t@.skip(i + 13));
            let mut e: usize = 0;
            while e < rest.len() && !(rest[e] == ';' || rest[e] == ',' || rest[e] == '\n' || rest[e]
                == '\r')
                invariant
                    e <= rest@.len(),
                    cookie_end(rest@, 0) == cookie_end(rest@, e as int),
                decreases rest@.len() - e,
            {
                e += 1;
            }
            let head = copy_range(rest.as_slice(), 0, e);
            assert(head@ =~= rest@.take(e as int));
            trim_chars(head.as_slice())
        },
        None => t,
    };
    let inner = trim_chars(value.as_slice());
    let left = strip_leading(inner.as_slice(), '"');
    let bare = strip_trailing(left.as_slice(), '"');
    from_chars(bare.as_slice())
}

/// Whether a text is a value of a cookie as it is: not empty, without white space,
/// quotes or what ends a cookie, and without the name of the cookie in it.
pub open spec fn is_bare(v: Seq<char>) -> bool {
    &&& v.len() > 0
    &&& forall|i: int|
        0 <= i < v.len() ==> !is_space(#[trigger] v[i]) && v[i] != '"' && !ends_cookie(v[i])
    &&& !contains(v, "cf_clearance="@)
}

/// Whether a text is white space and nothing else.
pub open spec fn is_all_blank(s: Seq<char>) -> bool {
    forall|i: int| 0 <= i < s.len() ==> is_space(#[trigger] s[i])
}

proof fn lemma_trim_blanks(a: Seq<char>, v: Seq<char>, b: Seq<char>)
    requires
        is_all_blank(a),
        is_all_blank(b),
        v.len() > 0,
        !is_space(v[0]),
        !is_space(v.last()),
    ensures
        trim(a + v + b) == v,
    decreases a.len() + b.len(),
{
    let s = a + v + b;
    if a.len() > 0 {
        assert(s[0] == a[0]);
        assert(s.skip(1) =~= a.skip(1) + v + b);
        assert forall|i: int| 0 <= i < a.skip(1).len() implies is_space(
            #[trigger] a.skip(1)[i],
        ) by {
            assert(a.skip(1)[i] == a[i + 1]);
        }
        lemma_trim_blanks(a.skip(1), v, b);
    } else {
        assert(s[0] == v[0]);
        assert(trim_start(s) == s);
        if b.len() > 0 {
            assert(s.last() == b[b.len() - 1]);
            assert(s.drop_last() =~= a + v + b.drop_last());
            assert forall|i: int| 0 <= i < b.drop_last().len() implies is_space(
                #[trigger] b.drop_last()[i],
            ) by {
                assert(b.drop_last()[i] == b[i]);
            }
            lemma_trim_blanks(a, v, b.drop_last());
            assert(s.drop_last()[0] == v[0]);
            assert(trim_start(s.drop_last()) == s.drop_last());
        } else {
            assert(s =~= v);
        }
    }
}

proof fn lemma_bare_ends(v: Seq<char>)
    requires
        is_bare(v),
    ensures
        trim(v) == v,
        trim_end_char(trim_start_char(trim(v), '"'), '"') == v,
        find_from(v, "cf_clearance="@, 0) is None,
{
    assert(!is_space(v[0]) && v[0] != '"');
    assert(!is_space(v[v.len() - 1]) && v[v.len() - 1] != '"');
    let none = Seq::<char>::empty();
    lemma_trim_blanks(none, v, none);
    assert(none + v + none =~= v);
    lemma_find(v, "cf_clearance="@, 0);
}

proof fn lemma_cookie_end(v: Seq<char>, after: Seq<char>, i: int)
    requires
        0 <= i <= v.len(),
        forall|k: int| 0 <= k < v.len() ==> !ends_cookie(#[trigger] v[k]),
        after.len() > 0 ==> ends_cookie(after[0]),
    ensures
        cookie_end(v + after, i) == v.len(),
    decreases v.len() - i,
{
    if i < v.len() {
        assert((v + after)[i] == v[i]);
        lemma_cookie_end(v, after, i + 1);
    } else if after.len() > 0 {
        assert((v + after)[i] == after[0]);
    }
}

/// A value is found behind the name of its cookie, whatever other cookies are
/// around it.
pub proof fn law_cookie_is_found(v: Seq<char>, before: Seq<char>, after: Seq<char>)
    requires
        is_bare(v),
        before.len() > 0 ==> !is_space(before[0]),
        after.len() > 0 ==> ends_cookie(after[0]) && !is_space(after.last()),
        forall|j: int|
            0 <= j < before.len() ==> !#[trigger] found_at(
                before + "cf_clearance="@,
                "cf_clearance="@,
                j,
            ),
    ensures
        clearance(before + "cf_clearance="@ + v + after) == v,
{
    reveal_strlit("cf_clearance=");
    let name = "cf_clearance="@;
    let x = before + name + v + after;
    let n = before.len() as int;
    assert(name[0] == 'c');
    let none = Seq::<char>::empty();
    assert(!is_space(x[0])) by {
        if n > 0 {
            assert(x[0] == before[0]);
        } else {
            assert(x[0] == name[0]);
        }
    }
    assert(!is_space(x.last())) by {
        if after.len() > 0 {
            assert(x.last() == after.last());
        } else {
            assert(x.last() == v[v.len() - 1]);
        }
    }
    lemma_trim_blanks(none, x, none);
    assert(none + x + none =~= x);
    assert(found_at(x, name, n)) by {
        assert(x.subrange(n, n + name.len()) =~= name);
    }
    assert forall|j: int| 0 <= j < n implies !found_at(x, name, j) by {
        if found_at(x, name, j) {
            let y = before + name;
            assert(y.subrange(j, j + name.len()) =~= x.subrange(j, j + name.len()));
            assert(found_at(y, name, j));
        }
    }
    lemma_find(x, name, 0);
    assert(find_from(x, name, 0) == Some(n));
    let rest = x.skip(n + 13);
    assert(rest =~= v + after);
    lemma_cookie_end(v, after, 0);
    assert(rest.take(v.len() as int) =~= v);
    lemma_bare_ends(v);
}

/// However a value is pasted, it is the same: as it is, with blanks around it, in
/// quotes, with the name of its cookie, or in a whole header.
pub proof fn law_pasted_values_are_one(v: Seq<char>, a: Seq<char>, b: Seq<char>)
    requires
        is_bare(v),
        is_all_blank(a),
        is_all_blank(b),
    ensures
        clearance(v) == v,
        clearance(a + v + b) == v,
        clearance("\""@ + v + "\""@) == v,
        clearance("cf_clearance="@ + v) == v,
        clearance("Cookie: a=1; cf_clearance="@ + v + "; z=2"@) == v,
{
    let none = Seq::<char>::empty();
    lemma_bare_ends(v);
    assert(!is_space(v[0]) && v[0] != '"');
    assert(!is_space(v[v.len() - 1]) && v[v.len() - 1] != '"');
    lemma_trim_blanks(a, v, b);
    lemma_quoted(v);
    reveal_strlit("cf_clearance=");
    law_cookie_is_found(v, none, none);
    assert(none + "cf_clearance="@ + v + none =~= "cf_clearance="@ + v);
    reveal_strlit("Cookie: a=1; cf_clearance=");
    reveal_strlit("Cookie: a=1; ");
    reveal_strlit("; z=2");
    let before = "Cookie: a=1; "@;
    let after = "; z=2"@;
    let name = "cf_clearance="@;
    assert forall|j: int| 0 <= j < before.len() implies !#[trigger] found_at(
        before + name,
        name,
        j,
    ) by {
        if found_at(before + name, name, j) {
            let s = (before + name).subrange(j, j + name.len());
            assert(s[0] == before[j]);
            assert(name[0] == 'c');
        }
    }
    assert(after.last() == '2');
    law_cookie_is_found(v, before, after);
    assert("Cookie: a=1; cf_clearance="@ =~= before + name);
}

proof fn lemma_quoted(v: Seq<char>)
    requires
        is_bare(v),
    ensures
        clearance("\""@ + v + "\""@) == v,
{
    reveal_strlit("\"");
    reveal_strlit("cf_clearance=");
    let name = "cf_clearance="@;
    let x = "\""@ + v + "\""@;
    let none = Seq::<char>::empty();
    assert(x[0] == '"' && x.last() == '"');
    lemma_trim_blanks(none, x, none);
    assert(none + x + none =~= x);
    assert forall|j: int| 0 <= j implies !found_at(x, name, j) by {
        if found_at(x, name, j) {
            let s = x.subrange(j, j + name.len());
            assert(s == name);
            assert(s[0] == x[j]);
            assert(s[12] == x[j + 12]);
            assert(j > 0);
            assert(j + 12 < x.len() - 1);
            assert(v.subrange(j - 1, j - 1 + name.len()) =~= s);
            assert(found_at(v, name, j - 1));
        }
    }
    lemma_find(x, name, 0);
    assert(v[0] != '"');
    assert(x.skip(1)[0] == v[0]);
    assert(trim_start_char(x.skip(1), '"') == x.skip(1));
    assert(trim_start_char(x, '"') == x.skip(1));
    assert(x.skip(1).last() == '"');
    assert(x.skip(1).drop_last() =~= v);
    assert(v.last() == v[v.len() - 1]);
    assert(v[v.len() - 1] != '"');
    assert(trim_end_char(v, '"') == v);
    assert(trim_end_char(x.skip(1), '"') == v);
}

/// The referer a browser would send for `url`: its origin with a slash.
pub open spec fn referer_of(url: Seq<char>) -> Option<Seq<char>> {
    match (url_host(url), url_origin(url)) {
        (Some(_), Some(o)) => Some(o + "/"@),
        _ => None,
    }
}

/// The `Origin`-ish referer a browser would send for `url`.
pub fn referer_for(url: &str) -> (r: Option<String>)
    ensures
        opt_view(r) == referer_of(url@),
{
    match (host(url), origin(url)) {
        (Some(_), Some(o)) => Some(join2(o.as_str(), "/")),
        _ => None,
    }
}

/// `host` without leading `www.` labels.
pub open spec fn without_www(host: Seq<char>) -> Seq<char>
    decreases host.len(),
{
    if host.len() >= 4 && starts_with(host, "www."@) {
        without_www(host.skip(4))
    } else {
        host
    }
}

/// Whether two hosts are equal, or one is a subdomain of the other.
pub open spec fn related_hosts(a: Seq<char>, b: Seq<char>) -> bool {
    let x = unicode_lower(without_www(a));
    let y = unicode_lower(without_www(b));
    x == y || ends_with(x, "."@ + y) || ends_with(y, "."@ + x)
}

/// Whether two URLs belong to one site.
pub open spec fn one_site(a: Seq<char>, b: Seq<char>) -> bool {
    match (url_host(a), url_host(b)) {
        (Some(x), Some(y)) => related_hosts(x, y),
        _ => false,
    }
}

/// `host` without leading `www.` labels.
pub fn strip_www(host: &str) -> (r: String)
    ensures
        r@ == without_www(host@),
{
    let v = to_chars(host);
    let www = to_chars("www.");
    proof {
        reveal_strlit("www.");
    }
    let mut from: usize = 0;
    assert(v@.skip(0) =~= v@);
    loop
        invariant
            from <= v@.len(),
            www@ == "www."@,
            www@.len() == 4,
            v@ == host@,
            without_www(host@) == without_www(v@.skip(from as int)),
        decreases v@.len() - from,
    {
        let rest = copy_range(v.as_slice(), from, v.len());
        assert(rest@ =~= v@.skip(from as int));
        if !begins(rest.as_slice(), www.as_slice()) {
            return from_chars(rest.as_slice());
        }
        assert(rest@.skip(4) =~= v@.skip(from + 4));
        from += 4;
    }
}

/// Whether two hosts are equal, or one is a subdomain of the other.
pub fn hosts_related(a: &str, b: &str) -> (r: bool)
    ensures
        r == related_hosts(a@, b@),
{
    let x = to_lowercase(strip_www(a).as_str());
    let y = to_lowercase(strip_www(b).as_str());
    let dx = join2(".", x.as_str());
    let dy = join2(".", y.as_str());
    same_str(x.as_str(), y.as_str()) || ends(
        to_chars(x.as_str()).as_slice(),
        to_chars(dy.as_str()).as_slice(),
    ) || ends(to_chars(y.as_str()).as_slice(), to_chars(dx.as_str()).as_slice())
}

/// Loose same-site test: equal hosts, or one is a subdomain of the other.
pub fn same_site(a: &str, b: &str) -> (r: bool)
    ensures
        r == one_site(a@, b@),
{
    match (host(a), host(b)) {
        (Some(x), Some(y)) => hosts_related(x.as_str(), y.as_str()),
        _ => false,
    }
}

/// The headers that carry the credentials: the user agent everywhere, the
/// cookie only to the site that issued it.
pub open spec fn credential_headers(
    target: Seq<char>,
    site: Seq<char>,
    cookie: Seq<char>,
    user_agent: Seq<char>,
) -> Seq<(Seq<char>, Seq<char>)> {
    let agent = if trim(user_agent).len() == 0 {
        Seq::empty()
    } else {
        seq![("user-agent"@, trim(user_agent))]
    };
    if !one_site(target, site) || clearance(cookie).len() == 0 {
        agent
    } else {
        agent.push(("cookie"@, "cf_clearance="@ + clearance(cookie)))
    }
}

/// Attach the clearance cookie only when `target` lives on the same site as the
/// page that issued it.
pub fn apply_cf_headers_scoped(
    headers: &mut Vec<Header>,
    target: &str,
    site: &str,
    cookie: &str,
    user_agent: &str,
)
    ensures
        header_views(final(headers)@) == header_views(old(headers)@) + credential_headers(
            target@,
            site@,
            cookie@,
            user_agent@,
        ),
{
    let ghost start = header_views(headers@);
    let ua = trim_str(user_agent);
    let agent = to_chars(ua.as_str()).len() > 0;
    if agent {
        push_header(headers, "user-agent", ua.as_str());
        assert(header_views(headers@) =~= start + seq![("user-agent"@, trim(user_agent@))]);
    } else {
        assert(header_views(headers@) =~= start + Seq::<(Seq<char>, Seq<char>)>::empty());
    }
    if !same_site(target, site) {
        return;
    }
    let cf = normalize_cf_clearance(cookie);
    if to_chars(cf.as_str()).len() == 0 {
        return;
    }
    let ghost middle = header_views(headers@);
    let value = join2("cf_clearance=", cf.as_str());
    push_header(headers, "cookie", value.as_str());
    assert(header_views(headers@) =~= start + credential_headers(
        target@,
        site@,
        cookie@,
        user_agent@,
    ));
}

/// The clearance cookie never leaves the site that issued it.
pub proof fn law_cookie_stays_on_its_site(
    target: Seq<char>,
    site: Seq<char>,
    cookie: Seq<char>,
    user_agent: Seq<char>,
)
    requires
        !one_site(target, site),
    ensures
        forall|i: int|
            0 <= i < credential_headers(target, site, cookie, user_agent).len() ==> (
            #[trigger] credential_headers(target, site, cookie, user_agent)[i]).0 != "cookie"@,
{
    reveal_strlit("user-agent");
    reveal_strlit("cookie");
    assert("user-agent"@.len() != "cookie"@.len());
}

/// On its own site the cookie goes with every request, with the agent that earned it:
/// both are sent, each once, whatever was pasted around the cookie.
pub proof fn law_cookie_goes_with_its_agent(
    target: Seq<char>,
    site: Seq<char>,
    cookie: Seq<char>,
    user_agent: Seq<char>,
)
    ensures
        ({
            let h = credential_headers(target, site, cookie, user_agent);
            &&& trim(user_agent).len() > 0 ==> h.contains(("user-agent"@, trim(user_agent)))
            &&& one_site(target, site) && clearance(cookie).len() > 0 ==> h.contains(
                ("cookie"@, "cf_clearance="@ + clearance(cookie)),
            )
            &&& h.len() == (if trim(user_agent).len() > 0 {
                1int
            } else {
                0
            }) + (if one_site(target, site) && clearance(cookie).len() > 0 {
                1int
            } else {
                0
            })
        }),
{
    let h = credential_headers(target, site, cookie, user_agent);
    if trim(user_agent).len() > 0 {
        assert(h[0] == ("user-agent"@, trim(user_agent)));
    }
    if one_site(target, site) && clearance(cookie).len() > 0 {
        assert(h[h.len() - 1] == ("cookie"@, "cf_clearance="@ + clearance(cookie)));
    }
}

/// Being on one site works both ways, and a host is on one site with itself and with
/// the hosts below it, whatever the case of the letters.
pub proof fn law_one_site_works_both_ways(a: Seq<char>, b: Seq<char>, x: Seq<char>, y: Seq<char>)
    ensures
        one_site(a, b) == one_site(b, a),
        related_hosts(x, x),
        unicode_lower(without_www(x)) == unicode_lower(without_www(y)) ==> related_hosts(x, y),
        related_hosts(x, y) ==> {
            let (p, q) = (unicode_lower(without_www(x)), unicode_lower(without_www(y)));
            p == q || ends_with(p, "."@ + q) || ends_with(q, "."@ + p)
        },
        url_host(a) is None ==> !one_site(a, b),
{
}

// ── Requests ─────────────────────────────────────────────────────────────

/// The headers of a request for a page.
pub open spec fn page_headers(
    url: Seq<char>,
    referer: Option<Seq<char>>,
    site: Seq<char>,
    cookie: Seq<char>,
    user_agent: Seq<char>,
) -> Seq<(Seq<char>, Seq<char>)> {
    seq![("accept"@, ACCEPT_HTML@)] + (match referer {
        Some(r) => seq![("referer"@, r)],
        None => Seq::empty(),
    }) + credential_headers(url, site, cookie, user_agent)
}

/// The headers of a GET request for a page, as a browser would send them.
pub fn request(
    url: &str,
    referer: &Option<String>,
    site: &str,
    credentials: &Credentials,
) -> (r: Vec<Header>)
    ensures
        header_views(r@) == page_headers(
            url@,
            opt_view(*referer),
            site@,
            credentials.cookie@,
            credentials.user_agent@,
        ),
{
    let mut headers: Vec<Header> = Vec::new();
    assert(header_views(headers@) =~= Seq::empty());
    push_header(&mut headers, "accept", ACCEPT_HTML);
    assert(header_views(headers@) =~= seq![("accept"@, ACCEPT_HTML@)]);
    if let Some(value) = referer {
        push_header(&mut headers, "referer", value.as_str());
        assert(header_views(headers@) =~= seq![("accept"@, ACCEPT_HTML@)] + seq![
            ("referer"@, value@),
        ]);
    } else {
        assert(header_views(headers@) =~= seq![("accept"@, ACCEPT_HTML@)] + Seq::<
            (Seq<char>, Seq<char>),
        >::empty());
    }
    apply_cf_headers_scoped(
        &mut headers,
        url,
        site,
        credentials.cookie.as_str(),
        credentials.user_agent.as_str(),
    );
    headers
}

/// The value of a `Range` header for `length` bytes from `start` on.
pub open spec fn range_value(start: u64, length: u64) -> Seq<char> {
    let end = if length == 0 {
        start as nat
    } else {
        (start + length - 1) as nat
    };
    "bytes="@ + decimal(start as nat) + "-"@ + decimal(end)
}

/// The headers of a request for media.
pub open spec fn media_headers(
    url: Seq<char>,
    page: Seq<char>,
    site: Seq<char>,
    cookie: Seq<char>,
    user_agent: Seq<char>,
    range: Option<(u64, u64)>,
) -> Seq<(Seq<char>, Seq<char>)> {
    (match referer_of(page) {
        Some(r) => seq![("referer"@, r)],
        None => Seq::empty(),
    }) + credential_headers(url, site, cookie, user_agent) + (match range {
        Some(r) => seq![("range"@, range_value(r.0, r.1))],
        None => Seq::empty(),
    })
}

/// Media are asked for with the page's origin as referer, and where only a part of a
/// file is meant, for exactly those bytes; without a part, no range is sent.
pub proof fn law_media_requests_name_their_bytes(
    url: Seq<char>,
    page: Seq<char>,
    site: Seq<char>,
    cookie: Seq<char>,
    user_agent: Seq<char>,
    start: u64,
    length: u64,
)
    requires
        length > 0,
        start + length <= u64::MAX,
    ensures
        ({
            let part = media_headers(url, page, site, cookie, user_agent, Some((start, length)));
            let whole = media_headers(url, page, site, cookie, user_agent, None);
            let last = (start + length - 1) as nat;
            &&& part == whole.push(
                ("range"@, "bytes="@ + decimal(start as nat) + "-"@ + decimal(last)),
            )
            &&& forall|i: int| 0 <= i < whole.len() ==> (#[trigger] whole[i]).0 != "range"@
            &&& url_host(page) is Some ==> (url_origin(page) matches Some(o) ==> whole[0] == (
                "referer"@,
                o + "/"@,
            ))
            &&& whole.skip(
                if referer_of(page) is Some {
                    1int
                } else {
                    0
                },
            ) =~= credential_headers(url, site, cookie, user_agent)
        }),
{
    reveal_strlit("range");
    reveal_strlit("referer");
    reveal_strlit("cookie");
    reveal_strlit("user-agent");
    assert("range"@.len() != "referer"@.len() && "range"@.len() != "cookie"@.len()
        && "range"@.len() != "user-agent"@.len());
    let part = media_headers(url, page, site, cookie, user_agent, Some((start, length)));
    let whole = media_headers(url, page, site, cookie, user_agent, None);
    assert(part =~= whole.push(("range"@, range_value(start, length))));
}

/// The headers of a GET request for media, with the page's origin as referer
/// and the credentials scoped to the site that issued them. `range` is the
/// start and the length of the bytes to fetch.
pub fn media_request(
    url: &str,
    page: &str,
    site: &str,
    credentials: &Credentials,
    range: Option<(u64, u64)>,
) -> (r: Vec<Header>)
    requires
        range matches Some(b) ==> b.0 + b.1 <= u64::MAX + 1,
    ensures
        header_views(r@) == media_headers(
            url@,
            page@,
            site@,
            credentials.cookie@,
            credentials.user_agent@,
            range,
        ),
{
    let mut headers: Vec<Header> = Vec::new();
    let ghost none = Seq::<(Seq<char>, Seq<char>)>::empty();
    let ghost first = match referer_of(page@) {
        Some(r) => seq![("referer"@, r)],
        None => none,
    };
    assert(header_views(headers@) =~= none);
    if let Some(value) = referer_for(page) {
        push_header(&mut headers, "referer", value.as_str());
    }
    assert(header_views(headers@) =~= first);
    apply_cf_headers_scoped(
        &mut headers,
        url,
        site,
        credentials.cookie.as_str(),
        credentials.user_agent.as_str(),
    );
    let ghost second = header_views(headers@);
    if let Some((start, length)) = range {
        let end = if length == 0 {
            start
        } else {
            start + (length - 1)
        };
        let low = from_chars(decimal_chars(start).as_slice());
        let high = from_chars(decimal_chars(end).as_slice());
        let head = join3("bytes=", low.as_str(), "-");
        let value = join2(head.as_str(), high.as_str());
        push_header(&mut headers, "range", value.as_str());
        assert(header_views(headers@) =~= second + seq![("range"@, range_value(start, length))]);
    } else {
        assert(header_views(headers@) =~= second + none);
    }
    headers
}

// ── Answers to media requests ────────────────────────────────────────────

/// A permanent media rejection: retrying every segment cannot repair it.
#[derive(Debug, Clone, PartialEq, Eq)]
pub struct MediaRejected(pub String);

/// What of the head of an answer to a media request matters. The status line is
/// the number of the status with its reason.
#[derive(Debug, Clone)]
pub struct MediaHead {
    pub status: u16,
    pub status_line: String,
    pub uri: String,
    pub cf_mitigated: Option<String>,
    pub content_type: Option<String>,
    pub cf_ray: Option<String>,
}

/// Why the answer to a media request cannot be used.
#[derive(Debug, Clone, PartialEq, Eq)]
pub enum MediaFailure {
    /// Asking again cannot help.
    Rejected(MediaRejected),
    /// Asking again may help.
    Failed(String),
}

/// Whether an answer is marked as a challenge.
pub open spec fn is_challenge(h: MediaHead) -> bool {
    opt_view(h.cf_mitigated) == Some("challenge"@)
}

/// Whether an answer is a page rather than media.
pub open spec fn is_html(h: MediaHead) -> bool {
    h.content_type matches Some(t) && contains(ascii_lower(t@), "text/html"@)
}

/// Whether a status is one of success.
pub open spec fn success(status: u16) -> bool {
    200 <= status < 300
}

/// Whether an answer denies access: a client error, but for a request that took
/// too long or came too often.
pub open spec fn is_denied(h: MediaHead) -> bool {
    400 <= h.status < 500 && h.status != 408 && h.status != 429
}

/// Why access to media was denied.
pub open spec fn denial_reason(h: MediaHead) -> Seq<char> {
    if is_challenge(h) {
        "Cloudflare challenge"@
    } else if h.cf_ray is Some && h.status == 403 {
        "Cloudflare access denied"@
    } else if is_html(h) && success(h.status) {
        "HTML instead of media"@
    } else {
        "access failed"@
    }
}

/// Whether asking again for media cannot help.
pub open spec fn rejects(h: MediaHead) -> bool {
    is_challenge(h) || (is_html(h) && success(h.status)) || is_denied(h)
}

/// What is said of media that was denied.
pub open spec fn rejection_text(h: MediaHead) -> Seq<char> {
    let ray = match h.cf_ray {
        Some(r) => r@,
        None => "unavailable"@,
    };
    "media request for "@ + h.uri@ + ": "@ + denial_reason(h) + " (HTTP "@ + h.status_line@
        + ", cf-ray: "@ + ray + "). Clearance cookies are scoped to the issuing site"@
}

/// What is said of media that could not be had this time.
pub open spec fn failure_text(h: MediaHead) -> Seq<char> {
    "media request for "@ + h.uri@ + ": HTTP "@ + h.status_line@
}

/// What is no media never becomes a file: a challenge, a page instead of media and a
/// denial are final; a server that is busy, late or broken is not, so that it can be
/// asked again; and a plain success is taken.
pub proof fn law_only_media_are_taken(h: MediaHead)
    ensures
        opt_view(h.cf_mitigated) == Some("challenge"@) ==> rejects(h),
        h.content_type is Some && contains(ascii_lower((h.content_type->0)@), "text/html"@) && 200
            <= h.status < 300 ==> rejects(h),
        h.status == 401 || h.status == 403 || h.status == 404 || h.status == 410 ==> rejects(h),
        opt_view(h.cf_mitigated) != Some("challenge"@) && (h.status == 408 || h.status == 429 || 500
            <= h.status < 600 || 300 <= h.status < 400) ==> !rejects(h) && !success(h.status),
        h.cf_mitigated is None && h.content_type is None && 200 <= h.status < 300 ==> !rejects(h)
            && success(h.status),
        success(h.status) ==> 200 <= h.status < 300,
{
}

/// Reject access-denied and HTML responses before they become media files.
pub fn media_response(h: &MediaHead) -> (r: Result<(), MediaFailure>)
    ensures
        if rejects(*h) {
            r matches Err(MediaFailure::Rejected(m)) && m.0@ == rejection_text(*h)
        } else if !success(h.status) {
            r matches Err(MediaFailure::Failed(m)) && m@ == failure_text(*h)
        } else {
            r is Ok
        },
{
    let challenge = match &h.cf_mitigated {
        Some(v) => same_str(v.as_str(), "challenge"),
        None => false,
    };
    let html = match &h.content_type {
        Some(v) => has(
            lower_chars(to_chars(v.as_str()).as_slice()).as_slice(),
            to_chars("text/html").as_slice(),
        ),
        None => false,
    };
    let ok = 200 <= h.status && h.status < 300;
    let denied = 400 <= h.status && h.status < 500 && h.status != 408 && h.status != 429;
    if challenge || (html && ok) || denied {
        let reason = if challenge {
            "Cloudflare challenge"
        } else if h.cf_ray.is_some() && h.status == 403 {
            "Cloudflare access denied"
        } else if html && ok {
            "HTML instead of media"
        } else {
            "access failed"
        };
        let ray = match &h.cf_ray {
            Some(v) => v.clone(),
            None => "unavailable".to_owned(),
        };
        let mut text = join3("media request for ", h.uri.as_str(), ": ");
        text = join3(text.as_str(), reason, " (HTTP ");
        text = join3(text.as_str(), h.status_line.as_str(), ", cf-ray: ");
        text = join3(
            text.as_str(),
            ray.as_str(),
            "). Clearance cookies are scoped to the issuing site",
        );
        return Err(MediaFailure::Rejected(MediaRejected(text)));
    }
    if !ok {
        let head = join3("media request for ", h.uri.as_str(), ": HTTP ");
        return Err(MediaFailure::Failed(join2(head.as_str(), h.status_line.as_str())));
    }
    Ok(())
}

/// How many bytes of a body are looked at.
pub const BODY_PROBE: usize = 8192;

/// The part of a body that is looked at, as text.
pub open spec fn body_text(data: Seq<u8>) -> Seq<char> {
    text_of(
        if data.len() < BODY_PROBE {
            data
        } else {
            data.take(BODY_PROBE as int)
        },
    )
}

/// Whether the text at the front of a body shows that it is no media.
pub open spec fn is_block_page(text: Seq<char>) -> bool {
    let l = ascii_lower(trim_start(text));
    ||| spec_challenge_page(text)
    ||| starts_with(l, "<!doctype html"@)
    ||| starts_with(l, "<html"@)
    ||| contains(l, "<title>attention required"@)
}

/// Whether the text at the front of a body shows that it is no media.
pub fn looks_like_block_page(text: &str) -> (r: bool)
    ensures
        r == is_block_page(text@),
{
    let l = lower_chars(trim_start_chars(to_chars(text).as_slice()).as_slice());
    is_cloudflare_challenge(text) || begins(l.as_slice(), to_chars("<!doctype html").as_slice())
        || begins(l.as_slice(), to_chars("<html").as_slice()) || has(
        l.as_slice(),
        to_chars("<title>attention required").as_slice(),
    )
}

/// Some block pages arrive with HTTP 200 and an incorrect content type.
pub fn validate_media_body(url: &str, data: &[u8]) -> (r: Result<(), MediaRejected>)
    ensures
        if data@.len() == 0 || is_block_page(body_text(data@)) {
            r matches Err(m) && m.0@ == "media request for "@ + url@
                + ": empty, HTML or Cloudflare response instead of media"@
        } else {
            r is Ok
        },
{
    let n: usize = if data.len() < BODY_PROBE {
        data.len()
    } else {
        BODY_PROBE
    };
    let head = vstd::slice::slice_subrange(data, 0, n);
    proof {
        if data@.len() < BODY_PROBE {
            assert(head@ =~= data@);
        } else {
            assert(head@ =~= data@.take(BODY_PROBE as int));
        }
    }
    let prefix = from_utf8_lossy(head);
    if data.len() == 0 || looks_like_block_page(prefix.as_str()) {
        return Err(
            MediaRejected(
                join3(
                    "media request for ",
                    url,
                    ": empty, HTML or Cloudflare response instead of media",
                ),
            ),
        );
    }
    Ok(())
}

// ── Answers to page requests ─────────────────────────────────────────────

/// Marks an error that a fresh cookie may cure.
#[derive(Debug, Clone, PartialEq, Eq)]
pub struct ChallengeSignal {
    pub reason: String,
}

/// Why a page could not be had. An error can be wrapped in the context in which
/// it came.
#[derive(Debug)]
pub enum FetchError {
    Challenge(ChallengeSignal),
    Other(String),
    Context(String, Box<FetchError>),
}

impl FetchError {
    /// The signal that an error carries under its contexts, where it carries one.
    pub open spec fn signal(self) -> Option<Seq<char>>
        decreases self,
    {
        match self {
            FetchError::Challenge(s) => Some(s.reason@),
            FetchError::Other(_) => None,
            FetchError::Context(_, inner) => inner.signal(),
        }
    }

    /// What the error says: its context first, then what it was.
    pub open spec fn text(self) -> Seq<char>
        decreases self,
    {
        match self {
            FetchError::Challenge(s) => "Cloudflare "@ + s.reason@,
            FetchError::Other(m) => m@,
            FetchError::Context(c, inner) => c@ + ": "@ + inner.text(),
        }
    }

    /// What the error says: its context first, then what it was.
    pub fn message(&self) -> (r: String)
        ensures
            r@ == self.text(),
        decreases self,
    {
        match self {
            FetchError::Challenge(s) => join2("Cloudflare ", s.reason.as_str()),
            FetchError::Other(m) => m.clone(),
            FetchError::Context(c, inner) => {
                let rest = inner.message();
                join3(c.as_str(), ": ", rest.as_str())
            },
        }
    }

    /// The error in a context.
    pub fn context(self, text: &str) -> (r: FetchError)
        ensures
            r.signal() == self.signal(),
            r.text() == text@ + ": "@ + self.text(),
    {
        FetchError::Context(from_chars(to_chars(text).as_slice()), Box::new(self))
    }
}

impl ChallengeSignal {
    /// The signal of a page that is a challenge.
    pub fn body(url: &str) -> (r: Self)
        ensures
            r.reason@ == "challenge page for "@ + url@,
    {
        ChallengeSignal { reason: join2("challenge page for ", url) }
    }

    /// The signal of a page that was refused.
    pub fn status(url: &str) -> (r: Self)
        ensures
            r.reason@ == "HTTP 403 for "@ + url@,
    {
        ChallengeSignal { reason: join2("HTTP 403 for ", url) }
    }

    /// The signal that an error carries, under whatever context.
    pub fn from_error(err: &FetchError) -> (r: Option<Self>)
        ensures
            match r {
                Some(s) => err.signal() == Some(s.reason@),
                None => err.signal() is None,
            },
        decreases err,
    {
        match err {
            FetchError::Challenge(s) => Some(ChallengeSignal { reason: s.reason.clone() }),
            FetchError::Other(_) => None,
            FetchError::Context(_, inner) => ChallengeSignal::from_error(inner),
        }
    }
}

/// Why a page cannot be used, where it cannot.
pub open spec fn page_error(url: Seq<char>, status: u16, line: Seq<char>, body: Seq<char>) -> Option<
    (Option<Seq<char>>, Seq<char>),
> {
    let challenge = "challenge page for "@ + url;
    let refused = "HTTP 403 for "@ + url;
    if spec_challenge_page(body) {
        Some((Some(challenge), "Cloudflare "@ + challenge))
    } else if status == 403 {
        Some((Some(refused), "Cloudflare "@ + refused))
    } else if !success(status) {
        Some((None, "HTTP "@ + line + " for "@ + url))
    } else {
        None
    }
}

/// A page is read only where the server says that it is well and it is no challenge; a
/// fresh cookie may help exactly where it is a challenge or access was refused.
pub proof fn law_pages_are_judged(url: Seq<char>, status: u16, line: Seq<char>, body: Seq<char>)
    ensures
        ({
            let e = page_error(url, status, line, body);
            &&& e is None <==> 200 <= status < 300 && !spec_challenge_page(body)
            &&& e is Some ==> ((e->0).0 is Some <==> spec_challenge_page(body) || status == 403)
            &&& contains(body, "Just a moment..."@) ==> e is Some && (e->0).0 is Some
        }),
{
}

/// Judge the answer to a request for a page: a challenge and a refusal are the
/// cases in which a fresh cookie may help.
pub fn text_once(url: &str, status: u16, status_line: &str, body: &str) -> (r: Result<
    (),
    FetchError,
>)
    ensures
        match page_error(url@, status, status_line@, body@) {
            Some(e) => r matches Err(f) && f.signal() == e.0 && f.text() == e.1,
            None => r is Ok,
        },
{
    if is_cloudflare_challenge(body) {
        return Err(FetchError::Challenge(ChallengeSignal::body(url)));
    }
    if status == 403 {
        return Err(FetchError::Challenge(ChallengeSignal::status(url)));
    }
    if !(200 <= status && status < 300) {
        let head = join3("HTTP ", status_line, " for ");
        return Err(FetchError::Other(join2(head.as_str(), url)));
    }
    Ok(())
}

/// What follows an attempt to read a page that failed.
#[derive(Debug)]
pub enum TextStep {
    /// Nothing more can be done.
    Fail(FetchError),
    /// Ask for a fresh cookie, for this reason, and then once more for the page.
    Refresh(String, FetchError),
}

/// A fresh cookie is asked for only where the error signals a challenge and the
/// page is on the site that the cookie clears.
pub fn after_failure(url: &str, site: &str, error: FetchError) -> (r: TextStep)
    ensures
        match error.signal() {
            None => r == TextStep::Fail(error),
            Some(reason) => if one_site(url@, site@) {
                r matches TextStep::Refresh(why, e) && why@ == reason && e == error
            } else {
                r matches TextStep::Fail(e) && e.text()
                    == "the configured site cookie cannot clear another host"@ + ": "@
                    + error.text() && e.signal() == error.signal()
            },
        },
{
    match ChallengeSignal::from_error(&error) {
        None => TextStep::Fail(error),
        Some(signal) => {
            if same_site(url, site) {
                TextStep::Refresh(signal.reason, error)
            } else {
                TextStep::Fail(
                    error.context("the configured site cookie cannot clear another host"),
                )
            }
        },
    }
}

/// The error of a page whose cookie could not be refreshed.
pub fn refresh_failed(error: FetchError, why: &str) -> (r: FetchError)
    ensures
        r.text() == "automatic cookie refresh failed: "@ + why@ + ": "@ + error.text(),
        r.signal() == error.signal(),
{
    let text = join2("automatic cookie refresh failed: ", why);
    error.context(text.as_str())
}

} // verus!
