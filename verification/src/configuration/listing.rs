//! Common listing filter and pagination policy; URL construction and
//! validation remain with each configuration model.
use vstd::prelude::*;
use crate::outside::pattern::{
    is_match, literal, literal_pattern, pattern_problem, regex_compiles, regex_error, regex_matches,
};
use crate::outside::url::{
    append_pairs, pair_views, query_pairs, url_append, url_query_pairs, url_without_fragment,
    url_without_query, without_fragment, without_query,
};
use crate::text::{
    decimal, decimal_chars, from_chars, has_char, join2, join3,
    same_str, to_chars, trim, trim_str,
};

verus! {

/// A listing to download from, with the number of videos to take each day.
#[derive(Debug, Clone, PartialEq, Eq)]
pub struct ListingLink {
    pub url: String,
    pub daily_quota: usize,
}

/// The URL and the quota of a link.
pub open spec fn link_view(l: ListingLink) -> (Seq<char>, usize) {
    (l.url@, l.daily_quota)
}

/// The URLs and quotas of some links.
pub open spec fn link_views(v: Seq<ListingLink>) -> Seq<(Seq<char>, usize)> {
    Seq::new(v.len(), |i: int| link_view(v[i]))
}

/// A copy of some links.
pub fn clone_links(v: &Vec<ListingLink>) -> (r: Vec<ListingLink>)
    ensures
        link_views(r@) == link_views(v@),
{
    let mut r: Vec<ListingLink> = Vec::new();
    let mut i: usize = 0;
    while i < v.len()
        invariant
            i <= v@.len(),
            r@.len() == i,
            forall|k: int| 0 <= k < i ==> link_view(#[trigger] r@[k]) == link_view(v@[k]),
        decreases v@.len() - i,
    {
        r.push(ListingLink { url: v[i].url.clone(), daily_quota: v[i].daily_quota });
        i += 1;
    }
    assert(link_views(r@) =~= link_views(v@));
    r
}

/// Why a link cannot be used.
#[derive(Debug, Clone, PartialEq, Eq)]
pub enum LinkError {
    Quota,
    Empty,
    /// The link is no URL, for that reason.
    InvalidLink(String),
    /// The base of the site is no URL, for that reason.
    InvalidBase(String),
    BaseScheme,
    OtherOrigin,
}

/// What an error of a link is.
pub enum LinkFault {
    Quota,
    Empty,
    InvalidLink(Seq<char>),
    InvalidBase(Seq<char>),
    BaseScheme,
    OtherOrigin,
}

impl View for LinkError {
    type V = LinkFault;

    open spec fn view(&self) -> LinkFault {
        match *self {
            LinkError::Quota => LinkFault::Quota,
            LinkError::Empty => LinkFault::Empty,
            LinkError::InvalidLink(m) => LinkFault::InvalidLink(m@),
            LinkError::InvalidBase(m) => LinkFault::InvalidBase(m@),
            LinkError::BaseScheme => LinkFault::BaseScheme,
            LinkError::OtherOrigin => LinkFault::OtherOrigin,
        }
    }
}

/// Which titles a listing keeps.
#[derive(Debug, Clone)]
pub struct TitleMatcher {
    pub pattern: String,
    pub ignore_case: bool,
}

impl TitleMatcher {
    /// Whether the matcher keeps a title.
    pub open spec fn keeps(&self, title: Seq<char>) -> bool {
        regex_matches(self.pattern@, self.ignore_case, title)
    }

    /// Whether the title matches.
    pub fn is_match(&self, title: &str) -> (r: bool)
        ensures
            r == self.keeps(title@),
    {
        is_match(self.pattern.as_str(), self.ignore_case, title)
    }
}

/// The filter is not a valid pattern, for that reason.
#[derive(Debug, Clone, PartialEq, Eq)]
pub struct InvalidFilter(pub String);

impl InvalidFilter {
    /// What the error is called in a message.
    pub fn message(&self) -> (r: &'static str)
        ensures
            r@ == "invalid title filter regex"@,
    {
        "invalid title filter regex"
    }

    /// What the error is called in a message that tells the reason.
    pub fn detail(&self) -> (r: String)
        ensures
            r@ == filter_refusal(self.0@),
    {
        join2("invalid title filter regex: ", self.0.as_str())
    }
}

/// What is said of a filter that is not a valid pattern, with the reason.
pub open spec fn filter_refusal(reason: Seq<char>) -> Seq<char> {
    "invalid title filter regex: "@ + reason
}

/// The pattern that a filter stands for: the filter itself where it is one,
/// otherwise one that matches its text.
pub open spec fn filter_pattern(filter: Seq<char>, is_regex: bool) -> Seq<char> {
    if is_regex {
        filter
    } else {
        literal_pattern(filter)
    }
}

/// Literal text matches in any case and keeps its white space; a pattern says
/// for itself. A blank filter keeps every title.
pub fn title_matcher(filter: &str, is_regex: bool) -> (r: Result<
    Option<TitleMatcher>,
    InvalidFilter,
>)
    ensures
        ({
            let pattern = filter_pattern(filter@, is_regex);
            if trim(filter@).len() == 0 {
                r matches Ok(None)
            } else if regex_compiles(pattern, !is_regex) {
                r matches Ok(Some(m)) && m.pattern@ == pattern && m.ignore_case == !is_regex
            } else {
                r matches Err(e) && e.0@ == regex_error(pattern, !is_regex)->0
            }
        }),
{
    let trimmed = to_chars(trim_str(filter).as_str());
    if trimmed.len() == 0 {
        return Ok(None);
    }
    let pattern = if is_regex {
        from_chars(to_chars(filter).as_slice())
    } else {
        literal(filter)
    };
    match pattern_problem(pattern.as_str(), !is_regex) {
        None => Ok(Some(TitleMatcher { pattern, ignore_case: !is_regex })),
        Some(reason) => Err(InvalidFilter(reason)),
    }
}

/// The parameters that do not number a page.
pub open spec fn without_page(pairs: Seq<(Seq<char>, Seq<char>)>) -> Seq<(Seq<char>, Seq<char>)>
    decreases pairs.len(),
{
    if pairs.len() == 0 {
        Seq::empty()
    } else {
        let head = without_page(pairs.drop_last());
        if pairs.last().0 == "page"@ {
            head
        } else {
            head.push(pairs.last())
        }
    }
}

/// `o`, or `other` where it is nothing.
pub open spec fn or_else(o: Option<Seq<char>>, other: Seq<char>) -> Seq<char> {
    match o {
        Some(s) => s,
        None => other,
    }
}

/// The parameters that ask for a page: those that do not number one, and the
/// number, except on the first page.
pub open spec fn page_pairs(pairs: Seq<(Seq<char>, Seq<char>)>, page: nat) -> Seq<
    (Seq<char>, Seq<char>),
> {
    if page > 1 {
        without_page(pairs).push(("page"@, decimal(page)))
    } else {
        without_page(pairs)
    }
}

/// The listing at a page: of a URL, the page parameter replaced, or dropped on
/// the first page, and the fragment dropped; of anything else, the parameter
/// appended, except on the first page.
pub open spec fn paged(path: Seq<char>, page: nat) -> Seq<char> {
    match url_query_pairs(path) {
        Some(pairs) => {
            let all = page_pairs(pairs, page);
            let plain = or_else(url_without_query(path), path);
            let whole = if all.len() == 0 {
                plain
            } else {
                or_else(url_append(plain, all), plain)
            };
            or_else(url_without_fragment(whole), whole)
        },
        None => if page <= 1 {
            path
        } else if path.contains('?') {
            path + "&page="@ + decimal(page)
        } else {
            path + "?page="@ + decimal(page)
        },
    }
}

fn drop_page(pairs: &Vec<(String, String)>) -> (r: Vec<(String, String)>)
    ensures
        pair_views(r@) == without_page(pair_views(pairs@)),
{
    let ghost all = pair_views(pairs@);
    let mut r: Vec<(String, String)> = Vec::new();
    let mut i: usize = 0;
    assert(pair_views(r@) =~= without_page(all.take(0)));
    while i < pairs.len()
        invariant
            i <= pairs@.len(),
            all == pair_views(pairs@),
            pair_views(r@) == without_page(all.take(i as int)),
        decreases pairs@.len() - i,
    {
        assert(all.take(i + 1).drop_last() =~= all.take(i as int));
        assert(all.take(i + 1).last() == (pairs@[i as int].0@, pairs@[i as int].1@));
        if !same_str(pairs[i].0.as_str(), "page") {
            let ghost before = pair_views(r@);
            r.push((pairs[i].0.clone(), pairs[i].1.clone()));
            assert(pair_views(r@) =~= before.push(all[i as int]));
        }
        i += 1;
    }
    assert(all.take(all.len() as int) =~= all);
    r
}

/// Replace pasted page parameters, removing them for page 1 and stripping
/// fragments from parsed URLs.
pub fn page_suffix(path: &str, page: usize) -> (r: String)
    ensures
        r@ == paged(path@, page as nat),
{
    let chars = to_chars(path);
    match query_pairs(path) {
        Some(pairs) => {
            let mut kept = drop_page(&pairs);
            let plain = match without_query(path) {
                Some(u) => u,
                None => from_chars(chars.as_slice()),
            };
            if page > 1 {
                let ghost before = pair_views(kept@);
                let number = from_chars(decimal_chars(page as u64).as_slice());
                let name = from_chars(to_chars("page").as_slice());
                kept.push((name, number));
                assert(pair_views(kept@) =~= before.push(("page"@, decimal(page as nat))));
            }
            let whole = if kept.len() == 0 {
                plain
            } else {
                match append_pairs(plain.as_str(), &kept) {
                    Some(u) => u,
                    None => plain,
                }
            };
            match without_fragment(whole.as_str()) {
                Some(u) => u,
                None => whole,
            }
        },
        None => {
            if page <= 1 {
                return from_chars(chars.as_slice());
            }
            let number = from_chars(decimal_chars(page as u64).as_slice());
            if has_char(chars.as_slice(), '?') {
                join3(path, "&page=", number.as_str())
            } else {
                join3(path, "?page=", number.as_str())
            }
        },
    }
}

/// The listing of a site: a link that is a URL by itself, or a path below the
/// site's base, or the site's own listing where the path is blank.
pub open spec fn listing_of(
    base: Seq<char>,
    path: Seq<char>,
    fallback: Seq<char>,
    page: nat,
) -> Seq<char> {
    let p = trim(path);
    if crate::text::starts_with(p, "https://"@) || crate::text::starts_with(p, "http://"@) {
        paged(p, page)
    } else {
        let q = if p.len() == 0 {
            fallback
        } else {
            p
        };
        paged(
            crate::text::trim_end_char(base, '/') + "/"@ + crate::text::trim_start_char(q, '/'),
            page,
        )
    }
}

/// The URL of page `page` of a listing.
pub fn listing_url(base: &str, path: &str, fallback: &str, page: usize) -> (r: String)
    ensures
        r@ == listing_of(base@, path@, fallback@, page as nat),
{
    let trimmed = trim_str(path);
    let p = to_chars(trimmed.as_str());
    if crate::text::begins(p.as_slice(), to_chars("https://").as_slice()) || crate::text::begins(
        p.as_slice(),
        to_chars("http://").as_slice(),
    ) {
        return page_suffix(trimmed.as_str(), page);
    }
    let q = if p.len() == 0 {
        to_chars(fallback)
    } else {
        p
    };
    let head = crate::text::strip_trailing(to_chars(base).as_slice(), '/');
    let tail = crate::text::strip_leading(q.as_slice(), '/');
    let whole = join3(
        from_chars(head.as_slice()).as_str(),
        "/",
        from_chars(tail.as_slice()).as_str(),
    );
    page_suffix(whole.as_str(), page)
}

proof fn lemma_without_page(pairs: Seq<(Seq<char>, Seq<char>)>)
    ensures
        forall|i: int|
            0 <= i < without_page(pairs).len() ==> (#[trigger] without_page(pairs)[i]).0
                != "page"@,
    decreases pairs.len(),
{
    if pairs.len() > 0 {
        let head = without_page(pairs.drop_last());
        lemma_without_page(pairs.drop_last());
        let all = without_page(pairs);
        assert forall|i: int| 0 <= i < all.len() implies (#[trigger] all[i]).0 != "page"@ by {
            if i < head.len() {
                assert(all[i] == head[i]);
            }
        }
    }
}

/// A paged URL asks for its page once, behind everything else, and the first page
/// does not ask at all; paging a URL again replaces the page that it asked for.
pub proof fn law_one_page_parameter(
    pairs: Seq<(Seq<char>, Seq<char>)>,
    page: nat,
    next: nat,
)
    ensures
        forall|i: int|
            0 <= i < page_pairs(pairs, page).len() ==> ((#[trigger] page_pairs(pairs, page)[i]).0
                == "page"@ <==> page > 1 && i == page_pairs(pairs, page).len() - 1),
        page > 1 ==> page_pairs(pairs, page).last() == ("page"@, decimal(page)),
        page_pairs(page_pairs(pairs, page), next) == page_pairs(pairs, next),
{
    let kept = without_page(pairs);
    lemma_without_page(pairs);
    lemma_without_page_idle(kept);
    let all = page_pairs(pairs, page);
    if page > 1 {
        assert(all.drop_last() =~= kept);
        assert(without_page(all) == kept);
    }
}

proof fn lemma_without_page_idle(pairs: Seq<(Seq<char>, Seq<char>)>)
    requires
        forall|i: int| 0 <= i < pairs.len() ==> (#[trigger] pairs[i]).0 != "page"@,
    ensures
        without_page(pairs) == pairs,
    decreases pairs.len(),
{
    if pairs.len() > 0 {
        let t = pairs.drop_last();
        assert forall|i: int| 0 <= i < t.len() implies (#[trigger] t[i]).0 != "page"@ by {
            assert(t[i] == pairs[i]);
        }
        lemma_without_page_idle(t);
        assert(t.push(pairs.last()) =~= pairs);
        assert(pairs[pairs.len() - 1].0 != "page"@);
    }
}

/// Asking for a page changes no other parameter of a listing, nor their order.
pub proof fn law_other_parameters_stay(pairs: Seq<(Seq<char>, Seq<char>)>)
    ensures
        without_page(pairs) == pairs.filter(|p: (Seq<char>, Seq<char>)| p.0 != "page"@),
        page_pairs(pairs, 1) == without_page(pairs),
        page_pairs(pairs, 2).drop_last() =~= without_page(pairs),
    decreases pairs.len(),
{
    reveal(Seq::filter);
    if pairs.len() > 0 {
        law_other_parameters_stay(pairs.drop_last());
    }
}

/// A filter that is no pattern is looked for as it is written, whatever the case of
/// its letters; one that is a pattern is used as it is.
pub proof fn law_filters_are_patterns_only_where_meant(filter: Seq<char>)
    ensures
        filter_pattern(filter, true) == filter,
        filter_pattern(filter, false) == literal_pattern(filter),
{
}

} // verus!
