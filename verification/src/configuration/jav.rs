//! Settings of the HLS engine.
use vstd::prelude::*;
use crate::configuration::listing::{
    clone_links, link_view, link_views, listing_of, listing_url, title_matcher, InvalidFilter,
    LinkError, LinkFault, ListingLink, TitleMatcher,
};
use crate::outside::url::{origin, parse, scheme, url_origin, url_scheme, url_text};
use crate::text::{
    ascii_lower, char_views, copy_range, from_chars, index_of, join3, lower_chars, opt_view,
    position, same_str, split, split_char, strip_trailing, to_chars, trim, trim_end_char, trim_str,
};

verus! {

/// Runtime configuration. Every field has a default, so that a missing or
/// partial file still boots.
#[derive(Debug, Clone)]
pub struct Config {
    /// Base URL of the site, without a trailing slash.
    pub site_base: String,
    /// Path of the ranking listing, including its sort query. The daily job
    /// takes the first `top_n` entries in the order the site returns them.
    pub popular_path: String,
    /// Ranking links with independent quotas. Empty uses `popular_path` and `top_n`.
    pub links: Vec<ListingLink>,
    /// Optional `cf_clearance` override.
    pub cookie: String,
    /// Optional user agent override; empty means the browser's own.
    pub user_agent: String,
    /// Browser binary for cookie minting. Empty means auto-detect.
    pub browser_path: String,
    /// Profile directory deleted and recreated before every cookie mint.
    pub browser_profile_dir: String,
    /// Turn off browser-driven cookie minting entirely.
    pub browser_enabled: bool,
    /// Target number of new completed downloads per run, in ranking order.
    pub top_n: usize,
    /// Include only titles matching this text or pattern; empty disables filtering.
    pub title_filter: String,
    pub title_filter_regex: bool,
    /// Streams shorter than this many seconds are treated as previews.
    pub min_duration_secs: u64,
    /// How many listing pages to scan when looking for candidates.
    pub max_pages: usize,
    pub save_path: String,
    /// HLS work directory, separate from completed downloads.
    pub temp_path: String,
    /// How many videos may download at the same time.
    pub concurrent_videos: usize,
    /// How many HLS segments of one video may be fetched at the same time.
    pub segment_concurrency: usize,
    /// `highest`, `lowest`, or a target height such as `1080`.
    pub resolution: String,
}

/// What a configuration holds.
pub struct ConfigView {
    pub site_base: Seq<char>,
    pub popular_path: Seq<char>,
    pub links: Seq<(Seq<char>, usize)>,
    pub cookie: Seq<char>,
    pub user_agent: Seq<char>,
    pub browser_path: Seq<char>,
    pub browser_profile_dir: Seq<char>,
    pub browser_enabled: bool,
    pub top_n: usize,
    pub title_filter: Seq<char>,
    pub title_filter_regex: bool,
    pub min_duration_secs: u64,
    pub max_pages: usize,
    pub save_path: Seq<char>,
    pub temp_path: Seq<char>,
    pub concurrent_videos: usize,
    pub segment_concurrency: usize,
    pub resolution: Seq<char>,
}

impl View for Config {
    type V = ConfigView;

    open spec fn view(&self) -> ConfigView {
        ConfigView {
            site_base: self.site_base@,
            popular_path: self.popular_path@,
            links: link_views(self.links@),
            cookie: self.cookie@,
            user_agent: self.user_agent@,
            browser_path: self.browser_path@,
            browser_profile_dir: self.browser_profile_dir@,
            browser_enabled: self.browser_enabled,
            top_n: self.top_n,
            title_filter: self.title_filter@,
            title_filter_regex: self.title_filter_regex,
            min_duration_secs: self.min_duration_secs,
            max_pages: self.max_pages,
            save_path: self.save_path@,
            temp_path: self.temp_path@,
            concurrent_videos: self.concurrent_videos,
            segment_concurrency: self.segment_concurrency,
            resolution: self.resolution@,
        }
    }
}

impl Default for Config {
    fn default() -> (r: Self)
        ensures
            r@ == (ConfigView {
                site_base: "https://missav.ai"@,
                popular_path: "/dm597/cn/fc2?sort=weekly_views"@,
                links: Seq::empty(),
                cookie: Seq::empty(),
                user_agent: Seq::empty(),
                browser_path: Seq::empty(),
                browser_profile_dir: "browser-profile"@,
                browser_enabled: true,
                top_n: 10,
                title_filter: Seq::empty(),
                title_filter_regex: false,
                min_duration_secs: 600,
                max_pages: 2,
                save_path: "downloads/jav"@,
                temp_path: "temp"@,
                concurrent_videos: 1,
                segment_concurrency: 8,
                resolution: "highest"@,
            }),
    {
        let r = Config {
            site_base: "https://missav.ai".to_owned(),
            popular_path: "/dm597/cn/fc2?sort=weekly_views".to_owned(),
            links: Vec::new(),
            cookie: String::new(),
            user_agent: String::new(),
            browser_path: String::new(),
            browser_profile_dir: "browser-profile".to_owned(),
            browser_enabled: true,
            top_n: 10,
            title_filter: String::new(),
            title_filter_regex: false,
            min_duration_secs: 600,
            max_pages: 2,
            save_path: "downloads/jav".to_owned(),
            temp_path: "temp".to_owned(),
            concurrent_videos: 1,
            segment_concurrency: 8,
            resolution: "highest".to_owned(),
        };
        assert(r@.links =~= Seq::empty());
        r
    }
}

/// The language subtrees of the site.
pub open spec fn languages() -> Seq<Seq<char>> {
    seq![
        "cn"@,
        "en"@,
        "ja"@,
        "ko"@,
        "ms"@,
        "th"@,
        "de"@,
        "fr"@,
        "vi"@,
        "id"@,
        "fil"@,
        "pt"@,
        "zh"@,
        "es"@,
    ]
}

/// The first of some path segments that names a language, in lower case.
pub open spec fn first_language(segments: Seq<Seq<char>>) -> Option<Seq<char>>
    decreases segments.len(),
{
    if segments.len() == 0 {
        None
    } else if languages().contains(ascii_lower(segments[0])) {
        Some(ascii_lower(segments[0]))
    } else {
        first_language(segments.skip(1))
    }
}

/// The language subtree of a listing path.
pub open spec fn language_in(path: Seq<char>) -> Option<Seq<char>> {
    first_language(split(path.take(index_of(path, '?', 0)), '/'))
}

fn is_language(s: &[char]) -> (r: bool)
    ensures
        r == languages().contains(s@),
{
    let all: [&str; 14] = [
        "cn",
        "en",
        "ja",
        "ko",
        "ms",
        "th",
        "de",
        "fr",
        "vi",
        "id",
        "fil",
        "pt",
        "zh",
        "es",
    ];
    let text = from_chars(s);
    assert(forall|k: int| 0 <= k < 14 ==> (#[trigger] all@[k])@ == languages()[k]);
    let mut i: usize = 0;
    while i < 14
        invariant
            i <= 14,
            text@ == s@,
            all@.len() == 14,
            forall|k: int| 0 <= k < 14 ==> (#[trigger] all@[k])@ == languages()[k],
            forall|k: int| 0 <= k < i ==> languages()[k] != s@,
        decreases 14 - i,
    {
        if same_str(all[i], text.as_str()) {
            assert(languages()[i as int] == s@);
            return true;
        }
        assert(all@[i as int]@ == languages()[i as int]);
        i += 1;
    }
    false
}

/// Why a ranking link is refused, where it is.
pub open spec fn link_error(base: Seq<char>, link: (Seq<char>, usize)) -> Option<LinkFault> {
    let url = listing_of(base, link.0, "popular"@, 1);
    if !(1 <= link.1 <= 100) {
        Some(LinkFault::Quota)
    } else if trim(link.0).len() == 0 {
        Some(LinkFault::Empty)
    } else if url_text(url) is Err {
        Some(LinkFault::InvalidLink(url_text(url)->Err_0))
    } else if url_text(base) is Err {
        Some(LinkFault::InvalidBase(url_text(base)->Err_0))
    } else if !(url_scheme(url) == Some("http"@) || url_scheme(url) == Some("https"@))
        || url_origin(url) != url_origin(base) {
        Some(LinkFault::OtherOrigin)
    } else {
        None
    }
}

/// The error of the first link that has one.
pub open spec fn links_error(base: Seq<char>, links: Seq<(Seq<char>, usize)>) -> Option<LinkFault>
    decreases links.len(),
{
    if links.len() == 0 {
        None
    } else {
        match link_error(base, links[0]) {
            Some(e) => Some(e),
            None => links_error(base, links.skip(1)),
        }
    }
}

/// Whether two optional pieces of text are the same.
pub fn same_opt(a: &Option<String>, b: &Option<String>) -> (r: bool)
    ensures
        r == (opt_view(*a) == opt_view(*b)),
{
    match (a, b) {
        (Some(x), Some(y)) => same_str(x.as_str(), y.as_str()),
        (None, None) => true,
        _ => false,
    }
}

/// Whether a URL is one of the web.
pub fn is_web(url: &str) -> (r: bool)
    ensures
        r == (url_scheme(url@) == Some("http"@) || url_scheme(url@) == Some("https"@)),
{
    match scheme(url) {
        Some(s) => same_str(s.as_str(), "http") || same_str(s.as_str(), "https"),
        None => false,
    }
}

impl Config {
    /// The links to take videos from: those configured, or the one listing.
    pub open spec fn all_links(&self) -> Seq<(Seq<char>, usize)> {
        if self.links@.len() == 0 {
            seq![(self.popular_path@, self.top_n)]
        } else {
            link_views(self.links@)
        }
    }

    /// The links to take videos from: those configured, or the one listing.
    pub fn listing_links(&self) -> (r: Vec<ListingLink>)
        ensures
            link_views(r@) == self.all_links(),
    {
        if self.links.len() == 0 {
            let mut r: Vec<ListingLink> = Vec::new();
            r.push(ListingLink { url: self.popular_path.clone(), daily_quota: self.top_n });
            assert(link_views(r@) =~= self.all_links());
            r
        } else {
            clone_links(&self.links)
        }
    }

    /// A copy of the settings.
    pub fn copy(&self) -> (r: Self)
        ensures
            r@ == self@,
    {
        Config {
            site_base: self.site_base.clone(),
            popular_path: self.popular_path.clone(),
            links: clone_links(&self.links),
            cookie: self.cookie.clone(),
            user_agent: self.user_agent.clone(),
            browser_path: self.browser_path.clone(),
            browser_profile_dir: self.browser_profile_dir.clone(),
            browser_enabled: self.browser_enabled,
            top_n: self.top_n,
            title_filter: self.title_filter.clone(),
            title_filter_regex: self.title_filter_regex,
            min_duration_secs: self.min_duration_secs,
            max_pages: self.max_pages,
            save_path: self.save_path.clone(),
            temp_path: self.temp_path.clone(),
            concurrent_videos: self.concurrent_videos,
            segment_concurrency: self.segment_concurrency,
            resolution: self.resolution.clone(),
        }
    }

    /// The configuration under which one link is downloaded.
    pub fn for_link(&self, link: &ListingLink) -> (r: Self)
        ensures
            r@ == (ConfigView {
                popular_path: link.url@,
                top_n: link.daily_quota,
                links: Seq::empty(),
                ..self@
            }),
    {
        let r = Config {
            site_base: self.site_base.clone(),
            popular_path: link.url.clone(),
            links: Vec::new(),
            cookie: self.cookie.clone(),
            user_agent: self.user_agent.clone(),
            browser_path: self.browser_path.clone(),
            browser_profile_dir: self.browser_profile_dir.clone(),
            browser_enabled: self.browser_enabled,
            top_n: link.daily_quota,
            title_filter: self.title_filter.clone(),
            title_filter_regex: self.title_filter_regex,
            min_duration_secs: self.min_duration_secs,
            max_pages: self.max_pages,
            save_path: self.save_path.clone(),
            temp_path: self.temp_path.clone(),
            concurrent_videos: self.concurrent_videos,
            segment_concurrency: self.segment_concurrency,
            resolution: self.resolution.clone(),
        };
        assert(r@.links =~= Seq::empty());
        r
    }

    /// Whether every link has a quota and stays on the configured site.
    pub fn validate_links(&self) -> (r: Result<(), LinkError>)
        ensures
            match links_error(self.site_base@, link_views(self.links@)) {
                Some(e) => r matches Err(x) && x@ == e,
                None => r is Ok,
            },
    {
        let ghost all = link_views(self.links@);
        let mut i: usize = 0;
        assert(all.skip(0) =~= all);
        while i < self.links.len()
            invariant
                i <= self.links@.len(),
                all == link_views(self.links@),
                links_error(self.site_base@, all) == links_error(
                    self.site_base@,
                    all.skip(i as int),
                ),
            decreases self.links@.len() - i,
        {
            let link = &self.links[i];
            assert(all.skip(i as int)[0] == link_view(*link));
            assert(all.skip(i as int).skip(1) =~= all.skip(i + 1));
            if !(1 <= link.daily_quota && link.daily_quota <= 100) {
                return Err(LinkError::Quota);
            }
            if to_chars(trim_str(link.url.as_str()).as_str()).len() == 0 {
                return Err(LinkError::Empty);
            }
            let url = listing_url(self.site_base.as_str(), link.url.as_str(), "popular", 1);
            if let Err(e) = parse(url.as_str()) {
                return Err(LinkError::InvalidLink(e));
            }
            if let Err(e) = parse(self.site_base.as_str()) {
                return Err(LinkError::InvalidBase(e));
            }
            if !is_web(url.as_str()) || !same_opt(
                &origin(url.as_str()),
                &origin(self.site_base.as_str()),
            ) {
                return Err(LinkError::OtherOrigin);
            }
            i += 1;
        }
        Ok(())
    }

    /// The matcher of the configured title filter.
    pub fn title_matcher(&self) -> (r: Result<Option<TitleMatcher>, InvalidFilter>)
        ensures
            ({
                let pattern = crate::configuration::listing::filter_pattern(
                    self.title_filter@,
                    self.title_filter_regex,
                );
                if trim(self.title_filter@).len() == 0 {
                    r matches Ok(None)
                } else if crate::outside::pattern::regex_compiles(
                    pattern,
                    !self.title_filter_regex,
                ) {
                    r matches Ok(Some(m)) && m.pattern@ == pattern && m.ignore_case
                        == !self.title_filter_regex
                } else {
                    r matches Err(e) && e.0@ == crate::outside::pattern::regex_error(
                        pattern,
                        !self.title_filter_regex,
                    )->0
                }
            }),
    {
        title_matcher(self.title_filter.as_str(), self.title_filter_regex)
    }

    /// Absolute listing URL for `page` (1-based) of the popular ranking.
    pub fn popular_url(&self, page: usize) -> (r: String)
        ensures
            r@ == listing_of(self.site_base@, self.popular_path@, "popular"@, page as nat),
    {
        listing_url(self.site_base.as_str(), self.popular_path.as_str(), "popular", page)
    }

    /// Download page URL for a video slug, placed under the same language
    /// subtree as the listing so links stay consistent.
    pub fn video_url(&self, id: &str) -> (r: String)
        ensures
            r@ == (match language_in(self.popular_path@) {
                Some(lang) => trim_end_char(self.site_base@, '/') + "/"@ + lang + "/"@ + id@,
                None => trim_end_char(self.site_base@, '/') + "/"@ + id@,
            }),
    {
        let head = strip_trailing(to_chars(self.site_base.as_str()).as_slice(), '/');
        let base = from_chars(head.as_slice());
        match self.language_filter() {
            Some(lang) => {
                let sub = join3(base.as_str(), "/", lang.as_str());
                join3(sub.as_str(), "/", id)
            },
            None => join3(base.as_str(), "/", id),
        }
    }

    /// The language subtree of `popular_path`, used to keep parsing on one
    /// language.
    pub fn language_filter(&self) -> (r: Option<String>)
        ensures
            opt_view(r) == language_in(self.popular_path@),
    {
        let path = to_chars(self.popular_path.as_str());
        let end = position(path.as_slice(), '?', 0);
        let head = copy_range(path.as_slice(), 0, end);
        assert(head@ =~= self.popular_path@.take(end as int));
        let segments = split_char(head.as_slice(), '/');
        let ghost all = split(head@, '/');
        assert(all == char_views(segments@));
        assert(all.skip(0) =~= all);
        let mut i: usize = 0;
        while i < segments.len()
            invariant
                i <= segments@.len(),
                all == char_views(segments@),
                language_in(self.popular_path@) == first_language(all),
                first_language(all) == first_language(all.skip(i as int)),
            decreases segments@.len() - i,
        {
            assert(all.skip(i as int)[0] == segments@[i as int]@);
            assert(all.skip(i as int).skip(1) =~= all.skip(i + 1));
            let l = lower_chars(segments[i].as_slice());
            if is_language(l.as_slice()) {
                return Some(from_chars(l.as_slice()));
            }
            i += 1;
        }
        None
    }
}

/// Downloading a link under its own configuration reads the same listing as the
/// link itself, and leaves no other link to download.
pub proof fn law_for_link_is_one_link(c: Config, d: Config, link: ListingLink)
    requires
        d@ == (ConfigView {
            popular_path: link.url@,
            top_n: link.daily_quota,
            links: Seq::empty(),
            ..c@
        }),
    ensures
        d.all_links() == seq![link_view(link)],
{
    assert(link_views(d.links@).len() == 0);
}

/// Links are accepted exactly where each of them is: it asks for 1 to 100 videos a day,
/// is not blank, and leads, over HTTP, to a page of the configured site.
pub proof fn law_accepted_links_stay_on_the_site(
    base: Seq<char>,
    links: Seq<(Seq<char>, usize)>,
    i: int,
)
    requires
        0 <= i < links.len(),
    ensures
        links_error(base, links) is None ==> {
            let url = listing_of(base, links[i].0, "popular"@, 1);
            &&& 1 <= links[i].1 <= 100 && trim(links[i].0).len() > 0
            &&& url_text(url) is Ok && url_origin(url) == url_origin(base)
            &&& url_scheme(url) == Some("http"@) || url_scheme(url) == Some("https"@)
        },
        !(1 <= links[i].1 <= 100) || trim(links[i].0).len() == 0 || url_text(
            listing_of(base, links[i].0, "popular"@, 1),
        ) is Err || url_origin(listing_of(base, links[i].0, "popular"@, 1)) != url_origin(base)
            ==> links_error(base, links) is Some,
        links_error(base, Seq::empty()) is None,
    decreases links.len(),
{
    if i > 0 {
        assert(links.skip(1)[i - 1] == links[i]);
        law_accepted_links_stay_on_the_site(base, links.skip(1), i - 1);
    }
}

} // verus!
