//! Settings of the progressive-download engine. It downloads MP4 files, so
//! there is no stream-quality selection: the only choice is whether to prefer
//! the site's separate HD page.
use vstd::prelude::*;
use crate::configuration::jav::{is_web, same_opt};
use crate::configuration::listing::{
    clone_links, link_view, link_views, listing_of, listing_url, title_matcher, InvalidFilter,
    LinkError, LinkFault, TitleMatcher,
};
use crate::outside::url::{
    host, origin, parse, url_host, url_origin, url_scheme, url_text,
};
use crate::text::{
    from_chars, join3, opt_view, strip_trailing, to_chars, trim, trim_chars, trim_end_char,
    trim_str,
};

pub use crate::configuration::listing::ListingLink;

verus! {

/// Runtime configuration. Every field has a default, so that a missing or
/// partial file still boots.
#[derive(Debug, Clone)]
pub struct Config {
    /// Base URL of the site, without a trailing slash.
    pub site_base: String,
    /// Category listing path, including its query.
    pub popular_path: String,
    /// Listing links with independent quotas. Empty uses `popular_path` and `top_n`.
    pub links: Vec<ListingLink>,
    /// Full browser `Cookie` header; empty browses as a guest.
    pub cookie: String,
    /// Optional user agent override.
    pub user_agent: String,
    /// Target number of new completed downloads per run, in listing order.
    pub top_n: usize,
    /// Include only titles matching this text or pattern; empty disables filtering.
    pub title_filter: String,
    pub title_filter_regex: bool,
    /// Keep only cards the site flags as HD.
    pub hd_only: bool,
    /// Exclude listing cards with a known duration below this many seconds.
    pub min_duration_secs: u64,
    /// How many listing pages to scan when looking for candidates.
    pub max_pages: usize,
    /// Fetch the HD page first, and the standard page where that has no source.
    pub prefer_hd: bool,
    pub save_path: String,
    pub temp_path: String,
    /// How many videos may download at the same time.
    pub concurrent_videos: usize,
}

/// What a configuration holds.
pub struct ConfigView {
    pub site_base: Seq<char>,
    pub popular_path: Seq<char>,
    pub links: Seq<(Seq<char>, usize)>,
    pub cookie: Seq<char>,
    pub user_agent: Seq<char>,
    pub top_n: usize,
    pub title_filter: Seq<char>,
    pub title_filter_regex: bool,
    pub hd_only: bool,
    pub min_duration_secs: u64,
    pub max_pages: usize,
    pub prefer_hd: bool,
    pub save_path: Seq<char>,
    pub temp_path: Seq<char>,
    pub concurrent_videos: usize,
}

impl View for Config {
    type V = ConfigView;

    open spec fn view(&self) -> ConfigView {
        ConfigView {
            site_base: self.site_base@,
            popular_path: self.popular_path@,
            links: link_views(self.links@),
            cookie: self.cookie@,
            user_agent: self.user_agent@,
            top_n: self.top_n,
            title_filter: self.title_filter@,
            title_filter_regex: self.title_filter_regex,
            hd_only: self.hd_only,
            min_duration_secs: self.min_duration_secs,
            max_pages: self.max_pages,
            prefer_hd: self.prefer_hd,
            save_path: self.save_path@,
            temp_path: self.temp_path@,
            concurrent_videos: self.concurrent_videos,
        }
    }
}

impl Default for Config {
    fn default() -> (r: Self)
        ensures
            r@ == (ConfigView {
                site_base: "https://www.91porn.com"@,
                popular_path: "/v.php?category=top&viewtype=basic"@,
                links: Seq::empty(),
                cookie: Seq::empty(),
                user_agent: Seq::empty(),
                top_n: 10,
                title_filter: Seq::empty(),
                title_filter_regex: false,
                hd_only: false,
                min_duration_secs: 0,
                max_pages: 2,
                prefer_hd: true,
                save_path: "downloads/p91"@,
                temp_path: "temp"@,
                concurrent_videos: 1,
            }),
    {
        let r = Config {
            site_base: "https://www.91porn.com".to_owned(),
            popular_path: "/v.php?category=top&viewtype=basic".to_owned(),
            links: Vec::new(),
            cookie: String::new(),
            user_agent: String::new(),
            top_n: 10,
            title_filter: String::new(),
            title_filter_regex: false,
            hd_only: false,
            min_duration_secs: 0,
            max_pages: 2,
            prefer_hd: true,
            save_path: "downloads/p91".to_owned(),
            temp_path: "temp".to_owned(),
            concurrent_videos: 1,
        };
        assert(r@.links =~= Seq::empty());
        r
    }
}

/// The site's own listing.
pub open spec fn own_listing() -> Seq<char> {
    "v.php?category=top&viewtype=basic"@
}

/// Why a listing link is refused, where it is.
pub open spec fn link_error(base: Seq<char>, link: (Seq<char>, usize)) -> Option<LinkFault> {
    let url = listing_of(base, link.0, own_listing(), 1);
    if !(1 <= link.1 <= 100) {
        Some(LinkFault::Quota)
    } else if trim(link.0).len() == 0 {
        Some(LinkFault::Empty)
    } else if url_text(url) is Err {
        Some(LinkFault::InvalidLink(url_text(url)->Err_0))
    } else if !(url_scheme(url) == Some("http"@) || url_scheme(url) == Some("https"@))
        || url_origin(url) != url_origin(base) {
        Some(LinkFault::OtherOrigin)
    } else {
        None
    }
}

/// The error of the first link that has one.
pub open spec fn links_error(base: Seq<char>, links: Seq<(Seq<char>, usize)>) -> Option<LinkFault>
    decreases links.len(),
{
    if links.len() == 0 {
        None
    } else {
        match link_error(base, links[0]) {
            Some(e) => Some(e),
            None => links_error(base, links.skip(1)),
        }
    }
}

/// Why the links of a configuration are refused, where they are.
pub open spec fn site_error(base: Seq<char>, links: Seq<(Seq<char>, usize)>) -> Option<LinkFault> {
    if url_text(base) is Err {
        Some(LinkFault::InvalidBase(url_text(base)->Err_0))
    } else if !(url_scheme(base) == Some("http"@) || url_scheme(base) == Some("https"@))
        || url_host(base) is None {
        Some(LinkFault::BaseScheme)
    } else {
        links_error(base, links)
    }
}

impl Config {
    /// The links to take videos from: those configured, or the one listing.
    pub open spec fn all_links(&self) -> Seq<(Seq<char>, usize)> {
        if self.links@.len() == 0 {
            seq![(self.popular_path@, self.top_n)]
        } else {
            link_views(self.links@)
        }
    }

    /// The links to take videos from: those configured, or the one listing.
    pub fn listing_links(&self) -> (r: Vec<ListingLink>)
        ensures
            link_views(r@) == self.all_links(),
    {
        if self.links.len() == 0 {
            let mut r: Vec<ListingLink> = Vec::new();
            r.push(ListingLink { url: self.popular_path.clone(), daily_quota: self.top_n });
            assert(link_views(r@) =~= self.all_links());
            r
        } else {
            clone_links(&self.links)
        }
    }

    /// A copy of the settings.
    pub fn copy(&self) -> (r: Self)
        ensures
            r@ == self@,
    {
        Config {
            site_base: self.site_base.clone(),
            popular_path: self.popular_path.clone(),
            links: clone_links(&self.links),
            cookie: self.cookie.clone(),
            user_agent: self.user_agent.clone(),
            top_n: self.top_n,
            title_filter: self.title_filter.clone(),
            title_filter_regex: self.title_filter_regex,
            hd_only: self.hd_only,
            min_duration_secs: self.min_duration_secs,
            max_pages: self.max_pages,
            prefer_hd: self.prefer_hd,
            save_path: self.save_path.clone(),
            temp_path: self.temp_path.clone(),
            concurrent_videos: self.concurrent_videos,
        }
    }

    /// The configuration under which one link is downloaded.
    pub fn for_link(&self, link: &ListingLink) -> (r: Self)
        ensures
            r@ == (ConfigView {
                popular_path: link.url@,
                top_n: link.daily_quota,
                links: Seq::empty(),
                ..self@
            }),
    {
        let r = Config {
            site_base: self.site_base.clone(),
            popular_path: link.url.clone(),
            links: Vec::new(),
            cookie: self.cookie.clone(),
            user_agent: self.user_agent.clone(),
            top_n: link.daily_quota,
            title_filter: self.title_filter.clone(),
            title_filter_regex: self.title_filter_regex,
            hd_only: self.hd_only,
            min_duration_secs: self.min_duration_secs,
            max_pages: self.max_pages,
            prefer_hd: self.prefer_hd,
            save_path: self.save_path.clone(),
            temp_path: self.temp_path.clone(),
            concurrent_videos: self.concurrent_videos,
        };
        assert(r@.links =~= Seq::empty());
        r
    }

    /// Whether the site is one of the web, and every link has a quota and stays
    /// on the site.
    pub fn validate_links(&self) -> (r: Result<(), LinkError>)
        ensures
            match site_error(self.site_base@, self.all_links()) {
                Some(e) => r matches Err(x) && x@ == e,
                None => r is Ok,
            },
    {
        if let Err(e) = parse(self.site_base.as_str()) {
            return Err(LinkError::InvalidBase(e));
        }
        if !is_web(self.site_base.as_str()) || host(self.site_base.as_str()).is_none() {
            return Err(LinkError::BaseScheme);
        }
        let links = self.listing_links();
        let ghost all = self.all_links();
        let mut i: usize = 0;
        assert(all.skip(0) =~= all);
        while i < links.len()
            invariant
                i <= links@.len(),
                all == link_views(links@),
                site_error(self.site_base@, self.all_links()) == links_error(self.site_base@, all),
                links_error(self.site_base@, all) == links_error(
                    self.site_base@,
                    all.skip(i as int),
                ),
            decreases links@.len() - i,
        {
            let link = &links[i];
            assert(all.skip(i as int)[0] == link_view(*link));
            assert(all.skip(i as int).skip(1) =~= all.skip(i + 1));
            if !(1 <= link.daily_quota && link.daily_quota <= 100) {
                return Err(LinkError::Quota);
            }
            if to_chars(trim_str(link.url.as_str()).as_str()).len() == 0 {
                return Err(LinkError::Empty);
            }
            let url = listing_url(
                self.site_base.as_str(),
                link.url.as_str(),
                "v.php?category=top&viewtype=basic",
                1,
            );
            if let Err(e) = parse(url.as_str()) {
                return Err(LinkError::InvalidLink(e));
            }
            if !is_web(url.as_str()) || !same_opt(
                &origin(url.as_str()),
                &origin(self.site_base.as_str()),
            ) {
                return Err(LinkError::OtherOrigin);
            }
            i += 1;
        }
        Ok(())
    }

    /// The matcher of the configured title filter.
    pub fn title_matcher(&self) -> (r: Result<Option<TitleMatcher>, InvalidFilter>)
        ensures
            ({
                let pattern = crate::configuration::listing::filter_pattern(
                    self.title_filter@,
                    self.title_filter_regex,
                );
                if trim(self.title_filter@).len() == 0 {
                    r matches Ok(None)
                } else if crate::outside::pattern::regex_compiles(
                    pattern,
                    !self.title_filter_regex,
                ) {
                    r matches Ok(Some(m)) && m.pattern@ == pattern && m.ignore_case
                        == !self.title_filter_regex
                } else {
                    r matches Err(e) && e.0@ == crate::outside::pattern::regex_error(
                        pattern,
                        !self.title_filter_regex,
                    )->0
                }
            }),
    {
        title_matcher(self.title_filter.as_str(), self.title_filter_regex)
    }

    /// Absolute listing URL for `page` (1-based).
    pub fn popular_url(&self, page: usize) -> (r: String)
        ensures
            r@ == listing_of(self.site_base@, self.popular_path@, own_listing(), page as nat),
    {
        listing_url(
            self.site_base.as_str(),
            self.popular_path.as_str(),
            "v.php?category=top&viewtype=basic",
            page,
        )
    }

    /// Page URL for a video key.
    pub fn video_url(&self, id: &str) -> (r: String)
        ensures
            r@ == trim_end_char(self.site_base@, '/') + "/view_video.php?viewkey="@ + id@,
    {
        let head = strip_trailing(to_chars(self.site_base.as_str()).as_slice(), '/');
        join3(from_chars(head.as_slice()).as_str(), "/view_video.php?viewkey=", id)
    }

    /// HD variant of the video page.
    pub fn hd_url(&self, id: &str) -> (r: String)
        ensures
            r@ == trim_end_char(self.site_base@, '/') + "/view_video_hd.php?viewkey="@ + id@,
    {
        let head = strip_trailing(to_chars(self.site_base.as_str()).as_slice(), '/');
        join3(from_chars(head.as_slice()).as_str(), "/view_video_hd.php?viewkey=", id)
    }

    /// Imported cookie header, preserving the account's cookie values; nothing
    /// where there is none.
    pub fn request_cookie(&self) -> (r: Option<String>)
        ensures
            ({
                let c = trim(trim_end_char(trim(self.cookie@), ';'));
                if c.len() == 0 {
                    r is None
                } else {
                    opt_view(r) == Some(c)
                }
            }),
    {
        let a = trim_chars(to_chars(self.cookie.as_str()).as_slice());
        let b = strip_trailing(a.as_slice(), ';');
        let c = trim_chars(b.as_slice());
        if c.len() == 0 {
            None
        } else {
            Some(from_chars(c.as_slice()))
        }
    }
}

/// Links are accepted exactly where each of them is: it asks for 1 to 100 videos a day,
/// is not blank, and leads, over HTTP, to a page of the configured site.
pub proof fn law_accepted_links_stay_on_the_site(
    base: Seq<char>,
    links: Seq<(Seq<char>, usize)>,
    i: int,
)
    requires
        0 <= i < links.len(),
    ensures
        links_error(base, links) is None ==> {
            let url = listing_of(base, links[i].0, "v.php?category=top&viewtype=basic"@, 1);
            &&& 1 <= links[i].1 <= 100 && trim(links[i].0).len() > 0
            &&& url_text(url) is Ok && url_origin(url) == url_origin(base)
            &&& url_scheme(url) == Some("http"@) || url_scheme(url) == Some("https"@)
        },
        !(1 <= links[i].1 <= 100) || trim(links[i].0).len() == 0 || url_text(
            listing_of(base, links[i].0, "v.php?category=top&viewtype=basic"@, 1),
        ) is Err || url_origin(listing_of(base, links[i].0, "v.php?category=top&viewtype=basic"@, 1)) != url_origin(base)
            ==> links_error(base, links) is Some,
        links_error(base, Seq::empty()) is None,
    decreases links.len(),
{
    if i > 0 {
        assert(links.skip(1)[i - 1] == links[i]);
        law_accepted_links_stay_on_the_site(base, links.skip(1), i - 1);
    }
}

} // verus!
