//! Turning a video page into something downloadable.
//!
//! The standard page always yields a progressive MP4. HD lives on a separate
//! page whose source is only written for an account, so it is tried first when a
//! cookie is configured. Both pages echo the internal video id, which is checked
//! against the id on the listing card, because a session without the site's
//! cookie gets a random video instead of the requested one.
use vstd::prelude::*;
use crate::configuration::p91::Config;
use crate::jav::source::http::referer_of;
use crate::p91::source::http::origin_of;
use crate::p91::source::scraper::{VideoCard, VideoPage};
use crate::text::{
    clone_opt, from_chars, join2, join3, opt_view, same_str, strip_trailing, to_chars, trim,
    trim_end_char, trim_str,
};

verus! {

/// A resolved progressive media URL plus the title shown by the page.
#[derive(Debug, Clone, PartialEq, Eq)]
pub struct ResolvedVideo {
    pub title: String,
    pub source_url: String,
    /// The URL came from the HD page.
    pub hd: bool,
}

/// Whether a page shows the video that a listing named, where it named one.
pub open spec fn same_video(expected: Option<Seq<char>>, actual: Option<Seq<char>>) -> bool {
    expected is Some ==> expected == actual
}

/// A known listing id must match the page. Manual URLs without a listing id
/// cannot be checked against listing metadata.
pub fn vid_matches(card: &VideoCard, page: &VideoPage) -> (r: bool)
    ensures
        r == same_video(opt_view(card.vid), opt_view(page.vid)),
{
    match (&card.vid, &page.vid) {
        (Some(expected), Some(actual)) => same_str(expected.as_str(), actual.as_str()),
        (Some(_), None) => false,
        (None, _) => true,
    }
}

/// The page's title, or the listing's where the page has none.
pub open spec fn better_title(page: Seq<char>, listed: Seq<char>) -> Seq<char> {
    if trim(page).len() == 0 {
        listed
    } else {
        trim(page)
    }
}

/// The page's title, or the listing's where the page has none.
pub fn pick_title(page_title: &str, card: &VideoCard) -> (r: String)
    ensures
        r@ == better_title(page_title@, card.title@),
{
    let t = trim_str(page_title);
    if to_chars(t.as_str()).len() == 0 {
        card.title.clone()
    } else {
        t
    }
}

/// Referer used for site requests.
pub fn site_referer(cfg: &Config) -> (r: String)
    ensures
        r@ == trim_end_char(cfg.site_base@, '/') + "/"@,
{
    let head = strip_trailing(to_chars(cfg.site_base.as_str()).as_slice(), '/');
    join2(from_chars(head.as_slice()).as_str(), "/")
}

/// Referer used for the media request: the origin of the card's page, or of the
/// page the site would have for it, or the site itself.
pub fn media_referer(cfg: &Config, card: &VideoCard) -> (r: String)
    ensures
        ({
            let page = trim_end_char(cfg.site_base@, '/') + "/view_video.php?viewkey="@ + card.id@;
            r@ == (match referer_of(card.url@) {
                Some(o) => o,
                None => match referer_of(page) {
                    Some(o) => o,
                    None => trim_end_char(cfg.site_base@, '/') + "/"@,
                },
            })
        }),
{
    match origin_of(card.url.as_str()) {
        Some(o) => o,
        None => match origin_of(cfg.video_url(card.id.as_str()).as_str()) {
            Some(o) => o,
            None => site_referer(cfg),
        },
    }
}

/// The standard page of a card: its own address, or the one the site would have
/// for it.
pub fn standard_url(cfg: &Config, card: &VideoCard) -> (r: String)
    ensures
        r@ == (if trim(card.url@).len() == 0 {
            trim_end_char(cfg.site_base@, '/') + "/view_video.php?viewkey="@ + card.id@
        } else {
            card.url@
        }),
{
    if to_chars(trim_str(card.url.as_str()).as_str()).len() == 0 {
        cfg.video_url(card.id.as_str())
    } else {
        card.url.clone()
    }
}

// ── Resolving ────────────────────────────────────────────────────────────

/// What a resolution is waiting for.
#[derive(Debug, Clone, Copy, PartialEq, Eq, Structural)]
pub enum Waiting {
    Session,
    HdPage,
    StandardPage,
}

/// A resolution in progress.
#[derive(Debug)]
pub struct Resolution {
    pub waiting: Waiting,
    /// The session has been established anew.
    pub second: bool,
    /// Why the HD page could not be read.
    pub hd_error: Option<String>,
}

/// What a resolution asks for.
#[derive(Debug, PartialEq, Eq)]
pub enum ResolveAction {
    /// Visit the listing, unless the session is warm.
    EnsureSession,
    /// The session is no good: visit the listing anew.
    RenewSession,
    FetchHd,
    FetchStandard,
    Finish(ResolvedVideo),
    Fail(String),
}

/// What a resolution was given.
#[derive(Debug)]
pub enum ResolveEvent {
    SessionReady,
    SessionFailed(String),
    Page(VideoPage),
    PageFailed(String),
}

/// Whether an event is one that a resolution waits for.
pub open spec fn answers(waiting: Waiting, event: ResolveEvent) -> bool {
    match waiting {
        Waiting::Session => event is SessionReady || event is SessionFailed,
        _ => event is Page || event is PageFailed,
    }
}

/// The first page to fetch once the session is established.
pub open spec fn first_page(try_hd: bool) -> Waiting {
    if try_hd {
        Waiting::HdPage
    } else {
        Waiting::StandardPage
    }
}

/// What is said of a session that could not be established.
pub open spec fn session_error(second: bool, why: Seq<char>) -> Seq<char> {
    if second {
        "cannot re-establish a 91Porn session: "@ + why
    } else {
        "cannot establish a 91Porn session: "@ + why
    }
}

/// What is said where another video came both times.
pub open spec fn decoy_error(id: Seq<char>) -> Seq<char> {
    "the site kept returning a different video for "@ + id
        + " — the session cookie may be rejected"@
}

/// Whether a page can be downloaded from: it shows the video of the card, and
/// names its source.
pub open spec fn usable(card: VideoCard, page: VideoPage) -> bool {
    same_video(opt_view(card.vid), opt_view(page.vid)) && page.source_url is Some
}

/// Whether an action delivers that page's video.
pub open spec fn delivers(
    action: ResolveAction,
    card: VideoCard,
    page: VideoPage,
    hd: bool,
) -> bool {
    action matches ResolveAction::Finish(v) && v.title@ == better_title(page.title@, card.title@)
        && Some(v.source_url@) == opt_view(page.source_url) && v.hd == hd
}

/// What becomes of a resolution with an answer, and what it then asks for.
pub open spec fn resolves(
    a: Resolution,
    cfg: Config,
    card: VideoCard,
    try_hd: bool,
    event: ResolveEvent,
    b: Resolution,
    r: ResolveAction,
) -> bool {
    match (a.waiting, event) {
        (Waiting::Session, ResolveEvent::SessionReady) => {
            &&& b.waiting == first_page(try_hd)
            &&& b.second == a.second
            &&& b.hd_error == a.hd_error
            &&& r == (if try_hd {
                ResolveAction::FetchHd
            } else {
                ResolveAction::FetchStandard
            })
        },
        (Waiting::Session, ResolveEvent::SessionFailed(e)) => {
            &&& b == a
            &&& r matches ResolveAction::Fail(m) && m@ == session_error(
                a.second,
                e@,
            )
        },
        (Waiting::HdPage, ResolveEvent::Page(page)) => if usable(card, page) {
            b == a && delivers(r, card, page, true)
        } else {
            &&& b == (Resolution {
                waiting: Waiting::StandardPage,
                ..a
            })
            &&& r == ResolveAction::FetchStandard
        },
        (Waiting::HdPage, ResolveEvent::PageFailed(e)) => {
            &&& b.waiting == Waiting::StandardPage
            &&& b.second == a.second
            &&& opt_view(b.hd_error) == Some(e@)
            &&& r == ResolveAction::FetchStandard
        },
        (Waiting::StandardPage, ResolveEvent::Page(page)) => if !same_video(
            opt_view(card.vid),
            opt_view(page.vid),
        ) {
            if a.second {
                &&& b == a
                &&& r matches ResolveAction::Fail(m) && m@ == decoy_error(card.id@)
            } else {
                &&& b == (Resolution {
                    waiting: Waiting::Session,
                    second: true,
                    ..a
                })
                &&& r == ResolveAction::RenewSession
            }
        } else if page.source_url is Some {
            b == a && delivers(r, card, page, false)
        } else {
            &&& b == a
            &&& r matches ResolveAction::Fail(m) && m@ == "no video source found on "@
                + (if trim(card.url@).len() == 0 {
                trim_end_char(cfg.site_base@, '/') + "/view_video.php?viewkey="@ + card.id@
            } else {
                card.url@
            })
        },
        (Waiting::StandardPage, ResolveEvent::PageFailed(e)) => {
            &&& b == a
            &&& r matches ResolveAction::Fail(m) && Some(m@) == (if a.hd_error is Some {
                opt_view(a.hd_error)
            } else {
                Some(e@)
            })
        },
        (Waiting::Session, _) => b == a && r
            == ResolveAction::EnsureSession,
        (Waiting::HdPage, _) => b == a && r == ResolveAction::FetchHd,
        (Waiting::StandardPage, _) => b == a && r
            == ResolveAction::FetchStandard,
    }
}

/// What is delivered is the video that was asked for: the page said so, or the card
/// has no id to go by; its source is the one on the page, and it is high definition
/// exactly where the page in high definition brought it. That page is asked for only
/// where it is wanted, and the other one whenever it does not do. A page with another
/// video renews the session once, and fails the second time.
pub proof fn law_the_right_video_is_delivered(
    a: Resolution,
    cfg: Config,
    card: VideoCard,
    try_hd: bool,
    event: ResolveEvent,
    b: Resolution,
    r: ResolveAction,
)
    requires
        resolves(a, cfg, card, try_hd, event, b, r),
    ensures
        r matches ResolveAction::Finish(v) ==> {
            &&& event is Page && !(a.waiting is Session)
            &&& card.vid is None || (event->Page_0.vid is Some && opt_view(event->Page_0.vid)
                == opt_view(card.vid))
            &&& Some(v.source_url@) == opt_view(event->Page_0.source_url)
            &&& v.hd == (a.waiting is HdPage)
            &&& trim(event->Page_0.title@).len() == 0 ==> v.title@ == card.title@
            &&& trim(event->Page_0.title@).len() > 0 ==> v.title@ == trim(event->Page_0.title@)
        },
        event is Page && !(a.waiting is Session) && (card.vid is None || (event->Page_0.vid is Some
            && opt_view(event->Page_0.vid) == opt_view(card.vid))) && event->Page_0.source_url is Some
            ==> r is Finish,
        a.waiting is Session && event is SessionReady ==> (r is FetchHd <==> try_hd) && (r
            is FetchStandard <==> !try_hd),
        a.waiting is HdPage && (event is Page || event is PageFailed) && !(r is Finish) ==> r
            is FetchStandard && b.waiting is StandardPage,
        r is RenewSession ==> a.waiting is StandardPage && event is Page && !a.second && b.second
            && card.vid is Some,
        a.waiting is StandardPage && event is Page && card.vid is Some && (event->Page_0.vid is None
            || opt_view(event->Page_0.vid) != opt_view(card.vid)) ==> (r is RenewSession <==> !a.second)
            && (r is Fail <==> a.second),
        a.waiting is StandardPage && event is PageFailed ==> r is Fail,
        a.second ==> b.second,
{
}

impl Resolution {
    /// A resolution starts with the session.
    pub fn start() -> (r: (Self, ResolveAction))
        ensures
            r.0.waiting == Waiting::Session,
            !r.0.second,
            r.0.hd_error is None,
            r.1 == ResolveAction::EnsureSession,
    {
        (
            Resolution { waiting: Waiting::Session, second: false, hd_error: None },
            ResolveAction::EnsureSession,
        )
    }

    /// How many more answers a resolution can wait for.
    pub open spec fn left(self) -> nat {
        (if self.second {
            0nat
        } else {
            3
        }) + (match self.waiting {
            Waiting::Session => 3nat,
            Waiting::HdPage => 2,
            Waiting::StandardPage => 1,
        })
    }

    /// What follows an answer. A page that shows another video is never
    /// delivered: the session is renewed once, and then the resolution fails.
    pub fn step(
        &mut self,
        cfg: &Config,
        card: &VideoCard,
        try_hd: bool,
        event: ResolveEvent,
    ) -> (r: ResolveAction)
        ensures
            resolves(*old(self), *cfg, *card, try_hd, event, *final(self), r),
            answers(old(self).waiting, event) ==> r is Finish || r is Fail || final(self).left()
                < old(self).left(),
    {
        match (self.waiting, event) {
            (Waiting::Session, ResolveEvent::SessionReady) => {
                if try_hd {
                    self.waiting = Waiting::HdPage;
                    ResolveAction::FetchHd
                } else {
                    self.waiting = Waiting::StandardPage;
                    ResolveAction::FetchStandard
                }
            },
            (Waiting::Session, ResolveEvent::SessionFailed(e)) => {
                let text = if self.second {
                    join2("cannot re-establish a 91Porn session: ", e.as_str())
                } else {
                    join2("cannot establish a 91Porn session: ", e.as_str())
                };
                ResolveAction::Fail(text)
            },
            (Waiting::HdPage, ResolveEvent::Page(page)) => {
                if vid_matches(card, &page) {
                    if let Some(source) = clone_opt(&page.source_url) {
                        return ResolveAction::Finish(
                            ResolvedVideo {
                                title: pick_title(page.title.as_str(), card),
                                source_url: source,
                                hd: true,
                            },
                        );
                    }
                }
                self.waiting = Waiting::StandardPage;
                ResolveAction::FetchStandard
            },
            (Waiting::HdPage, ResolveEvent::PageFailed(e)) => {
                self.hd_error = Some(e);
                self.waiting = Waiting::StandardPage;
                ResolveAction::FetchStandard
            },
            (Waiting::StandardPage, ResolveEvent::Page(page)) => {
                if !vid_matches(card, &page) {
                    if self.second {
                        return ResolveAction::Fail(
                            join3(
                                "the site kept returning a different video for ",
                                card.id.as_str(),
                                " — the session cookie may be rejected",
                            ),
                        );
                    }
                    self.waiting = Waiting::Session;
                    self.second = true;
                    return ResolveAction::RenewSession;
                }
                match clone_opt(&page.source_url) {
                    Some(source) => ResolveAction::Finish(
                        ResolvedVideo {
                            title: pick_title(page.title.as_str(), card),
                            source_url: source,
                            hd: false,
                        },
                    ),
                    None => ResolveAction::Fail(
                        join2("no video source found on ", standard_url(cfg, card).as_str()),
                    ),
                }
            },
            (Waiting::StandardPage, ResolveEvent::PageFailed(e)) => {
                // With a cookie configured the HD failure is usually the actionable one.
                match clone_opt(&self.hd_error) {
                    Some(first) => ResolveAction::Fail(first),
                    None => ResolveAction::Fail(e),
                }
            },
            (Waiting::Session, _) => ResolveAction::EnsureSession,
            (Waiting::HdPage, _) => ResolveAction::FetchHd,
            (Waiting::StandardPage, _) => ResolveAction::FetchStandard,
        }
    }
}

/// Whether HD is worth trying: it is preferred, and there is an account.
pub fn tries_hd(cfg: &Config) -> (r: bool)
    ensures
        r == (cfg.prefer_hd && trim(trim_end_char(trim(cfg.cookie@), ';')).len() > 0),
{
    cfg.prefer_hd && cfg.request_cookie().is_some()
}

} // verus!
