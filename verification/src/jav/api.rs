//! What the commands of the engine accept, and how they answer.
use vstd::prelude::*;
use crate::configuration::jav::{language_in, links_error, Config, ConfigView};
use crate::configuration::listing::{
    filter_pattern, filter_refusal, link_view, listing_of, or_else, LinkError, LinkFault,
};
use crate::jav::app::{
    terminal, DownloadRequest, RegistryView, TaskInfo, TaskRegistry, TaskState, TaskView,
};
use crate::jav::scheduler::resumed_card;
use crate::jav::source::scraper::{
    clone_card, video_id, video_id_from_url, CardView, VideoCard,
};
use crate::outside::pattern::{regex_compiles, regex_error};
use crate::outside::url::{
    append_pairs, pair_views, query_pairs, url_append, url_query_pairs, url_without_query,
    without_query,
};
use crate::table::Table;
use crate::text::{
    decimal, decimal_chars, from_chars, join2, join3, opt_view, same_str, to_chars, trim,
    trim_end_char,
};

verus! {

/// A request that is refused: an HTTP status and what is said of it.
#[derive(Debug, Clone, PartialEq, Eq)]
pub struct ApiError {
    pub status: u16,
    pub message: String,
}

impl ApiError {
    /// The request cannot be carried out as it is.
    pub fn bad_request(message: &str) -> (r: Self)
        ensures
            r.status == 400,
            r.message@ == message@,
    {
        ApiError { status: 400, message: message.to_owned() }
    }

    /// The request failed.
    pub fn internal(message: &str) -> (r: Self)
        ensures
            r.status == 500,
            r.message@ == message@,
    {
        ApiError { status: 500, message: message.to_owned() }
    }

    /// What the request is about does not exist.
    pub fn not_found(message: &str) -> (r: Self)
        ensures
            r.status == 404,
            r.message@ == message@,
    {
        ApiError { status: 404, message: message.to_owned() }
    }
}

/// Whether a request is refused with that status and that message.
pub open spec fn refuses<T>(r: Result<T, ApiError>, status: u16, message: Seq<char>) -> bool {
    r matches Err(e) && e.status == status && e.message@ == message
}

// ── Settings ─────────────────────────────────────────────────────────────

/// What is said of a link that is refused, where links are called `noun`.
pub open spec fn link_text(e: LinkFault, noun: Seq<char>) -> Seq<char> {
    match e {
        LinkFault::Quota => "daily quota must be 1..=100"@,
        LinkFault::Empty => noun + " link must not be empty"@,
        LinkFault::InvalidLink(m) => "invalid "@ + noun + " link: "@ + m,
        LinkFault::InvalidBase(m) => "invalid site base URL: "@ + m,
        LinkFault::BaseScheme => "site_base must be an HTTP(S) URL"@,
        LinkFault::OtherOrigin => noun + " links must use the same origin as site_base"@,
    }
}

/// What is said of a link that is refused, where links are called `noun`.
pub fn link_message(e: &LinkError, noun: &str) -> (r: String)
    ensures
        r@ == link_text(e@, noun@),
{
    match e {
        LinkError::Quota => "daily quota must be 1..=100".to_owned(),
        LinkError::Empty => join2(noun, " link must not be empty"),
        LinkError::InvalidLink(m) => {
            let head = join3("invalid ", noun, " link: ");
            join2(head.as_str(), m.as_str())
        },
        LinkError::InvalidBase(m) => join2("invalid site base URL: ", m.as_str()),
        LinkError::BaseScheme => "site_base must be an HTTP(S) URL".to_owned(),
        LinkError::OtherOrigin => join2(noun, " links must use the same origin as site_base"),
    }
}

/// Whether a title filter is refused.
pub open spec fn bad_filter(filter: Seq<char>, is_regex: bool) -> bool {
    trim(filter).len() > 0 && !regex_compiles(filter_pattern(filter, is_regex), !is_regex)
}

/// What is said of settings that are refused, where they are. `duration_ok` says
/// that the least duration is a number and not negative.
pub open spec fn config_refusal(c: Config, duration_ok: bool) -> Option<Seq<char>> {
    if !(1 <= c.top_n <= 100) {
        Some("top_n must be 1..=100"@)
    } else if !(1 <= c.max_pages <= 20) {
        Some("max_pages must be 1..=20"@)
    } else if !duration_ok {
        Some("min_duration_secs must be nonnegative"@)
    } else if !(1 <= c.segment_concurrency <= 32) {
        Some("segment_concurrency must be 1..=32"@)
    } else if !(1 <= c.concurrent_videos <= 8) {
        Some("concurrent_videos must be 1..=8"@)
    } else if bad_filter(c.title_filter@, c.title_filter_regex) {
        Some(
            filter_refusal(
                regex_error(
                    filter_pattern(c.title_filter@, c.title_filter_regex),
                    !c.title_filter_regex,
                )->0,
            ),
        )
    } else {
        match links_error(c.site_base@, c@.links) {
            Some(e) => Some(link_text(e, "ranking"@)),
            None => None,
        }
    }
}

/// Whether new settings are accepted. The least duration is a fraction, which the
/// caller tests: `duration_ok` says that it is a number and not negative.
pub fn check_config(c: &Config, duration_ok: bool) -> (r: Result<(), ApiError>)
    ensures
        match config_refusal(*c, duration_ok) {
            Some(m) => refuses(r, 400, m),
            None => r is Ok,
        },
{
    if !(1 <= c.top_n && c.top_n <= 100) {
        return Err(ApiError::bad_request("top_n must be 1..=100"));
    }
    if !(1 <= c.max_pages && c.max_pages <= 20) {
        return Err(ApiError::bad_request("max_pages must be 1..=20"));
    }
    if !duration_ok {
        return Err(ApiError::bad_request("min_duration_secs must be nonnegative"));
    }
    if !(1 <= c.segment_concurrency && c.segment_concurrency <= 32) {
        return Err(ApiError::bad_request("segment_concurrency must be 1..=32"));
    }
    if !(1 <= c.concurrent_videos && c.concurrent_videos <= 8) {
        return Err(ApiError::bad_request("concurrent_videos must be 1..=8"));
    }
    if let Err(e) = c.title_matcher() {
        return Err(ApiError::bad_request(e.detail().as_str()));
    }
    if let Err(e) = c.validate_links() {
        return Err(ApiError::bad_request(link_message(&e, "ranking").as_str()));
    }
    Ok(())
}

// ── Listings ─────────────────────────────────────────────────────────────

/// The parameters that do not sort.
pub open spec fn without_sort(pairs: Seq<(Seq<char>, Seq<char>)>) -> Seq<(Seq<char>, Seq<char>)>
    decreases pairs.len(),
{
    if pairs.len() == 0 {
        Seq::empty()
    } else {
        let head = without_sort(pairs.drop_last());
        if pairs.last().0 == "sort"@ {
            head
        } else {
            head.push(pairs.last())
        }
    }
}

/// Whether the site knows an order; none is known too.
pub open spec fn known_sort(sort: Seq<char>) -> bool {
    sort.len() == 0 || sort == "today_views"@ || sort == "weekly_views"@ || sort
        == "monthly_views"@
}

/// A listing in another order; in none, where none is asked for.
pub open spec fn sorted_url(url: Seq<char>, sort: Seq<char>) -> Option<Seq<char>> {
    match url_query_pairs(url) {
        None => None,
        Some(pairs) => {
            let kept = without_sort(pairs);
            let all = if sort.len() > 0 {
                kept.push(("sort"@, sort))
            } else {
                kept
            };
            let plain = or_else(url_without_query(url), url);
            Some(
                if all.len() == 0 {
                    plain
                } else {
                    or_else(url_append(plain, all), plain)
                },
            )
        },
    }
}

/// Sorting a listing changes no other parameter of it, nor their order.
pub proof fn law_sorting_keeps_other_parameters(pairs: Seq<(Seq<char>, Seq<char>)>)
    ensures
        without_sort(pairs) == pairs.filter(|p: (Seq<char>, Seq<char>)| p.0 != "sort"@),
    decreases pairs.len(),
{
    reveal(Seq::filter);
    if pairs.len() > 0 {
        law_sorting_keeps_other_parameters(pairs.drop_last());
    }
}

fn drop_sort(pairs: &Vec<(String, String)>) -> (r: Vec<(String, String)>)
    ensures
        pair_views(r@) == without_sort(pair_views(pairs@)),
{
    let ghost all = pair_views(pairs@);
    let mut r: Vec<(String, String)> = Vec::new();
    let mut i: usize = 0;
    assert(pair_views(r@) =~= without_sort(all.take(0)));
    while i < pairs.len()
        invariant
            i <= pairs@.len(),
            all == pair_views(pairs@),
            pair_views(r@) == without_sort(all.take(i as int)),
        decreases pairs@.len() - i,
    {
        assert(all.take(i + 1).drop_last() =~= all.take(i as int));
        assert(all.take(i + 1).last() == (pairs@[i as int].0@, pairs@[i as int].1@));
        if !same_str(pairs[i].0.as_str(), "sort") {
            let ghost before = pair_views(r@);
            r.push((pairs[i].0.clone(), pairs[i].1.clone()));
            assert(pair_views(r@) =~= before.push(all[i as int]));
        }
        i += 1;
    }
    assert(all.take(all.len() as int) =~= all);
    r
}

/// The address of a listing in another order.
pub fn with_sort(url: &str, sort: &str) -> (r: Result<String, ApiError>)
    ensures
        if !known_sort(sort@) {
            refuses(r, 400, "unknown listing sort"@)
        } else {
            match sorted_url(url@, sort@) {
                Some(u) => r is Ok && r->Ok_0@ == u,
                None => refuses(r, 400, "invalid ranking URL"@),
            }
        },
{
    let empty = to_chars(sort).len() == 0;
    if !(empty || same_str(sort, "today_views") || same_str(sort, "weekly_views") || same_str(
        sort,
        "monthly_views",
    )) {
        return Err(ApiError::bad_request("unknown listing sort"));
    }
    let pairs = match query_pairs(url) {
        Some(p) => p,
        None => {
            return Err(ApiError::bad_request("invalid ranking URL"));
        },
    };
    let mut kept = drop_sort(&pairs);
    let plain = match without_query(url) {
        Some(u) => u,
        None => url.to_owned(),
    };
    if !empty {
        let ghost before = pair_views(kept@);
        kept.push(("sort".to_owned(), sort.to_owned()));
        assert(pair_views(kept@) =~= before.push(("sort"@, sort@)));
    }
    if kept.len() == 0 {
        return Ok(plain);
    }
    match append_pairs(plain.as_str(), &kept) {
        Some(u) => Ok(u),
        None => Ok(plain),
    }
}

/// The configuration of the listing that a request names, in the order it asks
/// for.
pub fn listing_config(cfg: &Config, link: usize, sort: &Option<String>) -> (r: Result<
    Config,
    ApiError,
>)
    ensures
        if link >= cfg.all_links().len() {
            refuses(r, 400, "unknown ranking link"@)
        } else {
            let l = cfg.all_links()[link as int];
            let base = ConfigView {
                popular_path: l.0,
                top_n: l.1,
                links: Seq::empty(),
                ..cfg@
            };
            match *sort {
                None => r is Ok && r->Ok_0@ == base,
                Some(s) => if !known_sort(s@) {
                    refuses(r, 400, "unknown listing sort"@)
                } else {
                    match sorted_url(listing_of(cfg.site_base@, l.0, "popular"@, 1), s@) {
                        Some(u) => r is Ok && r->Ok_0@ == (ConfigView { popular_path: u, ..base }),
                        None => refuses(r, 400, "invalid ranking URL"@),
                    }
                },
            }
        },
{
    let links = cfg.listing_links();
    if link >= links.len() {
        return Err(ApiError::bad_request("unknown ranking link"));
    }
    assert(cfg.all_links()[link as int] == link_view(links@[link as int]));
    let mut chosen = cfg.for_link(&links[link]);
    if let Some(s) = sort {
        match with_sort(chosen.popular_url(1).as_str(), s.as_str()) {
            Ok(u) => {
                chosen.popular_path = u;
            },
            Err(e) => {
                return Err(e);
            },
        }
    }
    Ok(chosen)
}

// ── Downloads ────────────────────────────────────────────────────────────

/// What a user asks to download.
#[derive(Debug, Clone)]
pub struct Submission {
    pub id: Option<String>,
    pub url: Option<String>,
    pub title: Option<String>,
    pub rank: Option<usize>,
}

/// How a submission is answered.
#[derive(Debug)]
pub enum Submitted {
    AlreadyDownloaded(String),
    AlreadyRunning(String),
    Started(VideoCard, DownloadRequest),
}

/// The page that the site has for a video, under the language of a listing.
pub open spec fn site_page(base: Seq<char>, listing: Seq<char>, id: Seq<char>) -> Seq<char> {
    match language_in(listing) {
        Some(lang) => trim_end_char(base, '/') + "/"@ + lang + "/"@ + id,
        None => trim_end_char(base, '/') + "/"@ + id,
    }
}

/// The id and the page that are meant: both as given, or the one from the other.
pub open spec fn target(
    id: Option<Seq<char>>,
    url: Option<Seq<char>>,
    base: Seq<char>,
    listing: Seq<char>,
) -> Result<(Seq<char>, Seq<char>), Seq<char>> {
    let found = match (id, url) {
        (Some(i), Some(u)) => Ok((i, u)),
        (Some(i), None) => Ok((i, site_page(base, listing, i))),
        (None, Some(u)) => match video_id(u) {
            Some(i) => Ok((i, u)),
            None => Err("url must look like https://missav.ai/<lang>/<id>"@),
        },
        (None, None) => Err("id or url is required"@),
    };
    match found {
        Err(m) => Err(m),
        Ok((i, u)) => if i.len() == 0 || video_id(u) != Some(i) {
            Err("id must be a video slug that matches the video URL"@)
        } else {
            Ok((i, u))
        },
    }
}

/// The id and the page that a submission means. They have to agree, so that a
/// mismatch cannot download the wrong video.
pub fn resolve_target(cfg: &Config, s: &Submission) -> (r: Result<(String, String), ApiError>)
    ensures
        match target(
            opt_view(s.id),
            opt_view(s.url),
            cfg.site_base@,
            cfg.all_links()[0].0,
        ) {
            Ok(t) => r is Ok && (r->Ok_0).0@ == t.0 && (r->Ok_0).1@ == t.1,
            Err(m) => refuses(r, 400, m),
        },
{
    let (id, url) = match (&s.id, &s.url) {
        (Some(i), Some(u)) => (i.clone(), u.clone()),
        (Some(i), None) => {
            let links = cfg.listing_links();
            assert(cfg.all_links().len() > 0);
            assert(links@.len() == cfg.all_links().len());
            assert(cfg.all_links()[0] == link_view(links@[0]));
            let own = cfg.for_link(&links[0]);
            (i.clone(), own.video_url(i.as_str()))
        },
        (None, Some(u)) => match video_id_from_url(u.as_str()) {
            Some(i) => (i, u.clone()),
            None => {
                return Err(
                    ApiError::bad_request("url must look like https://missav.ai/<lang>/<id>"),
                );
            },
        },
        (None, None) => {
            return Err(ApiError::bad_request("id or url is required"));
        },
    };
    let agrees = match video_id_from_url(url.as_str()) {
        Some(found) => same_str(found.as_str(), id.as_str()),
        None => false,
    };
    if to_chars(id.as_str()).len() == 0 || !agrees {
        return Err(
            ApiError::bad_request("id must be a video slug that matches the video URL"),
        );
    }
    Ok((id, url))
}

/// A video that was asked for is registered, unless it is there, is under way, or
/// the service shuts down. `completed` says whether it is there, `idle` whether
/// its previous owner is done.
pub fn submit(
    registry: &mut TaskRegistry,
    s: &Submission,
    id: String,
    url: String,
    completed: bool,
    idle: bool,
    closed: bool,
    now: u64,
) -> (r: Result<Submitted, ApiError>)
    requires
        old(registry).wf(),
        old(registry).view().next_token < u64::MAX,
    ensures
        final(registry).wf(),
        ({
            let v = old(registry).view();
            let title = match s.title {
                Some(t) => t@,
                None => Seq::empty(),
            };
            if completed {
                &&& r matches Ok(Submitted::AlreadyDownloaded(i)) && i@ == id@
                &&& final(registry).view() == v
            } else if closed {
                &&& refuses(r, 400, "service shutting down; download rejected"@)
                &&& final(registry).view() == v
            } else if !v.can_register(id@, idle) {
                &&& r matches Ok(Submitted::AlreadyRunning(i)) && i@ == id@
                &&& final(registry).view() == v
            } else {
                &&& r matches Ok(Submitted::Started(card, request)) && card@ == (CardView {
                    id: id@,
                    url: url@,
                    title,
                    image_url: Seq::empty(),
                    duration_secs: None,
                    rank: s.rank,
                }) && request.token == v.next_token
                &&& final(registry).view() == v.registered(
                    TaskView {
                        id: id@,
                        url: url@,
                        title,
                        source_url: Seq::empty(),
                        state: TaskState::Queued,
                        phase: "queued"@,
                        done_segments: 0,
                        total_segments: 0,
                        downloaded_bytes: 0,
                        total_bytes: 0,
                        speed: 0,
                        message: Seq::empty(),
                        path: Seq::empty(),
                        updated_at: now,
                    },
                )
            }
        }),
{
    if completed {
        return Ok(Submitted::AlreadyDownloaded(id));
    }
    if closed {
        return Err(ApiError::bad_request("service shutting down; download rejected"));
    }
    let title = match &s.title {
        Some(t) => t.clone(),
        None => String::new(),
    };
    let mut info = TaskInfo::new(id.as_str(), url.as_str(), now);
    info.title = title.clone();
    match registry.register_task(info, idle) {
        None => Ok(Submitted::AlreadyRunning(id)),
        Some(request) => Ok(
            Submitted::Started(
                VideoCard {
                    id,
                    url,
                    title,
                    image_url: String::new(),
                    duration_secs: None,
                    rank: s.rank,
                },
                request,
            ),
        ),
    }
}

// ── Tasks ────────────────────────────────────────────────────────────────

/// A user pauses a task.
pub fn pause_task(registry: &mut TaskRegistry, id: &str, now: u64) -> (r: Result<(), ApiError>)
    requires
        old(registry).wf(),
    ensures
        final(registry).wf(),
        ({
            let v = old(registry).view();
            if !v.tasks.contains_key(id@) {
                refuses(r, 404, "no such task"@) && final(registry).view() == v
            } else if !v.can_stop(id@, false) {
                refuses(
                    r,
                    400,
                    "task is finalizing or is not running or queued; pause rejected"@,
                ) && final(registry).view() == v
            } else {
                r is Ok && final(registry).view() == (RegistryView {
                    tasks: v.tasks.insert(
                        id@,
                        crate::jav::app::stopped_task(v.tasks[id@], false, now),
                    ),
                    requests: v.requests.remove(id@),
                    ..v
                })
            }
        }),
{
    if registry.task_state(id).is_none() {
        return Err(ApiError::not_found("no such task"));
    }
    if !registry.stop_task(id, false, now) {
        return Err(
            ApiError::bad_request("task is finalizing or is not running or queued; pause rejected"),
        );
    }
    Ok(())
}

/// A user cancels a task.
pub fn cancel_task(registry: &mut TaskRegistry, id: &str, now: u64) -> (r: Result<(), ApiError>)
    requires
        old(registry).wf(),
    ensures
        final(registry).wf(),
        ({
            let v = old(registry).view();
            if !v.tasks.contains_key(id@) {
                refuses(r, 404, "no such task"@) && final(registry).view() == v
            } else if !v.can_stop(id@, true) {
                refuses(
                    r,
                    400,
                    "task is finalizing or already finished; cancellation rejected"@,
                ) && final(registry).view() == v
            } else {
                r is Ok && final(registry).view() == (RegistryView {
                    tasks: v.tasks.insert(
                        id@,
                        crate::jav::app::stopped_task(v.tasks[id@], true, now),
                    ),
                    requests: v.requests.remove(id@),
                    ..v
                })
            }
        }),
{
    if registry.task_state(id).is_none() {
        return Err(ApiError::not_found("no such task"));
    }
    if !registry.stop_task(id, true, now) {
        return Err(
            ApiError::bad_request("task is finalizing or already finished; cancellation rejected"),
        );
    }
    Ok(())
}

/// A user dismisses a task: only a finished one can be.
pub fn dismiss_task(registry: &mut TaskRegistry, id: &str) -> (r: Result<(), ApiError>)
    requires
        old(registry).wf(),
    ensures
        final(registry).wf(),
        ({
            let v = old(registry).view();
            if !v.tasks.contains_key(id@) {
                refuses(r, 404, "no such task"@) && final(registry).view() == v
            } else if !v.committing.contains(id@) && terminal(v.tasks[id@].state) && !v.pending(
                id@,
            ) {
                r is Ok && final(registry).view() == (RegistryView {
                    tasks: v.tasks.remove(id@),
                    requests: v.requests.remove(id@),
                    ..v
                })
            } else {
                refuses(r, 400, "cancel the task before dismissing it"@) && final(registry).view()
                    == v
            }
        }),
{
    if registry.task_state(id).is_none() {
        return Err(ApiError::not_found("no such task"));
    }
    if !registry.drop_task(id) {
        return Err(ApiError::bad_request("cancel the task before dismissing it"));
    }
    Ok(())
}

/// Resume a task: what its new worker is to download, and for which submission.
pub fn resume_task(registry: &mut TaskRegistry, id: &str, now: u64) -> (r: Result<
    (VideoCard, DownloadRequest),
    ApiError,
>)
    requires
        old(registry).wf(),
        old(registry).view().next_token < u64::MAX,
    ensures
        final(registry).wf(),
        ({
            let v = old(registry).view();
            if v.can_resume(id@) {
                &&& r matches Ok((card, request)) && card@ == (CardView {
                    id: v.tasks[id@].id,
                    url: v.tasks[id@].url,
                    title: v.tasks[id@].title,
                    image_url: Seq::empty(),
                    duration_secs: None,
                    rank: None,
                }) && request.token == v.next_token
                &&& final(registry).view() == v.resumed(id@, now)
            } else {
                refuses(r, 400, "task cannot be resumed"@) && final(registry).view() == v
            }
        }),
{
    match registry.request_resume(id, now) {
        Some((task, request)) => Ok((resumed_card(&task), request)),
        None => Err(ApiError::bad_request("task cannot be resumed")),
    }
}

/// The answer to a request to stop everything, where some tasks refused.
pub fn stop_all_answer(rejected: usize) -> (r: Result<(), ApiError>)
    ensures
        if rejected > 0 {
            refuses(
                r,
                400,
                "stop rejected for "@ + decimal(rejected as nat)
                    + " finalizing task(s); other eligible tasks were stopped"@,
            )
        } else {
            r is Ok
        },
{
    if rejected > 0 {
        let n = from_chars(decimal_chars(rejected as u64).as_slice());
        let text = join3(
            "stop rejected for ",
            n.as_str(),
            " finalizing task(s); other eligible tasks were stopped",
        );
        return Err(ApiError::bad_request(text.as_str()));
    }
    Ok(())
}

/// What a listing says of a video: whether it is under way.
pub fn in_progress(registry: &TaskRegistry, id: &str) -> (r: bool)
    requires
        registry.wf(),
    ensures
        r == (registry.view().tasks.contains_key(id@) && !terminal(
            registry.view().tasks[id@].state,
        )),
{
    match registry.task(id) {
        Some(t) => !t.is_terminal(),
        None => false,
    }
}

/// The page of a listing that is shown where none is asked for.
pub fn default_page() -> (r: usize)
    ensures
        r == 1,
{
    1
}

/// Whether listings can be asked for: with a cookie, or with a browser that gets
/// one.
pub fn check_access(configured: bool, minting: bool) -> (r: Result<(), ApiError>)
    ensures
        if configured || minting {
            r is Ok
        } else {
            refuses(r, 400, "cf_clearance cookie is not configured — set it in Settings first"@)
        },
{
    if configured || minting {
        Ok(())
    } else {
        Err(ApiError::bad_request("cf_clearance cookie is not configured — set it in Settings first"))
    }
}

/// Whether a user can have a cookie minted.
pub fn refresh_cookie(minting: bool) -> (r: Result<(), ApiError>)
    ensures
        if minting {
            r is Ok
        } else {
            refuses(
                r,
                400,
                "automatic cookie minting is disabled; paste a cf_clearance value in Settings instead"@,
            )
        },
{
    if minting {
        Ok(())
    } else {
        Err(
            ApiError::bad_request(
                "automatic cookie minting is disabled; paste a cf_clearance value in Settings instead",
            ),
        )
    }
}

/// A card of a listing, with what is known of its video.
#[derive(Debug)]
pub struct VideoEntry {
    pub card: VideoCard,
    pub downloaded: bool,
    pub in_progress: bool,
}

/// The cards of a listing, with what is known of their videos; `downloaded` holds
/// the ids of those that were downloaded.
pub fn list_videos(cards: &Vec<VideoCard>, downloaded: &Table<bool>, registry: &TaskRegistry) -> (r:
    Vec<VideoEntry>)
    requires
        downloaded.wf(),
        registry.wf(),
    ensures
        r@.len() == cards@.len(),
        forall|i: int|
            0 <= i < r@.len() ==> {
                let id = cards@[i].id@;
                let v = registry.view();
                &&& (#[trigger] r@[i]).card@ == cards@[i]@
                &&& r@[i].downloaded == downloaded.view().contains_key(id)
                &&& r@[i].in_progress == (v.tasks.contains_key(id) && !terminal(
                    v.tasks[id].state,
                ))
            },
{
    let mut r: Vec<VideoEntry> = Vec::new();
    let mut i: usize = 0;
    while i < cards.len()
        invariant
            downloaded.wf(),
            registry.wf(),
            i <= cards@.len(),
            r@.len() == i,
            forall|k: int|
                0 <= k < i ==> {
                    let id = cards@[k].id@;
                    let v = registry.view();
                    &&& (#[trigger] r@[k]).card@ == cards@[k]@
                    &&& r@[k].downloaded == downloaded.view().contains_key(id)
                    &&& r@[k].in_progress == (v.tasks.contains_key(id) && !terminal(
                        v.tasks[id].state,
                    ))
                },
        decreases cards@.len() - i,
    {
        let id = cards[i].id.as_str();
        r.push(
            VideoEntry {
                card: clone_card(&cards[i]),
                downloaded: downloaded.has(id),
                in_progress: in_progress(registry, id),
            },
        );
        i += 1;
    }
    r
}

} // verus!
