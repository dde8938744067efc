//! What the commands of the engine accept, and how they answer.
use vstd::prelude::*;
use crate::configuration::listing::{filter_pattern, filter_refusal};
use crate::configuration::p91::{site_error, Config};
use crate::jav::api::{bad_filter, link_message, link_text, refuses, ApiError};
use crate::outside::pattern::regex_error;
use crate::p91::app::{
    live, terminal, RegistryView, TaskInfo, TaskRegistry, TaskState, TaskView,
};
use crate::p91::source::scraper::{video_id, video_id_from_url, CardView, VideoCard};
use crate::text::{clone_opt, opt_view, same_str, to_chars, trim_end_char};

verus! {

/// What is said of settings that are refused, where they are. `duration_ok` says
/// that the least duration is a number and not negative.
pub open spec fn config_refusal(c: Config, duration_ok: bool) -> Option<Seq<char>> {
    if !(1 <= c.top_n <= 100) {
        Some("top_n must be 1..=100"@)
    } else if !(1 <= c.max_pages <= 20) {
        Some("max_pages must be 1..=20"@)
    } else if !duration_ok {
        Some("min_duration_secs must be nonnegative"@)
    } else if !(1 <= c.concurrent_videos <= 8) {
        Some("concurrent_videos must be 1..=8"@)
    } else if bad_filter(c.title_filter@, c.title_filter_regex) {
        Some(
            filter_refusal(
                regex_error(
                    filter_pattern(c.title_filter@, c.title_filter_regex),
                    !c.title_filter_regex,
                )->0,
            ),
        )
    } else {
        match site_error(c.site_base@, c.all_links()) {
            Some(e) => Some(link_text(e, "listing"@)),
            None => None,
        }
    }
}

/// Whether new settings are accepted. The least duration is a fraction, which the
/// caller tests: `duration_ok` says that it is a number and not negative.
pub fn check_config(c: &Config, duration_ok: bool) -> (r: Result<(), ApiError>)
    ensures
        match config_refusal(*c, duration_ok) {
            Some(m) => refuses(r, 400, m),
            None => r is Ok,
        },
{
    if !(1 <= c.top_n && c.top_n <= 100) {
        return Err(ApiError::bad_request("top_n must be 1..=100"));
    }
    if !(1 <= c.max_pages && c.max_pages <= 20) {
        return Err(ApiError::bad_request("max_pages must be 1..=20"));
    }
    if !duration_ok {
        return Err(ApiError::bad_request("min_duration_secs must be nonnegative"));
    }
    if !(1 <= c.concurrent_videos && c.concurrent_videos <= 8) {
        return Err(ApiError::bad_request("concurrent_videos must be 1..=8"));
    }
    if let Err(e) = c.title_matcher() {
        return Err(ApiError::bad_request(e.detail().as_str()));
    }
    if let Err(e) = c.validate_links() {
        return Err(ApiError::bad_request(link_message(&e, "listing").as_str()));
    }
    Ok(())
}

/// What a user asks to download.
#[derive(Debug, Clone)]
pub struct Submission {
    pub id: Option<String>,
    pub url: Option<String>,
    pub title: Option<String>,
    pub rank: Option<usize>,
    pub vid: Option<String>,
}

/// How a submission is answered.
#[derive(Debug)]
pub enum Submitted {
    AlreadyDownloaded(String),
    AlreadyRunning(String),
    Started(VideoCard),
}

/// The id and the page that are meant: both as given, or the one from the other.
pub open spec fn target(
    id: Option<Seq<char>>,
    url: Option<Seq<char>>,
    base: Seq<char>,
) -> Result<(Seq<char>, Seq<char>), Seq<char>> {
    let found = match (id, url) {
        (Some(i), Some(u)) => Ok((i, u)),
        (Some(i), None) => Ok(
            (i, trim_end_char(base, '/') + "/view_video.php?viewkey="@ + i),
        ),
        (None, Some(u)) => match video_id(u) {
            Some(i) => Ok((i, u)),
            None => Err("url must look like https://www.91porn.com/view_video.php?viewkey=…"@),
        },
        (None, None) => Err("id or url is required"@),
    };
    match found {
        Err(m) => Err(m),
        Ok((i, u)) => if i.len() == 0 || video_id(u) != Some(i) {
            Err("id must be a view key that matches the video URL"@)
        } else {
            Ok((i, u))
        },
    }
}

/// The id and the page that a submission means. They have to agree, so that a
/// mismatch cannot download the wrong video.
pub fn resolve_target(cfg: &Config, s: &Submission) -> (r: Result<(String, String), ApiError>)
    ensures
        match target(opt_view(s.id), opt_view(s.url), cfg.site_base@) {
            Ok(t) => r is Ok && (r->Ok_0).0@ == t.0 && (r->Ok_0).1@ == t.1,
            Err(m) => refuses(r, 400, m),
        },
{
    let (id, url) = match (&s.id, &s.url) {
        (Some(i), Some(u)) => (i.clone(), u.clone()),
        (Some(i), None) => (i.clone(), cfg.video_url(i.as_str())),
        (None, Some(u)) => match video_id_from_url(u.as_str()) {
            Some(i) => (i, u.clone()),
            None => {
                return Err(
                    ApiError::bad_request(
                        "url must look like https://www.91porn.com/view_video.php?viewkey=…",
                    ),
                );
            },
        },
        (None, None) => {
            return Err(ApiError::bad_request("id or url is required"));
        },
    };
    let agrees = match video_id_from_url(url.as_str()) {
        Some(found) => same_str(found.as_str(), id.as_str()),
        None => false,
    };
    if to_chars(id.as_str()).len() == 0 || !agrees {
        return Err(ApiError::bad_request("id must be a view key that matches the video URL"));
    }
    Ok((id, url))
}

/// A video that was asked for is registered, unless it is there or is under way.
/// `completed` says whether it is there, `idle` whether its previous owner is
/// done.
pub fn submit(
    registry: &mut TaskRegistry,
    s: &Submission,
    id: String,
    url: String,
    completed: bool,
    idle: bool,
    now: u64,
) -> (r: Submitted)
    requires
        old(registry).wf(),
    ensures
        final(registry).wf(),
        ({
            let v = old(registry).view();
            let title = match s.title {
                Some(t) => t@,
                None => Seq::empty(),
            };
            if completed {
                r matches Submitted::AlreadyDownloaded(i) && i@ == id@ && final(registry).view()
                    == v
            } else if !v.can_register(id@, idle) {
                r matches Submitted::AlreadyRunning(i) && i@ == id@ && final(registry).view() == v
            } else {
                &&& r matches Submitted::Started(card) && card@ == (CardView {
                    id: id@,
                    url: url@,
                    title,
                    image_url: Seq::empty(),
                    duration_secs: None,
                    rank: s.rank,
                    vid: opt_view(s.vid),
                    hd: false,
                    original: false,
                })
                &&& final(registry).view() == v.registered(
                    TaskView {
                        id: id@,
                        url: url@,
                        title,
                        vid: opt_view(s.vid),
                        source_url: Seq::empty(),
                        state: TaskState::Queued,
                        phase: "queued"@,
                        done_segments: 0,
                        total_segments: 0,
                        downloaded_bytes: 0,
                        total_bytes: 0,
                        speed: 0,
                        message: Seq::empty(),
                        path: Seq::empty(),
                        updated_at: now,
                    },
                )
            }
        }),
{
    if completed {
        return Submitted::AlreadyDownloaded(id);
    }
    let title = match &s.title {
        Some(t) => t.clone(),
        None => String::new(),
    };
    let mut info = TaskInfo::new(id.as_str(), url.as_str(), now);
    info.title = title.clone();
    info.vid = clone_opt(&s.vid);
    if !registry.register_task(info, idle) {
        return Submitted::AlreadyRunning(id);
    }
    Submitted::Started(
        VideoCard {
            id,
            url,
            title,
            image_url: String::new(),
            duration_secs: None,
            rank: s.rank,
            vid: clone_opt(&s.vid),
            hd: false,
            original: false,
        },
    )
}

/// A task that a user pauses: one that waits is paused at once, one at work when
/// it has unwound.
pub open spec fn paused_by_user(t: TaskView, now: u64) -> TaskView {
    if t.state == TaskState::Queued {
        TaskView {
            state: TaskState::Paused,
            phase: "paused"@,
            message: "paused by user"@,
            updated_at: now,
            ..t
        }
    } else {
        TaskView { phase: "pausing"@, message: "pausing…"@, updated_at: now, ..t }
    }
}

/// A task that a user cancels.
pub open spec fn cancelled_by_user(t: TaskView, now: u64) -> TaskView {
    let waits = t.state == TaskState::Queued;
    TaskView {
        state: TaskState::Cancelled,
        phase: if waits {
            "cancelled"@
        } else {
            "cancelling"@
        },
        message: if waits {
            "cancelled by user"@
        } else {
            "cancelling…"@
        },
        updated_at: now,
        ..t
    }
}

/// A user pauses a task: only a live one can be.
pub fn pause_task(registry: &mut TaskRegistry, id: &str, now: u64) -> (r: Result<(), ApiError>)
    requires
        old(registry).wf(),
    ensures
        final(registry).wf(),
        ({
            let v = old(registry).view();
            if !v.tasks.contains_key(id@) {
                refuses(r, 404, "no such task"@) && final(registry).view() == v
            } else if !live(v.tasks[id@].state) {
                refuses(r, 400, "task is not running or queued"@) && final(registry).view() == v
            } else {
                r is Ok && final(registry).view() == (RegistryView {
                    tasks: v.tasks.insert(id@, paused_by_user(v.tasks[id@], now)),
                    ..v
                })
            }
        }),
{
    let mut t = match registry.task(id) {
        None => {
            return Err(ApiError::not_found("no such task"));
        },
        Some(t) => t,
    };
    proof {
        registry.law_wf_is_inv();
    }
    match t.state {
        TaskState::Queued => {
            t.state = TaskState::Paused;
            t.phase = "paused".to_owned();
            t.message = "paused by user".to_owned();
        },
        TaskState::Running => {
            t.phase = "pausing".to_owned();
            t.message = "pausing…".to_owned();
        },
        _ => {
            return Err(ApiError::bad_request("task is not running or queued"));
        },
    }
    let _ = registry.update_task(t, now);
    Ok(())
}

/// A user cancels a task: a finished one cannot be.
pub fn cancel_task(registry: &mut TaskRegistry, id: &str, now: u64) -> (r: Result<(), ApiError>)
    requires
        old(registry).wf(),
    ensures
        final(registry).wf(),
        ({
            let v = old(registry).view();
            if !v.tasks.contains_key(id@) {
                refuses(r, 404, "no such task"@) && final(registry).view() == v
            } else if terminal(v.tasks[id@].state) {
                refuses(r, 400, "task is already finished"@) && final(registry).view() == v
            } else {
                r is Ok && final(registry).view() == (RegistryView {
                    tasks: v.tasks.insert(id@, cancelled_by_user(v.tasks[id@], now)),
                    ..v
                })
            }
        }),
{
    let mut t = match registry.task(id) {
        None => {
            return Err(ApiError::not_found("no such task"));
        },
        Some(t) => t,
    };
    proof {
        registry.law_wf_is_inv();
    }
    if t.is_terminal() {
        return Err(ApiError::bad_request("task is already finished"));
    }
    if t.state == TaskState::Queued {
        t.phase = "cancelled".to_owned();
        t.message = "cancelled by user".to_owned();
    } else {
        t.phase = "cancelling".to_owned();
        t.message = "cancelling…".to_owned();
    }
    t.state = TaskState::Cancelled;
    let _ = registry.update_task(t, now);
    Ok(())
}

/// A user dismisses a task: only a finished one can be, and it goes once its
/// owner is done.
pub fn dismiss_task(registry: &mut TaskRegistry, id: &str, idle: bool) -> (r: Result<(), ApiError>)
    requires
        old(registry).wf(),
    ensures
        final(registry).wf(),
        ({
            let v = old(registry).view();
            if !v.tasks.contains_key(id@) {
                refuses(r, 404, "no such task"@) && final(registry).view() == v
            } else if !terminal(v.tasks[id@].state) {
                refuses(r, 400, "cancel the task before dismissing it"@) && final(registry).view()
                    == v
            } else {
                r is Ok && final(registry).view() == (if idle {
                    RegistryView {
                        tasks: v.tasks.remove(id@),
                        pausing: v.pausing.remove(id@),
                        ..v
                    }
                } else {
                    v
                })
            }
        }),
{
    match registry.task(id) {
        None => Err(ApiError::not_found("no such task")),
        Some(t) => {
            if !t.is_terminal() {
                return Err(ApiError::bad_request("cancel the task before dismissing it"));
            }
            let _ = registry.drop_task(id, idle);
            Ok(())
        },
    }
}

} // verus!
