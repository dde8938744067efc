//! Resolve a video page, then stream its progressive MP4 into a `.part` file
//! next to the final output.
//!
//! Because the site serves ordinary files with byte ranges, pause and resume are
//! just "keep the `.part` and request again from its current length".
use vstd::prelude::*;
use crate::configuration::p91::Config;
use crate::p91::app::{TaskInfo, TaskState, TaskView};
use crate::p91::source::mp4::{range_ok, range_start};
use crate::p91::source::resolver::ResolvedVideo;
use crate::p91::source::scraper::VideoCard;
use crate::paths::video_path;
use crate::text::{
    begins, copy_range, decimal, decimal_chars, from_chars, join2, join3, opt_view,
    parse_unsigned, split, split_char, starts_with, to_chars, trim, trim_chars, unsigned_at_most,
};

pub use crate::paths::{output_path, part_path};

verus! {

/// How a download run ended.
#[derive(Debug, Clone, Copy, PartialEq, Eq, Structural)]
pub enum Outcome {
    Done,
    Paused,
    Cancelled,
}

/// How a run ends whose task is no longer at work.
pub fn stopped_outcome(state: TaskState) -> (r: Outcome)
    ensures
        r == (if state == TaskState::Cancelled {
            Outcome::Cancelled
        } else {
            Outcome::Paused
        }),
{
    if state == TaskState::Cancelled {
        Outcome::Cancelled
    } else {
        Outcome::Paused
    }
}

// ── Lengths ──────────────────────────────────────────────────────────────

/// The number that `s` writes, as a 64-bit word.
pub open spec fn spec_u64(s: Seq<char>) -> Option<u64> {
    match parse_unsigned(s, u64::MAX as nat) {
        Some(n) => Some(n as u64),
        None => None,
    }
}

/// The total in a `Content-Range`: what follows its last slash.
pub open spec fn range_total(value: Seq<char>) -> Option<u64> {
    spec_u64(trim(split(value, '/').last()))
}

/// `bytes 100-199/500` → `500`.
pub fn total_from_content_range(value: &str) -> (r: Option<u64>)
    ensures
        r == range_total(value@),
{
    let parts = split_char(to_chars(value).as_slice(), '/');
    let ghost all = split(value@, '/');
    let last = &parts[parts.len() - 1];
    assert(all.last() == last@);
    unsigned_at_most(trim_chars(last.as_slice()).as_slice(), u64::MAX)
}

/// The total that a `Content-Length` makes behind an offset, where it fits.
pub open spec fn length_total(value: Seq<char>, offset: u64) -> Option<u64> {
    match spec_u64(trim(value)) {
        Some(n) => if n + offset <= u64::MAX {
            Some((n + offset) as u64)
        } else {
            None
        },
        None => None,
    }
}

/// The length of the whole file, from the length of what follows an offset.
pub fn total_from_content_length(value: &str, offset: u64) -> (r: Option<u64>)
    ensures
        r == length_total(value@, offset),
{
    match unsigned_at_most(trim_chars(to_chars(value).as_slice()).as_slice(), u64::MAX) {
        Some(n) => n.checked_add(offset),
        None => None,
    }
}

/// The length of a file: the total of its range, or else its length behind the
/// offset.
pub open spec fn total_of(
    range: Option<Seq<char>>,
    length: Option<Seq<char>>,
    offset: u64,
) -> Option<u64> {
    if range is Some && range_total(range->0) is Some {
        range_total(range->0)
    } else if length is Some {
        length_total(length->0, offset)
    } else {
        None
    }
}

/// Total body length, from `Content-Range` when resuming, else `Content-Length`.
pub fn content_total(range: &Option<String>, length: &Option<String>, offset: u64) -> (r: Option<
    u64,
>)
    ensures
        r == total_of(opt_view(*range), opt_view(*length), offset),
{
    if let Some(value) = range {
        let total = total_from_content_range(value.as_str());
        if total.is_some() {
            return total;
        }
    }
    match length {
        Some(value) => total_from_content_length(value.as_str(), offset),
        None => None,
    }
}

// ── One transfer ─────────────────────────────────────────────────────────

/// The range to ask for, given the length of the unfinished file: the rest, or
/// everything where there is none.
pub fn resume_range(offset: u64) -> (r: Option<(u64, Option<u64>)>)
    ensures
        r == (if offset > 0 {
            Some((offset, None::<u64>))
        } else {
            None
        }),
{
    if offset > 0 {
        Some((offset, None))
    } else {
        None
    }
}

/// What the answer to a request for a file asks for.
#[derive(Debug, Clone, Copy, PartialEq, Eq, Structural)]
pub enum Plan {
    /// The unfinished file is complete.
    Complete,
    /// Append to the unfinished file from its end on, or write it anew.
    Write { append: bool, offset: u64, total: Option<u64> },
}

/// Why an answer cannot be used.
#[derive(Debug, Clone, Copy, PartialEq, Eq, Structural)]
pub enum PlanError {
    /// The server rejected the resume offset.
    Rejected,
    /// The server returned another range.
    WrongRange,
}

/// The length of the file in the answer that the range asked for is not there.
pub open spec fn unsatisfied_total(range: Option<Seq<char>>) -> Option<u64> {
    if range is Some && starts_with(range->0, "bytes */"@) {
        spec_u64(range->0.skip(8))
    } else {
        None
    }
}

/// What an answer asks for: where the range asked for is not there, the
/// unfinished file must be exactly the whole file; a part must start where the
/// unfinished file ends; anything else is the whole file.
pub open spec fn plan_of(
    offset: u64,
    status: u16,
    range: Option<Seq<char>>,
    length: Option<Seq<char>>,
) -> Result<Plan, PlanError> {
    if status == 416 {
        if offset > 0 && unsatisfied_total(range) == Some(offset) {
            Ok(Plan::Complete)
        } else {
            Err(PlanError::Rejected)
        }
    } else if status == 206 {
        if range is Some && range_start(range->0) == Some(offset as nat) {
            Ok(
                Plan::Write {
                    append: offset > 0,
                    offset,
                    total: total_of(range, length, offset),
                },
            )
        } else {
            Err(PlanError::WrongRange)
        }
    } else {
        Ok(Plan::Write { append: false, offset: 0, total: total_of(range, length, 0) })
    }
}

/// What the answer to a request for a file from `offset` on asks for.
pub fn plan_transfer(
    offset: u64,
    status: u16,
    range: &Option<String>,
    length: &Option<String>,
) -> (r: Result<Plan, PlanError>)
    ensures
        r == plan_of(offset, status, opt_view(*range), opt_view(*length)),
{
    if status == 416 {
        let complete = match range {
            Some(value) => {
                let v = to_chars(value.as_str());
                proof {
                    reveal_strlit("bytes */");
                }
                if begins(v.as_slice(), to_chars("bytes */").as_slice()) {
                    let rest = copy_range(v.as_slice(), 8, v.len());
                    assert(rest@ =~= value@.skip(8));
                    unsigned_at_most(rest.as_slice(), u64::MAX)
                } else {
                    None
                }
            },
            None => None,
        };
        let exact = match complete {
            Some(n) => n == offset,
            None => false,
        };
        if offset > 0 && exact {
            return Ok(Plan::Complete);
        }
        return Err(PlanError::Rejected);
    }
    if status == 206 {
        if !range_ok(status, range, offset) {
            return Err(PlanError::WrongRange);
        }
        return Ok(
            Plan::Write { append: offset > 0, offset, total: content_total(range, length, offset) },
        );
    }
    Ok(Plan::Write { append: false, offset: 0, total: content_total(range, length, 0) })
}

impl PlanError {
    /// What the error is called in a message.
    pub fn message(self, offset: u64) -> (r: String)
        ensures
            r@ == (match self {
                PlanError::Rejected => "server rejected the resume offset "@,
                PlanError::WrongRange => "server returned an unexpected byte range for offset "@,
            }) + decimal(offset as nat),
    {
        let number = from_chars(decimal_chars(offset).as_slice());
        match self {
            PlanError::Rejected => join2("server rejected the resume offset ", number.as_str()),
            PlanError::WrongRange => join2(
                "server returned an unexpected byte range for offset ",
                number.as_str(),
            ),
        }
    }
}

/// A file is never appended to unless the server sends exactly what is missing,
/// and is taken for complete only at its exact length.
pub proof fn law_resume_is_exact(
    offset: u64,
    status: u16,
    range: Option<Seq<char>>,
    length: Option<Seq<char>>,
)
    ensures
        plan_of(offset, status, range, length) matches Ok(Plan::Write {
            append: true,
            offset: at,
            total: _,
        }) ==> at == offset && offset > 0 && status == 206 && range is Some && range_start(
            range->0,
        ) == Some(offset as nat),
        plan_of(offset, status, range, length) == Ok::<Plan, PlanError>(Plan::Complete) ==> status
            == 416 && unsatisfied_total(range) == Some(offset),
{
}

/// A server that ignores the range is answered by writing the file anew.
pub proof fn law_ignored_range_restarts(
    offset: u64,
    range: Option<Seq<char>>,
    length: Option<Seq<char>>,
)
    ensures
        plan_of(offset, 200, range, length) matches Ok(Plan::Write {
            append: false,
            offset: 0,
            total: _,
        }),
{
}

/// How a body that was written ends a transfer: a body that was cut short by a
/// stop is that stop; a body that ended must have the advertised length.
pub fn after_body(complete: bool, written: u64, total: Option<u64>, control: TaskState) -> (r:
    Result<Outcome, String>)
    ensures
        if !complete {
            r == Ok::<Outcome, String>(
                if control == TaskState::Cancelled {
                    Outcome::Cancelled
                } else {
                    Outcome::Paused
                },
            )
        } else if total is Some && total != Some(written) {
            r matches Err(m) && m@ == "incomplete download: "@ + decimal(written as nat) + "/"@
                + decimal(total->0 as nat) + " bytes"@
        } else {
            r == Ok::<Outcome, String>(Outcome::Done)
        },
{
    if !complete {
        return Ok(stopped_outcome(control));
    }
    if let Some(t) = total {
        if t != written {
            let a = from_chars(decimal_chars(written).as_slice());
            let b = from_chars(decimal_chars(t).as_slice());
            let head = join3("incomplete download: ", a.as_str(), "/");
            return Err(join3(head.as_str(), b.as_str(), " bytes"));
        }
    }
    Ok(Outcome::Done)
}

/// The share of a file that has been written, in percent; `None` where its
/// length is not known. A share too large to compute counts as full range.
pub fn percent(bytes: u64, total: u64) -> (r: Option<u64>)
    ensures
        r == (if total == 0 {
            None
        } else {
            Some(
                ((if bytes * 100 <= u64::MAX {
                    bytes * 100
                } else {
                    u64::MAX as int
                }) / total as int) as u64,
            )
        }),
{
    if total == 0 {
        return None;
    }
    let scaled: u64 = match bytes.checked_mul(100) {
        Some(n) => n,
        None => u64::MAX,
    };
    Some(scaled / total)
}

// ── One run ──────────────────────────────────────────────────────────────

/// How far a run has come.
#[derive(Debug, Clone, Copy, PartialEq, Eq, Structural)]
pub enum Phase {
    /// Looking for output under the listing's title.
    Known,
    Resolving,
    /// Creating the directory.
    Directory,
    /// Looking for output under the page's title.
    Final,
    Transfer,
    Over,
}

/// A run in progress.
#[derive(Debug)]
pub struct Run {
    pub phase: Phase,
    /// The title of the output.
    pub title: String,
    /// Where the output goes.
    pub path: String,
}

/// What a run asks for.
#[derive(Debug, PartialEq, Eq)]
pub enum RunAction {
    /// Look whether there is a file, and how long it is.
    CheckOutput(String),
    Resolve,
    CreateDirectory,
    Transfer,
    /// Record that the video is there: its title, its path and its size.
    Complete(String, String, u64),
    Fail(String),
    /// The task was stopped: reconcile it.
    Stop,
    /// There is nothing to do.
    Idle,
}

/// What a run was given.
#[derive(Debug)]
pub enum RunEvent {
    /// The size of the output, where there is one that is not empty.
    Output(Option<u64>),
    Stopped,
    Resolved(ResolvedVideo),
    Failed(String),
    DirectoryReady,
    /// The transfer ended, and the output has that size.
    Transferred(Outcome, u64),
}

/// A size that was looked up: an empty file does not count.
pub fn existing_output(is_file: bool, size: u64) -> (r: Option<u64>)
    ensures
        r == (if is_file && size > 0 {
            Some(size)
        } else {
            None
        }),
{
    if is_file && size > 0 {
        Some(size)
    } else {
        None
    }
}

/// What becomes of a run with an answer, and what it then asks for.
pub open spec fn runs(
    a: Run,
    cfg: Config,
    card: VideoCard,
    event: RunEvent,
    b: Run,
    r: RunAction,
) -> bool {
    match (a.phase, event) {
        (Phase::Known, RunEvent::Output(Some(size))) | (
            Phase::Final,
            RunEvent::Output(Some(size)),
        ) => {
            &&& b == (Run { phase: Phase::Over, ..a })
            &&& r matches RunAction::Complete(t, p, s) && t@ == a.title@ && p@
                == a.path@ && s == size
        },
        (Phase::Known, RunEvent::Output(None)) => {
            b == (Run { phase: Phase::Resolving, ..a }) && r == RunAction::Resolve
        },
        (Phase::Final, RunEvent::Output(None)) => {
            b == (Run { phase: Phase::Transfer, ..a }) && r == RunAction::Transfer
        },
        (Phase::Resolving, RunEvent::Stopped) => {
            b == (Run { phase: Phase::Over, ..a }) && r == RunAction::Stop
        },
        (Phase::Resolving, RunEvent::Resolved(v)) => {
            &&& b.phase == Phase::Directory
            &&& b.title@ == v.title@
            &&& b.path@ == video_path(cfg.save_path@, card.id@, v.title@)
            &&& r == RunAction::CreateDirectory
        },
        (Phase::Resolving, RunEvent::Failed(m)) | (
            Phase::Transfer,
            RunEvent::Failed(m),
        ) => {
            b == (Run { phase: Phase::Over, ..a }) && r == RunAction::Fail(m)
        },
        (Phase::Directory, RunEvent::Failed(m)) => {
            &&& b == (Run { phase: Phase::Over, ..a })
            &&& r matches RunAction::Fail(t) && t@
                == "cannot create save directory: "@ + m@
        },
        (Phase::Directory, RunEvent::DirectoryReady) => {
            &&& b == (Run { phase: Phase::Final, ..a })
            &&& r matches RunAction::CheckOutput(p) && p@ == a.path@
        },
        (Phase::Transfer, RunEvent::Transferred(outcome, size)) => {
            &&& b == (Run { phase: Phase::Over, ..a })
            &&& if outcome == Outcome::Done {
                r matches RunAction::Complete(t, p, s) && t@ == a.title@ && p@
                    == a.path@ && s == size
            } else {
                r == RunAction::Stop
            }
        },
        _ => b == a && r == RunAction::Idle,
    }
}

/// A run asks the site for nothing where its output is there, and counts a video as
/// there only with a file that was found or wholly transferred, of that size. A
/// transfer that was stopped leaves the run stopped, what goes wrong ends it, and once
/// it is over it stays so.
pub proof fn law_runs_bring_their_video(
    a: Run,
    cfg: Config,
    card: VideoCard,
    event: RunEvent,
    b: Run,
    r: RunAction,
)
    requires
        runs(a, cfg, card, event, b, r),
    ensures
        r matches RunAction::Complete(t, p, s) ==> t@ == a.title@ && p@ == a.path@ && ((event
            == RunEvent::Output(Some(s)) && (a.phase == Phase::Known || a.phase == Phase::Final))
            || (event == RunEvent::Transferred(Outcome::Done, s) && a.phase == Phase::Transfer)),
        (a.phase == Phase::Known || a.phase == Phase::Final) && event is Output && event->Output_0 is Some
            ==> r is Complete,
        a.phase == Phase::Transfer ==> (event matches RunEvent::Transferred(o, s) ==> (o
            == Outcome::Done <==> r is Complete) && (o != Outcome::Done <==> r is Stop)),
        r is Resolve <==> a.phase == Phase::Known && event == RunEvent::Output(None),
        r is Transfer <==> a.phase == Phase::Final && event == RunEvent::Output(None),
        a.phase == Phase::Resolving ==> (event matches RunEvent::Resolved(v) ==> b.title@ == v.title@
            && b.path@ == video_path(cfg.save_path@, card.id@, v.title@) && r
            == RunAction::CreateDirectory),
        r matches RunAction::CheckOutput(p) ==> p@ == a.path@ && a.phase == Phase::Directory && event
            is DirectoryReady,
        a.phase == Phase::Directory && event is DirectoryReady ==> r is CheckOutput,
        event is Failed && (a.phase == Phase::Resolving || a.phase == Phase::Directory || a.phase
            == Phase::Transfer) ==> r is Fail && b.phase == Phase::Over,
        a.phase == Phase::Resolving && event is Stopped ==> r == RunAction::Stop,
        r is Complete || r is Fail || r is Stop ==> b.phase == Phase::Over,
        a.phase == Phase::Over ==> b == a && r == RunAction::Idle,
{
}

impl Run {
    /// A listing or manual request may already supply the final title: look for
    /// that output before contacting the site.
    pub fn start(cfg: &Config, card: &VideoCard) -> (r: (Self, RunAction))
        ensures
            r.0.phase == Phase::Known,
            r.0.title@ == card.title@,
            r.0.path@ == video_path(cfg.save_path@, card.id@, card.title@),
            r.1 matches RunAction::CheckOutput(p) && p@ == r.0.path@,
    {
        let path = output_path(cfg.save_path.as_str(), card.id.as_str(), card.title.as_str());
        let action = RunAction::CheckOutput(path.clone());
        (Run { phase: Phase::Known, title: card.title.clone(), path }, action)
    }

    /// What follows an answer.
    pub fn step(&mut self, cfg: &Config, card: &VideoCard, event: RunEvent) -> (r: RunAction)
        ensures
            runs(*old(self), *cfg, *card, event, *final(self), r),
    {
        match (self.phase, event) {
            (Phase::Known, RunEvent::Output(Some(size))) | (
                Phase::Final,
                RunEvent::Output(Some(size)),
            ) => {
                self.phase = Phase::Over;
                RunAction::Complete(self.title.clone(), self.path.clone(), size)
            },
            (Phase::Known, RunEvent::Output(None)) => {
                self.phase = Phase::Resolving;
                RunAction::Resolve
            },
            (Phase::Final, RunEvent::Output(None)) => {
                self.phase = Phase::Transfer;
                RunAction::Transfer
            },
            (Phase::Resolving, RunEvent::Stopped) => {
                self.phase = Phase::Over;
                RunAction::Stop
            },
            (Phase::Resolving, RunEvent::Resolved(v)) => {
                self.phase = Phase::Directory;
                self.path = output_path(
                    cfg.save_path.as_str(),
                    card.id.as_str(),
                    v.title.as_str(),
                );
                self.title = v.title;
                RunAction::CreateDirectory
            },
            (Phase::Resolving, RunEvent::Failed(m)) | (Phase::Transfer, RunEvent::Failed(m)) => {
                self.phase = Phase::Over;
                RunAction::Fail(m)
            },
            (Phase::Directory, RunEvent::Failed(m)) => {
                self.phase = Phase::Over;
                RunAction::Fail(join2("cannot create save directory: ", m.as_str()))
            },
            (Phase::Directory, RunEvent::DirectoryReady) => {
                self.phase = Phase::Final;
                RunAction::CheckOutput(self.path.clone())
            },
            (Phase::Transfer, RunEvent::Transferred(outcome, size)) => {
                self.phase = Phase::Over;
                if outcome == Outcome::Done {
                    RunAction::Complete(self.title.clone(), self.path.clone(), size)
                } else {
                    RunAction::Stop
                }
            },
            _ => RunAction::Idle,
        }
    }
}

// ── What a run makes of its task ─────────────────────────────────────────

/// The task once its run has started; `None` where it no longer waits.
pub fn started(task: &TaskInfo, card: &VideoCard) -> (r: Option<TaskInfo>)
    ensures
        if task.state == TaskState::Queued {
            r matches Some(t) && t@ == (TaskView {
                state: TaskState::Running,
                phase: "resolving"@,
                title: card.title@,
                message: "resolving video"@,
                ..task@
            })
        } else {
            r is None
        },
{
    if task.state != TaskState::Queued {
        return None;
    }
    let mut t = task.copy();
    t.state = TaskState::Running;
    t.phase = "resolving".to_owned();
    t.title = card.title.clone();
    t.message = "resolving video".to_owned();
    Some(t)
}

/// The task once its video has been resolved.
pub fn resolved(task: &TaskInfo, cfg: &Config, run: &Run, hd: bool) -> (r: TaskInfo)
    ensures
        r@ == (TaskView {
            title: run.title@,
            path: run.path@,
            source_url: cfg.site_base@ + (if hd {
                " (HD)"@
            } else {
                " (standard)"@
            }),
            phase: "downloading"@,
            message: "downloading"@,
            ..task@
        }),
{
    let mut t = task.copy();
    t.title = run.title.clone();
    t.path = run.path.clone();
    t.source_url = if hd {
        join2(cfg.site_base.as_str(), " (HD)")
    } else {
        join2(cfg.site_base.as_str(), " (standard)")
    };
    t.phase = "downloading".to_owned();
    t.message = "downloading".to_owned();
    t
}

/// The task while its file is being written.
pub fn progressed(task: &TaskInfo, bytes: u64, total: u64, speed: u64) -> (r: TaskInfo)
    ensures
        r@ == (TaskView {
            downloaded_bytes: bytes,
            total_bytes: total,
            speed,
            message: if total == 0 {
                "downloading"@
            } else {
                decimal(
                    ((if bytes * 100 <= u64::MAX {
                        bytes * 100
                    } else {
                        u64::MAX as int
                    }) / total as int) as nat,
                ) + "%"@
            },
            ..task@
        }),
{
    let mut t = task.copy();
    t.downloaded_bytes = bytes;
    t.total_bytes = total;
    t.speed = speed;
    t.message = match percent(bytes, total) {
        None => "downloading".to_owned(),
        Some(p) => join2(from_chars(decimal_chars(p).as_slice()).as_str(), "%"),
    };
    t
}

/// The task once its owner has unwound: cancelled where that was asked for,
/// paused otherwise.
pub open spec fn unwound(t: TaskView) -> TaskView {
    if t.state == TaskState::Cancelled {
        TaskView { phase: "cancelled"@, message: "cancelled"@, speed: 0, ..t }
    } else {
        TaskView {
            state: TaskState::Paused,
            phase: "paused"@,
            message: "paused — resume to continue from the partial file"@,
            speed: 0,
            ..t
        }
    }
}

/// The task once its owner has unwound, and whether its unfinished file is
/// deleted.
pub fn finish_stopped(task: &TaskInfo) -> (r: (TaskInfo, bool))
    ensures
        r.0@ == unwound(task@),
        r.1 == (task.state == TaskState::Cancelled),
{
    let mut t = task.copy();
    t.speed = 0;
    if t.state == TaskState::Cancelled {
        t.phase = "cancelled".to_owned();
        t.message = "cancelled".to_owned();
        (t, true)
    } else {
        t.state = TaskState::Paused;
        t.phase = "paused".to_owned();
        t.message = "paused — resume to continue from the partial file".to_owned();
        (t, false)
    }
}

/// Where the unfinished file of a stopped task is: beside its output, or beside
/// where the output of its card would go.
pub fn stopped_part(task: &TaskInfo, cfg: &Config, card: &VideoCard) -> (r: String)
    ensures
        r@ == (if task.path@.len() > 0 {
            task.path@
        } else {
            video_path(cfg.save_path@, card.id@, card.title@)
        }) + ".part"@,
{
    if to_chars(task.path.as_str()).len() > 0 {
        part_path(task.path.as_str())
    } else {
        let path = output_path(cfg.save_path.as_str(), card.id.as_str(), card.title.as_str());
        part_path(path.as_str())
    }
}

/// The task once its video is there.
pub fn finish_completed(task: &TaskInfo, title: &str, path: &str, size: u64) -> (r: TaskInfo)
    ensures
        r@ == (TaskView {
            state: TaskState::Completed,
            title: title@,
            downloaded_bytes: size,
            total_bytes: size,
            phase: "completed"@,
            total_segments: 1,
            done_segments: 1,
            speed: 0,
            message: "completed"@,
            path: path@,
            ..task@
        }),
{
    let mut t = task.copy();
    t.state = TaskState::Completed;
    t.title = title.to_owned();
    t.downloaded_bytes = size;
    t.total_bytes = size;
    t.phase = "completed".to_owned();
    t.total_segments = 1;
    t.done_segments = 1;
    t.speed = 0;
    t.message = "completed".to_owned();
    t.path = path.to_owned();
    t
}

/// The task once its run has failed. The unfinished file is kept: a failed
/// transfer is resumable.
pub fn finish_failed(task: &TaskInfo, message: &str) -> (r: TaskInfo)
    ensures
        r@ == (TaskView {
            state: TaskState::Failed,
            phase: "failed"@,
            speed: 0,
            message: message@,
            ..task@
        }),
{
    let mut t = task.copy();
    t.state = TaskState::Failed;
    t.phase = "failed".to_owned();
    t.speed = 0;
    t.message = message.to_owned();
    t
}

} // verus!
