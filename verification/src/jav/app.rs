//! The tasks of the engine: which downloads exist, which of their submissions
//! are current, and which changes they still accept.
//!
//! Times are seconds since the epoch.
use vstd::prelude::*;
use crate::configuration::app::Config as AppConfig;
use crate::configuration::jav::{Config, ConfigView};
use crate::configuration::listing::{link_view, link_views, ListingLink};
use crate::table::{lemma_listed_set, listed, Table};
use crate::text::same_str;

verus! {

/// Where a download stands.
#[derive(Debug, Clone, Copy, PartialEq, Eq, Structural)]
pub enum TaskState {
    Queued,
    Running,
    Paused,
    Completed,
    Failed,
    Cancelled,
    /// It was not downloaded, as it is too small.
    Skipped,
}

/// Live state of one video download.
#[derive(Debug, Clone)]
pub struct TaskInfo {
    pub id: String,
    pub url: String,
    pub title: String,
    pub source_url: String,
    pub state: TaskState,
    /// Human-readable stage: `resolving`, `downloading`, `merging`, …
    pub phase: String,
    pub done_segments: usize,
    pub total_segments: usize,
    pub downloaded_bytes: u64,
    pub total_bytes: u64,
    /// Bytes per second.
    pub speed: u64,
    pub message: String,
    pub path: String,
    pub updated_at: u64,
}

/// What a task holds.
pub struct TaskView {
    pub id: Seq<char>,
    pub url: Seq<char>,
    pub title: Seq<char>,
    pub source_url: Seq<char>,
    pub state: TaskState,
    pub phase: Seq<char>,
    pub done_segments: usize,
    pub total_segments: usize,
    pub downloaded_bytes: u64,
    pub total_bytes: u64,
    pub speed: u64,
    pub message: Seq<char>,
    pub path: Seq<char>,
    pub updated_at: u64,
}

impl View for TaskInfo {
    type V = TaskView;

    open spec fn view(&self) -> TaskView {
        TaskView {
            id: self.id@,
            url: self.url@,
            title: self.title@,
            source_url: self.source_url@,
            state: self.state,
            phase: self.phase@,
            done_segments: self.done_segments,
            total_segments: self.total_segments,
            downloaded_bytes: self.downloaded_bytes,
            total_bytes: self.total_bytes,
            speed: self.speed,
            message: self.message@,
            path: self.path@,
            updated_at: self.updated_at,
        }
    }
}

/// Whether a task in that state will not progress on its own.
pub open spec fn terminal(state: TaskState) -> bool {
    state == TaskState::Completed || state == TaskState::Failed || state == TaskState::Cancelled
        || state == TaskState::Skipped
}

/// Whether a task in that state is waiting or at work.
pub open spec fn live(state: TaskState) -> bool {
    state == TaskState::Queued || state == TaskState::Running
}

impl TaskInfo {
    /// A task that waits for its turn.
    pub fn new(id: &str, url: &str, now: u64) -> (r: Self)
        ensures
            r@ == (TaskView {
                id: id@,
                url: url@,
                title: Seq::empty(),
                source_url: Seq::empty(),
                state: TaskState::Queued,
                phase: "queued"@,
                done_segments: 0,
                total_segments: 0,
                downloaded_bytes: 0,
                total_bytes: 0,
                speed: 0,
                message: Seq::empty(),
                path: Seq::empty(),
                updated_at: now,
            }),
    {
        TaskInfo {
            id: id.to_owned(),
            url: url.to_owned(),
            title: String::new(),
            source_url: String::new(),
            state: TaskState::Queued,
            phase: "queued".to_owned(),
            done_segments: 0,
            total_segments: 0,
            downloaded_bytes: 0,
            total_bytes: 0,
            speed: 0,
            message: String::new(),
            path: String::new(),
            updated_at: now,
        }
    }

    /// True when the task is in a state that will not progress on its own.
    pub fn is_terminal(&self) -> (r: bool)
        ensures
            r == terminal(self.state),
    {
        self.state == TaskState::Completed || self.state == TaskState::Failed || self.state
            == TaskState::Cancelled || self.state == TaskState::Skipped
    }

    /// A copy of the task.
    pub fn copy(&self) -> (r: Self)
        ensures
            r@ == self@,
    {
        TaskInfo {
            id: self.id.clone(),
            url: self.url.clone(),
            title: self.title.clone(),
            source_url: self.source_url.clone(),
            state: self.state,
            phase: self.phase.clone(),
            done_segments: self.done_segments,
            total_segments: self.total_segments,
            downloaded_bytes: self.downloaded_bytes,
            total_bytes: self.total_bytes,
            speed: self.speed,
            message: self.message.clone(),
            path: self.path.clone(),
            updated_at: self.updated_at,
        }
    }
}

/// The state of the schedule, for status reporting.
#[derive(Debug, Clone)]
pub struct SchedulerStatus {
    pub enabled: bool,
    pub daily_time: String,
    pub next_run_at: Option<String>,
    pub last_run_at: Option<String>,
    pub last_result: String,
    pub running: bool,
}

impl Default for SchedulerStatus {
    fn default() -> (r: Self)
        ensures
            r.enabled,
            r.daily_time@ == "03:30"@,
            r.next_run_at is None,
            r.last_run_at is None,
            r.last_result@ == Seq::<char>::empty(),
            !r.running,
    {
        SchedulerStatus {
            enabled: true,
            daily_time: "03:30".to_owned(),
            next_run_at: None,
            last_run_at: None,
            last_result: String::new(),
            running: false,
        }
    }
}

/// Identifies a submission, including time spent waiting for the previous owner.
#[derive(Debug, Clone, Copy, PartialEq, Eq, Structural)]
pub struct DownloadRequest {
    pub token: u64,
}

/// The current submission of a task. A restart is accepted while the previous
/// owner is still at work, and takes effect once that has finished.
#[derive(Debug)]
pub struct RequestState {
    pub token: u64,
    pub restart: Option<TaskInfo>,
}

/// The current submission of a task: its token, and the restart that is pending.
pub open spec fn request_view(r: RequestState) -> (u64, Option<TaskView>) {
    (
        r.token,
        match r.restart {
            Some(t) => Some(t@),
            None => None,
        },
    )
}

/// The tasks of the engine.
pub struct TaskRegistry {
    tasks: Table<TaskInfo>,
    requests: Table<RequestState>,
    committing: Table<bool>,
    closed: bool,
    next_token: u64,
    daily_cancel: bool,
}

/// What a registry holds.
pub struct RegistryView {
    pub tasks: Map<Seq<char>, TaskView>,
    /// The current submission of each task that has one.
    pub requests: Map<Seq<char>, (u64, Option<TaskView>)>,
    /// The tasks whose end is being published.
    pub committing: Set<Seq<char>>,
    /// No submission is accepted any more.
    pub closed: bool,
    pub next_token: u64,
    /// The daily job is asked to stop.
    pub daily_cancel: bool,
}

impl RegistryView {
    /// Whether a restart of the task is pending.
    pub open spec fn pending(self, id: Seq<char>) -> bool {
        self.requests.contains_key(id) && self.requests[id].1 is Some
    }

    /// Whether the submission is the current one of the task.
    pub open spec fn current(self, id: Seq<char>, token: u64) -> bool {
        self.requests.contains_key(id) && self.requests[id].0 == token
    }

    /// What holds of every registry: tasks are found under their ids; a
    /// submission belongs to a task, was handed out, and is nobody else's; a
    /// restart waits for its turn.
    pub open spec fn inv(self) -> bool {
        &&& forall|k: Seq<char>|
            #[trigger] self.tasks.contains_key(k) ==> self.tasks[k].id == k
        &&& forall|k: Seq<char>| #[trigger]
            self.requests.contains_key(k) ==> {
                &&& self.tasks.contains_key(k)
                &&& self.requests[k].0 < self.next_token
                &&& self.requests[k].1 matches Some(t) ==> t.id == k && t.state
                    == TaskState::Queued
            }
        &&& forall|a: Seq<char>, b: Seq<char>| #[trigger]
            self.requests.contains_key(a) && #[trigger] self.requests.contains_key(b) && a != b
                ==> self.requests[a].0 != self.requests[b].0
    }

    /// Whether a new task is accepted: the previous owner is done, and no live
    /// task, no pending restart and no publication is in the way.
    pub open spec fn can_register(self, id: Seq<char>, idle: bool) -> bool {
        &&& idle
        &&& !self.closed
        &&& !self.committing.contains(id)
        &&& !self.pending(id)
        &&& self.tasks.contains_key(id) ==> !live(self.tasks[id].state)
    }

    /// Whether a restart is accepted.
    pub open spec fn can_resume(self, id: Seq<char>) -> bool {
        &&& !self.closed
        &&& !self.committing.contains(id)
        &&& self.tasks.contains_key(id)
        &&& self.tasks[id].state == TaskState::Paused || self.tasks[id].state == TaskState::Failed
            || self.tasks[id].state == TaskState::Cancelled
        &&& !self.pending(id)
    }

    /// Whether a stop is accepted: where a restart is pending it is withdrawn;
    /// otherwise a task that still progresses, or waits to be resumed, is
    /// cancelled, and a live one is paused.
    pub open spec fn can_stop(self, id: Seq<char>, cancel: bool) -> bool {
        &&& !self.committing.contains(id)
        &&& self.tasks.contains_key(id)
        &&& self.pending(id) || (if cancel {
            !terminal(self.tasks[id].state)
        } else {
            live(self.tasks[id].state)
        })
    }

    /// The registry once a new task is accepted: its submission is the current one.
    pub open spec fn registered(self, t: TaskView) -> RegistryView {
        RegistryView {
            tasks: self.tasks.insert(t.id, t),
            requests: self.requests.insert(t.id, (self.next_token, None)),
            next_token: (self.next_token + 1) as u64,
            ..self
        }
    }

    /// The registry once a restart is accepted: it waits, and what is known of
    /// the task stays as it was.
    pub open spec fn resumed(self, id: Seq<char>, now: u64) -> RegistryView {
        RegistryView {
            requests: self.requests.insert(
                id,
                (self.next_token, Some(resumed_task(self.tasks[id], now))),
            ),
            next_token: (self.next_token + 1) as u64,
            ..self
        }
    }

    /// The registry once a stop is accepted: the submissions of the task are
    /// withdrawn.
    pub open spec fn stopped(self, id: Seq<char>, cancel: bool, now: u64) -> RegistryView {
        RegistryView {
            tasks: self.tasks.insert(id, stopped_task(self.tasks[id], cancel, now)),
            requests: self.requests.remove(id),
            ..self
        }
    }

    /// Whether the end of a task may be published.
    pub open spec fn can_commit(self, id: Seq<char>) -> bool {
        ||| self.committing.contains(id)
        ||| self.tasks.contains_key(id) && self.tasks[id].state == TaskState::Running
    }

    /// The registry once the service shuts down.
    pub open spec fn shut(self) -> RegistryView {
        RegistryView {
            tasks: Map::new(
                |k: Seq<char>| self.tasks.contains_key(k),
                |k: Seq<char>| shut_task(self.tasks[k], self.committing.contains(k)),
            ),
            requests: Map::empty(),
            committing: self.committing,
            closed: true,
            next_token: self.next_token,
            daily_cancel: true,
        }
    }

    /// Whether a task is to be forgotten: without a pending restart, and failed,
    /// or, where a cutoff is given, finished and unchanged since.
    pub open spec fn selected(self, id: Seq<char>, cutoff: Option<u64>) -> bool {
        &&& self.tasks.contains_key(id)
        &&& !self.pending(id)
        &&& match cutoff {
            Some(limit) => terminal(self.tasks[id].state) && self.tasks[id].updated_at <= limit,
            None => self.tasks[id].state == TaskState::Failed,
        }
    }
}

/// The phase of a task that is stopped.
pub open spec fn stop_phase(cancel: bool, queued: bool) -> Seq<char> {
    if cancel && queued {
        "cancelled"@
    } else if cancel {
        "cancelling"@
    } else if queued {
        "paused"@
    } else {
        "pausing"@
    }
}

/// A task that a user has stopped.
pub open spec fn stopped_task(t: TaskView, cancel: bool, now: u64) -> TaskView {
    TaskView {
        state: if cancel {
            TaskState::Cancelled
        } else {
            TaskState::Paused
        },
        phase: stop_phase(cancel, t.state == TaskState::Queued),
        message: if cancel {
            "cancelled by user"@
        } else {
            "paused by user"@
        },
        updated_at: now,
        ..t
    }
}

/// A task that waits to be resumed.
pub open spec fn resumed_task(t: TaskView, now: u64) -> TaskView {
    TaskView {
        state: TaskState::Queued,
        phase: "queued"@,
        message: "resuming"@,
        updated_at: now,
        ..t
    }
}

/// A task when the service shuts down: a live one that is not being published
/// is paused.
pub open spec fn shut_task(t: TaskView, committing: bool) -> TaskView {
    if committing || !live(t.state) {
        t
    } else {
        TaskView {
            state: TaskState::Paused,
            phase: if t.state == TaskState::Queued {
                "paused"@
            } else {
                "pausing"@
            },
            message: "service shutting down; partials retained"@,
            ..t
        }
    }
}

/// Whether tasks are in the order of their last change, the latest first.
pub open spec fn by_age(list: Seq<TaskInfo>) -> bool {
    forall|i: int, j: int|
        0 <= i < j < list.len() ==> (#[trigger] list[i]).updated_at >= (
        #[trigger] list[j]).updated_at
}

/// Whether a task with that id is in a list.
pub open spec fn holds(list: Seq<TaskInfo>, id: Seq<char>) -> bool {
    exists|i: int| 0 <= i < list.len() && (#[trigger] list[i]).id@ == id
}

/// Whether no two tasks of a list have the same id.
pub open spec fn one_each(list: Seq<TaskInfo>) -> bool {
    forall|i: int, j: int|
        0 <= i < j < list.len() ==> (#[trigger] list[i]).id@ != (#[trigger] list[j]).id@
}

fn insert_by_age(list: &mut Vec<TaskInfo>, t: TaskInfo)
    requires
        by_age(old(list)@),
        one_each(old(list)@),
        !holds(old(list)@, t.id@),
    ensures
        by_age(final(list)@),
        one_each(final(list)@),
        forall|k: Seq<char>| #[trigger]
            holds(final(list)@, k) <==> k == t.id@ || holds(old(list)@, k),
        forall|i: int|
            0 <= i < final(list)@.len() ==> (#[trigger] final(list)@[i]) == t || exists|j: int|
                0 <= j < old(list)@.len() && #[trigger] old(list)@[j] == final(list)@[i],
{
    let ghost before = list@;
    let mut p: usize = 0;
    while p < list.len() && list[p].updated_at >= t.updated_at
        invariant
            p <= list@.len(),
            list@ == before,
            forall|j: int| 0 <= j < p ==> (#[trigger] before[j]).updated_at >= t.updated_at,
        decreases list@.len() - p,
    {
        p += 1;
    }
    let ghost at = p as int;
    let ghost new = t;
    list.insert(p, t);
    proof {
        let after = list@;
        assert(after =~= before.insert(at, new));
        assert forall|i: int, j: int| 0 <= i < j < after.len() implies (
        #[trigger] after[i]).updated_at >= (#[trigger] after[j]).updated_at by {
            let x = if i < at {
                i
            } else {
                i - 1
            };
            let y = if j < at {
                j
            } else {
                j - 1
            };
            if i != at && j != at {
                assert(before[x].updated_at >= before[y].updated_at);
            } else if i == at {
                assert(before[at].updated_at < new.updated_at);
                if y > at {
                    assert(before[at].updated_at >= before[y].updated_at);
                }
            } else {
                assert(before[x].updated_at >= new.updated_at);
            }
        }
        assert forall|i: int, j: int| 0 <= i < j < after.len() implies (#[trigger] after[i]).id@ != (
        #[trigger] after[j]).id@ by {
            let x = if i < at {
                i
            } else {
                i - 1
            };
            let y = if j < at {
                j
            } else {
                j - 1
            };
            if i != at && j != at {
                assert(before[x].id@ != before[y].id@);
            } else if i == at {
                assert(before[y].id@ != new.id@);
            } else {
                assert(before[x].id@ != new.id@);
            }
        }
        assert forall|k: Seq<char>| #[trigger] holds(after, k) <==> k == new.id@ || holds(
            before,
            k,
        ) by {
            if holds(after, k) {
                let i = choose|i: int| 0 <= i < after.len() && (#[trigger] after[i]).id@ == k;
                if i < at {
                    assert(before[i].id@ == k);
                } else if i > at {
                    assert(before[i - 1].id@ == k);
                }
            }
            if k == new.id@ {
                assert(after[at].id@ == k);
            }
            if holds(before, k) {
                let i = choose|i: int| 0 <= i < before.len() && (#[trigger] before[i]).id@ == k;
                if i < at {
                    assert(after[i].id@ == k);
                } else {
                    assert(after[i + 1].id@ == k);
                }
            }
        }
        assert forall|i: int| 0 <= i < after.len() implies (#[trigger] after[i]) == new
            || exists|j: int| 0 <= j < before.len() && #[trigger] before[j] == after[i] by {
            if i < at {
                assert(before[i] == after[i]);
            } else if i > at {
                assert(before[i - 1] == after[i]);
            }
        }
    }
}

/// What follows when a submission asks for its turn.
#[derive(Debug, Clone, Copy, PartialEq, Eq, Structural)]
pub enum SlotStep {
    /// The submission is no longer current.
    Withdrawn,
    /// The previous owner is still at work.
    Wait,
    /// The submission may compete for a slot.
    Compete,
}

impl TaskRegistry {
    /// What the registry holds.
    pub closed spec fn view(&self) -> RegistryView {
        RegistryView {
            tasks: self.tasks.view().map_values(|t: TaskInfo| t@),
            requests: self.requests.view().map_values(|r: RequestState| request_view(r)),
            committing: self.committing.view().dom(),
            closed: self.closed,
            next_token: self.next_token,
            daily_cancel: self.daily_cancel,
        }
    }

    /// The registry is consistent.
    pub closed spec fn wf(&self) -> bool {
        &&& self.tasks.wf()
        &&& self.requests.wf()
        &&& self.committing.wf()
        &&& self.view().inv()
    }

    /// The invariant holds of every consistent registry.
    pub proof fn law_wf_is_inv(&self)
        requires
            self.wf(),
        ensures
            self.view().inv(),
    {
    }

    /// A registry without tasks.
    pub fn new() -> (r: Self)
        ensures
            r.wf(),
            r.view() == (RegistryView {
                tasks: Map::empty(),
                requests: Map::empty(),
                committing: Set::empty(),
                closed: false,
                next_token: 0,
                daily_cancel: false,
            }),
    {
        let r = TaskRegistry {
            tasks: Table::new(),
            requests: Table::new(),
            committing: Table::new(),
            closed: false,
            next_token: 0,
            daily_cancel: false,
        };
        assert(r.view().tasks =~= Map::<Seq<char>, TaskView>::empty());
        assert(r.view().requests =~= Map::<Seq<char>, (u64, Option<TaskView>)>::empty());
        assert(r.view().committing =~= Set::<Seq<char>>::empty());
        r
    }

    /// Whether there is a token left for another submission.
    pub fn can_issue(&self) -> (r: bool)
        ensures
            r == (self.view().next_token < u64::MAX),
    {
        self.next_token < u64::MAX
    }

    fn is_pending(&self, id: &str) -> (r: bool)
        requires
            self.wf(),
        ensures
            r == self.view().pending(id@),
    {
        match self.requests.get(id) {
            Some(request) => request.restart.is_some(),
            None => false,
        }
    }

    /// Whether the submission is the current one of the task.
    pub fn matches(&self, id: &str, request: &DownloadRequest) -> (r: bool)
        requires
            self.wf(),
        ensures
            r == self.view().current(id@, request.token),
    {
        match self.requests.get(id) {
            Some(current) => current.token == request.token,
            None => false,
        }
    }

    /// A copy of a task.
    pub fn task(&self, id: &str) -> (r: Option<TaskInfo>)
        requires
            self.wf(),
        ensures
            match r {
                Some(t) => self.view().tasks.contains_key(id@) && self.view().tasks[id@] == t@,
                None => !self.view().tasks.contains_key(id@),
            },
    {
        match self.tasks.get(id) {
            Some(t) => Some(t.copy()),
            None => None,
        }
    }

    /// The state of a task.
    pub fn task_state(&self, id: &str) -> (r: Option<TaskState>)
        requires
            self.wf(),
        ensures
            match r {
                Some(s) => self.view().tasks.contains_key(id@) && self.view().tasks[id@].state == s,
                None => !self.view().tasks.contains_key(id@),
            },
    {
        match self.tasks.get(id) {
            Some(t) => Some(t.state),
            None => None,
        }
    }

    /// Whether the task may be started, and how many may run at the same time:
    /// at least one and at most eight.
    pub fn slot_limit(&self, id: &str, request: &DownloadRequest, concurrent: usize) -> (r: Option<
        usize,
    >)
        requires
            self.wf(),
        ensures
            ({
                let v = self.view();
                if !v.closed && v.current(id@, request.token) && v.tasks.contains_key(id@)
                    && v.tasks[id@].state == TaskState::Queued {
                    r == Some(
                        if concurrent < 1 {
                            1usize
                        } else if concurrent > 8 {
                            8
                        } else {
                            concurrent
                        },
                    )
                } else {
                    r is None
                }
            }),
    {
        let queued = match self.tasks.get(id) {
            Some(t) => t.state == TaskState::Queued,
            None => false,
        };
        if self.closed || !self.matches(id, request) || !queued {
            return None;
        }
        Some(
            if concurrent < 1 {
                1
            } else if concurrent > 8 {
                8
            } else {
                concurrent
            },
        )
    }

    /// A submission asks for its turn. Once the previous owner is idle, a pending
    /// restart takes effect; where the task has completed meanwhile, or is gone,
    /// the submission is withdrawn.
    pub fn activate(&mut self, id: &str, request: &DownloadRequest, idle: bool) -> (r: SlotStep)
        requires
            old(self).wf(),
        ensures
            final(self).wf(),
            ({
                let v = old(self).view();
                let w = final(self).view();
                if !v.current(id@, request.token) || (idle && v.closed) {
                    r == SlotStep::Withdrawn && w == v
                } else if !idle {
                    r == SlotStep::Wait && w == v
                } else if !v.pending(id@) {
                    r == SlotStep::Compete && w == v
                } else if v.tasks[id@].state == TaskState::Completed {
                    r == SlotStep::Withdrawn && w == (RegistryView {
                        requests: v.requests.remove(id@),
                        ..v
                    })
                } else {
                    r == SlotStep::Compete && w == (RegistryView {
                        tasks: v.tasks.insert(id@, v.requests[id@].1->0),
                        requests: v.requests.insert(id@, (request.token, None)),
                        ..v
                    })
                }
            }),
    {
        let ghost v = self.view();
        if !self.matches(id, request) || (idle && self.closed) {
            return SlotStep::Withdrawn;
        }
        if !idle {
            return SlotStep::Wait;
        }
        if !self.is_pending(id) {
            return SlotStep::Compete;
        }
        let completed = match self.tasks.get(id) {
            Some(t) => t.state == TaskState::Completed,
            None => true,
        };
        let removed = self.requests.remove(id);
        let ghost less = self.requests.view();
        if completed {
            assert(v.tasks.contains_key(id@));
            assert(self.view().requests =~= v.requests.remove(id@));
            return SlotStep::Withdrawn;
        }
        if let Some(state) = removed {
            if let Some(task) = state.restart {
                let ghost t = task@;
                self.requests.insert(id, RequestState { token: state.token, restart: None });
                self.tasks.insert(id, task);
                assert(self.view().requests =~= v.requests.insert(id@, (request.token, None)));
                assert(self.view().tasks =~= v.tasks.insert(id@, t));
            }
        }
        SlotStep::Compete
    }

    /// Register a task, once the previous owner has finished its cleanup.
    pub fn register_task(&mut self, info: TaskInfo, idle: bool) -> (r: Option<DownloadRequest>)
        requires
            old(self).wf(),
            old(self).view().next_token < u64::MAX,
        ensures
            final(self).wf(),
            ({
                let v = old(self).view();
                if v.can_register(info.id@, idle) {
                    &&& r == Some(DownloadRequest { token: v.next_token })
                    &&& final(self).view() == v.registered(info@)
                } else {
                    r is None && final(self).view() == v
                }
            }),
    {
        let ghost v = self.view();
        let id = info.id.clone();
        let busy = match self.tasks.get(id.as_str()) {
            Some(t) => t.state == TaskState::Queued || t.state == TaskState::Running,
            None => false,
        };
        if !idle || self.closed || self.committing.has(id.as_str()) || self.is_pending(id.as_str())
            || busy {
            return None;
        }
        let token = self.next_token;
        self.next_token = token + 1;
        let ghost t = info@;
        self.requests.insert(id.as_str(), RequestState { token, restart: None });
        self.tasks.insert(id.as_str(), info);
        assert(self.view().tasks =~= v.tasks.insert(id@, t));
        assert(self.view().requests =~= v.requests.insert(id@, (token, None)));
        Some(DownloadRequest { token })
    }

    /// Accept one restart without changing the old owner's stop signal.
    pub fn request_resume(&mut self, id: &str, now: u64) -> (r: Option<(TaskInfo, DownloadRequest)>)
        requires
            old(self).wf(),
            old(self).view().next_token < u64::MAX,
        ensures
            final(self).wf(),
            ({
                let v = old(self).view();
                if v.can_resume(id@) {
                    &&& r matches Some((task, request)) && task@ == resumed_task(
                        v.tasks[id@],
                        now,
                    ) && request.token == v.next_token
                    &&& final(self).view() == v.resumed(id@, now)
                } else {
                    r is None && final(self).view() == v
                }
            }),
    {
        let ghost v = self.view();
        if self.closed || self.committing.has(id) || self.is_pending(id) {
            return None;
        }
        let mut task = match self.tasks.get(id) {
            Some(t) => t.copy(),
            None => {
                return None;
            },
        };
        if !(task.state == TaskState::Paused || task.state == TaskState::Failed || task.state
            == TaskState::Cancelled) {
            return None;
        }
        task.state = TaskState::Queued;
        task.phase = "queued".to_owned();
        task.message = "resuming".to_owned();
        task.updated_at = now;
        let token = self.next_token;
        self.next_token = token + 1;
        let copy = task.copy();
        let ghost t = task@;
        self.requests.insert(id, RequestState { token, restart: Some(copy) });
        assert(self.view().requests =~= v.requests.insert(id@, (token, Some(t))));
        assert(t == resumed_task(v.tasks[id@], now));
        assert(v.tasks.contains_key(id@));
        Some((task, DownloadRequest { token }))
    }

    /// User stops invalidate queued submissions and pending restarts atomically.
    pub fn stop_task(&mut self, id: &str, cancel: bool, now: u64) -> (r: bool)
        requires
            old(self).wf(),
        ensures
            final(self).wf(),
            ({
                let v = old(self).view();
                if v.can_stop(id@, cancel) {
                    r && final(self).view() == v.stopped(id@, cancel, now)
                } else {
                    !r && final(self).view() == v
                }
            }),
    {
        let ghost v = self.view();
        if self.committing.has(id) {
            return false;
        }
        let pending = self.is_pending(id);
        let mut task = match self.tasks.get(id) {
            Some(t) => t.copy(),
            None => {
                return false;
            },
        };
        let refused = if cancel {
            task.is_terminal()
        } else {
            !(task.state == TaskState::Running || task.state == TaskState::Queued)
        };
        if !pending && refused {
            return false;
        }
        let queued = task.state == TaskState::Queued;
        task.state = if cancel {
            TaskState::Cancelled
        } else {
            TaskState::Paused
        };
        task.phase = if cancel && queued {
            "cancelled".to_owned()
        } else if cancel {
            "cancelling".to_owned()
        } else if queued {
            "paused".to_owned()
        } else {
            "pausing".to_owned()
        };
        task.message = if cancel {
            "cancelled by user".to_owned()
        } else {
            "paused by user".to_owned()
        };
        task.updated_at = now;
        let ghost t = task@;
        assert(v.tasks.contains_key(id@));
        assert(t == stopped_task(v.tasks[id@], cancel, now));
        self.tasks.insert(id, task);
        let _ = self.requests.remove(id);
        assert(self.view().tasks =~= v.tasks.insert(id@, t));
        assert(self.view().requests =~= v.requests.remove(id@));
        true
    }

    /// The point from which stops are refused, before cleanup or persistence. A
    /// task that is being published already may enter again.
    pub fn begin_terminal_commit(&mut self, id: &str) -> (r: bool)
        requires
            old(self).wf(),
        ensures
            final(self).wf(),
            ({
                let v = old(self).view();
                &&& r == v.can_commit(id@)
                &&& final(self).view() == (if r {
                    RegistryView { committing: v.committing.insert(id@), ..v }
                } else {
                    v
                })
            }),
    {
        let ghost v = self.view();
        if self.committing.has(id) {
            assert(v.committing.insert(id@) =~= v.committing);
            return true;
        }
        let running = match self.tasks.get(id) {
            Some(t) => t.state == TaskState::Running,
            None => false,
        };
        if !running {
            return false;
        }
        self.committing.insert(id, true);
        assert(self.view().committing =~= v.committing.insert(id@));
        true
    }

    /// The end of a task has been published.
    pub fn end_terminal_commit(&mut self, id: &str)
        requires
            old(self).wf(),
        ensures
            final(self).wf(),
            final(self).view() == (RegistryView {
                committing: old(self).view().committing.remove(id@),
                ..old(self).view()
            }),
    {
        let ghost v = self.view();
        let _ = self.committing.remove(id);
        assert(self.view().committing =~= v.committing.remove(id@));
    }

    /// Replace what is known of a task; returns whether its state changed. A task
    /// that is gone stays gone.
    pub fn update_task(&mut self, info: TaskInfo, now: u64) -> (r: bool)
        requires
            old(self).wf(),
        ensures
            final(self).wf(),
            ({
                let v = old(self).view();
                if v.tasks.contains_key(info.id@) {
                    &&& r == (v.tasks[info.id@].state != info.state)
                    &&& final(self).view() == (RegistryView {
                        tasks: v.tasks.insert(info.id@, TaskView { updated_at: now, ..info@ }),
                        ..v
                    })
                } else {
                    !r && final(self).view() == v
                }
            }),
    {
        let ghost v = self.view();
        let id = info.id.clone();
        let previous = match self.tasks.get(id.as_str()) {
            Some(t) => t.state,
            None => {
                return false;
            },
        };
        let changed = previous != info.state;
        let mut info = info;
        info.updated_at = now;
        let ghost t = info@;
        self.tasks.insert(id.as_str(), info);
        assert(self.view().tasks =~= v.tasks.insert(id@, t));
        changed
    }

    /// Replace what is known of a task on behalf of a submission. Bookkeeping
    /// must not publish over a newer submission.
    pub fn update_request(&mut self, request: &DownloadRequest, info: TaskInfo, now: u64) -> (r: bool)
        requires
            old(self).wf(),
        ensures
            final(self).wf(),
            ({
                let v = old(self).view();
                if !v.closed && v.current(info.id@, request.token) {
                    r && final(self).view() == (RegistryView {
                        tasks: v.tasks.insert(info.id@, TaskView { updated_at: now, ..info@ }),
                        ..v
                    })
                } else {
                    !r && final(self).view() == v
                }
            }),
    {
        if self.closed || !self.matches(info.id.as_str(), request) {
            return false;
        }
        let _ = self.update_task(info, now);
        true
    }

    /// Forget a finished task.
    pub fn drop_task(&mut self, id: &str) -> (r: bool)
        requires
            old(self).wf(),
        ensures
            final(self).wf(),
            ({
                let v = old(self).view();
                if !v.committing.contains(id@) && v.tasks.contains_key(id@) && terminal(
                    v.tasks[id@].state,
                ) && !v.pending(id@) {
                    r && final(self).view() == (RegistryView {
                        tasks: v.tasks.remove(id@),
                        requests: v.requests.remove(id@),
                        ..v
                    })
                } else {
                    !r && final(self).view() == v
                }
            }),
    {
        let ghost v = self.view();
        let finished = match self.tasks.get(id) {
            Some(t) => t.is_terminal(),
            None => false,
        };
        if self.committing.has(id) || !finished || self.is_pending(id) {
            return false;
        }
        let _ = self.requests.remove(id);
        let _ = self.tasks.remove(id);
        assert(self.view().tasks =~= v.tasks.remove(id@));
        assert(self.view().requests =~= v.requests.remove(id@));
        true
    }

    fn forget(&mut self, id: &str)
        requires
            old(self).wf(),
        ensures
            final(self).wf(),
            final(self).view() == (RegistryView {
                tasks: old(self).view().tasks.remove(id@),
                requests: old(self).view().requests.remove(id@),
                ..old(self).view()
            }),
    {
        let ghost v = self.view();
        let _ = self.requests.remove(id);
        let _ = self.tasks.remove(id);
        assert(self.view().tasks =~= v.tasks.remove(id@));
        assert(self.view().requests =~= v.requests.remove(id@));
    }

    fn forget_all(&mut self, ids: &Vec<String>)
        requires
            old(self).wf(),
        ensures
            final(self).wf(),
            ({
                let gone = Set::new(|k: Seq<char>| listed(ids@, k, ids@.len() as int));
                final(self).view() == (RegistryView {
                    tasks: old(self).view().tasks.remove_keys(gone),
                    requests: old(self).view().requests.remove_keys(gone),
                    ..old(self).view()
                })
            }),
    {
        let ghost v = self.view();
        let mut i: usize = 0;
        proof {
            let none = Set::new(|k: Seq<char>| listed(ids@, k, 0));
            assert(v.tasks.remove_keys(none) =~= v.tasks);
            assert(v.requests.remove_keys(none) =~= v.requests);
        }
        while i < ids.len()
            invariant
                i <= ids@.len(),
                self.wf(),
                ({
                    let gone = Set::new(|k: Seq<char>| listed(ids@, k, i as int));
                    self.view() == (RegistryView {
                        tasks: v.tasks.remove_keys(gone),
                        requests: v.requests.remove_keys(gone),
                        ..v
                    })
                }),
            decreases ids@.len() - i,
        {
            let ghost before = Set::new(|k: Seq<char>| listed(ids@, k, i as int));
            let ghost after = Set::new(|k: Seq<char>| listed(ids@, k, i + 1));
            self.forget(ids[i].as_str());
            proof {
                let id = ids@[i as int]@;
                assert forall|k: Seq<char>| #[trigger] listed(ids@, k, i + 1) <==> (k == id
                    || listed(ids@, k, i as int)) by {
                    if k == id {
                        assert(ids@[i as int]@ == k);
                    }
                    if listed(ids@, k, i as int) {
                        let j = choose|j: int| 0 <= j < i && (#[trigger] ids@[j])@ == k;
                        assert(ids@[j]@ == k);
                    }
                }
                assert(v.tasks.remove_keys(before).remove(id) =~= v.tasks.remove_keys(after));
                assert(v.requests.remove_keys(before).remove(id) =~= v.requests.remove_keys(after));
            }
            i += 1;
        }
    }

    /// The tasks that are finished, without a pending restart, and either failed
    /// or, where a cutoff is given, have not changed since.
    fn select(&self, cutoff: Option<u64>) -> (r: Vec<String>)
        requires
            self.wf(),
        ensures
            forall|k: Seq<char>| #[trigger]
                listed(r@, k, r@.len() as int) <==> self.view().selected(k, cutoff),
            forall|a: int, b: int| 0 <= a < b < r@.len() ==> (#[trigger] r@[a])@ != (#[trigger] r@[b])@,
    {
        let ids = self.tasks.keys();
        let ghost v = self.view();
        let mut r: Vec<String> = Vec::new();
        let mut i: usize = 0;
        while i < ids.len()
            invariant
                i <= ids@.len(),
                self.wf(),
                v == self.view(),
                forall|a: int, b: int|
                    0 <= a < b < ids@.len() ==> (#[trigger] ids@[a])@ != (#[trigger] ids@[b])@,
                forall|k: Seq<char>| #[trigger]
                    v.tasks.contains_key(k) <==> listed(ids@, k, ids@.len() as int),
                forall|k: Seq<char>| #[trigger]
                    listed(r@, k, r@.len() as int) <==> v.selected(k, cutoff) && listed(
                        ids@,
                        k,
                        i as int,
                    ),
                forall|a: int, b: int|
                    0 <= a < b < r@.len() ==> (#[trigger] r@[a])@ != (#[trigger] r@[b])@,
            decreases ids@.len() - i,
        {
            let id = &ids[i];
            let ghost old_r = r@;
            proof {
                assert(listed(ids@, id@, ids@.len() as int)) by {
                    assert(ids@[i as int]@ == id@);
                }
                assert(v.tasks.contains_key(id@));
                if listed(ids@, id@, i as int) {
                    let j = choose|j: int| 0 <= j < i && (#[trigger] ids@[j])@ == id@;
                    assert(ids@[j]@ != ids@[i as int]@);
                }
                assert(!listed(r@, id@, r@.len() as int));
                assert forall|k: Seq<char>| #[trigger] listed(ids@, k, i + 1) <==> (k == id@
                    || listed(ids@, k, i as int)) by {
                    if k == id@ {
                        assert(ids@[i as int]@ == k);
                    }
                    if listed(ids@, k, i as int) {
                        let j = choose|j: int| 0 <= j < i && (#[trigger] ids@[j])@ == k;
                        assert(ids@[j]@ == k);
                    }
                }
            }
            let pending = self.is_pending(id.as_str());
            let chosen = match self.tasks.get(id.as_str()) {
                Some(t) => !pending && (match cutoff {
                    Some(limit) => t.is_terminal() && t.updated_at <= limit,
                    None => t.state == TaskState::Failed,
                }),
                None => false,
            };
            assert(chosen == v.selected(id@, cutoff));
            if chosen {
                r.push(id.clone());
                proof {
                    assert forall|k: Seq<char>| #[trigger] listed(r@, k, r@.len() as int) <==> (k
                        == id@ || listed(old_r, k, old_r.len() as int)) by {
                        if k == id@ {
                            assert(r@[old_r.len() as int]@ == k);
                        }
                        if listed(old_r, k, old_r.len() as int) {
                            let j = choose|j: int|
                                0 <= j < old_r.len() && (#[trigger] old_r[j])@ == k;
                            assert(r@[j]@ == k);
                        }
                        if listed(r@, k, r@.len() as int) && k != id@ {
                            let j = choose|j: int| 0 <= j < r@.len() && (#[trigger] r@[j])@ == k;
                            assert(old_r[j]@ == k);
                        }
                    }
                    assert forall|a: int, b: int| 0 <= a < b < r@.len() implies (
                    #[trigger] r@[a])@ != (#[trigger] r@[b])@ by {
                        if b == old_r.len() {
                            assert(old_r[a]@ != id@);
                        } else {
                            assert(old_r[a]@ != old_r[b]@);
                        }
                    }
                }
            }
            i += 1;
        }
        r
    }

    /// Remove failed tasks, unless a retry is pending; returns how many.
    pub fn clear_failed_tasks(&mut self) -> (r: usize)
        requires
            old(self).wf(),
        ensures
            final(self).wf(),
            ({
                let v = old(self).view();
                let gone = Set::new(|k: Seq<char>| v.selected(k, None));
                &&& final(self).view() == (RegistryView {
                    tasks: v.tasks.remove_keys(gone),
                    requests: v.requests.remove_keys(gone),
                    ..v
                })
                &&& gone.finite()
                &&& r == gone.len()
            }),
    {
        let ghost v = self.view();
        let ids = self.select(None);
        proof {
            lemma_listed_set(ids@, Set::new(|k: Seq<char>| v.selected(k, None)));
        }
        self.forget_all(&ids);
        ids.len()
    }

    /// Forget the finished tasks that have not changed since the cutoff, unless a
    /// restart is pending.
    pub fn prune_history(&mut self, cutoff: u64)
        requires
            old(self).wf(),
        ensures
            final(self).wf(),
            ({
                let v = old(self).view();
                let gone = Set::new(|k: Seq<char>| v.selected(k, Some(cutoff)));
                final(self).view() == (RegistryView {
                    tasks: v.tasks.remove_keys(gone),
                    requests: v.requests.remove_keys(gone),
                    ..v
                })
            }),
    {
        let ghost v = self.view();
        let ids = self.select(Some(cutoff));
        proof {
            lemma_listed_set(ids@, Set::new(|k: Seq<char>| v.selected(k, Some(cutoff))));
        }
        self.forget_all(&ids);
    }

    /// All tasks, the one that changed last first.
    pub fn tasks(&self) -> (r: Vec<TaskInfo>)
        requires
            self.wf(),
        ensures
            by_age(r@),
            forall|i: int|
                0 <= i < r@.len() ==> self.view().tasks.contains_key((#[trigger] r@[i]).id@)
                    && self.view().tasks[r@[i].id@] == r@[i]@,
            forall|k: Seq<char>| #[trigger] self.view().tasks.contains_key(k) ==> holds(r@, k),
            one_each(r@),
    {
        let ghost v = self.view();
        let ids = self.tasks.keys();
        let mut r: Vec<TaskInfo> = Vec::new();
        let mut i: usize = 0;
        while i < ids.len()
            invariant
                i <= ids@.len(),
                self.wf(),
                v == self.view(),
                forall|a: int, b: int|
                    0 <= a < b < ids@.len() ==> (#[trigger] ids@[a])@ != (#[trigger] ids@[b])@,
                forall|k: Seq<char>| #[trigger]
                    v.tasks.contains_key(k) <==> listed(ids@, k, ids@.len() as int),
                by_age(r@),
                one_each(r@),
                forall|j: int|
                    0 <= j < r@.len() ==> v.tasks.contains_key((#[trigger] r@[j]).id@)
                        && v.tasks[r@[j].id@] == r@[j]@,
                forall|k: Seq<char>| #[trigger] holds(r@, k) <==> listed(ids@, k, i as int),
            decreases ids@.len() - i,
        {
            let id = &ids[i];
            proof {
                assert(listed(ids@, id@, ids@.len() as int)) by {
                    assert(ids@[i as int]@ == id@);
                }
                assert(v.tasks.contains_key(id@));
                if listed(ids@, id@, i as int) {
                    let j = choose|j: int| 0 <= j < i && (#[trigger] ids@[j])@ == id@;
                    assert(ids@[j]@ != ids@[i as int]@);
                }
                assert(!holds(r@, id@));
                assert forall|k: Seq<char>| #[trigger] listed(ids@, k, i + 1) <==> (k == id@
                    || listed(ids@, k, i as int)) by {
                    if k == id@ {
                        assert(ids@[i as int]@ == k);
                    }
                    if listed(ids@, k, i as int) {
                        let j = choose|j: int| 0 <= j < i && (#[trigger] ids@[j])@ == k;
                        assert(ids@[j]@ == k);
                    }
                }
            }
            if let Some(t) = self.tasks.get(id.as_str()) {
                let copy = t.copy();
                insert_by_age(&mut r, copy);
            }
            i += 1;
        }
        r
    }

    /// The tasks that have not completed, the one that changed last first.
    pub fn visible_tasks(&self) -> (r: Vec<TaskInfo>)
        requires
            self.wf(),
        ensures
            by_age(r@),
            one_each(r@),
            forall|i: int|
                0 <= i < r@.len() ==> self.view().tasks.contains_key((#[trigger] r@[i]).id@)
                    && self.view().tasks[r@[i].id@] == r@[i]@,
            forall|k: Seq<char>| #[trigger]
                holds(r@, k) <==> self.view().tasks.contains_key(k) && self.view().tasks[k].state
                    != TaskState::Completed,
    {
        let ghost v = self.view();
        let all = self.tasks();
        let mut r: Vec<TaskInfo> = Vec::new();
        let mut i: usize = 0;
        while i < all.len()
            invariant
                i <= all@.len(),
                by_age(all@),
                one_each(all@),
                forall|j: int|
                    0 <= j < all@.len() ==> v.tasks.contains_key((#[trigger] all@[j]).id@)
                        && v.tasks[all@[j].id@] == all@[j]@,
                by_age(r@),
                one_each(r@),
                forall|j: int|
                    0 <= j < r@.len() ==> v.tasks.contains_key((#[trigger] r@[j]).id@)
                        && v.tasks[r@[j].id@] == r@[j]@ && r@[j].state != TaskState::Completed,
                forall|j: int, k: int|
                    0 <= j < r@.len() && i <= k < all@.len() ==> (#[trigger] r@[j]).updated_at >= (
                    #[trigger] all@[k]).updated_at && r@[j].id@ != all@[k].id@,
                forall|k: int|
                    0 <= k < i && (#[trigger] all@[k]).state != TaskState::Completed ==> holds(
                        r@,
                        all@[k].id@,
                    ),
            decreases all@.len() - i,
        {
            let ghost before = r@;
            if all[i].state != TaskState::Completed {
                let t = all[i].copy();
                assert(t@ == all@[i as int]@);
                r.push(t);
                proof {
                    assert(r@[r@.len() - 1].id@ == all@[i as int].id@);
                    assert forall|k: int|
                        0 <= k < i && (#[trigger] all@[k]).state
                            != TaskState::Completed implies holds(r@, all@[k].id@) by {
                        let j = choose|j: int|
                            0 <= j < before.len() && (#[trigger] before[j]).id@ == all@[k].id@;
                        assert(r@[j].id@ == all@[k].id@);
                    }
                }
            }
            i += 1;
        }
        proof {
            assert forall|k: Seq<char>| #[trigger] holds(r@, k) <==> v.tasks.contains_key(k)
                && v.tasks[k].state != TaskState::Completed by {
                if holds(r@, k) {
                    let j = choose|j: int| 0 <= j < r@.len() && (#[trigger] r@[j]).id@ == k;
                    assert(v.tasks[r@[j].id@] == r@[j]@);
                }
                if v.tasks.contains_key(k) && v.tasks[k].state != TaskState::Completed {
                    assert(holds(all@, k));
                    let j = choose|j: int| 0 <= j < all@.len() && (#[trigger] all@[j]).id@ == k;
                    assert(v.tasks[all@[j].id@] == all@[j]@);
                }
            }
        }
        r
    }

    /// How many tasks are at work.
    pub fn running_task_count(&self) -> (r: usize)
        requires
            self.wf(),
        ensures
            ({
                let running = Set::new(
                    |k: Seq<char>|
                        self.view().tasks.contains_key(k) && self.view().tasks[k].state
                            == TaskState::Running,
                );
                running.finite() && r == running.len()
            }),
    {
        let ghost v = self.view();
        let ids = self.tasks.keys();
        let mut found: Vec<String> = Vec::new();
        let mut i: usize = 0;
        while i < ids.len()
            invariant
                i <= ids@.len(),
                self.wf(),
                v == self.view(),
                forall|a: int, b: int|
                    0 <= a < b < ids@.len() ==> (#[trigger] ids@[a])@ != (#[trigger] ids@[b])@,
                forall|k: Seq<char>| #[trigger]
                    v.tasks.contains_key(k) <==> listed(ids@, k, ids@.len() as int),
                forall|j: int|
                    0 <= j < found@.len() ==> v.tasks.contains_key((#[trigger] found@[j])@)
                        && v.tasks[found@[j]@].state == TaskState::Running && listed(
                        ids@,
                        found@[j]@,
                        i as int,
                    ),
                forall|j: int|
                    0 <= j < i && v.tasks[(#[trigger] ids@[j])@].state == TaskState::Running
                        ==> listed(found@, ids@[j]@, found@.len() as int),
                forall|a: int, b: int|
                    0 <= a < b < found@.len() ==> (#[trigger] found@[a])@ != (#[trigger] found@[b])@,
            decreases ids@.len() - i,
        {
            let id = &ids[i];
            let ghost before = found@;
            proof {
                assert(listed(ids@, id@, ids@.len() as int)) by {
                    assert(ids@[i as int]@ == id@);
                }
                assert(v.tasks.contains_key(id@));
                assert forall|k: Seq<char>| listed(ids@, k, i as int) implies #[trigger] listed(
                    ids@,
                    k,
                    i + 1,
                ) by {
                    let j = choose|j: int| 0 <= j < i && (#[trigger] ids@[j])@ == k;
                    assert(ids@[j]@ == k);
                }
                assert(listed(ids@, id@, i + 1)) by {
                    assert(ids@[i as int]@ == id@);
                }
            }
            let running = match self.tasks.get(id.as_str()) {
                Some(t) => t.state == TaskState::Running,
                None => false,
            };
            if running {
                found.push(id.clone());
            }
            proof {
                assert forall|j: int| 0 <= j < i + 1 && v.tasks[(#[trigger] ids@[j])@].state
                    == TaskState::Running implies listed(found@, ids@[j]@, found@.len() as int) by {
                    if j < i {
                        let m = choose|m: int|
                            0 <= m < before.len() && (#[trigger] before[m])@ == ids@[j]@;
                        assert(found@[m]@ == ids@[j]@);
                    } else {
                        assert(found@[before.len() as int]@ == id@);
                    }
                }
                assert forall|a: int, b: int| 0 <= a < b < found@.len() implies (
                #[trigger] found@[a])@ != (#[trigger] found@[b])@ by {
                    if b == before.len() {
                        let m = choose|m: int|
                            0 <= m < i && (#[trigger] ids@[m])@ == before[a]@;
                        assert(listed(ids@, before[a]@, i as int));
                        assert(ids@[m]@ != ids@[i as int]@);
                    }
                }
            }
            i += 1;
        }
        proof {
            let running = Set::new(
                |k: Seq<char>| v.tasks.contains_key(k) && v.tasks[k].state == TaskState::Running,
            );
            assert forall|k: Seq<char>| #[trigger] listed(found@, k, found@.len() as int)
                <==> running.contains(k) by {
                if listed(found@, k, found@.len() as int) {
                    let j = choose|j: int| 0 <= j < found@.len() && (#[trigger] found@[j])@ == k;
                    assert(found@[j]@ == k);
                }
                if running.contains(k) {
                    assert(v.tasks.contains_key(k));
                    let j = choose|j: int| 0 <= j < ids@.len() && (#[trigger] ids@[j])@ == k;
                    assert(ids@[j]@ == k);
                }
            }
            lemma_listed_set(found@, running);
        }
        found.len()
    }

    /// The service shuts down: no submission is accepted any more, and live tasks
    /// are paused, except those whose end is being published.
    pub fn begin_shutdown(&mut self)
        requires
            old(self).wf(),
        ensures
            final(self).wf(),
            final(self).view() == old(self).view().shut(),
    {
        let ghost v = self.view();
        self.closed = true;
        self.daily_cancel = true;
        self.requests = Table::new();
        assert(self.view().requests =~= Map::<Seq<char>, (u64, Option<TaskView>)>::empty());
        let ids = self.tasks.keys();
        let mut i: usize = 0;
        while i < ids.len()
            invariant
                i <= ids@.len(),
                self.wf(),
                forall|a: int, b: int|
                    0 <= a < b < ids@.len() ==> (#[trigger] ids@[a])@ != (#[trigger] ids@[b])@,
                forall|k: Seq<char>|
                    #[trigger] v.tasks.contains_key(k) <==> listed(ids@, k, ids@.len() as int),
                self.view().tasks.dom() == v.tasks.dom(),
                forall|j: int|
                    0 <= j < i ==> self.view().tasks[(#[trigger] ids@[j])@] == shut_task(
                        v.tasks[ids@[j]@],
                        v.committing.contains(ids@[j]@),
                    ),
                forall|j: int|
                    i <= j < ids@.len() ==> self.view().tasks[(#[trigger] ids@[j])@]
                        == v.tasks[ids@[j]@],
                self.view().requests == Map::<Seq<char>, (u64, Option<TaskView>)>::empty(),
                self.view().committing == v.committing,
                self.view().closed,
                self.view().next_token == v.next_token,
                self.view().daily_cancel,
            decreases ids@.len() - i,
        {
            let id = &ids[i];
            let ghost before = self.view();
            assert(v.tasks.contains_key(id@));
            assert(before.tasks.dom().contains(id@));
            assert(before.tasks[ids@[i as int]@] == v.tasks[id@]);
            if let Some(t) = self.tasks.get(id.as_str()) {
                if !self.committing.has(id.as_str()) && (t.state == TaskState::Queued || t.state
                    == TaskState::Running) {
                    let mut task = t.copy();
                    task.phase = if task.state == TaskState::Queued {
                        "paused".to_owned()
                    } else {
                        "pausing".to_owned()
                    };
                    task.state = TaskState::Paused;
                    task.message = "service shutting down; partials retained".to_owned();
                    let ghost shut = task@;
                    assert(shut == shut_task(v.tasks[id@], false));
                    self.tasks.insert(id.as_str(), task);
                    assert(self.view().tasks =~= before.tasks.insert(id@, shut));
                    assert(before.tasks.insert(id@, shut).dom() =~= before.tasks.dom());
                }
            }
            proof {
                assert forall|j: int| 0 <= j < i + 1 implies self.view().tasks[(
                #[trigger] ids@[j])@] == shut_task(
                    v.tasks[ids@[j]@],
                    v.committing.contains(ids@[j]@),
                ) by {
                    if j < i {
                        assert(ids@[j]@ != ids@[i as int]@);
                    }
                }
                assert forall|j: int| i + 1 <= j < ids@.len() implies self.view().tasks[(
                #[trigger] ids@[j])@] == v.tasks[ids@[j]@] by {
                    assert(ids@[i as int]@ != ids@[j]@);
                }
            }
            i += 1;
        }
        proof {
            let m = Map::new(
                |k: Seq<char>| v.tasks.contains_key(k),
                |k: Seq<char>| shut_task(v.tasks[k], v.committing.contains(k)),
            );
            assert forall|k: Seq<char>| m.contains_key(k) implies self.view().tasks[k]
                == m[k] by {
                assert(v.tasks.contains_key(k));
                let j = choose|j: int| 0 <= j < ids@.len() && (#[trigger] ids@[j])@ == k;
                assert(ids@[j]@ == k);
            }
            assert(self.view().tasks =~= m);
        }
    }

    /// Stop every task that accepts it, and ask the daily job to stop; returns how
    /// many live tasks refused, as their end is being published.
    pub fn stop_all(&mut self, cancel: bool, now: u64) -> (r: usize)
        requires
            old(self).wf(),
        ensures
            final(self).wf(),
            ({
                let v = old(self).view();
                let w = final(self).view();
                let refused = Set::new(
                    |k: Seq<char>|
                        v.tasks.contains_key(k) && live(v.tasks[k].state) && !v.can_stop(k, cancel),
                );
                &&& w.tasks == (Map::new(
                    |k: Seq<char>| v.tasks.contains_key(k),
                    |k: Seq<char>|
                        if v.can_stop(k, cancel) {
                            stopped_task(v.tasks[k], cancel, now)
                        } else {
                            v.tasks[k]
                        },
                ))
                &&& w.requests == v.requests.remove_keys(
                    Set::new(|k: Seq<char>| v.can_stop(k, cancel)),
                )
                &&& w.committing == v.committing && w.closed == v.closed && w.next_token
                    == v.next_token && w.daily_cancel
                &&& refused.finite() && r == refused.len()
            }),
    {
        let ghost v = self.view();
        self.daily_cancel = true;
        let ids = self.tasks.keys();
        let mut refused: Vec<String> = Vec::new();
        let mut i: usize = 0;
        while i < ids.len()
            invariant
                i <= ids@.len(),
                self.wf(),
                forall|a: int, b: int|
                    0 <= a < b < ids@.len() ==> (#[trigger] ids@[a])@ != (#[trigger] ids@[b])@,
                forall|k: Seq<char>| #[trigger]
                    v.tasks.contains_key(k) <==> listed(ids@, k, ids@.len() as int),
                self.view().tasks.dom() == v.tasks.dom(),
                forall|k: Seq<char>| #[trigger]
                    v.tasks.contains_key(k) ==> self.view().tasks[k] == (if listed(
                        ids@,
                        k,
                        i as int,
                    ) && v.can_stop(k, cancel) {
                        stopped_task(v.tasks[k], cancel, now)
                    } else {
                        v.tasks[k]
                    }),
                forall|k: Seq<char>| #[trigger]
                    self.view().requests.contains_key(k) <==> v.requests.contains_key(k) && !(
                    listed(ids@, k, i as int) && v.can_stop(k, cancel)),
                forall|k: Seq<char>| #[trigger]
                    self.view().requests.contains_key(k) ==> self.view().requests[k]
                        == v.requests[k],
                self.view().committing == v.committing,
                self.view().closed == v.closed,
                self.view().next_token == v.next_token,
                self.view().daily_cancel,
                forall|k: Seq<char>| #[trigger]
                    listed(refused@, k, refused@.len() as int) <==> listed(ids@, k, i as int)
                        && v.tasks.contains_key(k) && live(v.tasks[k].state) && !v.can_stop(
                        k,
                        cancel,
                    ),
                forall|a: int, b: int|
                    0 <= a < b < refused@.len() ==> (#[trigger] refused@[a])@ != (
                    #[trigger] refused@[b])@,
            decreases ids@.len() - i,
        {
            let id = &ids[i];
            let ghost before = self.view();
            let ghost old_refused = refused@;
            proof {
                assert(listed(ids@, id@, ids@.len() as int)) by {
                    assert(ids@[i as int]@ == id@);
                }
                assert(v.tasks.contains_key(id@));
                if listed(ids@, id@, i as int) {
                    let j = choose|j: int| 0 <= j < i && (#[trigger] ids@[j])@ == id@;
                    assert(ids@[j]@ != ids@[i as int]@);
                }
                assert(before.tasks.dom().contains(id@));
                assert(before.requests.contains_key(id@) == v.requests.contains_key(id@));
                assert(before.can_stop(id@, cancel) == v.can_stop(id@, cancel));
                assert(!listed(refused@, id@, refused@.len() as int));
                assert forall|k: Seq<char>| #[trigger] listed(ids@, k, i + 1) <==> (k == id@
                    || listed(ids@, k, i as int)) by {
                    if k == id@ {
                        assert(ids@[i as int]@ == k);
                    }
                    if listed(ids@, k, i as int) {
                        let j = choose|j: int| 0 <= j < i && (#[trigger] ids@[j])@ == k;
                        assert(ids@[j]@ == k);
                    }
                }
            }
            let state = self.task_state(id.as_str());
            let accepted = self.stop_task(id.as_str(), cancel, now);
            let is_live = match state {
                Some(s) => s == TaskState::Running || s == TaskState::Queued,
                None => false,
            };
            if !accepted && is_live {
                refused.push(id.clone());
            }
            proof {
                assert(self.view().tasks.dom() =~= v.tasks.dom());
                assert forall|k: Seq<char>| #[trigger] listed(refused@, k, refused@.len() as int)
                    <==> (k == id@ && !accepted && is_live) || listed(
                    old_refused,
                    k,
                    old_refused.len() as int,
                ) by {
                    if k == id@ && !accepted && is_live {
                        assert(refused@[old_refused.len() as int]@ == k);
                    }
                    if listed(old_refused, k, old_refused.len() as int) {
                        let j = choose|j: int|
                            0 <= j < old_refused.len() && (#[trigger] old_refused[j])@ == k;
                        assert(refused@[j]@ == k);
                    }
                    if listed(refused@, k, refused@.len() as int) {
                        let j = choose|j: int|
                            0 <= j < refused@.len() && (#[trigger] refused@[j])@ == k;
                        if j < old_refused.len() {
                            assert(old_refused[j]@ == k);
                        }
                    }
                }
                assert forall|a: int, b: int| 0 <= a < b < refused@.len() implies (
                #[trigger] refused@[a])@ != (#[trigger] refused@[b])@ by {
                    if b == old_refused.len() {
                        assert(old_refused[a]@ != id@);
                    } else {
                        assert(old_refused[a]@ != old_refused[b]@);
                    }
                }
            }
            i += 1;
        }
        proof {
            let w = self.view();
            let m = Map::new(
                |k: Seq<char>| v.tasks.contains_key(k),
                |k: Seq<char>|
                    if v.can_stop(k, cancel) {
                        stopped_task(v.tasks[k], cancel, now)
                    } else {
                        v.tasks[k]
                    },
            );
            assert forall|k: Seq<char>| v.tasks.contains_key(k) implies #[trigger] listed(
                ids@,
                k,
                i as int,
            ) by {}
            assert forall|k: Seq<char>| #[trigger] m.contains_key(k) implies w.tasks[k] == m[k] by {
                assert(v.tasks.contains_key(k));
            }
            assert(w.tasks =~= m);
            assert forall|k: Seq<char>| #[trigger] v.can_stop(k, cancel) implies listed(
                ids@,
                k,
                i as int,
            ) by {
                assert(v.tasks.contains_key(k));
            }
            assert(w.requests =~= v.requests.remove_keys(
                Set::new(|k: Seq<char>| v.can_stop(k, cancel)),
            ));
            let r = Set::new(
                |k: Seq<char>|
                    v.tasks.contains_key(k) && live(v.tasks[k].state) && !v.can_stop(k, cancel),
            );
            assert forall|k: Seq<char>| #[trigger] listed(refused@, k, refused@.len() as int)
                <==> r.contains(k) by {
                if r.contains(k) {
                    assert(v.tasks.contains_key(k));
                }
            }
            lemma_listed_set(refused@, r);
        }
        refused.len()
    }

    /// Ask the daily job to stop.
    pub fn request_daily_cancel(&mut self)
        requires
            old(self).wf(),
        ensures
            final(self).wf(),
            final(self).view() == (RegistryView { daily_cancel: true, ..old(self).view() }),
    {
        self.daily_cancel = true;
    }

    /// Whether submissions are no longer accepted.
    pub fn is_closed(&self) -> (r: bool)
        ensures
            r == self.view().closed,
    {
        self.closed
    }

    /// Whether the daily job was asked to stop; asking is then over.
    pub fn take_daily_cancel(&mut self) -> (r: bool)
        requires
            old(self).wf(),
        ensures
            final(self).wf(),
            r == old(self).view().daily_cancel,
            final(self).view() == (RegistryView { daily_cancel: false, ..old(self).view() }),
    {
        let asked = self.daily_cancel;
        self.daily_cancel = false;
        asked
    }
}

// ── Laws ─────────────────────────────────────────────────────────────────

/// While the end of a task is being published, it can neither be stopped nor
/// resumed nor registered anew, and a shutdown leaves it alone.
pub proof fn law_publication_is_final(v: RegistryView, id: Seq<char>, cancel: bool, idle: bool)
    requires
        v.committing.contains(id),
    ensures
        !v.can_stop(id, cancel),
        !v.can_resume(id),
        !v.can_register(id, idle),
        v.tasks.contains_key(id) ==> v.shut().tasks[id] == v.tasks[id],
{
}

/// What is done to one task leaves all others and their submissions alone. A task that
/// is registered is there as it was given, under a submission that nobody had before;
/// one that is to be resumed stays as it was until its turn, and keeps what was
/// downloaded of it; one that is stopped is so from then on, keeps what was downloaded
/// of it, and has no submission left.
pub proof fn law_tasks_change_alone(
    v: RegistryView,
    t: TaskView,
    id: Seq<char>,
    cancel: bool,
    now: u64,
    other: Seq<char>,
)
    requires
        v.inv(),
        v.next_token < u64::MAX,
        v.tasks.contains_key(id),
    ensures
        ({
            let r = v.registered(t);
            &&& r.tasks.contains_key(t.id) && r.tasks[t.id] == t
            &&& forall|token: u64| #[trigger] r.current(t.id, token) ==> !v.current(t.id, token)
            &&& r.requests.contains_key(t.id) && !r.pending(t.id)
            &&& other != t.id ==> (r.tasks.contains_key(other) <==> v.tasks.contains_key(other))
                && r.tasks[other] == v.tasks[other] && (r.requests.contains_key(other)
                <==> v.requests.contains_key(other)) && r.requests[other] == v.requests[other]
            &&& r.committing == v.committing && r.closed == v.closed && r.daily_cancel
                == v.daily_cancel
        }),
        ({
            let r = v.resumed(id, now);
            &&& r.tasks == v.tasks && r.pending(id)
            &&& r.requests[id].1 matches Some(w) && w.state == TaskState::Queued && w.id
                == v.tasks[id].id && w.url == v.tasks[id].url && w.title == v.tasks[id].title
                && w.path == v.tasks[id].path && w.done_segments == v.tasks[id].done_segments
                && w.total_segments == v.tasks[id].total_segments && w.downloaded_bytes
                == v.tasks[id].downloaded_bytes
            &&& forall|token: u64| #[trigger] r.current(id, token) ==> !v.current(id, token)
            &&& other != id ==> (r.requests.contains_key(other) <==> v.requests.contains_key(other))
                && r.requests[other] == v.requests[other]
        }),
        ({
            let r = v.stopped(id, cancel, now);
            let w = r.tasks[id];
            &&& w.state == (if cancel {
                TaskState::Cancelled
            } else {
                TaskState::Paused
            })
            &&& w.id == v.tasks[id].id && w.url == v.tasks[id].url && w.title == v.tasks[id].title
                && w.path == v.tasks[id].path && w.done_segments == v.tasks[id].done_segments
                && w.downloaded_bytes == v.tasks[id].downloaded_bytes
            &&& !r.requests.contains_key(id)
            &&& other != id ==> (r.tasks.contains_key(other) <==> v.tasks.contains_key(other))
                && r.tasks[other] == v.tasks[other] && (r.requests.contains_key(other)
                <==> v.requests.contains_key(other)) && r.requests[other] == v.requests[other]
            &&& r.committing == v.committing && r.closed == v.closed
        }),
{
}

/// A task can be registered unless one of that id waits, is at work, waits to be
/// resumed, is being published or has an owner left; it can be resumed once it was
/// paused, cancelled or failed; it can be paused while it waits or is at work, and
/// cancelled unless it has ended. A service that shuts down takes nothing on.
pub proof fn law_what_tasks_accept(v: RegistryView, id: Seq<char>, idle: bool)
    ensures
        v.can_register(id, idle) <==> idle && !v.closed && !v.committing.contains(id)
            && !v.pending(id) && (v.tasks.contains_key(id) ==> v.tasks[id].state
            != TaskState::Queued && v.tasks[id].state != TaskState::Running),
        v.can_resume(id) <==> !v.closed && !v.committing.contains(id) && !v.pending(id)
            && v.tasks.contains_key(id) && (v.tasks[id].state == TaskState::Paused
            || v.tasks[id].state == TaskState::Cancelled || v.tasks[id].state == TaskState::Failed),
        v.can_stop(id, false) <==> !v.committing.contains(id) && v.tasks.contains_key(id) && (
        v.pending(id) || v.tasks[id].state == TaskState::Queued || v.tasks[id].state
            == TaskState::Running),
        v.can_stop(id, true) <==> !v.committing.contains(id) && v.tasks.contains_key(id) && (
        v.pending(id) || v.tasks[id].state == TaskState::Queued || v.tasks[id].state
            == TaskState::Running || v.tasks[id].state == TaskState::Paused),
        v.can_commit(id) <==> v.committing.contains(id) || (v.tasks.contains_key(id)
            && v.tasks[id].state == TaskState::Running),
{
}

/// Clearing the history touches only what has ended: by age, tasks that ended long
/// enough ago; otherwise, those that failed. What waits, is at work, is paused or waits
/// to be resumed stays.
pub proof fn law_only_ended_tasks_are_cleared(v: RegistryView, id: Seq<char>, cutoff: Option<u64>)
    ensures
        v.selected(id, cutoff) ==> {
            &&& v.tasks.contains_key(id) && !v.pending(id)
            &&& v.tasks[id].state != TaskState::Queued && v.tasks[id].state != TaskState::Running
                && v.tasks[id].state != TaskState::Paused
            &&& cutoff matches Some(limit) ==> v.tasks[id].updated_at <= limit
            &&& cutoff is None ==> v.tasks[id].state == TaskState::Failed
        },
        v.tasks.contains_key(id) && !v.pending(id) && (v.tasks[id].state == TaskState::Completed
            || v.tasks[id].state == TaskState::Failed || v.tasks[id].state == TaskState::Cancelled
            || v.tasks[id].state == TaskState::Skipped) ==> (cutoff matches Some(limit)
            ==> v.tasks[id].updated_at <= limit ==> v.selected(id, cutoff)),
        v.tasks.contains_key(id) && !v.pending(id) && v.tasks[id].state == TaskState::Failed
            ==> v.selected(id, None),
{
}

/// A task that is waiting or at work is not registered a second time: once it
/// is, nothing but its end or a stop makes room for another one.
pub proof fn law_no_duplicate_tasks(v: RegistryView, t: TaskView, idle: bool)
    requires
        live(t.state),
    ensures
        !v.registered(t).can_register(t.id, idle),
        v.tasks.contains_key(t.id) && live(v.tasks[t.id].state) ==> !v.can_register(t.id, idle),
{
}

/// A stop that is accepted before the end of a task is published wins over it,
/// and withdraws every submission of the task, pending restarts too; a new
/// restart can then be asked for.
pub proof fn law_accepted_stop_wins(v: RegistryView, id: Seq<char>, cancel: bool, now: u64)
    requires
        v.can_stop(id, cancel),
    ensures
        ({
            let w = v.stopped(id, cancel, now);
            &&& !w.can_commit(id)
            &&& forall|token: u64| !w.current(id, token)
            &&& !w.pending(id)
            &&& !live(w.tasks[id].state)
            &&& !v.closed ==> w.can_resume(id)
        }),
{
}

/// A restart that is asked for never takes a stop back: what the previous owner
/// sees of the task stays as it was, and a second restart is not accepted.
pub proof fn law_restart_keeps_the_stop(v: RegistryView, id: Seq<char>, now: u64)
    requires
        v.can_resume(id),
    ensures
        ({
            let w = v.resumed(id, now);
            &&& w.tasks == v.tasks
            &&& w.pending(id)
            &&& !w.can_resume(id)
            &&& w.can_stop(id, true)
        }),
{
}

/// A newer submission, be it a new task or a restart, makes every older one of
/// the same task obsolete, and no other.
pub proof fn law_newer_submission_wins(
    v: RegistryView,
    t: TaskView,
    now: u64,
    older: u64,
    other: Seq<char>,
)
    requires
        v.inv(),
        v.current(t.id, older),
        other != t.id,
    ensures
        !v.registered(t).current(t.id, older),
        v.registered(t).current(t.id, v.next_token),
        !v.resumed(t.id, now).current(t.id, older),
        v.resumed(t.id, now).current(t.id, v.next_token),
        forall|token: u64|
            v.registered(t).current(other, token) == v.current(other, token)
                && v.resumed(t.id, now).current(other, token) == v.current(other, token),
{
}

/// After a shutdown no task is waiting, and none is at work unless its end is
/// being published; no submission is left, and none is accepted. Shutting down
/// again changes nothing.
pub proof fn law_shutdown_stops_everything(v: RegistryView, id: Seq<char>, idle: bool)
    ensures
        ({
            let w = v.shut();
            &&& w.tasks.contains_key(id) && live(w.tasks[id].state) ==> w.committing.contains(id)
            &&& forall|token: u64| !w.current(id, token)
            &&& !w.can_register(id, idle)
            &&& !w.can_resume(id)
            &&& w.shut() == w
        }),
{
    let w = v.shut();
    assert(w.shut().tasks =~= w.tasks);
}

// ── Settings ─────────────────────────────────────────────────────────────

/// Whether a change of settings concerns the browser.
pub open spec fn browser_changed(a: Config, b: Config) -> bool {
    ||| a.browser_enabled != b.browser_enabled
    ||| a.browser_path@ != b.browser_path@
    ||| a.browser_profile_dir@ != b.browser_profile_dir@
    ||| a.site_base@ != b.site_base@
    ||| a.popular_path@ != b.popular_path@
    ||| link_views(a.links@) != link_views(b.links@)
    ||| a.user_agent@ != b.user_agent@
}

/// Whether a change of settings concerns the credentials.
pub open spec fn credentials_changed(a: Config, b: Config) -> bool {
    a.cookie@ != b.cookie@ || a.user_agent@ != b.user_agent@ || a.site_base@ != b.site_base@
}

/// What a change of settings concerns: the browser, and the credentials.
#[derive(Debug, Clone, Copy, PartialEq, Eq, Structural)]
pub struct SettingsChange {
    pub browser: bool,
    pub credentials: bool,
}

fn same_links(a: &Vec<ListingLink>, b: &Vec<ListingLink>) -> (r: bool)
    ensures
        r == (link_views(a@) == link_views(b@)),
{
    let ghost x = link_views(a@);
    let ghost y = link_views(b@);
    if a.len() != b.len() {
        assert(x.len() != y.len());
        return false;
    }
    let mut i: usize = 0;
    while i < a.len()
        invariant
            i <= a@.len() == b@.len(),
            x == link_views(a@),
            y == link_views(b@),
            forall|k: int| 0 <= k < i ==> x[k] == y[k],
        decreases a@.len() - i,
    {
        assert(x[i as int] == link_view(a@[i as int]));
        assert(y[i as int] == link_view(b@[i as int]));
        if a[i].daily_quota != b[i].daily_quota || !same_str(a[i].url.as_str(), b[i].url.as_str()) {
            return false;
        }
        i += 1;
    }
    assert(x =~= y);
    true
}

/// What a change of settings concerns.
pub fn settings_change(next: &Config, previous: &Config) -> (r: SettingsChange)
    ensures
        r.browser == browser_changed(*next, *previous),
        r.credentials == credentials_changed(*next, *previous),
{
    let site = !same_str(next.site_base.as_str(), previous.site_base.as_str());
    let agent = !same_str(next.user_agent.as_str(), previous.user_agent.as_str());
    let browser = next.browser_enabled != previous.browser_enabled || !same_str(
        next.browser_path.as_str(),
        previous.browser_path.as_str(),
    ) || !same_str(next.browser_profile_dir.as_str(), previous.browser_profile_dir.as_str())
        || site || !same_str(next.popular_path.as_str(), previous.popular_path.as_str())
        || !same_links(&next.links, &previous.links) || agent;
    let credentials = !same_str(next.cookie.as_str(), previous.cookie.as_str()) || agent || site;
    SettingsChange { browser, credentials }
}

/// The settings of the engine under the common ones, which say where its files
/// go.
pub fn config_with_paths(cfg: &Config, common: &AppConfig) -> (r: Config)
    ensures
        r@ == (ConfigView {
            save_path: common.jav_download_path@,
            temp_path: common.temp_path@,
            ..cfg@
        }),
{
    let mut r = cfg.copy();
    r.save_path = common.jav_download_path.as_str().to_owned();
    r.temp_path = common.temp_path.as_str().to_owned();
    r
}

/// What new settings change, where they are taken over: not while the service
/// shuts down.
pub fn update_config(next: &Config, previous: &Config, closed: bool) -> (r: Result<
    SettingsChange,
    &'static str,
>)
    ensures
        if closed {
            r matches Err(e) && e@ == "service shutting down; settings rejected"@
        } else {
            r matches Ok(c) && c.browser == browser_changed(*next, *previous) && c.credentials
                == credentials_changed(*next, *previous)
        },
{
    if closed {
        Err("service shutting down; settings rejected")
    } else {
        Ok(settings_change(next, previous))
    }
}

} // verus!
