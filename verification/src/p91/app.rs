//! The tasks of the engine: which downloads exist and which changes they still
//! accept.
//!
//! A pause is an unwind request: the task stays at work, in the phase `pausing`,
//! until its owner has flushed what it holds. Times are seconds since the epoch.
use vstd::prelude::*;
use crate::configuration::app::Config as AppConfig;
use crate::configuration::p91::{Config, ConfigView};
use crate::table::{lemma_listed_set, listed, Table};
use crate::text::{clone_opt, opt_view, same_str, to_chars, trim, trim_str};

verus! {

/// Where a download stands.
#[derive(Debug, Clone, Copy, PartialEq, Eq, Structural)]
pub enum TaskState {
    Queued,
    Running,
    Paused,
    Completed,
    Failed,
    Cancelled,
}

/// Live state of one video download.
#[derive(Debug, Clone)]
pub struct TaskInfo {
    pub id: String,
    pub url: String,
    pub title: String,
    /// The video id that the listing named.
    pub vid: Option<String>,
    pub source_url: String,
    pub state: TaskState,
    /// Human-readable stage: `resolving`, `downloading`, …
    pub phase: String,
    pub done_segments: usize,
    pub total_segments: usize,
    pub downloaded_bytes: u64,
    pub total_bytes: u64,
    /// Bytes per second.
    pub speed: u64,
    pub message: String,
    pub path: String,
    pub updated_at: u64,
}

/// What a task holds.
pub struct TaskView {
    pub id: Seq<char>,
    pub url: Seq<char>,
    pub title: Seq<char>,
    pub vid: Option<Seq<char>>,
    pub source_url: Seq<char>,
    pub state: TaskState,
    pub phase: Seq<char>,
    pub done_segments: usize,
    pub total_segments: usize,
    pub downloaded_bytes: u64,
    pub total_bytes: u64,
    pub speed: u64,
    pub message: Seq<char>,
    pub path: Seq<char>,
    pub updated_at: u64,
}

impl View for TaskInfo {
    type V = TaskView;

    open spec fn view(&self) -> TaskView {
        TaskView {
            id: self.id@,
            url: self.url@,
            title: self.title@,
            vid: opt_view(self.vid),
            source_url: self.source_url@,
            state: self.state,
            phase: self.phase@,
            done_segments: self.done_segments,
            total_segments: self.total_segments,
            downloaded_bytes: self.downloaded_bytes,
            total_bytes: self.total_bytes,
            speed: self.speed,
            message: self.message@,
            path: self.path@,
            updated_at: self.updated_at,
        }
    }
}

/// Whether a task in that state will not progress on its own.
pub open spec fn terminal(state: TaskState) -> bool {
    state == TaskState::Completed || state == TaskState::Failed || state == TaskState::Cancelled
}

/// Whether a task in that state is waiting or at work.
pub open spec fn live(state: TaskState) -> bool {
    state == TaskState::Queued || state == TaskState::Running
}

impl TaskInfo {
    /// A task that waits for its turn.
    pub fn new(id: &str, url: &str, now: u64) -> (r: Self)
        ensures
            r@ == (TaskView {
                id: id@,
                url: url@,
                title: Seq::empty(),
                vid: None,
                source_url: Seq::empty(),
                state: TaskState::Queued,
                phase: "queued"@,
                done_segments: 0,
                total_segments: 0,
                downloaded_bytes: 0,
                total_bytes: 0,
                speed: 0,
                message: Seq::empty(),
                path: Seq::empty(),
                updated_at: now,
            }),
    {
        TaskInfo {
            id: id.to_owned(),
            url: url.to_owned(),
            title: String::new(),
            vid: None,
            source_url: String::new(),
            state: TaskState::Queued,
            phase: "queued".to_owned(),
            done_segments: 0,
            total_segments: 0,
            downloaded_bytes: 0,
            total_bytes: 0,
            speed: 0,
            message: String::new(),
            path: String::new(),
            updated_at: now,
        }
    }

    /// True when the task is in a state that will not progress on its own.
    pub fn is_terminal(&self) -> (r: bool)
        ensures
            r == terminal(self.state),
    {
        self.state == TaskState::Completed || self.state == TaskState::Failed || self.state
            == TaskState::Cancelled
    }

    /// A copy of the task.
    pub fn copy(&self) -> (r: Self)
        ensures
            r@ == self@,
    {
        TaskInfo {
            id: self.id.clone(),
            url: self.url.clone(),
            title: self.title.clone(),
            vid: clone_opt(&self.vid),
            source_url: self.source_url.clone(),
            state: self.state,
            phase: self.phase.clone(),
            done_segments: self.done_segments,
            total_segments: self.total_segments,
            downloaded_bytes: self.downloaded_bytes,
            total_bytes: self.total_bytes,
            speed: self.speed,
            message: self.message.clone(),
            path: self.path.clone(),
            updated_at: self.updated_at,
        }
    }
}

/// The state of the schedule, for status reporting.
#[derive(Debug, Clone)]
pub struct SchedulerStatus {
    pub enabled: bool,
    pub daily_time: String,
    pub next_run_at: Option<String>,
    pub last_run_at: Option<String>,
    pub last_result: String,
    pub running: bool,
}

impl Default for SchedulerStatus {
    fn default() -> (r: Self)
        ensures
            r.enabled,
            r.daily_time@ == "03:30"@,
            r.next_run_at is None,
            r.last_run_at is None,
            r.last_result@ == Seq::<char>::empty(),
            !r.running,
    {
        SchedulerStatus {
            enabled: true,
            daily_time: "03:30".to_owned(),
            next_run_at: None,
            last_run_at: None,
            last_result: String::new(),
            running: false,
        }
    }
}

/// The tasks of the engine.
pub struct TaskRegistry {
    tasks: Table<TaskInfo>,
    committing: Table<bool>,
    pausing: Table<bool>,
    closed: bool,
    daily_cancel: bool,
}

/// What a registry holds.
pub struct RegistryView {
    pub tasks: Map<Seq<char>, TaskView>,
    /// The tasks whose end is being published.
    pub committing: Set<Seq<char>>,
    /// The tasks that were asked to pause.
    pub pausing: Set<Seq<char>>,
    /// No submission is accepted any more.
    pub closed: bool,
    /// The daily job is asked to stop.
    pub daily_cancel: bool,
}

/// Whether a task at work has been asked to pause by its phase.
pub open spec fn unwinding(t: TaskView) -> bool {
    t.state == TaskState::Running && t.phase == "pausing"@
}

impl RegistryView {
    /// What holds of every registry: tasks are found under their ids.
    pub open spec fn inv(self) -> bool {
        forall|k: Seq<char>| #[trigger] self.tasks.contains_key(k) ==> self.tasks[k].id == k
    }

    /// Whether a new task is accepted: the previous owner is done, and no live
    /// task is in the way.
    pub open spec fn can_register(self, id: Seq<char>, idle: bool) -> bool {
        &&& idle
        &&& !self.closed
        &&& self.tasks.contains_key(id) ==> !live(self.tasks[id].state)
    }

    /// Whether a stop is accepted: a task that still progresses, or waits to be
    /// resumed, is cancelled, and a live one is paused.
    pub open spec fn can_stop(self, id: Seq<char>, cancel: bool) -> bool {
        &&& !self.committing.contains(id)
        &&& self.tasks.contains_key(id)
        &&& if cancel {
            !terminal(self.tasks[id].state)
        } else {
            live(self.tasks[id].state)
        }
    }

    /// Whether the end of a task may be published: it is at work, and was not
    /// asked to pause.
    pub open spec fn can_commit(self, id: Seq<char>) -> bool {
        &&& !self.pausing.contains(id)
        &&& self.tasks.contains_key(id)
        &&& self.tasks[id].state == TaskState::Running
        &&& self.tasks[id].phase != "pausing"@
    }

    /// The registry once a new task is accepted.
    pub open spec fn registered(self, t: TaskView) -> RegistryView {
        RegistryView {
            tasks: self.tasks.insert(t.id, t),
            pausing: self.pausing.remove(t.id),
            ..self
        }
    }

    /// The registry once a stop is accepted.
    pub open spec fn stopped(self, id: Seq<char>, cancel: bool, now: u64) -> RegistryView {
        RegistryView {
            tasks: self.tasks.insert(id, stopped_task(self.tasks[id], cancel, now)),
            pausing: if cancel {
                self.pausing.remove(id)
            } else {
                self.pausing.insert(id)
            },
            ..self
        }
    }

    /// The registry once the service shuts down.
    pub open spec fn shut(self) -> RegistryView {
        RegistryView {
            tasks: Map::new(
                |k: Seq<char>| self.tasks.contains_key(k),
                |k: Seq<char>| shut_task(self.tasks[k], self.committing.contains(k)),
            ),
            committing: self.committing,
            pausing: self.pausing.union(
                Set::new(
                    |k: Seq<char>|
                        self.tasks.contains_key(k) && shuts(
                            self.tasks[k],
                            self.committing.contains(k),
                        ),
                ),
            ),
            closed: true,
            daily_cancel: true,
        }
    }

    /// What the owner of a task has to heed: a pause that was asked for, or the
    /// task's state.
    pub open spec fn control(self, id: Seq<char>) -> Option<TaskState> {
        if !self.tasks.contains_key(id) {
            None
        } else if self.pausing.contains(id) || unwinding(self.tasks[id]) {
            Some(TaskState::Paused)
        } else {
            Some(self.tasks[id].state)
        }
    }

    /// Whether a task is to be forgotten: failed, or, where a cutoff is given,
    /// finished and unchanged since.
    pub open spec fn selected(self, id: Seq<char>, cutoff: Option<u64>) -> bool {
        &&& self.tasks.contains_key(id)
        &&& match cutoff {
            Some(limit) => terminal(self.tasks[id].state) && self.tasks[id].updated_at <= limit,
            None => self.tasks[id].state == TaskState::Failed,
        }
    }
}

/// A task that a user has stopped: a cancelled one is cancelled at once; a paused
/// one that is at work stays at work until it has unwound.
pub open spec fn stopped_task(t: TaskView, cancel: bool, now: u64) -> TaskView {
    if cancel {
        TaskView {
            state: TaskState::Cancelled,
            phase: if t.state == TaskState::Queued {
                "cancelled"@
            } else {
                "cancelling"@
            },
            message: "cancelled by user"@,
            updated_at: now,
            ..t
        }
    } else {
        TaskView {
            state: if t.state == TaskState::Queued {
                TaskState::Paused
            } else {
                t.state
            },
            phase: if t.state == TaskState::Queued {
                "paused"@
            } else {
                "pausing"@
            },
            message: "paused by user"@,
            updated_at: now,
            ..t
        }
    }
}

/// Whether a shutdown pauses a task: it is live, and not being published.
pub open spec fn shuts(t: TaskView, committing: bool) -> bool {
    !committing && live(t.state)
}

/// A task when the service shuts down.
pub open spec fn shut_task(t: TaskView, committing: bool) -> TaskView {
    if !shuts(t, committing) {
        t
    } else {
        TaskView {
            state: if t.state == TaskState::Queued {
                TaskState::Paused
            } else {
                t.state
            },
            phase: if t.state == TaskState::Queued {
                "paused"@
            } else {
                "pausing"@
            },
            message: "service shutting down; partials retained"@,
            ..t
        }
    }
}

/// Whether tasks are in the order of their last change, the latest first.
pub open spec fn by_age(list: Seq<TaskInfo>) -> bool {
    forall|i: int, j: int|
        0 <= i < j < list.len() ==> (#[trigger] list[i]).updated_at >= (
        #[trigger] list[j]).updated_at
}

/// Whether a task with that id is in a list.
pub open spec fn holds(list: Seq<TaskInfo>, id: Seq<char>) -> bool {
    exists|i: int| 0 <= i < list.len() && (#[trigger] list[i]).id@ == id
}

/// Whether no two tasks of a list have the same id.
pub open spec fn one_each(list: Seq<TaskInfo>) -> bool {
    forall|i: int, j: int|
        0 <= i < j < list.len() ==> (#[trigger] list[i]).id@ != (#[trigger] list[j]).id@
}

fn insert_by_age(list: &mut Vec<TaskInfo>, t: TaskInfo)
    requires
        by_age(old(list)@),
        one_each(old(list)@),
        !holds(old(list)@, t.id@),
    ensures
        by_age(final(list)@),
        one_each(final(list)@),
        forall|k: Seq<char>| #[trigger]
            holds(final(list)@, k) <==> k == t.id@ || holds(old(list)@, k),
        forall|i: int|
            0 <= i < final(list)@.len() ==> (#[trigger] final(list)@[i]) == t || exists|j: int|
                0 <= j < old(list)@.len() && #[trigger] old(list)@[j] == final(list)@[i],
{
    let ghost before = list@;
    let mut p: usize = 0;
    while p < list.len() && list[p].updated_at >= t.updated_at
        invariant
            p <= list@.len(),
            list@ == before,
            forall|j: int| 0 <= j < p ==> (#[trigger] before[j]).updated_at >= t.updated_at,
        decreases list@.len() - p,
    {
        p += 1;
    }
    let ghost at = p as int;
    let ghost new = t;
    list.insert(p, t);
    proof {
        let after = list@;
        assert(after =~= before.insert(at, new));
        assert forall|i: int, j: int| 0 <= i < j < after.len() implies (
        #[trigger] after[i]).updated_at >= (#[trigger] after[j]).updated_at by {
            let x = if i < at {
                i
            } else {
                i - 1
            };
            let y = if j < at {
                j
            } else {
                j - 1
            };
            if i != at && j != at {
                assert(before[x].updated_at >= before[y].updated_at);
            } else if i == at {
                assert(before[at].updated_at < new.updated_at);
                if y > at {
                    assert(before[at].updated_at >= before[y].updated_at);
                }
            } else {
                assert(before[x].updated_at >= new.updated_at);
            }
        }
        assert forall|i: int, j: int| 0 <= i < j < after.len() implies (#[trigger] after[i]).id@ != (
        #[trigger] after[j]).id@ by {
            let x = if i < at {
                i
            } else {
                i - 1
            };
            let y = if j < at {
                j
            } else {
                j - 1
            };
            if i != at && j != at {
                assert(before[x].id@ != before[y].id@);
            } else if i == at {
                assert(before[y].id@ != new.id@);
            } else {
                assert(before[x].id@ != new.id@);
            }
        }
        assert forall|k: Seq<char>| #[trigger] holds(after, k) <==> k == new.id@ || holds(
            before,
            k,
        ) by {
            if holds(after, k) {
                let i = choose|i: int| 0 <= i < after.len() && (#[trigger] after[i]).id@ == k;
                if i < at {
                    assert(before[i].id@ == k);
                } else if i > at {
                    assert(before[i - 1].id@ == k);
                }
            }
            if k == new.id@ {
                assert(after[at].id@ == k);
            }
            if holds(before, k) {
                let i = choose|i: int| 0 <= i < before.len() && (#[trigger] before[i]).id@ == k;
                if i < at {
                    assert(after[i].id@ == k);
                } else {
                    assert(after[i + 1].id@ == k);
                }
            }
        }
        assert forall|i: int| 0 <= i < after.len() implies (#[trigger] after[i]) == new
            || exists|j: int| 0 <= j < before.len() && #[trigger] before[j] == after[i] by {
            if i < at {
                assert(before[i] == after[i]);
            } else if i > at {
                assert(before[i - 1] == after[i]);
            }
        }
    }
}

impl TaskRegistry {
    /// What the registry holds.
    pub closed spec fn view(&self) -> RegistryView {
        RegistryView {
            tasks: self.tasks.view().map_values(|t: TaskInfo| t@),
            committing: self.committing.view().dom(),
            pausing: self.pausing.view().dom(),
            closed: self.closed,
            daily_cancel: self.daily_cancel,
        }
    }

    /// The registry is consistent.
    pub closed spec fn wf(&self) -> bool {
        &&& self.tasks.wf()
        &&& self.committing.wf()
        &&& self.pausing.wf()
        &&& self.view().inv()
    }

    /// The invariant holds of every consistent registry.
    pub proof fn law_wf_is_inv(&self)
        requires
            self.wf(),
        ensures
            self.view().inv(),
    {
    }

    /// A registry without tasks.
    pub fn new() -> (r: Self)
        ensures
            r.wf(),
            r.view() == (RegistryView {
                tasks: Map::empty(),
                committing: Set::empty(),
                pausing: Set::empty(),
                closed: false,
                daily_cancel: false,
            }),
    {
        let r = TaskRegistry {
            tasks: Table::new(),
            committing: Table::new(),
            pausing: Table::new(),
            closed: false,
            daily_cancel: false,
        };
        assert(r.view().tasks =~= Map::<Seq<char>, TaskView>::empty());
        assert(r.view().committing =~= Set::<Seq<char>>::empty());
        assert(r.view().pausing =~= Set::<Seq<char>>::empty());
        r
    }

    /// A copy of a task.
    pub fn task(&self, id: &str) -> (r: Option<TaskInfo>)
        requires
            self.wf(),
        ensures
            match r {
                Some(t) => self.view().tasks.contains_key(id@) && self.view().tasks[id@] == t@,
                None => !self.view().tasks.contains_key(id@),
            },
    {
        match self.tasks.get(id) {
            Some(t) => Some(t.copy()),
            None => None,
        }
    }

    /// The state of a task.
    pub fn task_state(&self, id: &str) -> (r: Option<TaskState>)
        requires
            self.wf(),
        ensures
            match r {
                Some(s) => self.view().tasks.contains_key(id@) && self.view().tasks[id@].state == s,
                None => !self.view().tasks.contains_key(id@),
            },
    {
        match self.tasks.get(id) {
            Some(t) => Some(t.state),
            None => None,
        }
    }

    /// What the owner of a task has to heed.
    pub fn task_control(&self, id: &str) -> (r: Option<TaskState>)
        requires
            self.wf(),
        ensures
            r == self.view().control(id@),
    {
        match self.tasks.get(id) {
            Some(t) => if self.pausing.has(id) || (t.state == TaskState::Running && same_str(
                t.phase.as_str(),
                "pausing",
            )) {
                Some(TaskState::Paused)
            } else {
                Some(t.state)
            },
            None => None,
        }
    }

    /// Whether the task may be started, and how many may run at the same time:
    /// at least one and at most eight.
    pub fn slot_limit(&self, id: &str, concurrent: usize) -> (r: Option<usize>)
        requires
            self.wf(),
        ensures
            ({
                let v = self.view();
                if !v.closed && v.tasks.contains_key(id@) && v.tasks[id@].state
                    == TaskState::Queued {
                    r == Some(
                        if concurrent < 1 {
                            1usize
                        } else if concurrent > 8 {
                            8
                        } else {
                            concurrent
                        },
                    )
                } else {
                    r is None
                }
            }),
    {
        let queued = match self.tasks.get(id) {
            Some(t) => t.state == TaskState::Queued,
            None => false,
        };
        if self.closed || !queued {
            return None;
        }
        Some(
            if concurrent < 1 {
                1
            } else if concurrent > 8 {
                8
            } else {
                concurrent
            },
        )
    }

    /// Register a new task. Returns false when one is already active for its id.
    pub fn register_task(&mut self, info: TaskInfo, idle: bool) -> (r: bool)
        requires
            old(self).wf(),
        ensures
            final(self).wf(),
            ({
                let v = old(self).view();
                if v.can_register(info.id@, idle) {
                    r && final(self).view() == v.registered(info@)
                } else {
                    !r && final(self).view() == v
                }
            }),
    {
        let ghost v = self.view();
        let id = info.id.clone();
        let busy = match self.tasks.get(id.as_str()) {
            Some(t) => t.state == TaskState::Queued || t.state == TaskState::Running,
            None => false,
        };
        if !idle || self.closed || busy {
            return false;
        }
        let ghost t = info@;
        let _ = self.pausing.remove(id.as_str());
        self.tasks.insert(id.as_str(), info);
        assert(self.view().tasks =~= v.tasks.insert(id@, t));
        assert(self.view().pausing =~= v.pausing.remove(id@));
        true
    }

    /// A user stops a task. A stop is refused while the end of the task is being
    /// published.
    pub fn stop_task(&mut self, id: &str, cancel: bool, now: u64) -> (r: bool)
        requires
            old(self).wf(),
        ensures
            final(self).wf(),
            ({
                let v = old(self).view();
                if v.can_stop(id@, cancel) {
                    r && final(self).view() == v.stopped(id@, cancel, now)
                } else {
                    !r && final(self).view() == v
                }
            }),
    {
        let ghost v = self.view();
        if self.committing.has(id) {
            return false;
        }
        let mut task = match self.tasks.get(id) {
            Some(t) => t.copy(),
            None => {
                return false;
            },
        };
        let refused = if cancel {
            task.is_terminal()
        } else {
            !(task.state == TaskState::Running || task.state == TaskState::Queued)
        };
        if refused {
            return false;
        }
        let queued = task.state == TaskState::Queued;
        if cancel {
            task.phase = if queued {
                "cancelled".to_owned()
            } else {
                "cancelling".to_owned()
            };
            task.state = TaskState::Cancelled;
            task.message = "cancelled by user".to_owned();
        } else {
            if queued {
                task.state = TaskState::Paused;
            }
            task.phase = if queued {
                "paused".to_owned()
            } else {
                "pausing".to_owned()
            };
            task.message = "paused by user".to_owned();
        }
        task.updated_at = now;
        let ghost t = task@;
        assert(v.tasks.contains_key(id@));
        assert(t == stopped_task(v.tasks[id@], cancel, now));
        self.tasks.insert(id, task);
        assert(self.view().tasks =~= v.tasks.insert(id@, t));
        if cancel {
            let _ = self.pausing.remove(id);
            assert(self.view().pausing =~= v.pausing.remove(id@));
        } else {
            self.pausing.insert(id, true);
            assert(self.view().pausing =~= v.pausing.insert(id@));
        }
        true
    }

    /// The point from which stops are refused. A task that is being published
    /// already may enter again.
    pub fn begin_terminal_commit(&mut self, id: &str) -> (r: bool)
        requires
            old(self).wf(),
        ensures
            final(self).wf(),
            ({
                let v = old(self).view();
                if v.committing.contains(id@) {
                    r && final(self).view() == v
                } else if v.can_commit(id@) {
                    r && final(self).view() == (RegistryView {
                        committing: v.committing.insert(id@),
                        ..v
                    })
                } else {
                    !r && final(self).view() == v
                }
            }),
    {
        let ghost v = self.view();
        if self.committing.has(id) {
            return true;
        }
        let running = match self.tasks.get(id) {
            Some(t) => t.state == TaskState::Running && !same_str(t.phase.as_str(), "pausing"),
            None => false,
        };
        if self.pausing.has(id) || !running {
            return false;
        }
        self.committing.insert(id, true);
        assert(self.view().committing =~= v.committing.insert(id@));
        true
    }

    /// The end of a task has been published.
    pub fn end_terminal_commit(&mut self, id: &str)
        requires
            old(self).wf(),
        ensures
            final(self).wf(),
            final(self).view() == (RegistryView {
                committing: old(self).view().committing.remove(id@),
                ..old(self).view()
            }),
    {
        let ghost v = self.view();
        let _ = self.committing.remove(id);
        assert(self.view().committing =~= v.committing.remove(id@));
    }

    /// Replace what is known of a task; returns whether what its owner has to heed
    /// changed: its state, or whether it is in the phase `pausing`. A task that is
    /// gone stays gone.
    pub fn update_task(&mut self, info: TaskInfo, now: u64) -> (r: bool)
        requires
            old(self).wf(),
        ensures
            final(self).wf(),
            ({
                let v = old(self).view();
                if v.tasks.contains_key(info.id@) {
                    &&& r == (v.tasks[info.id@].state != info.state || (v.tasks[info.id@].phase
                        == "pausing"@) != (info.phase@ == "pausing"@))
                    &&& final(self).view() == (RegistryView {
                        tasks: v.tasks.insert(info.id@, TaskView { updated_at: now, ..info@ }),
                        ..v
                    })
                } else {
                    !r && final(self).view() == v
                }
            }),
    {
        let ghost v = self.view();
        let id = info.id.clone();
        let changed = match self.tasks.get(id.as_str()) {
            Some(t) => t.state != info.state || same_str(t.phase.as_str(), "pausing") != same_str(
                info.phase.as_str(),
                "pausing",
            ),
            None => {
                return false;
            },
        };
        let mut info = info;
        info.updated_at = now;
        let ghost t = info@;
        self.tasks.insert(id.as_str(), info);
        assert(self.view().tasks =~= v.tasks.insert(id@, t));
        changed
    }

    /// Forget a finished task, once its owner is done.
    pub fn drop_task(&mut self, id: &str, idle: bool) -> (r: bool)
        requires
            old(self).wf(),
        ensures
            final(self).wf(),
            ({
                let v = old(self).view();
                if idle && v.tasks.contains_key(id@) && terminal(v.tasks[id@].state) {
                    r && final(self).view() == (RegistryView {
                        tasks: v.tasks.remove(id@),
                        pausing: v.pausing.remove(id@),
                        ..v
                    })
                } else {
                    !r && final(self).view() == v
                }
            }),
    {
        let ghost v = self.view();
        let finished = match self.tasks.get(id) {
            Some(t) => t.is_terminal(),
            None => false,
        };
        if !idle || !finished {
            return false;
        }
        let _ = self.pausing.remove(id);
        let _ = self.tasks.remove(id);
        assert(self.view().tasks =~= v.tasks.remove(id@));
        assert(self.view().pausing =~= v.pausing.remove(id@));
        true
    }

    fn forget_all(&mut self, ids: &Vec<String>)
        requires
            old(self).wf(),
        ensures
            final(self).wf(),
            ({
                let gone = Set::new(|k: Seq<char>| listed(ids@, k, ids@.len() as int));
                final(self).view() == (RegistryView {
                    tasks: old(self).view().tasks.remove_keys(gone),
                    ..old(self).view()
                })
            }),
    {
        let ghost v = self.view();
        let mut i: usize = 0;
        proof {
            let none = Set::new(|k: Seq<char>| listed(ids@, k, 0));
            assert(v.tasks.remove_keys(none) =~= v.tasks);
        }
        while i < ids.len()
            invariant
                i <= ids@.len(),
                self.wf(),
                ({
                    let gone = Set::new(|k: Seq<char>| listed(ids@, k, i as int));
                    self.view() == (RegistryView {
                        tasks: v.tasks.remove_keys(gone),
                        ..v
                    })
                }),
            decreases ids@.len() - i,
        {
            let ghost before = Set::new(|k: Seq<char>| listed(ids@, k, i as int));
            let ghost after = Set::new(|k: Seq<char>| listed(ids@, k, i + 1));
            let ghost held = self.view();
            let _ = self.tasks.remove(ids[i].as_str());
            assert(self.view().tasks =~= held.tasks.remove(ids@[i as int]@));
            proof {
                let id = ids@[i as int]@;
                assert forall|k: Seq<char>| #[trigger] listed(ids@, k, i + 1) <==> (k == id
                    || listed(ids@, k, i as int)) by {
                    if k == id {
                        assert(ids@[i as int]@ == k);
                    }
                    if listed(ids@, k, i as int) {
                        let j = choose|j: int| 0 <= j < i && (#[trigger] ids@[j])@ == k;
                        assert(ids@[j]@ == k);
                    }
                }
                assert(v.tasks.remove_keys(before).remove(id) =~= v.tasks.remove_keys(after));
            }
            i += 1;
        }
    }

    /// The tasks that failed or, where a cutoff is given, that are finished and
    /// have not changed since.
    fn select(&self, cutoff: Option<u64>) -> (r: Vec<String>)
        requires
            self.wf(),
        ensures
            forall|k: Seq<char>| #[trigger]
                listed(r@, k, r@.len() as int) <==> self.view().selected(k, cutoff),
            forall|a: int, b: int| 0 <= a < b < r@.len() ==> (#[trigger] r@[a])@ != (#[trigger] r@[b])@,
    {
        let ids = self.tasks.keys();
        let ghost v = self.view();
        let mut r: Vec<String> = Vec::new();
        let mut i: usize = 0;
        while i < ids.len()
            invariant
                i <= ids@.len(),
                self.wf(),
                v == self.view(),
                forall|a: int, b: int|
                    0 <= a < b < ids@.len() ==> (#[trigger] ids@[a])@ != (#[trigger] ids@[b])@,
                forall|k: Seq<char>| #[trigger]
                    v.tasks.contains_key(k) <==> listed(ids@, k, ids@.len() as int),
                forall|k: Seq<char>| #[trigger]
                    listed(r@, k, r@.len() as int) <==> v.selected(k, cutoff) && listed(
                        ids@,
                        k,
                        i as int,
                    ),
                forall|a: int, b: int|
                    0 <= a < b < r@.len() ==> (#[trigger] r@[a])@ != (#[trigger] r@[b])@,
            decreases ids@.len() - i,
        {
            let id = &ids[i];
            let ghost old_r = r@;
            proof {
                assert(listed(ids@, id@, ids@.len() as int)) by {
                    assert(ids@[i as int]@ == id@);
                }
                assert(v.tasks.contains_key(id@));
                if listed(ids@, id@, i as int) {
                    let j = choose|j: int| 0 <= j < i && (#[trigger] ids@[j])@ == id@;
                    assert(ids@[j]@ != ids@[i as int]@);
                }
                assert(!listed(r@, id@, r@.len() as int));
                assert forall|k: Seq<char>| #[trigger] listed(ids@, k, i + 1) <==> (k == id@
                    || listed(ids@, k, i as int)) by {
                    if k == id@ {
                        assert(ids@[i as int]@ == k);
                    }
                    if listed(ids@, k, i as int) {
                        let j = choose|j: int| 0 <= j < i && (#[trigger] ids@[j])@ == k;
                        assert(ids@[j]@ == k);
                    }
                }
            }
            let chosen = match self.tasks.get(id.as_str()) {
                Some(t) => (match cutoff {
                    Some(limit) => t.is_terminal() && t.updated_at <= limit,
                    None => t.state == TaskState::Failed,
                }),
                None => false,
            };
            assert(chosen == v.selected(id@, cutoff));
            if chosen {
                r.push(id.clone());
                proof {
                    assert forall|k: Seq<char>| #[trigger] listed(r@, k, r@.len() as int) <==> (k
                        == id@ || listed(old_r, k, old_r.len() as int)) by {
                        if k == id@ {
                            assert(r@[old_r.len() as int]@ == k);
                        }
                        if listed(old_r, k, old_r.len() as int) {
                            let j = choose|j: int|
                                0 <= j < old_r.len() && (#[trigger] old_r[j])@ == k;
                            assert(r@[j]@ == k);
                        }
                        if listed(r@, k, r@.len() as int) && k != id@ {
                            let j = choose|j: int| 0 <= j < r@.len() && (#[trigger] r@[j])@ == k;
                            assert(old_r[j]@ == k);
                        }
                    }
                    assert forall|a: int, b: int| 0 <= a < b < r@.len() implies (
                    #[trigger] r@[a])@ != (#[trigger] r@[b])@ by {
                        if b == old_r.len() {
                            assert(old_r[a]@ != id@);
                        } else {
                            assert(old_r[a]@ != old_r[b]@);
                        }
                    }
                }
            }
            i += 1;
        }
        r
    }

    /// Remove failed tasks; returns how many.
    pub fn clear_failed_tasks(&mut self) -> (r: usize)
        requires
            old(self).wf(),
        ensures
            final(self).wf(),
            ({
                let v = old(self).view();
                let gone = Set::new(|k: Seq<char>| v.selected(k, None));
                &&& final(self).view() == (RegistryView {
                    tasks: v.tasks.remove_keys(gone),
                    ..v
                })
                &&& gone.finite()
                &&& r == gone.len()
            }),
    {
        let ghost v = self.view();
        let ids = self.select(None);
        proof {
            lemma_listed_set(ids@, Set::new(|k: Seq<char>| v.selected(k, None)));
        }
        self.forget_all(&ids);
        ids.len()
    }

    /// Forget the finished tasks that have not changed since the cutoff.
    pub fn prune_history(&mut self, cutoff: u64)
        requires
            old(self).wf(),
        ensures
            final(self).wf(),
            ({
                let v = old(self).view();
                let gone = Set::new(|k: Seq<char>| v.selected(k, Some(cutoff)));
                final(self).view() == (RegistryView {
                    tasks: v.tasks.remove_keys(gone),
                    ..v
                })
            }),
    {
        let ghost v = self.view();
        let ids = self.select(Some(cutoff));
        proof {
            lemma_listed_set(ids@, Set::new(|k: Seq<char>| v.selected(k, Some(cutoff))));
        }
        self.forget_all(&ids);
    }

    /// All tasks, the one that changed last first.
    pub fn tasks(&self) -> (r: Vec<TaskInfo>)
        requires
            self.wf(),
        ensures
            by_age(r@),
            forall|i: int|
                0 <= i < r@.len() ==> self.view().tasks.contains_key((#[trigger] r@[i]).id@)
                    && self.view().tasks[r@[i].id@] == r@[i]@,
            forall|k: Seq<char>| #[trigger] self.view().tasks.contains_key(k) ==> holds(r@, k),
            one_each(r@),
    {
        let ghost v = self.view();
        let ids = self.tasks.keys();
        let mut r: Vec<TaskInfo> = Vec::new();
        let mut i: usize = 0;
        while i < ids.len()
            invariant
                i <= ids@.len(),
                self.wf(),
                v == self.view(),
                forall|a: int, b: int|
                    0 <= a < b < ids@.len() ==> (#[trigger] ids@[a])@ != (#[trigger] ids@[b])@,
                forall|k: Seq<char>| #[trigger]
                    v.tasks.contains_key(k) <==> listed(ids@, k, ids@.len() as int),
                by_age(r@),
                one_each(r@),
                forall|j: int|
                    0 <= j < r@.len() ==> v.tasks.contains_key((#[trigger] r@[j]).id@)
                        && v.tasks[r@[j].id@] == r@[j]@,
                forall|k: Seq<char>| #[trigger] holds(r@, k) <==> listed(ids@, k, i as int),
            decreases ids@.len() - i,
        {
            let id = &ids[i];
            proof {
                assert(listed(ids@, id@, ids@.len() as int)) by {
                    assert(ids@[i as int]@ == id@);
                }
                assert(v.tasks.contains_key(id@));
                if listed(ids@, id@, i as int) {
                    let j = choose|j: int| 0 <= j < i && (#[trigger] ids@[j])@ == id@;
                    assert(ids@[j]@ != ids@[i as int]@);
                }
                assert(!holds(r@, id@));
                assert forall|k: Seq<char>| #[trigger] listed(ids@, k, i + 1) <==> (k == id@
                    || listed(ids@, k, i as int)) by {
                    if k == id@ {
                        assert(ids@[i as int]@ == k);
                    }
                    if listed(ids@, k, i as int) {
                        let j = choose|j: int| 0 <= j < i && (#[trigger] ids@[j])@ == k;
                        assert(ids@[j]@ == k);
                    }
                }
            }
            if let Some(t) = self.tasks.get(id.as_str()) {
                let copy = t.copy();
                insert_by_age(&mut r, copy);
            }
            i += 1;
        }
        r
    }

    /// The tasks that have not completed, the one that changed last first.
    pub fn visible_tasks(&self) -> (r: Vec<TaskInfo>)
        requires
            self.wf(),
        ensures
            by_age(r@),
            one_each(r@),
            forall|i: int|
                0 <= i < r@.len() ==> self.view().tasks.contains_key((#[trigger] r@[i]).id@)
                    && self.view().tasks[r@[i].id@] == r@[i]@,
            forall|k: Seq<char>| #[trigger]
                holds(r@, k) <==> self.view().tasks.contains_key(k) && self.view().tasks[k].state
                    != TaskState::Completed,
    {
        let ghost v = self.view();
        let all = self.tasks();
        let mut r: Vec<TaskInfo> = Vec::new();
        let mut i: usize = 0;
        while i < all.len()
            invariant
                i <= all@.len(),
                by_age(all@),
                one_each(all@),
                forall|j: int|
                    0 <= j < all@.len() ==> v.tasks.contains_key((#[trigger] all@[j]).id@)
                        && v.tasks[all@[j].id@] == all@[j]@,
                by_age(r@),
                one_each(r@),
                forall|j: int|
                    0 <= j < r@.len() ==> v.tasks.contains_key((#[trigger] r@[j]).id@)
                        && v.tasks[r@[j].id@] == r@[j]@ && r@[j].state != TaskState::Completed,
                forall|j: int, k: int|
                    0 <= j < r@.len() && i <= k < all@.len() ==> (#[trigger] r@[j]).updated_at >= (
                    #[trigger] all@[k]).updated_at && r@[j].id@ != all@[k].id@,
                forall|k: int|
                    0 <= k < i && (#[trigger] all@[k]).state != TaskState::Completed ==> holds(
                        r@,
                        all@[k].id@,
                    ),
            decreases all@.len() - i,
        {
            let ghost before = r@;
            if all[i].state != TaskState::Completed {
                let t = all[i].copy();
                assert(t@ == all@[i as int]@);
                r.push(t);
                proof {
                    assert(r@[r@.len() - 1].id@ == all@[i as int].id@);
                    assert forall|k: int|
                        0 <= k < i && (#[trigger] all@[k]).state
                            != TaskState::Completed implies holds(r@, all@[k].id@) by {
                        let j = choose|j: int|
                            0 <= j < before.len() && (#[trigger] before[j]).id@ == all@[k].id@;
                        assert(r@[j].id@ == all@[k].id@);
                    }
                }
            }
            i += 1;
        }
        proof {
            assert forall|k: Seq<char>| #[trigger] holds(r@, k) <==> v.tasks.contains_key(k)
                && v.tasks[k].state != TaskState::Completed by {
                if holds(r@, k) {
                    let j = choose|j: int| 0 <= j < r@.len() && (#[trigger] r@[j]).id@ == k;
                    assert(v.tasks[r@[j].id@] == r@[j]@);
                }
                if v.tasks.contains_key(k) && v.tasks[k].state != TaskState::Completed {
                    assert(holds(all@, k));
                    let j = choose|j: int| 0 <= j < all@.len() && (#[trigger] all@[j]).id@ == k;
                    assert(v.tasks[all@[j].id@] == all@[j]@);
                }
            }
        }
        r
    }

    /// How many tasks are at work.
    pub fn running_task_count(&self) -> (r: usize)
        requires
            self.wf(),
        ensures
            ({
                let running = Set::new(
                    |k: Seq<char>|
                        self.view().tasks.contains_key(k) && self.view().tasks[k].state
                            == TaskState::Running,
                );
                running.finite() && r == running.len()
            }),
    {
        let ghost v = self.view();
        let ids = self.tasks.keys();
        let mut found: Vec<String> = Vec::new();
        let mut i: usize = 0;
        while i < ids.len()
            invariant
                i <= ids@.len(),
                self.wf(),
                v == self.view(),
                forall|a: int, b: int|
                    0 <= a < b < ids@.len() ==> (#[trigger] ids@[a])@ != (#[trigger] ids@[b])@,
                forall|k: Seq<char>| #[trigger]
                    v.tasks.contains_key(k) <==> listed(ids@, k, ids@.len() as int),
                forall|j: int|
                    0 <= j < found@.len() ==> v.tasks.contains_key((#[trigger] found@[j])@)
                        && v.tasks[found@[j]@].state == TaskState::Running && listed(
                        ids@,
                        found@[j]@,
                        i as int,
                    ),
                forall|j: int|
                    0 <= j < i && v.tasks[(#[trigger] ids@[j])@].state == TaskState::Running
                        ==> listed(found@, ids@[j]@, found@.len() as int),
                forall|a: int, b: int|
                    0 <= a < b < found@.len() ==> (#[trigger] found@[a])@ != (#[trigger] found@[b])@,
            decreases ids@.len() - i,
        {
            let id = &ids[i];
            let ghost before = found@;
            proof {
                assert(listed(ids@, id@, ids@.len() as int)) by {
                    assert(ids@[i as int]@ == id@);
                }
                assert(v.tasks.contains_key(id@));
                assert forall|k: Seq<char>| listed(ids@, k, i as int) implies #[trigger] listed(
                    ids@,
                    k,
                    i + 1,
                ) by {
                    let j = choose|j: int| 0 <= j < i && (#[trigger] ids@[j])@ == k;
                    assert(ids@[j]@ == k);
                }
                assert(listed(ids@, id@, i + 1)) by {
                    assert(ids@[i as int]@ == id@);
                }
            }
            let running = match self.tasks.get(id.as_str()) {
                Some(t) => t.state == TaskState::Running,
                None => false,
            };
            if running {
                found.push(id.clone());
            }
            proof {
                assert forall|j: int| 0 <= j < i + 1 && v.tasks[(#[trigger] ids@[j])@].state
                    == TaskState::Running implies listed(found@, ids@[j]@, found@.len() as int) by {
                    if j < i {
                        let m = choose|m: int|
                            0 <= m < before.len() && (#[trigger] before[m])@ == ids@[j]@;
                        assert(found@[m]@ == ids@[j]@);
                    } else {
                        assert(found@[before.len() as int]@ == id@);
                    }
                }
                assert forall|a: int, b: int| 0 <= a < b < found@.len() implies (
                #[trigger] found@[a])@ != (#[trigger] found@[b])@ by {
                    if b == before.len() {
                        let m = choose|m: int|
                            0 <= m < i && (#[trigger] ids@[m])@ == before[a]@;
                        assert(listed(ids@, before[a]@, i as int));
                        assert(ids@[m]@ != ids@[i as int]@);
                    }
                }
            }
            i += 1;
        }
        proof {
            let running = Set::new(
                |k: Seq<char>| v.tasks.contains_key(k) && v.tasks[k].state == TaskState::Running,
            );
            assert forall|k: Seq<char>| #[trigger] listed(found@, k, found@.len() as int)
                <==> running.contains(k) by {
                if listed(found@, k, found@.len() as int) {
                    let j = choose|j: int| 0 <= j < found@.len() && (#[trigger] found@[j])@ == k;
                    assert(found@[j]@ == k);
                }
                if running.contains(k) {
                    assert(v.tasks.contains_key(k));
                    let j = choose|j: int| 0 <= j < ids@.len() && (#[trigger] ids@[j])@ == k;
                    assert(ids@[j]@ == k);
                }
            }
            lemma_listed_set(found@, running);
        }
        found.len()
    }

    /// The service shuts down: no submission is accepted any more, and live tasks
    /// are paused or asked to, except those whose end is being published.
    pub fn begin_shutdown(&mut self)
        requires
            old(self).wf(),
        ensures
            final(self).wf(),
            final(self).view() == old(self).view().shut(),
    {
        let ghost v = self.view();
        self.closed = true;
        self.daily_cancel = true;
        let ids = self.tasks.keys();
        let mut i: usize = 0;
        while i < ids.len()
            invariant
                i <= ids@.len(),
                self.wf(),
                forall|a: int, b: int|
                    0 <= a < b < ids@.len() ==> (#[trigger] ids@[a])@ != (#[trigger] ids@[b])@,
                forall|k: Seq<char>|
                    #[trigger] v.tasks.contains_key(k) <==> listed(ids@, k, ids@.len() as int),
                self.view().tasks.dom() == v.tasks.dom(),
                forall|j: int|
                    0 <= j < i ==> self.view().tasks[(#[trigger] ids@[j])@] == shut_task(
                        v.tasks[ids@[j]@],
                        v.committing.contains(ids@[j]@),
                    ),
                forall|j: int|
                    i <= j < ids@.len() ==> self.view().tasks[(#[trigger] ids@[j])@]
                        == v.tasks[ids@[j]@],
                forall|k: Seq<char>| #[trigger]
                    self.view().pausing.contains(k) <==> v.pausing.contains(k) || (listed(
                        ids@,
                        k,
                        i as int,
                    ) && v.tasks.contains_key(k) && shuts(v.tasks[k], v.committing.contains(k))),
                self.view().committing == v.committing,
                self.view().closed,
                self.view().daily_cancel,
            decreases ids@.len() - i,
        {
            let id = &ids[i];
            let ghost before = self.view();
            assert(v.tasks.contains_key(id@));
            assert(before.tasks.dom().contains(id@));
            assert(before.tasks[ids@[i as int]@] == v.tasks[id@]);
            if let Some(t) = self.tasks.get(id.as_str()) {
                if !self.committing.has(id.as_str()) && (t.state == TaskState::Queued || t.state
                    == TaskState::Running) {
                    let mut task = t.copy();
                    task.phase = if task.state == TaskState::Queued {
                        "paused".to_owned()
                    } else {
                        "pausing".to_owned()
                    };
                    if task.state == TaskState::Queued {
                        task.state = TaskState::Paused;
                    }
                    task.message = "service shutting down; partials retained".to_owned();
                    let ghost shut = task@;
                    assert(shut == shut_task(v.tasks[id@], false));
                    self.tasks.insert(id.as_str(), task);
                    self.pausing.insert(id.as_str(), true);
                    assert(self.view().pausing =~= before.pausing.insert(id@));
                    assert(self.view().tasks =~= before.tasks.insert(id@, shut));
                    assert(before.tasks.insert(id@, shut).dom() =~= before.tasks.dom());
                }
            }
            proof {
                assert forall|k: Seq<char>| #[trigger] listed(ids@, k, i + 1) <==> (k == id@
                    || listed(ids@, k, i as int)) by {
                    if k == id@ {
                        assert(ids@[i as int]@ == k);
                    }
                    if listed(ids@, k, i as int) {
                        let j = choose|j: int| 0 <= j < i && (#[trigger] ids@[j])@ == k;
                        assert(ids@[j]@ == k);
                    }
                }
                assert forall|j: int| 0 <= j < i + 1 implies self.view().tasks[(
                #[trigger] ids@[j])@] == shut_task(
                    v.tasks[ids@[j]@],
                    v.committing.contains(ids@[j]@),
                ) by {
                    if j < i {
                        assert(ids@[j]@ != ids@[i as int]@);
                    }
                }
                assert forall|j: int| i + 1 <= j < ids@.len() implies self.view().tasks[(
                #[trigger] ids@[j])@] == v.tasks[ids@[j]@] by {
                    assert(ids@[i as int]@ != ids@[j]@);
                }
            }
            i += 1;
        }
        proof {
            let m = Map::new(
                |k: Seq<char>| v.tasks.contains_key(k),
                |k: Seq<char>| shut_task(v.tasks[k], v.committing.contains(k)),
            );
            assert forall|k: Seq<char>| m.contains_key(k) implies self.view().tasks[k]
                == m[k] by {
                assert(v.tasks.contains_key(k));
                let j = choose|j: int| 0 <= j < ids@.len() && (#[trigger] ids@[j])@ == k;
                assert(ids@[j]@ == k);
            }
            assert(self.view().tasks =~= m);
            let more = Set::new(
                |k: Seq<char>|
                    v.tasks.contains_key(k) && shuts(v.tasks[k], v.committing.contains(k)),
            );
            assert(self.view().pausing =~= v.pausing.union(more));
        }
    }

    /// Ask the daily job to stop.
    pub fn request_daily_cancel(&mut self)
        requires
            old(self).wf(),
        ensures
            final(self).wf(),
            final(self).view() == (RegistryView { daily_cancel: true, ..old(self).view() }),
    {
        self.daily_cancel = true;
    }

    /// Whether the daily job was asked to stop; asking is then over.
    pub fn take_daily_cancel(&mut self) -> (r: bool)
        requires
            old(self).wf(),
        ensures
            final(self).wf(),
            r == old(self).view().daily_cancel,
            final(self).view() == (RegistryView { daily_cancel: false, ..old(self).view() }),
    {
        let asked = self.daily_cancel;
        self.daily_cancel = false;
        asked
    }
}

// ── Laws ─────────────────────────────────────────────────────────────────

/// While the end of a task is being published, it can not be stopped, and a
/// shutdown leaves it alone.
pub proof fn law_publication_is_final(v: RegistryView, id: Seq<char>, cancel: bool)
    requires
        v.committing.contains(id),
    ensures
        !v.can_stop(id, cancel),
        v.tasks.contains_key(id) ==> v.shut().tasks[id] == v.tasks[id],
{
}

/// What is done to one task leaves all others alone. A task that is registered is
/// there as it was given and is not being paused; one that is stopped keeps what was
/// downloaded of it, and its owner learns that it is.
pub proof fn law_tasks_change_alone(
    v: RegistryView,
    t: TaskView,
    id: Seq<char>,
    cancel: bool,
    now: u64,
    other: Seq<char>,
)
    requires
        v.tasks.contains_key(id),
    ensures
        ({
            let r = v.registered(t);
            &&& r.tasks.contains_key(t.id) && r.tasks[t.id] == t && !r.pausing.contains(t.id)
            &&& other != t.id ==> (r.tasks.contains_key(other) <==> v.tasks.contains_key(other))
                && r.tasks[other] == v.tasks[other] && (r.pausing.contains(other)
                <==> v.pausing.contains(other))
            &&& r.committing == v.committing && r.closed == v.closed && r.daily_cancel
                == v.daily_cancel
        }),
        ({
            let r = v.stopped(id, cancel, now);
            let w = r.tasks[id];
            &&& cancel ==> r.control(id) == Some(TaskState::Cancelled) && w.state
                == TaskState::Cancelled
            &&& !cancel ==> r.control(id) == Some(TaskState::Paused)
            &&& w.id == v.tasks[id].id && w.url == v.tasks[id].url && w.title == v.tasks[id].title
                && w.path == v.tasks[id].path && w.downloaded_bytes == v.tasks[id].downloaded_bytes
                && w.total_bytes == v.tasks[id].total_bytes
            &&& other != id ==> (r.tasks.contains_key(other) <==> v.tasks.contains_key(other))
                && r.tasks[other] == v.tasks[other] && r.control(other) == v.control(other)
            &&& r.committing == v.committing && r.closed == v.closed
        }),
{
}

/// A task can be registered unless one of that id waits, is at work or has an owner
/// left; it can be paused while it waits or is at work, and cancelled unless it has
/// ended; and only one that is at work and not being paused is published.
pub proof fn law_what_tasks_accept(v: RegistryView, id: Seq<char>, idle: bool)
    ensures
        v.can_register(id, idle) <==> idle && !v.closed && (v.tasks.contains_key(id)
            ==> v.tasks[id].state != TaskState::Queued && v.tasks[id].state != TaskState::Running),
        v.can_stop(id, false) <==> !v.committing.contains(id) && v.tasks.contains_key(id) && (
        v.tasks[id].state == TaskState::Queued || v.tasks[id].state == TaskState::Running),
        v.can_stop(id, true) <==> !v.committing.contains(id) && v.tasks.contains_key(id) && (
        v.tasks[id].state == TaskState::Queued || v.tasks[id].state == TaskState::Running
            || v.tasks[id].state == TaskState::Paused),
        v.can_commit(id) ==> v.tasks.contains_key(id) && v.tasks[id].state == TaskState::Running
            && v.control(id) == Some(TaskState::Running),
{
}

/// Clearing the history touches only what has ended: by age, tasks that ended long
/// enough ago; otherwise, those that failed. What waits, is at work or is paused stays.
pub proof fn law_only_ended_tasks_are_cleared(v: RegistryView, id: Seq<char>, cutoff: Option<u64>)
    ensures
        v.selected(id, cutoff) ==> {
            &&& v.tasks.contains_key(id)
            &&& v.tasks[id].state != TaskState::Queued && v.tasks[id].state != TaskState::Running
                && v.tasks[id].state != TaskState::Paused
            &&& cutoff matches Some(limit) ==> v.tasks[id].updated_at <= limit
            &&& cutoff is None ==> v.tasks[id].state == TaskState::Failed
        },
        v.tasks.contains_key(id) && (v.tasks[id].state == TaskState::Completed || v.tasks[id].state
            == TaskState::Failed || v.tasks[id].state == TaskState::Cancelled) ==> (cutoff
            matches Some(limit) ==> v.tasks[id].updated_at <= limit ==> v.selected(id, cutoff)),
        v.tasks.contains_key(id) && v.tasks[id].state == TaskState::Failed ==> v.selected(id, None),
{
}

/// A task that is waiting or at work is not registered a second time: once it
/// is, nothing but its end or a stop makes room for another one.
pub proof fn law_no_duplicate_tasks(v: RegistryView, t: TaskView, idle: bool)
    requires
        live(t.state),
    ensures
        !v.registered(t).can_register(t.id, idle),
        v.tasks.contains_key(t.id) && live(v.tasks[t.id].state) ==> !v.can_register(t.id, idle),
{
}

/// A stop that is accepted before the end of a task is published wins: the owner
/// sees it, and the end is not published. A new task takes the pause back.
pub proof fn law_accepted_stop_wins(
    v: RegistryView,
    id: Seq<char>,
    cancel: bool,
    now: u64,
    t: TaskView,
)
    requires
        v.can_stop(id, cancel),
        t.id == id,
        t.state == TaskState::Queued,
    ensures
        ({
            let w = v.stopped(id, cancel, now);
            &&& !w.can_commit(id)
            &&& w.control(id) == Some(
                if cancel {
                    TaskState::Cancelled
                } else {
                    TaskState::Paused
                },
            )
            &&& w.registered(t).control(id) == Some(TaskState::Queued)
        }),
{
}

/// After a shutdown no owner of a live task goes on, unless the end of the task
/// is being published, and no task is accepted. Shutting down again changes
/// nothing.
pub proof fn law_shutdown_stops_everything(v: RegistryView, id: Seq<char>, idle: bool)
    ensures
        ({
            let w = v.shut();
            &&& v.tasks.contains_key(id) && !v.committing.contains(id) ==> {
                &&& !w.can_commit(id)
                &&& w.control(id) matches Some(s) && !live(s)
            }
            &&& !w.can_register(id, idle)
            &&& w.shut().tasks == w.tasks
        }),
{
    let w = v.shut();
    assert(w.shut().tasks =~= w.tasks);
}

// ── Settings ─────────────────────────────────────────────────────────────

/// Whether a change of settings asks for new credentials.
pub fn credentials_changed(next: &Config, previous: &Config) -> (r: bool)
    ensures
        r == (next.cookie@ != previous.cookie@ || next.site_base@ != previous.site_base@),
{
    !same_str(next.cookie.as_str(), previous.cookie.as_str()) || !same_str(
        next.site_base.as_str(),
        previous.site_base.as_str(),
    )
}

/// The user agent of requests: the configured one, or the default one where that
/// is blank.
pub fn request_agent(cfg: &Config) -> (r: String)
    ensures
        r@ == (if trim(cfg.user_agent@).len() == 0 {
            crate::p91::source::http::DEFAULT_USER_AGENT@
        } else {
            cfg.user_agent@
        }),
{
    if to_chars(trim_str(cfg.user_agent.as_str()).as_str()).len() == 0 {
        crate::p91::source::http::DEFAULT_USER_AGENT.to_owned()
    } else {
        cfg.user_agent.clone()
    }
}

/// The settings of the engine under the common ones, which say where its files
/// go.
pub fn config_with_paths(cfg: &Config, common: &AppConfig) -> (r: Config)
    ensures
        r@ == (ConfigView {
            save_path: common.p91_download_path@,
            temp_path: common.temp_path@,
            ..cfg@
        }),
{
    let mut r = cfg.copy();
    r.save_path = common.p91_download_path.as_str().to_owned();
    r.temp_path = common.temp_path.as_str().to_owned();
    r
}

/// Whether new settings ask for new credentials, where they are taken over: not
/// while the service shuts down.
pub fn update_config(next: &Config, previous: &Config, closed: bool) -> (r: Result<
    bool,
    &'static str,
>)
    ensures
        if closed {
            r matches Err(e) && e@ == "service shutting down; settings rejected"@
        } else {
            r == Ok::<bool, &'static str>(
                next.cookie@ != previous.cookie@ || next.site_base@ != previous.site_base@,
            )
        },
{
    if closed {
        Err("service shutting down; settings rejected")
    } else {
        Ok(credentials_changed(next, previous))
    }
}

} // verus!
