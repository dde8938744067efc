//! The transfer of one file into a partial file that can be resumed.
use vstd::prelude::*;
use crate::p91::app::{TaskInfo, TaskState, TaskView};
use crate::p91::downloader::{
    after_body, plan_of, plan_transfer, resume_range, stopped_outcome, Outcome, Plan, PlanError,
};
use crate::text::{decimal, opt_view};

verus! {

/// How the body ended.
#[derive(Debug)]
pub enum BodyEnd {
    Complete,
    /// The task was stopped before the body ended.
    Stopped,
    Failed(String),
}

/// How far a transfer has come.
#[derive(Debug)]
pub enum TransferPhase {
    /// The file was asked for.
    Asking,
    /// The partial file is being opened.
    Opening,
    Reading,
    /// A piece of so many bytes is being written.
    Writing(u64),
    /// What was written is being flushed.
    Draining(BodyEnd),
    /// Whether the file may be published is being asked; whether a body was
    /// written.
    Committing(bool),
    /// The partial file is being renamed; whether a body was written.
    Renaming(bool),
    Over,
}

/// A transfer in progress.
#[derive(Debug)]
pub struct Transfer {
    pub phase: TransferPhase,
    /// How long the partial file was.
    pub offset: u64,
    /// How long it is.
    pub written: u64,
    /// How long the file is, where that is known.
    pub total: Option<u64>,
}

/// What a transfer asks for.
#[derive(Debug, PartialEq, Eq)]
pub enum TransferAction {
    /// Ask for the file, from there on.
    Request(Option<(u64, Option<u64>)>),
    /// Open the partial file, to append to it or to write it anew.
    Open(bool),
    /// Read a piece of the body.
    Read,
    /// Write the piece that was read.
    Write,
    Flush,
    /// Ask whether the file may be published.
    Commit,
    /// Rename the partial file to its final name.
    Rename,
    /// The transfer is over: how it ended, and the lengths to be published.
    End(Result<Outcome, String>, Option<(u64, Option<u64>)>),
    /// There is nothing to do.
    Idle,
}

/// What happens to a transfer. Some events tell the state of the task.
#[derive(Debug)]
pub enum TransferEvent {
    /// The task was stopped.
    Stopped(TaskState),
    Failed(String),
    /// The server has answered with that status, range and length.
    Answered(u16, Option<String>, Option<String>),
    Opened(TaskState),
    /// A piece of so many bytes was read.
    Piece(u64),
    /// The body has ended.
    Ended,
    Written(TaskState),
    Flushed(TaskState),
    /// Whether the file may be published.
    Committed(bool, TaskState),
    Renamed,
}

/// How a stop ends a transfer.
pub open spec fn stop_outcome(state: TaskState) -> Outcome {
    if state == TaskState::Cancelled {
        Outcome::Cancelled
    } else {
        Outcome::Paused
    }
}

/// What is said of an answer that cannot be used.
pub open spec fn plan_error(e: PlanError, offset: u64) -> Seq<char> {
    (match e {
        PlanError::Rejected => "server rejected the resume offset "@,
        PlanError::WrongRange => "server returned an unexpected byte range for offset "@,
    }) + decimal(offset as nat)
}

/// Whether the body is as long as the file.
pub open spec fn whole(t: Transfer) -> bool {
    t.total is Some ==> t.total->0 == t.written
}

/// Whether a transfer goes from one state to the next on an event, with an action.
pub open spec fn transfers(a: Transfer, event: TransferEvent, b: Transfer, r: TransferAction) -> bool {
    let over = Transfer { phase: TransferPhase::Over, ..a };
    match (a.phase, event) {
        (TransferPhase::Asking, TransferEvent::Stopped(state)) => {
            &&& b == over
            &&& r == TransferAction::End(Ok(stop_outcome(state)), None)
        },
        // The partial file is not touched.
        (TransferPhase::Asking, TransferEvent::Failed(m)) => {
            b == over && r == TransferAction::End(Err(m), None)
        },
        (TransferPhase::Asking, TransferEvent::Answered(status, range, length)) => {
            match plan_of(a.offset, status, opt_view(range), opt_view(length)) {
                Ok(Plan::Complete) => {
                    &&& b == (Transfer { phase: TransferPhase::Committing(false), ..a })
                    &&& r == TransferAction::Commit
                },
                Ok(Plan::Write { append, offset, total }) => {
                    &&& b == (Transfer {
                        phase: TransferPhase::Opening,
                        written: offset,
                        total,
                        ..a
                    })
                    &&& r == TransferAction::Open(append)
                },
                Err(e) => {
                    &&& b == over
                    &&& r matches TransferAction::End(Err(m), None) && m@ == plan_error(e, a.offset)
                },
            }
        },
        (TransferPhase::Opening, TransferEvent::Failed(m)) => {
            b == over && r == TransferAction::End(Err(m), None)
        },
        (TransferPhase::Opening, TransferEvent::Opened(state)) => reads(a, state, b, r),
        (TransferPhase::Reading, TransferEvent::Piece(n)) => {
            b == (Transfer { phase: TransferPhase::Writing(n), ..a }) && r == TransferAction::Write
        },
        (TransferPhase::Reading, TransferEvent::Ended) => {
            &&& b == (Transfer { phase: TransferPhase::Draining(BodyEnd::Complete), ..a })
            &&& r == TransferAction::Flush
        },
        (TransferPhase::Reading, TransferEvent::Stopped(_)) => {
            &&& b == (Transfer { phase: TransferPhase::Draining(BodyEnd::Stopped), ..a })
            &&& r == TransferAction::Flush
        },
        (TransferPhase::Reading, TransferEvent::Failed(m)) => {
            &&& b == (Transfer { phase: TransferPhase::Draining(BodyEnd::Failed(m)), ..a })
            &&& r == TransferAction::Flush
        },
        (TransferPhase::Writing(n), TransferEvent::Written(state)) => {
            reads(Transfer { written: a.written.wrapping_add(n), ..a }, state, b, r)
        },
        (TransferPhase::Writing(_), TransferEvent::Failed(m)) => {
            &&& b == (Transfer { phase: TransferPhase::Draining(BodyEnd::Failed(m)), ..a })
            &&& r == TransferAction::Flush
        },
        // What went wrong first is told.
        (TransferPhase::Draining(BodyEnd::Failed(m)), TransferEvent::Flushed(_)) => {
            b == over && r == TransferAction::End(Err(m), None)
        },
        (TransferPhase::Draining(BodyEnd::Failed(m)), TransferEvent::Failed(_)) => {
            b == over && r == TransferAction::End(Err(m), None)
        },
        (TransferPhase::Draining(_), TransferEvent::Failed(m)) => {
            b == over && r == TransferAction::End(Err(m), None)
        },
        (TransferPhase::Draining(end), TransferEvent::Flushed(state)) => {
            if end is Stopped || state != TaskState::Running {
                &&& b == over
                &&& r == TransferAction::End(
                    Ok(stop_outcome(state)),
                    Some((a.written, a.total)),
                )
            } else if !whole(a) {
                &&& b == over
                &&& r matches TransferAction::End(Err(m), None) && m@ == "incomplete download: "@
                    + decimal(a.written as nat) + "/"@ + decimal(a.total->0 as nat) + " bytes"@
            } else {
                &&& b == (Transfer { phase: TransferPhase::Committing(true), ..a })
                &&& r == TransferAction::Commit
            }
        },
        (TransferPhase::Committing(body), TransferEvent::Committed(accepted, state)) => {
            if accepted {
                &&& b == (Transfer { phase: TransferPhase::Renaming(body), ..a })
                &&& r == TransferAction::Rename
            } else {
                b == over && r == TransferAction::End(Ok(stop_outcome(state)), None)
            }
        },
        (TransferPhase::Renaming(body), TransferEvent::Renamed) => {
            &&& b == over
            &&& r == TransferAction::End(
                Ok(Outcome::Done),
                if body {
                    Some((a.written, a.total))
                } else {
                    None
                },
            )
        },
        (TransferPhase::Renaming(_), TransferEvent::Failed(m)) => {
            b == over && r == TransferAction::End(Err(m), None)
        },
        _ => b == a && r == TransferAction::Idle,
    }
}

/// The body is read on, as long as the task is at work.
pub open spec fn reads(a: Transfer, state: TaskState, b: Transfer, r: TransferAction) -> bool {
    if state == TaskState::Running {
        b == (Transfer { phase: TransferPhase::Reading, ..a }) && r == TransferAction::Read
    } else {
        &&& b == (Transfer { phase: TransferPhase::Draining(BodyEnd::Stopped), ..a })
        &&& r == TransferAction::Flush
    }
}

impl Transfer {
    /// The file is asked for, from where the partial file ends.
    pub fn start(offset: u64) -> (r: (Self, TransferAction))
        ensures
            r.0 == (Transfer {
                phase: TransferPhase::Asking,
                offset,
                written: offset,
                total: None,
            }),
            r.1 == TransferAction::Request(
                if offset > 0 {
                    Some((offset, None))
                } else {
                    None
                },
            ),
    {
        (
            Transfer { phase: TransferPhase::Asking, offset, written: offset, total: None },
            TransferAction::Request(resume_range(offset)),
        )
    }

    fn read_on(&mut self, state: TaskState) -> (r: TransferAction)
        ensures
            reads(*old(self), state, *final(self), r),
    {
        if state == TaskState::Running {
            self.phase = TransferPhase::Reading;
            TransferAction::Read
        } else {
            self.phase = TransferPhase::Draining(BodyEnd::Stopped);
            TransferAction::Flush
        }
    }

    /// What follows an event. A stop keeps what was written, and so does an
    /// error; only a whole body that may be published gets its final name.
    pub fn step(&mut self, event: TransferEvent) -> (r: TransferAction)
        ensures
            transfers(*old(self), event, *final(self), r),
    {
        let mut phase = TransferPhase::Over;
        std::mem::swap(&mut phase, &mut self.phase);
        match (phase, event) {
            (TransferPhase::Asking, TransferEvent::Stopped(state)) => {
                TransferAction::End(Ok(stopped_outcome(state)), None)
            },
            (TransferPhase::Asking, TransferEvent::Failed(m)) => TransferAction::End(Err(m), None),
            (TransferPhase::Asking, TransferEvent::Answered(status, range, length)) => {
                match plan_transfer(self.offset, status, &range, &length) {
                    Ok(Plan::Complete) => {
                        self.phase = TransferPhase::Committing(false);
                        TransferAction::Commit
                    },
                    Ok(Plan::Write { append, offset, total }) => {
                        self.phase = TransferPhase::Opening;
                        self.written = offset;
                        self.total = total;
                        TransferAction::Open(append)
                    },
                    Err(e) => TransferAction::End(Err(e.message(self.offset)), None),
                }
            },
            (TransferPhase::Opening, TransferEvent::Failed(m)) => TransferAction::End(Err(m), None),
            (TransferPhase::Opening, TransferEvent::Opened(state)) => self.read_on(state),
            (TransferPhase::Reading, TransferEvent::Piece(n)) => {
                self.phase = TransferPhase::Writing(n);
                TransferAction::Write
            },
            (TransferPhase::Reading, TransferEvent::Ended) => {
                self.phase = TransferPhase::Draining(BodyEnd::Complete);
                TransferAction::Flush
            },
            (TransferPhase::Reading, TransferEvent::Stopped(_)) => {
                self.phase = TransferPhase::Draining(BodyEnd::Stopped);
                TransferAction::Flush
            },
            (TransferPhase::Reading, TransferEvent::Failed(m)) => {
                self.phase = TransferPhase::Draining(BodyEnd::Failed(m));
                TransferAction::Flush
            },
            (TransferPhase::Writing(n), TransferEvent::Written(state)) => {
                self.written = self.written.wrapping_add(n);
                self.read_on(state)
            },
            (TransferPhase::Writing(_), TransferEvent::Failed(m)) => {
                self.phase = TransferPhase::Draining(BodyEnd::Failed(m));
                TransferAction::Flush
            },
            (TransferPhase::Draining(BodyEnd::Failed(m)), TransferEvent::Flushed(_)) => {
                TransferAction::End(Err(m), None)
            },
            (TransferPhase::Draining(BodyEnd::Failed(m)), TransferEvent::Failed(_)) => {
                TransferAction::End(Err(m), None)
            },
            (TransferPhase::Draining(_), TransferEvent::Failed(m)) => {
                TransferAction::End(Err(m), None)
            },
            (TransferPhase::Draining(end), TransferEvent::Flushed(state)) => {
                let complete = matches!(end, BodyEnd::Complete) && state == TaskState::Running;
                match after_body(complete, self.written, self.total, state) {
                    Err(m) => TransferAction::End(Err(m), None),
                    Ok(Outcome::Done) => {
                        self.phase = TransferPhase::Committing(true);
                        TransferAction::Commit
                    },
                    Ok(outcome) => TransferAction::End(
                        Ok(outcome),
                        Some((self.written, self.total)),
                    ),
                }
            },
            (TransferPhase::Committing(body), TransferEvent::Committed(accepted, state)) => {
                if accepted {
                    self.phase = TransferPhase::Renaming(body);
                    TransferAction::Rename
                } else {
                    TransferAction::End(Ok(stopped_outcome(state)), None)
                }
            },
            (TransferPhase::Renaming(body), TransferEvent::Renamed) => {
                if body {
                    TransferAction::End(Ok(Outcome::Done), Some((self.written, self.total)))
                } else {
                    TransferAction::End(Ok(Outcome::Done), None)
                }
            },
            (TransferPhase::Renaming(_), TransferEvent::Failed(m)) => {
                TransferAction::End(Err(m), None)
            },
            (phase, _) => {
                self.phase = phase;
                TransferAction::Idle
            },
        }
    }
}

/// The task when its transfer has ended: the final lengths.
pub fn counted(task: &TaskInfo, written: u64, total: Option<u64>) -> (r: TaskInfo)
    ensures
        r@ == (TaskView {
            downloaded_bytes: written,
            total_bytes: match total {
                Some(n) => n,
                None => task.total_bytes,
            },
            ..task@
        }),
{
    let mut t = task.copy();
    t.downloaded_bytes = written;
    if let Some(n) = total {
        t.total_bytes = n;
    }
    t
}

/// A file gets its final name only where it may be published, and after a body
/// only where that is as long as the file.
pub proof fn law_only_whole_files_are_published(
    a: Transfer,
    event: TransferEvent,
    b: Transfer,
    r: TransferAction,
)
    requires
        transfers(a, event, b, r),
    ensures
        r == TransferAction::Rename ==> a.phase is Committing && (event
            matches TransferEvent::Committed(accepted, _) && accepted),
        r == TransferAction::Commit && a.phase is Draining ==> whole(a) && event
            == TransferEvent::Flushed(TaskState::Running),
        r matches TransferAction::End(Ok(Outcome::Done), _) ==> a.phase is Renaming && event
            is Renamed,
{
}

/// A transfer takes every piece of the body: what comes is written and counted, and
/// then more is read; when the body ends it is flushed, and it is published where it
/// is as long as the file and its task is still at work, and otherwise told to be
/// incomplete. An error is told, and a task that is stopped leaves the transfer
/// stopped.
pub proof fn law_bodies_are_taken_whole(
    a: Transfer,
    event: TransferEvent,
    b: Transfer,
    r: TransferAction,
)
    requires
        transfers(a, event, b, r),
    ensures
        a.phase is Reading ==> (event matches TransferEvent::Piece(n) ==> r == TransferAction::Write
            && b.phase == TransferPhase::Writing(n) && b.written == a.written && b.total == a.total),
        a.phase matches TransferPhase::Writing(n) ==> (event matches TransferEvent::Written(state)
            ==> b.total == a.total && (a.written + n <= u64::MAX ==> b.written == a.written + n) && (
        state == TaskState::Running ==> r == TransferAction::Read && b.phase is Reading) && (state
            != TaskState::Running ==> r == TransferAction::Flush && b.phase is Draining)),
        a.phase is Reading && event is Ended ==> r == TransferAction::Flush && b.phase
            == TransferPhase::Draining(BodyEnd::Complete) && b.written == a.written,
        a.phase == TransferPhase::Draining(BodyEnd::Complete) && event == TransferEvent::Flushed(
            TaskState::Running,
        ) ==> (r == TransferAction::Commit <==> a.total is None || a.total == Some(a.written)) && (r
            == TransferAction::Commit || (r matches TransferAction::End(e, _) && e is Err)),
        a.phase is Draining ==> (event matches TransferEvent::Flushed(s) ==> s != TaskState::Running
            && !(a.phase->Draining_0 is Failed) ==> r is End && r->End_0 == Ok::<Outcome, String>(
            if s == TaskState::Cancelled {
                Outcome::Cancelled
            } else {
                Outcome::Paused
            },
        )),
        a.phase is Renaming && event is Renamed ==> (r matches TransferAction::End(e, _) && e == Ok::<
            Outcome,
            String,
        >(Outcome::Done)),
        (a.phase is Asking || a.phase is Opening || a.phase is Renaming) ==> (event
            matches TransferEvent::Failed(m) ==> r == TransferAction::End(Err(m), None)),
        (a.phase is Reading || a.phase is Writing) ==> (event matches TransferEvent::Failed(m) ==> r
            == TransferAction::Flush && b.phase == TransferPhase::Draining(BodyEnd::Failed(m))),
        a.phase matches TransferPhase::Draining(BodyEnd::Failed(m)) ==> event is Flushed || event
            is Failed ==> r == TransferAction::End(Err(m), None),
        r is Open ==> a.phase is Asking,
        r matches TransferAction::Open(append) ==> (append ==> b.written == a.offset && a.offset > 0)
            && (!append ==> b.written == 0),
        b.offset == a.offset,
{
}

/// What was written is flushed before a transfer that has opened its file ends,
/// whether it was stopped, failed or is complete.
pub proof fn law_bodies_are_flushed(a: Transfer, event: TransferEvent, b: Transfer, r: TransferAction)
    requires
        transfers(a, event, b, r),
        a.phase is Reading || a.phase is Writing,
    ensures
        !(r is End),
        b.phase is Reading || b.phase is Writing || b.phase is Draining,
        b.phase is Draining ==> r == TransferAction::Flush,
{
}

} // verus!
