//! The segments of one track: dispatched in playlist order, a bounded number at
//! a time, in a first round and in up to three more for those that failed.
use vstd::prelude::*;
use super::Outcome;
use crate::jav::app::TaskState;
use crate::text::{decimal, decimal_chars, from_chars, join3};

verus! {

/// Where a segment stands.
#[derive(Debug, Clone, Copy, PartialEq, Eq, Structural)]
pub enum SegmentState {
    Waiting,
    Active,
    Done,
    Failed,
}

/// How many rounds follow the first one at most.
pub const RETRIES: u32 = 3;

/// What is said of a segment that is not fetched any more.
pub const REFUSED: &'static str = "paused, cancelled or media rejected";

/// How many segments are in that state.
pub open spec fn count(states: Seq<SegmentState>, s: SegmentState) -> nat
    decreases states.len(),
{
    if states.len() == 0 {
        0
    } else {
        count(states.drop_last(), s) + (if states.last() == s {
            1nat
        } else {
            0
        })
    }
}

proof fn lemma_count_update(states: Seq<SegmentState>, i: int, to: SegmentState, s: SegmentState)
    requires
        0 <= i < states.len(),
    ensures
        count(states.update(i, to), s) + (if states[i] == s {
            1nat
        } else {
            0
        }) == count(states, s) + (if to == s {
            1nat
        } else {
            0
        }),
    decreases states.len(),
{
    let t = states.update(i, to);
    if i == states.len() - 1 {
        assert(t.drop_last() =~= states.drop_last());
    } else {
        lemma_count_update(states.drop_last(), i, to, s);
        assert(t.drop_last() =~= states.drop_last().update(i, to));
        assert(t.last() == states.last());
    }
}

proof fn lemma_count_zero(states: Seq<SegmentState>, s: SegmentState)
    ensures
        count(states, s) == 0 <==> forall|i: int| 0 <= i < states.len() ==> #[trigger] states[i] != s,
        count(states, s) <= states.len(),
    decreases states.len(),
{
    if states.len() > 0 {
        lemma_count_zero(states.drop_last(), s);
        let t = states.drop_last();
        if count(states, s) == 0 {
            assert forall|i: int| 0 <= i < states.len() implies #[trigger] states[i] != s by {
                if i < t.len() {
                    assert(t[i] == states[i]);
                }
            }
        }
        if forall|i: int| 0 <= i < states.len() ==> #[trigger] states[i] != s {
            assert forall|i: int| 0 <= i < t.len() implies #[trigger] t[i] != s by {
                assert(t[i] == states[i]);
            }
        }
    }
}

/// The first segment from `i` on that waits; their number where none does.
pub open spec fn next_waiting(states: Seq<SegmentState>, i: int) -> int
    decreases states.len() - i,
{
    if i < 0 || i >= states.len() {
        states.len() as int
    } else if states[i] == SegmentState::Waiting {
        i
    } else {
        next_waiting(states, i + 1)
    }
}

proof fn lemma_next_waiting(states: Seq<SegmentState>, i: int)
    requires
        0 <= i <= states.len(),
    ensures
        i <= next_waiting(states, i) <= states.len(),
        next_waiting(states, i) < states.len() ==> states[next_waiting(states, i)]
            == SegmentState::Waiting,
        forall|j: int|
            i <= j < next_waiting(states, i) ==> #[trigger] states[j] != SegmentState::Waiting,
    decreases states.len() - i,
{
    if i < states.len() && states[i] != SegmentState::Waiting {
        lemma_next_waiting(states, i + 1);
    }
}

/// What follows a round.
#[derive(Debug, Clone, Copy, PartialEq, Eq, Structural)]
pub enum RoundStep {
    /// Another round, after so many milliseconds.
    Retry(u64),
    /// There is nothing more to fetch.
    Over,
}

/// Which segments of a track are fetched, which wait, and which failed.
pub struct SegmentJob {
    pub states: Vec<SegmentState>,
    /// Every segment before this one has been dispatched in this round.
    pub cursor: usize,
    /// How many segments are being fetched.
    pub active: usize,
    /// How many may be at the same time.
    pub concurrency: usize,
    /// How many rounds have followed the first one.
    pub attempt: u32,
    /// The media was rejected: asking again cannot help.
    pub rejected: bool,
    pub last_error: String,
}

/// What is known of the segments of a track.
pub struct JobView {
    pub states: Seq<SegmentState>,
    pub cursor: int,
    pub active: usize,
    pub concurrency: usize,
    pub attempt: u32,
    pub rejected: bool,
    pub last_error: Seq<char>,
}

impl View for SegmentJob {
    type V = JobView;

    open spec fn view(&self) -> JobView {
        JobView {
            states: self.states@,
            cursor: self.cursor as int,
            active: self.active,
            concurrency: self.concurrency,
            attempt: self.attempt,
            rejected: self.rejected,
            last_error: self.last_error@,
        }
    }
}

impl JobView {
    /// The counts are those of the states, and only segments that were not
    /// dispatched in this round wait.
    pub open spec fn inv(self) -> bool {
        &&& 0 <= self.cursor <= self.states.len() <= usize::MAX
        &&& 1 <= self.concurrency <= 32
        &&& self.active == count(self.states, SegmentState::Active)
        &&& self.active <= self.concurrency
        &&& self.attempt <= RETRIES
        &&& forall|i: int|
            0 <= i < self.cursor ==> #[trigger] self.states[i] != SegmentState::Waiting
        &&& forall|i: int|
            self.cursor <= i < self.states.len() ==> #[trigger] self.states[i]
                == SegmentState::Waiting || self.states[i] == SegmentState::Done
    }

    /// Whether the round is over: nothing waits and nothing is being fetched.
    pub open spec fn round_over(self) -> bool {
        self.cursor == self.states.len() && self.active == 0
    }

    /// Whether every segment is there.
    pub open spec fn complete(self) -> bool {
        forall|i: int| 0 <= i < self.states.len() ==> #[trigger] self.states[i] == SegmentState::Done
    }

    /// How many segments failed.
    pub open spec fn failures(self) -> nat {
        count(self.states, SegmentState::Failed)
    }

    /// Nothing was dispatched: all segments wait.
    pub open spec fn start(total: nat, concurrency: usize) -> JobView {
        JobView {
            states: Seq::new(total, |i: int| SegmentState::Waiting),
            cursor: 0,
            active: 0,
            concurrency: if concurrency < 1 {
                1
            } else if concurrency > 32 {
                32
            } else {
                concurrency
            },
            attempt: 0,
            rejected: false,
            last_error: Seq::empty(),
        }
    }

    /// The next segment is dispatched: the first that waits, as long as there is
    /// room.
    pub open spec fn dispatched(self) -> (JobView, Option<usize>) {
        let i = next_waiting(self.states, self.cursor);
        if self.active >= self.concurrency {
            (self, None)
        } else if i < self.states.len() {
            (
                JobView {
                    states: self.states.update(i, SegmentState::Active),
                    cursor: i + 1,
                    active: (self.active + 1) as usize,
                    ..self
                },
                Some(i as usize),
            )
        } else {
            (JobView { cursor: self.states.len() as int, ..self }, None)
        }
    }

    /// A segment that was dispatched has been fetched, or was there already.
    pub open spec fn succeeded(self, i: int) -> JobView {
        JobView {
            states: self.states.update(i, SegmentState::Done),
            active: (self.active - 1) as usize,
            ..self
        }
    }

    /// A segment that was dispatched could not be fetched. An error that came
    /// after the media was rejected does not replace the rejection.
    pub open spec fn failed(self, i: int, message: Seq<char>, rejection: bool) -> JobView {
        JobView {
            rejected: self.rejected || rejection,
            last_error: if rejection || !self.rejected {
                message
            } else {
                self.last_error
            },
            ..self.crashed(i)
        }
    }

    /// The worker of a segment that was dispatched has crashed: the segment has
    /// failed, without an error to tell.
    pub open spec fn crashed(self, i: int) -> JobView {
        JobView {
            states: self.states.update(i, SegmentState::Failed),
            active: (self.active - 1) as usize,
            ..self
        }
    }

    /// All segments that wait fail without being fetched.
    pub open spec fn refused(self) -> JobView {
        JobView {
            states: Seq::new(
                self.states.len(),
                |i: int|
                    if self.states[i] == SegmentState::Waiting {
                        SegmentState::Failed
                    } else {
                        self.states[i]
                    },
            ),
            cursor: self.states.len() as int,
            last_error: if !self.rejected && next_waiting(self.states, self.cursor)
                < self.states.len() {
                REFUSED@
            } else {
                self.last_error
            },
            ..self
        }
    }

    /// Whether another round follows: segments failed, rounds are left, and
    /// asking again can help.
    pub open spec fn retries(self) -> bool {
        self.failures() > 0 && self.attempt < RETRIES && !self.rejected
    }

    /// What follows a round: transient failures are retried a few times before
    /// giving up, with a pause that grows.
    pub open spec fn after_round(self) -> (JobView, RoundStep) {
        if self.retries() {
            let attempt = (self.attempt + 1) as u32;
            (JobView { attempt, ..self }, RoundStep::Retry((300 * attempt) as u64))
        } else {
            (self, RoundStep::Over)
        }
    }

    /// Another round: the segments that failed wait again.
    pub open spec fn next_round(self) -> JobView {
        JobView {
            states: Seq::new(
                self.states.len(),
                |i: int|
                    if self.states[i] == SegmentState::Failed {
                        SegmentState::Waiting
                    } else {
                        self.states[i]
                    },
            ),
            cursor: 0,
            ..self
        }
    }

    /// How the track ends, given the state of its task: a stop wins; otherwise a
    /// rejection, or segments that still fail, are its error.
    pub open spec fn conclusion(self, control: TaskState) -> Result<Outcome, Seq<char>> {
        if control == TaskState::Cancelled {
            Ok(Outcome::Cancelled)
        } else if control == TaskState::Paused {
            Ok(Outcome::Paused)
        } else if self.rejected {
            Err(self.last_error)
        } else if self.failures() > 0 {
            Err(
                decimal(self.failures()) + " segment(s) failed after 3 retries: "@
                    + self.last_error,
            )
        } else {
            Ok(Outcome::Done)
        }
    }
}

/// What an ending says.
pub open spec fn ending(r: Result<Outcome, String>) -> Result<Outcome, Seq<char>> {
    match r {
        Ok(outcome) => Ok(outcome),
        Err(message) => Err(message@),
    }
}

impl SegmentJob {
    /// The counts are those of the states, and only segments that were not
    /// dispatched in this round wait.
    pub open spec fn wf(&self) -> bool {
        self@.inv()
    }

    /// All segments wait.
    pub fn new(total: usize, concurrency: usize) -> (r: Self)
        ensures
            r.wf(),
            r@ == JobView::start(total as nat, concurrency),
    {
        let mut states: Vec<SegmentState> = Vec::new();
        let mut i: usize = 0;
        while i < total
            invariant
                i <= total,
                states@.len() == i,
                forall|k: int| 0 <= k < i ==> #[trigger] states@[k] == SegmentState::Waiting,
            decreases total - i,
        {
            states.push(SegmentState::Waiting);
            i += 1;
        }
        proof {
            lemma_count_zero(states@, SegmentState::Active);
            assert(states@ =~= JobView::start(total as nat, concurrency).states);
        }
        let last_error = String::new();
        assert(last_error@ =~= Seq::<char>::empty());
        SegmentJob {
            states,
            cursor: 0,
            active: 0,
            concurrency: if concurrency < 1 {
                1
            } else if concurrency > 32 {
                32
            } else {
                concurrency
            },
            attempt: 0,
            rejected: false,
            last_error,
        }
    }

    /// The next segment to fetch: the first that waits, as long as there is room.
    pub fn dispatch(&mut self) -> (r: Option<usize>)
        requires
            old(self).wf(),
        ensures
            final(self).wf(),
            (final(self)@, r) == old(self)@.dispatched(),
    {
        if self.active >= self.concurrency {
            return None;
        }
        let ghost start = self@;
        while self.cursor < self.states.len()
            invariant
                self.wf(),
                start == old(self)@,
                start.active < start.concurrency,
                self@ == (JobView { cursor: self.cursor as int, ..start }),
                next_waiting(start.states, start.cursor) == next_waiting(
                    start.states,
                    self.cursor as int,
                ),
            decreases self.states@.len() - self.cursor,
        {
            let i = self.cursor;
            if self.states[i] == SegmentState::Waiting {
                self.states.set(i, SegmentState::Active);
                self.cursor = i + 1;
                self.active = self.active + 1;
                proof {
                    lemma_count_update(
                        start.states,
                        i as int,
                        SegmentState::Active,
                        SegmentState::Active,
                    );
                }
                return Some(i);
            }
            self.cursor = i + 1;
        }
        None
    }

    /// A segment that was dispatched has been fetched, or was there already.
    pub fn succeeded(&mut self, index: usize)
        requires
            old(self).wf(),
            index < old(self)@.states.len(),
            old(self)@.states[index as int] == SegmentState::Active,
        ensures
            final(self).wf(),
            final(self)@ == old(self)@.succeeded(index as int),
    {
        proof {
            lemma_count_update(
                self.states@,
                index as int,
                SegmentState::Done,
                SegmentState::Active,
            );
        }
        self.states.set(index, SegmentState::Done);
        self.active = self.active - 1;
    }

    /// A segment that was dispatched could not be fetched. An error that came
    /// after the media was rejected does not replace the rejection.
    pub fn failed(&mut self, index: usize, message: &str, rejection: bool)
        requires
            old(self).wf(),
            index < old(self)@.states.len(),
            old(self)@.states[index as int] == SegmentState::Active,
        ensures
            final(self).wf(),
            final(self)@ == old(self)@.failed(index as int, message@, rejection),
    {
        self.crashed(index);
        if rejection || !self.rejected {
            self.last_error = message.to_owned();
        }
        if rejection {
            self.rejected = true;
        }
    }

    /// The worker of a segment that was dispatched has crashed: the segment has
    /// failed, without an error to tell.
    pub fn crashed(&mut self, index: usize)
        requires
            old(self).wf(),
            index < old(self)@.states.len(),
            old(self)@.states[index as int] == SegmentState::Active,
        ensures
            final(self).wf(),
            final(self)@ == old(self)@.crashed(index as int),
    {
        proof {
            lemma_count_update(
                self.states@,
                index as int,
                SegmentState::Failed,
                SegmentState::Active,
            );
        }
        self.states.set(index, SegmentState::Failed);
        self.active = self.active - 1;
    }

    /// All segments that wait fail without being fetched.
    pub fn refuse(&mut self)
        requires
            old(self).wf(),
        ensures
            final(self).wf(),
            final(self)@ == old(self)@.refused(),
    {
        let ghost start = self@;
        let mut any = false;
        let mut i = self.cursor;
        proof {
            lemma_next_waiting(start.states, start.cursor);
        }
        while i < self.states.len()
            invariant
                start == old(self)@,
                start.inv(),
                start.cursor <= i <= self.states@.len(),
                self.states@.len() == start.states.len(),
                self@ == (JobView { states: self.states@, ..start }),
                forall|k: int|
                    start.cursor <= k < i ==> #[trigger] self.states@[k] == (if start.states[k]
                        == SegmentState::Waiting {
                        SegmentState::Failed
                    } else {
                        start.states[k]
                    }),
                forall|k: int|
                    0 <= k < start.states.len() && !(start.cursor <= k < i)
                        ==> #[trigger] self.states@[k] == start.states[k],
                count(self.states@, SegmentState::Active) == start.active,
                any <==> exists|k: int|
                    start.cursor <= k < i && #[trigger] start.states[k] == SegmentState::Waiting,
            decreases self.states@.len() - i,
        {
            assert(self.states@[i as int] == start.states[i as int]);
            if self.states[i] == SegmentState::Waiting {
                proof {
                    lemma_count_update(
                        self.states@,
                        i as int,
                        SegmentState::Failed,
                        SegmentState::Active,
                    );
                }
                self.states.set(i, SegmentState::Failed);
                any = true;
            }
            i += 1;
        }
        self.cursor = self.states.len();
        proof {
            let n = next_waiting(start.states, start.cursor);
            if n < start.states.len() {
                assert(start.states[n] == SegmentState::Waiting);
            }
            assert(any <==> n < start.states.len());
            assert(self.states@ =~= start.refused().states);
        }
        if any && !self.rejected {
            self.last_error = REFUSED.to_owned();
        }
    }

    fn count_failed(&self) -> (r: usize)
        ensures
            r == self@.failures(),
    {
        let mut n: usize = 0;
        let mut i: usize = 0;
        assert(self.states@.take(0) =~= Seq::<SegmentState>::empty());
        while i < self.states.len()
            invariant
                i <= self.states@.len(),
                n <= i,
                n == count(self.states@.take(i as int), SegmentState::Failed),
            decreases self.states@.len() - i,
        {
            assert(self.states@.take(i + 1).drop_last() =~= self.states@.take(i as int));
            assert(self.states@.take(i + 1).last() == self.states@[i as int]);
            if self.states[i] == SegmentState::Failed {
                n += 1;
            }
            i += 1;
        }
        assert(self.states@.take(self.states@.len() as int) =~= self.states@);
        n
    }

    /// What follows a round: transient failures are retried a few times before
    /// giving up, with a pause that grows.
    pub fn after_round(&mut self) -> (r: RoundStep)
        requires
            old(self).wf(),
            old(self)@.round_over(),
        ensures
            final(self).wf(),
            (final(self)@, r) == old(self)@.after_round(),
    {
        if self.count_failed() > 0 && self.attempt < RETRIES && !self.rejected {
            self.attempt = self.attempt + 1;
            RoundStep::Retry(300 * self.attempt as u64)
        } else {
            RoundStep::Over
        }
    }

    /// Another round: the segments that failed wait again.
    pub fn start_round(&mut self)
        requires
            old(self).wf(),
            old(self)@.round_over(),
        ensures
            final(self).wf(),
            final(self)@ == old(self)@.next_round(),
    {
        let ghost start = self@;
        proof {
            lemma_count_zero(start.states, SegmentState::Active);
        }
        let mut i: usize = 0;
        while i < self.states.len()
            invariant
                i <= self.states@.len(),
                self.states@.len() == start.states.len(),
                forall|k: int|
                    0 <= k < i ==> #[trigger] self.states@[k] == (if start.states[k]
                        == SegmentState::Failed {
                        SegmentState::Waiting
                    } else {
                        start.states[k]
                    }),
                forall|k: int|
                    i <= k < start.states.len() ==> #[trigger] self.states@[k] == start.states[k],
                self@ == (JobView { states: self.states@, ..start }),
            decreases self.states@.len() - i,
        {
            if self.states[i] == SegmentState::Failed {
                self.states.set(i, SegmentState::Waiting);
            }
            i += 1;
        }
        self.cursor = 0;
        proof {
            lemma_count_zero(self.states@, SegmentState::Active);
            assert forall|k: int| 0 <= k < self.states@.len() implies #[trigger] self.states@[k]
                == SegmentState::Waiting || self.states@[k] == SegmentState::Done by {
                assert(start.states[k] != SegmentState::Active);
                assert(start.states[k] != SegmentState::Waiting);
            }
            assert(self.states@ =~= start.next_round().states);
        }
    }

    /// How the track ends, given the state of its task: a stop wins; otherwise a
    /// rejection, or segments that still fail, are its error.
    pub fn conclude(&self, control: TaskState) -> (r: Result<Outcome, String>)
        ensures
            ending(r) == self@.conclusion(control),
    {
        if control == TaskState::Cancelled {
            return Ok(Outcome::Cancelled);
        }
        if control == TaskState::Paused {
            return Ok(Outcome::Paused);
        }
        if self.rejected {
            return Err(self.last_error.clone());
        }
        let n = self.count_failed();
        if n > 0 {
            let number = from_chars(decimal_chars(n as u64).as_slice());
            return Err(
                join3(
                    number.as_str(),
                    " segment(s) failed after 3 retries: ",
                    self.last_error.as_str(),
                ),
            );
        }
        Ok(Outcome::Done)
    }
}

// ── The run of a track ───────────────────────────────────────────────────

/// What the run of a track waits for.
#[derive(Debug, Clone, Copy, PartialEq, Eq, Structural)]
pub enum TrackWait {
    Begin,
    /// That a worker was started.
    Dispatch,
    /// That a worker ends.
    Worker,
    /// That the pause before another round is over.
    Pause,
    Nothing,
}

/// The run of a track.
pub struct TrackRun {
    pub job: SegmentJob,
    /// How many segments of other tracks were there when it began.
    pub earlier: usize,
    /// How many are there, of all tracks.
    pub done: usize,
    pub awaiting: TrackWait,
}

/// What happens to the run of a track.
#[derive(Debug)]
pub enum TrackEvent {
    Begun,
    /// The worker was started.
    Dispatched,
    /// The segment has been fetched, or was there already.
    Fetched(usize),
    /// The segment could not be fetched: why, and whether the media was rejected.
    Failed(usize, String, bool),
    /// The worker of the segment crashed.
    Crashed(usize),
    /// The pause is over.
    Waited,
}

/// What the run of a track asks for next.
#[derive(Debug, PartialEq, Eq)]
pub enum TrackAction {
    /// Start a worker for that segment.
    Fetch(usize),
    /// Wait for a worker to end.
    Wait,
    /// Pause for so many milliseconds.
    Pause(u64),
    /// The run is over.
    End(Result<Outcome, String>),
}

/// What an action asks for.
pub enum ActionView {
    Fetch(usize),
    Wait,
    Pause(u64),
    End(Result<Outcome, Seq<char>>),
}

impl View for TrackAction {
    type V = ActionView;

    open spec fn view(&self) -> ActionView {
        match *self {
            TrackAction::Fetch(i) => ActionView::Fetch(i),
            TrackAction::Wait => ActionView::Wait,
            TrackAction::Pause(ms) => ActionView::Pause(ms),
            TrackAction::End(r) => ActionView::End(ending(r)),
        }
    }
}

/// What is known of the run of a track.
pub struct TrackView {
    pub job: JobView,
    pub earlier: usize,
    pub done: usize,
    pub awaiting: TrackWait,
}

impl View for TrackRun {
    type V = TrackView;

    open spec fn view(&self) -> TrackView {
        TrackView {
            job: self.job@,
            earlier: self.earlier,
            done: self.done,
            awaiting: self.awaiting,
        }
    }
}

impl TrackView {
    /// The segments that are there are counted.
    pub open spec fn counted(self) -> bool {
        &&& self.job.inv()
        &&& self.earlier + self.job.states.len() <= usize::MAX
        &&& self.done == self.earlier + count(self.job.states, SegmentState::Done)
    }

    /// The segments that are there are counted, and what is waited for can come.
    pub open spec fn inv(self) -> bool {
        &&& self.counted()
        &&& self.awaiting == TrackWait::Pause ==> self.job.round_over()
        &&& self.awaiting == TrackWait::Worker ==> self.job.active > 0
    }

    /// Whether the event is one that the run waits for.
    pub open spec fn accepts(self, event: TrackEvent) -> bool {
        match event {
            TrackEvent::Begun => self.awaiting == TrackWait::Begin,
            TrackEvent::Dispatched => self.awaiting == TrackWait::Dispatch,
            TrackEvent::Waited => self.awaiting == TrackWait::Pause,
            TrackEvent::Fetched(i) | TrackEvent::Failed(i, _, _) | TrackEvent::Crashed(i) => {
                &&& self.awaiting == TrackWait::Worker
                &&& i < self.job.states.len()
                &&& self.job.states[i as int] == SegmentState::Active
            },
        }
    }

    /// What an event does to the run, given the state of its task: a pause is
    /// followed by another round as long as the task is at work.
    pub open spec fn took(self, event: TrackEvent, control: TaskState) -> TrackView {
        match event {
            TrackEvent::Begun | TrackEvent::Dispatched => self,
            TrackEvent::Fetched(i) => TrackView {
                job: self.job.succeeded(i as int),
                done: (self.done + 1) as usize,
                ..self
            },
            TrackEvent::Failed(i, message, rejection) => TrackView {
                job: self.job.failed(i as int, message@, rejection),
                ..self
            },
            TrackEvent::Crashed(i) => TrackView { job: self.job.crashed(i as int), ..self },
            TrackEvent::Waited => if control == TaskState::Running {
                TrackView { job: self.job.next_round(), ..self }
            } else {
                self
            },
        }
    }

    /// Whether segments may still be fetched: the media was not rejected, and
    /// the task is at work.
    pub open spec fn may_fetch(self, control: TaskState) -> bool {
        !self.job.rejected && control == TaskState::Running
    }

    /// What the run asks for next. The segments that wait are dispatched while
    /// there is room, or fail where they may no longer be fetched; then workers
    /// are waited for; and when the round is over, another may follow.
    pub open spec fn onward(self, control: TaskState) -> (TrackView, ActionView) {
        let job = if self.may_fetch(control) || self.job.active >= self.job.concurrency {
            self.job
        } else {
            self.job.refused()
        };
        let (next, found) = job.dispatched();
        match found {
            Some(i) => (
                TrackView { job: next, awaiting: TrackWait::Dispatch, ..self },
                ActionView::Fetch(i),
            ),
            None => if next.active > 0 {
                (TrackView { job: next, awaiting: TrackWait::Worker, ..self }, ActionView::Wait)
            } else {
                TrackView { job: next, ..self }.rounded(control)
            },
        }
    }

    /// What follows a round.
    pub open spec fn rounded(self, control: TaskState) -> (TrackView, ActionView) {
        let (job, step) = self.job.after_round();
        match step {
            RoundStep::Retry(ms) => (
                TrackView { job, awaiting: TrackWait::Pause, ..self },
                ActionView::Pause(ms),
            ),
            RoundStep::Over => self.over(control),
        }
    }

    /// The run is over.
    pub open spec fn over(self, control: TaskState) -> (TrackView, ActionView) {
        (
            TrackView { awaiting: TrackWait::Nothing, ..self },
            ActionView::End(self.job.conclusion(control)),
        )
    }

    /// What follows an event. A task that was stopped during a pause gets no
    /// further round.
    pub open spec fn stepped(self, event: TrackEvent, control: TaskState) -> (
        TrackView,
        ActionView,
    ) {
        if event is Waited && control != TaskState::Running {
            self.over(control)
        } else {
            self.took(event, control).onward(control)
        }
    }
}

impl TrackRun {
    /// The segments that are there are counted, and what is waited for can come.
    pub open spec fn wf(&self) -> bool {
        self@.inv()
    }

    /// The run of a track of so many segments, with so many of other tracks
    /// already there.
    pub fn new(total: usize, concurrency: usize, earlier: usize) -> (r: Self)
        requires
            earlier + total <= usize::MAX,
        ensures
            r.wf(),
            r@ == (TrackView {
                job: JobView::start(total as nat, concurrency),
                earlier,
                done: earlier,
                awaiting: TrackWait::Begin,
            }),
    {
        let job = SegmentJob::new(total, concurrency);
        proof {
            lemma_count_zero(job@.states, SegmentState::Done);
        }
        TrackRun { job, earlier, done: earlier, awaiting: TrackWait::Begin }
    }

    /// What an event does to the run.
    fn take(&mut self, event: TrackEvent, control: TaskState)
        requires
            old(self).wf(),
            old(self)@.accepts(event),
        ensures
            final(self)@.counted(),
            final(self)@ == old(self)@.took(event, control),
    {
        let ghost before = self.job@;
        match event {
            TrackEvent::Begun | TrackEvent::Dispatched => {},
            TrackEvent::Fetched(i) => {
                proof {
                    let after = before.states.update(i as int, SegmentState::Done);
                    lemma_count_update(
                        before.states,
                        i as int,
                        SegmentState::Done,
                        SegmentState::Done,
                    );
                    lemma_count_zero(after, SegmentState::Done);
                }
                self.job.succeeded(i);
                self.done = self.done + 1;
            },
            TrackEvent::Failed(i, message, rejection) => {
                proof {
                    lemma_count_update(
                        before.states,
                        i as int,
                        SegmentState::Failed,
                        SegmentState::Done,
                    );
                }
                self.job.failed(i, message.as_str(), rejection);
            },
            TrackEvent::Crashed(i) => {
                proof {
                    lemma_count_update(
                        before.states,
                        i as int,
                        SegmentState::Failed,
                        SegmentState::Done,
                    );
                }
                self.job.crashed(i);
            },
            TrackEvent::Waited => {
                if control == TaskState::Running {
                    self.job.start_round();
                    proof {
                        lemma_same_count(before.states, self.job@.states, SegmentState::Done);
                    }
                }
            },
        }
    }

    /// What the run asks for next.
    fn go_on(&mut self, control: TaskState) -> (r: TrackAction)
        requires
            old(self)@.counted(),
        ensures
            final(self).wf(),
            (final(self)@, r@) == old(self)@.onward(control),
    {
        let ghost taken = self.job@;
        if (self.job.rejected || control != TaskState::Running) && self.job.active
            < self.job.concurrency {
            self.job.refuse();
            proof {
                lemma_same_count(taken.states, self.job@.states, SegmentState::Done);
            }
        }
        let ghost ready = self.job@;
        proof {
            lemma_next_waiting(ready.states, ready.cursor);
        }
        if let Some(i) = self.job.dispatch() {
            proof {
                lemma_count_update(
                    ready.states,
                    i as int,
                    SegmentState::Active,
                    SegmentState::Done,
                );
            }
            self.awaiting = TrackWait::Dispatch;
            return TrackAction::Fetch(i);
        }
        if self.job.active > 0 {
            self.awaiting = TrackWait::Worker;
            return TrackAction::Wait;
        }
        match self.job.after_round() {
            RoundStep::Retry(ms) => {
                self.awaiting = TrackWait::Pause;
                TrackAction::Pause(ms)
            },
            RoundStep::Over => {
                self.awaiting = TrackWait::Nothing;
                TrackAction::End(self.job.conclude(control))
            },
        }
    }

    /// The next step of a run, given the state of its task.
    pub fn step(&mut self, event: TrackEvent, control: TaskState) -> (r: TrackAction)
        requires
            old(self).wf(),
            old(self)@.accepts(event),
        ensures
            final(self).wf(),
            (final(self)@, r@) == old(self)@.stepped(event, control),
    {
        let paused = matches!(event, TrackEvent::Waited);
        if paused && control != TaskState::Running {
            self.awaiting = TrackWait::Nothing;
            return TrackAction::End(self.job.conclude(control));
        }
        self.take(event, control);
        self.go_on(control)
    }
}

proof fn lemma_same_count(a: Seq<SegmentState>, b: Seq<SegmentState>, s: SegmentState)
    requires
        a.len() == b.len(),
        forall|i: int| 0 <= i < a.len() ==> ((#[trigger] a[i]) == s <==> b[i] == s),
    ensures
        count(a, s) == count(b, s),
    decreases a.len(),
{
    if a.len() > 0 {
        assert forall|i: int| 0 <= i < a.len() - 1 implies ((#[trigger] a.drop_last()[i]) == s
            <==> b.drop_last()[i] == s) by {
            assert(a.drop_last()[i] == a[i]);
        }
        lemma_same_count(a.drop_last(), b.drop_last(), s);
        assert(a.last() == a[a.len() - 1]);
    }
}

proof fn lemma_took(run: TrackView, event: TrackEvent, control: TaskState)
    requires
        run.inv(),
        run.accepts(event),
    ensures
        run.took(event, control).job.inv(),
{
    let job = run.job;
    match event {
        TrackEvent::Fetched(i) => {
            lemma_count_update(job.states, i as int, SegmentState::Done, SegmentState::Active);
        },
        TrackEvent::Failed(i, _, _) | TrackEvent::Crashed(i) => {
            lemma_count_update(job.states, i as int, SegmentState::Failed, SegmentState::Active);
        },
        TrackEvent::Waited => {
            lemma_same_count(job.states, job.next_round().states, SegmentState::Active);
            lemma_count_zero(job.states, SegmentState::Active);
            assert forall|k: int|
                0 <= k < job.states.len() implies #[trigger] job.next_round().states[k]
                == SegmentState::Waiting || job.next_round().states[k] == SegmentState::Done by {
                assert(job.states[k] != SegmentState::Active);
                assert(job.states[k] != SegmentState::Waiting);
            }
        },
        _ => {},
    }
}

// ── Laws ─────────────────────────────────────────────────────────────────

/// A track whose rounds are over, with no failure left, has every segment: none
/// is skipped, whatever the order in which they came.
pub proof fn law_done_means_every_segment(run: TrackView, event: TrackEvent, control: TaskState)
    requires
        run.inv(),
        run.accepts(event),
    ensures
        run.stepped(event, control).1 == ActionView::End(Ok::<Outcome, Seq<char>>(Outcome::Done))
            ==> run.stepped(event, control).0.job.complete(),
{
    let (after, action) = run.stepped(event, control);
    let job = after.job;
    lemma_took(run, event, control);
    let taken = run.took(event, control).job;
    if taken.active < taken.concurrency {
        lemma_same_count(taken.states, taken.refused().states, SegmentState::Active);
        lemma_next_waiting(taken.refused().states, taken.refused().cursor);
    }
    lemma_next_waiting(taken.states, taken.cursor);
    if action == ActionView::End(Ok::<Outcome, Seq<char>>(Outcome::Done)) {
        lemma_count_zero(job.states, SegmentState::Failed);
        lemma_count_zero(job.states, SegmentState::Active);
        assert forall|i: int| 0 <= i < job.states.len() implies #[trigger] job.states[i]
            == SegmentState::Done by {
            assert(job.states[i] != SegmentState::Failed);
            assert(job.states[i] != SegmentState::Active);
            assert(job.states[i] != SegmentState::Waiting);
        }
    }
}

/// A segment that is there is never fetched again, and stays there.
pub proof fn law_segments_are_fetched_once(run: TrackView, event: TrackEvent, control: TaskState, i: int)
    requires
        run.inv(),
        run.accepts(event),
        0 <= i < run.job.states.len(),
        run.job.states[i] == SegmentState::Done,
    ensures
        run.stepped(event, control).0.job.states[i] == SegmentState::Done,
        run.stepped(event, control).1 != ActionView::Fetch(i as usize),
{
    let taken = run.took(event, control).job;
    let job = if run.took(event, control).may_fetch(control) || taken.active >= taken.concurrency {
        taken
    } else {
        taken.refused()
    };
    assert(taken.states[i] == SegmentState::Done);
    assert(job.states[i] == SegmentState::Done);
    if 0 <= job.cursor <= job.states.len() {
        lemma_next_waiting(job.states, job.cursor);
    }
}

/// Once the media was rejected, or the task no longer is at work, nothing more
/// is fetched and no further round follows a rejection.
pub proof fn law_nothing_is_fetched_in_vain(run: TrackView, event: TrackEvent, control: TaskState)
    requires
        run.inv(),
        run.accepts(event),
        run.job.rejected || control != TaskState::Running,
    ensures
        !(run.stepped(event, control).1 is Fetch),
        run.job.rejected ==> !(run.stepped(event, control).1 is Pause),
{
    let taken = run.took(event, control).job;
    if taken.active < taken.concurrency {
        let job = taken.refused();
        lemma_next_waiting(job.states, job.cursor);
    }
}

/// While the task is at work and the media were not rejected, a segment that waits is
/// fetched as soon as there is room, the first one first, and none that does not wait;
/// workers are waited for only where there is no room or nothing waits; and the run
/// ends, or pauses, only when every worker has and nothing waits.
pub proof fn law_waiting_segments_are_fetched(run: TrackView, event: TrackEvent, control: TaskState)
    requires
        run.inv(),
        run.accepts(event),
    ensures
        ({
            let taken = run.took(event, control).job;
            let (after, action) = run.stepped(event, control);
            let stops = event is Waited && control != TaskState::Running;
            &&& control == TaskState::Running && !taken.rejected && taken.active < taken.concurrency && (
            exists|i: int|
                0 <= i < taken.states.len() && #[trigger] taken.states[i] == SegmentState::Waiting)
                ==> action is Fetch
            &&& action matches ActionView::Fetch(i) ==> {
                &&& i < taken.states.len() && taken.states[i as int] == SegmentState::Waiting
                &&& forall|j: int| 0 <= j < i ==> #[trigger] taken.states[j] != SegmentState::Waiting
                &&& after.job.states == taken.states.update(i as int, SegmentState::Active)
                &&& after.job.active == taken.active + 1 && taken.active < taken.concurrency
            }
            &&& action is Wait ==> taken.active > 0 && after.job.active == taken.active
            &&& (action is End || action is Pause) && !stops ==> {
                &&& taken.active == 0
                &&& forall|j: int|
                    0 <= j < after.job.states.len() ==> #[trigger] after.job.states[j]
                        != SegmentState::Waiting && after.job.states[j] != SegmentState::Active
            }
        }),
{
    let taken = run.took(event, control).job;
    lemma_took(run, event, control);
    lemma_next_waiting(taken.states, taken.cursor);
    lemma_count_zero(taken.states, SegmentState::Active);
    let refused = taken.refused();
    lemma_next_waiting(refused.states, refused.cursor);
    if exists|i: int|
        0 <= i < taken.states.len() && #[trigger] taken.states[i] == SegmentState::Waiting {
        let i = choose|i: int|
            0 <= i < taken.states.len() && #[trigger] taken.states[i] == SegmentState::Waiting;
        assert(i >= taken.cursor);
        assert(next_waiting(taken.states, taken.cursor) <= i);
    }
    if taken.active == 0 {
        assert forall|j: int| 0 <= j < taken.states.len() implies #[trigger] taken.states[j]
            != SegmentState::Active by {}
    }
}

/// A segment that failed is tried again, up to three times, with pauses that grow,
/// unless the media were rejected; none that is there is. The run ends well only with
/// all segments, with an error only where one is missing or the media were rejected,
/// and as stopped where its task is.
pub proof fn law_failed_segments_are_tried_again(run: TrackView, event: TrackEvent, control: TaskState)
    requires
        run.inv(),
        run.accepts(event),
    ensures
        ({
            let taken = run.took(event, control).job;
            let (after, action) = run.stepped(event, control);
            &&& event is Waited && control == TaskState::Running ==> forall|i: int|
                0 <= i < run.job.states.len() ==> #[trigger] taken.states[i] == (
                if run.job.states[i] == SegmentState::Failed {
                    SegmentState::Waiting
                } else {
                    run.job.states[i]
                })
            &&& action matches ActionView::Pause(ms) ==> {
                &&& !after.job.rejected && run.job.attempt < 3 && ms == 300 * (run.job.attempt + 1)
                &&& exists|i: int|
                    0 <= i < after.job.states.len() && #[trigger] after.job.states[i]
                        == SegmentState::Failed
            }
            &&& action matches ActionView::End(end) ==> {
                &&& control == TaskState::Cancelled ==> end == Ok::<Outcome, Seq<char>>(
                    Outcome::Cancelled,
                )
                &&& control == TaskState::Paused ==> end == Ok::<Outcome, Seq<char>>(Outcome::Paused)
                &&& control == TaskState::Running && end is Ok ==> end == Ok::<Outcome, Seq<char>>(
                    Outcome::Done,
                )
                &&& end is Err ==> after.job.rejected || exists|i: int|
                    0 <= i < after.job.states.len() && #[trigger] after.job.states[i]
                        == SegmentState::Failed
                &&& end is Err && !after.job.rejected && control == TaskState::Running
                    ==> after.job.attempt == 3
                &&& after.job.rejected && control == TaskState::Running ==> end is Err
            }
            &&& event matches TrackEvent::Fetched(i) ==> taken.states == run.job.states.update(
                i as int,
                SegmentState::Done,
            ) && taken.active + 1 == run.job.active && run.took(event, control).done == run.done + 1
            &&& event matches TrackEvent::Failed(i, m, rejection) ==> taken.states
                == run.job.states.update(i as int, SegmentState::Failed) && taken.rejected == (
            run.job.rejected || rejection) && (rejection ==> taken.last_error == m@)
            &&& event matches TrackEvent::Crashed(i) ==> taken.states == run.job.states.update(
                i as int,
                SegmentState::Failed,
            )
        }),
{
    let taken = run.took(event, control).job;
    let (after, action) = run.stepped(event, control);
    lemma_took(run, event, control);
    lemma_next_waiting(taken.states, taken.cursor);
    lemma_count_zero(taken.states, SegmentState::Active);
    lemma_count_zero(run.job.states, SegmentState::Active);
    lemma_count_zero(after.job.states, SegmentState::Failed);
    lemma_count_zero(run.job.states, SegmentState::Failed);
    if let TrackEvent::Fetched(i) = event {
        lemma_count_update(run.job.states, i as int, SegmentState::Done, SegmentState::Done);
        lemma_count_zero(taken.states, SegmentState::Done);
        assert(run.job.states[i as int] == SegmentState::Active);
        assert(run.job.active > 0);
        assert(taken.states.len() <= usize::MAX);
    }
}

/// Rounds end: each one that follows counts, and there is none after the last.
pub proof fn law_retries_are_bounded(run: TrackView, event: TrackEvent, control: TaskState)
    requires
        run.inv(),
        run.accepts(event),
    ensures
        ({
            let (after, action) = run.stepped(event, control);
            &&& after.job.attempt <= RETRIES
            &&& action is Pause ==> after.job.attempt == run.job.attempt + 1
            &&& !(action is Pause) ==> after.job.attempt == run.job.attempt
        }),
{
}

} // verus!
