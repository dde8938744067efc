//! The daily job: rank the popular listing, skip what is already on disk and
//! download the remainder, then record the run.
use std::collections::VecDeque;
use vstd::prelude::*;
use crate::configuration::jav::Config;
use crate::configuration::listing::listing_of;
use crate::jav::app::{
    holds, one_each, terminal, DownloadRequest, RegistryView, TaskInfo, TaskRegistry, TaskState, TaskView,
};
use crate::jav::source::scraper::{CardView, VideoCard};
use crate::table::listed;
use crate::jav::util::{cloudflare_hint, hinted};
use crate::text::{
    decimal, decimal_chars, from_chars, join2, join3, opt_view, push_all, same_str, to_chars, views,
};

verus! {

/// What came of a run.
#[derive(Debug, Clone, Copy, PartialEq, Eq, Structural)]
pub struct DailyReport {
    pub candidates: usize,
    pub skipped: usize,
    pub attempted: usize,
    pub completed: usize,
    pub failed: usize,
}

impl Default for DailyReport {
    fn default() -> (r: Self)
        ensures
            r == (DailyReport { candidates: 0, skipped: 0, attempted: 0, completed: 0, failed: 0 }),
    {
        DailyReport { candidates: 0, skipped: 0, attempted: 0, completed: 0, failed: 0 }
    }
}

/// A video that waits for a worker.
#[derive(Debug)]
pub struct Waiting {
    pub card: VideoCard,
    pub request: DownloadRequest,
}

/// What one link of a run has come to.
pub struct LinkQueue {
    pub cfg: Config,
    pub report: DailyReport,
    /// Listed, not yet looked at.
    pub candidates: VecDeque<VideoCard>,
    /// Accepted, waiting for a worker.
    pub queued: VecDeque<Waiting>,
    /// The ids that have been looked at.
    pub seen: Vec<String>,
    pub next_page: usize,
    pub in_flight: usize,
    pub error: Option<String>,
    /// The candidate that is being looked at.
    pub candidate: Option<VideoCard>,
}

/// What one link of a run holds.
pub struct LinkView {
    pub cfg: Config,
    pub report: DailyReport,
    pub candidates: Seq<VideoCard>,
    pub queued: Seq<Waiting>,
    pub seen: Seq<Seq<char>>,
    pub next_page: usize,
    pub in_flight: usize,
    pub error: Option<Seq<char>>,
    pub candidate: Option<VideoCard>,
}

impl View for LinkQueue {
    type V = LinkView;

    open spec fn view(&self) -> LinkView {
        LinkView {
            cfg: self.cfg,
            report: self.report,
            candidates: self.candidates@,
            queued: self.queued@,
            seen: views(self.seen@),
            next_page: self.next_page,
            in_flight: self.in_flight,
            error: opt_view(self.error),
            candidate: self.candidate,
        }
    }
}

/// What filling a link's quota asks for next.
#[derive(Debug, Clone, Copy, PartialEq, Eq, Structural)]
pub enum FillStep {
    /// The quota is reserved, or there is nothing more to reserve it with.
    Enough,
    /// Read that page of the listing.
    Fetch(usize),
    /// Look at the candidate that the link holds.
    Consider,
}

/// The first candidate that has not been looked at; their number where all have.
pub open spec fn fresh(candidates: Seq<VideoCard>, seen: Seq<Seq<char>>) -> int
    decreases candidates.len(),
{
    if candidates.len() == 0 {
        0
    } else if seen.contains(candidates[0].id@) {
        1 + fresh(candidates.skip(1), seen)
    } else {
        0
    }
}

impl LinkView {
    /// How many videos the link is to bring, at least one.
    pub open spec fn quota(self) -> usize {
        if self.cfg.top_n < 1 {
            1
        } else {
            self.cfg.top_n
        }
    }

    /// How many pages of the listing may be read, at least one.
    pub open spec fn pages(self) -> usize {
        if self.cfg.max_pages < 1 {
            1
        } else {
            self.cfg.max_pages
        }
    }

    /// How much of the quota is reserved: brought, under way or waiting.
    pub open spec fn reserved(self) -> nat {
        (self.report.completed + self.in_flight + self.queued.len()) as nat
    }

    /// How many candidates are being looked at.
    pub open spec fn considering(self) -> nat {
        if self.candidate is Some {
            1
        } else {
            0
        }
    }

    /// Every candidate is looked at and counted at most once, nothing is attempted
    /// twice, and the quota is never exceeded.
    pub open spec fn inv(self) -> bool {
        &&& self.seen.no_duplicates()
        &&& self.report.candidates == self.seen.len()
        &&& self.report.candidates >= self.report.skipped + self.report.attempted
            + self.queued.len() + self.considering()
        &&& self.report.completed + self.report.failed + self.in_flight <= self.report.attempted
        &&& self.reserved() + self.considering() <= self.quota()
        &&& self.next_page >= 1
    }

    /// Nothing has been listed.
    pub open spec fn start(cfg: Config) -> LinkView {
        LinkView {
            cfg,
            report: DailyReport { candidates: 0, skipped: 0, attempted: 0, completed: 0, failed: 0 },
            candidates: Seq::empty(),
            queued: Seq::empty(),
            seen: Seq::empty(),
            next_page: 1,
            in_flight: 0,
            error: None,
            candidate: None,
        }
    }

    /// Filling the quota: as long as some of it is not reserved, the next
    /// candidate that has not been looked at is, and where there is none the
    /// next page is read, until one fails or no more may be read.
    pub open spec fn filled(self) -> (LinkView, FillStep) {
        let n = fresh(self.candidates, self.seen);
        if self.reserved() >= self.quota() {
            (self, FillStep::Enough)
        } else if n < self.candidates.len() {
            (
                LinkView {
                    candidates: self.candidates.skip(n + 1),
                    seen: self.seen.push(self.candidates[n].id@),
                    report: DailyReport {
                        candidates: (self.report.candidates + 1) as usize,
                        ..self.report
                    },
                    candidate: Some(self.candidates[n]),
                    ..self
                },
                FillStep::Consider,
            )
        } else {
            (
                LinkView { candidates: Seq::empty(), ..self },
                if self.next_page > self.pages() || self.error is Some {
                    FillStep::Enough
                } else {
                    FillStep::Fetch(self.next_page)
                },
            )
        }
    }

    /// A page of the listing has been read.
    pub open spec fn listed(self, cards: Seq<VideoCard>) -> LinkView {
        LinkView {
            candidates: self.candidates + cards,
            next_page: (self.next_page + 1) as usize,
            ..self
        }
    }

    /// A page of the listing could not be read.
    pub open spec fn unlisted(self, error: Seq<char>) -> LinkView {
        LinkView {
            error: Some(hinted(error)),
            next_page: (self.next_page + 1) as usize,
            ..self
        }
    }

    /// The candidate is registered, unless it has been completed, is under way,
    /// or is refused; then it is skipped.
    pub open spec fn considered(
        self,
        v: RegistryView,
        completed: bool,
        idle: bool,
        now: u64,
    ) -> (LinkView, RegistryView) {
        let card = self.candidate->0;
        let id = card.id@;
        let busy = v.tasks.contains_key(id) && !terminal(v.tasks[id].state);
        if completed || busy || !v.can_register(id, idle) {
            (
                LinkView {
                    candidate: None,
                    report: DailyReport {
                        skipped: (self.report.skipped + 1) as usize,
                        ..self.report
                    },
                    ..self
                },
                v,
            )
        } else {
            let listing = listing_of(
                self.cfg.site_base@,
                self.cfg.popular_path@,
                "popular"@,
                1,
            );
            (
                LinkView {
                    candidate: None,
                    queued: self.queued.push(
                        Waiting { card, request: DownloadRequest { token: v.next_token } },
                    ),
                    ..self
                },
                v.registered(waiting_task(card@, listing, now)),
            )
        }
    }

    /// The first video that waits is under way.
    pub open spec fn started(self) -> LinkView {
        LinkView {
            queued: self.queued.skip(1),
            in_flight: (self.in_flight + 1) as usize,
            report: DailyReport {
                attempted: (self.report.attempted + 1) as usize,
                ..self.report
            },
            ..self
        }
    }

    /// A video that was under way is no more.
    pub open spec fn ended(self, completed: bool, failed: bool) -> LinkView {
        LinkView {
            in_flight: (self.in_flight - 1) as usize,
            report: DailyReport {
                completed: (self.report.completed + if completed {
                    1int
                } else {
                    0
                }) as usize,
                failed: (self.report.failed + if failed {
                    1int
                } else {
                    0
                }) as usize,
                ..self.report
            },
            ..self
        }
    }
}

impl LinkQueue {
    /// Every candidate is looked at and counted at most once, nothing is attempted
    /// twice, and the quota is never exceeded.
    pub open spec fn wf(&self) -> bool {
        self@.inv()
    }

    /// Nothing has been listed.
    pub fn new(cfg: Config) -> (r: Self)
        ensures
            r.wf(),
            r@ == LinkView::start(cfg),
    {
        let r = LinkQueue {
            cfg,
            report: DailyReport::default(),
            candidates: VecDeque::new(),
            queued: VecDeque::new(),
            seen: Vec::new(),
            next_page: 1,
            in_flight: 0,
            error: None,
            candidate: None,
        };
        assert(r.candidates@ =~= Seq::empty());
        assert(r.queued@ =~= Seq::empty());
        assert(views(r.seen@) =~= Seq::empty());
        r
    }

    fn was_seen(&self, id: &str) -> (r: bool)
        ensures
            r == self@.seen.contains(id@),
    {
        let ghost all = views(self.seen@);
        let mut i: usize = 0;
        while i < self.seen.len()
            invariant
                i <= self.seen@.len(),
                all == views(self.seen@),
                forall|j: int| 0 <= j < i ==> all[j] != id@,
            decreases self.seen@.len() - i,
        {
            assert(all[i as int] == self.seen@[i as int]@);
            if same_str(self.seen[i].as_str(), id) {
                assert(all[i as int] == id@);
                return true;
            }
            i += 1;
        }
        false
    }

    /// What filling the quota asks for next. Only as many candidates are looked
    /// at as are needed to fill what remains of the quota, each once.
    pub fn fill(&mut self) -> (r: FillStep)
        requires
            old(self).wf(),
            old(self).candidate is None,
        ensures
            final(self).wf(),
            (final(self)@, r) == old(self)@.filled(),
    {
        let quota = if self.cfg.top_n < 1 {
            1
        } else {
            self.cfg.top_n
        };
        let waiting = self.queued.len();
        if self.report.completed + self.in_flight + waiting >= quota {
            return FillStep::Enough;
        }
        let ghost start = self@;
        let ghost mut at: int = 0;
        assert(start.candidates.skip(0) =~= start.candidates);
        while self.candidates.len() > 0
            invariant
                self.wf(),
                self.candidate is None,
                start == old(self)@,
                start.inv(),
                start.reserved() < start.quota(),
                self@ == (LinkView { candidates: start.candidates.skip(at), ..start }),
                0 <= at <= start.candidates.len(),
                fresh(start.candidates, start.seen) == at + fresh(self@.candidates, start.seen),
            decreases self.candidates@.len(),
        {
            let ghost here = self.candidates@;
            let first = self.candidates.pop_front();
            assert(self.candidates@ =~= here.skip(1));
            assert(here.skip(1) =~= start.candidates.skip(at + 1));
            if let Some(card) = first {
                assert(card == here[0]);
                if !self.was_seen(card.id.as_str()) {
                    self.seen.push(card.id.clone());
                    assert(views(self.seen@) =~= start.seen.push(card.id@));
                    self.report.candidates = self.seen.len();
                    assert(start.candidates[at] == card);
                    self.candidate = Some(card);
                    return FillStep::Consider;
                }
            }
            proof {
                at = at + 1;
            }
        }
        assert(self.candidates@ =~= Seq::empty());
        assert(fresh(self@.candidates, start.seen) == 0);
        assert(at == start.candidates.len());
        let pages = if self.cfg.max_pages < 1 {
            1
        } else {
            self.cfg.max_pages
        };
        if self.next_page > pages || self.error.is_some() {
            return FillStep::Enough;
        }
        FillStep::Fetch(self.next_page)
    }

    /// A page of the listing has been read.
    pub fn listed(&mut self, cards: Vec<VideoCard>)
        requires
            old(self).wf(),
            old(self).next_page < usize::MAX,
        ensures
            final(self).wf(),
            final(self)@ == old(self)@.listed(cards@),
    {
        let ghost all = cards@;
        let mut more = VecDeque::new();
        let mut rest = cards;
        assert(rest@ + more@ =~= all);
        while rest.len() > 0
            invariant
                rest@ + more@ == all,
            decreases rest@.len(),
        {
            let ghost r = rest@;
            let ghost m = more@;
            if let Some(card) = rest.pop() {
                more.push_front(card);
                assert(rest@ + more@ =~= r + m);
            }
        }
        assert(more@ =~= all);
        self.candidates.append(&mut more);
        self.next_page = self.next_page + 1;
    }

    /// A page of the listing could not be read.
    pub fn listing_failed(&mut self, error: &str)
        requires
            old(self).wf(),
            old(self).next_page < usize::MAX,
        ensures
            final(self).wf(),
            final(self)@ == old(self)@.unlisted(error@),
    {
        self.error = Some(cloudflare_hint(error));
        self.next_page = self.next_page + 1;
    }

    /// The candidate is registered, unless it has been completed, is under way,
    /// or is refused; then it is skipped.
    pub fn consider(&mut self, registry: &mut TaskRegistry, completed: bool, idle: bool, now: u64)
        requires
            old(self).wf(),
            old(self).candidate is Some,
            old(registry).wf(),
            old(registry).view().next_token < u64::MAX,
        ensures
            final(self).wf(),
            final(registry).wf(),
            (final(self)@, final(registry).view()) == old(self)@.considered(
                old(registry).view(),
                completed,
                idle,
                now,
            ),
    {
        let ghost start = self@;
        let mut taken: Option<VideoCard> = None;
        std::mem::swap(&mut taken, &mut self.candidate);
        if let Some(card) = taken {
            let busy = match registry.task(card.id.as_str()) {
                Some(t) => !t.is_terminal(),
                None => false,
            };
            if completed || busy {
                self.report.skipped = self.report.skipped + 1;
                return;
            }
            let mut task = TaskInfo::new(card.id.as_str(), card.url.as_str(), now);
            task.title = card.title.clone();
            task.source_url = self.cfg.popular_url(1);
            task.message = "waiting for a download slot".to_owned();
            match registry.register_task(task, idle) {
                Some(request) => {
                    self.queued.push_back(Waiting { card, request });
                    assert(self.queued@ =~= start.queued.push(Waiting { card, request }));
                },
                None => {
                    self.report.skipped = self.report.skipped + 1;
                },
            }
        }
    }
}

/// The task of a video that waits for a worker.
pub open spec fn waiting_task(card: CardView, listing: Seq<char>, now: u64) -> TaskView {
    TaskView {
        id: card.id,
        url: card.url,
        title: card.title,
        source_url: listing,
        state: TaskState::Queued,
        phase: "queued"@,
        done_segments: 0,
        total_segments: 0,
        downloaded_bytes: 0,
        total_bytes: 0,
        speed: 0,
        message: "waiting for a download slot"@,
        path: Seq::empty(),
        updated_at: now,
    }
}

// ── A run ────────────────────────────────────────────────────────────────

/// What a run waits for.
#[derive(Debug, Clone, Copy, PartialEq, Eq, Structural)]
pub enum Awaiting {
    Begin,
    /// A page of the listing of the link that is being filled.
    Listing,
    /// What is known of the candidate of that link.
    Look,
    /// That a worker was started.
    Start,
    /// That a worker ends.
    Worker,
    Nothing,
}

/// A run over all links.
pub struct Daily {
    pub links: Vec<LinkQueue>,
    /// How many videos may be under way at the same time.
    pub limit: usize,
    /// How many are.
    pub active: usize,
    /// The run was asked to stop.
    pub stopped: bool,
    /// The link that is being filled.
    pub at: usize,
    pub awaiting: Awaiting,
}

/// How a worker ended.
#[derive(Debug)]
pub enum WorkerEnd {
    /// It ran to its end; the video is there, or it is not.
    Returned { completed: bool },
    /// It did not.
    Crashed(String),
}

/// The end of a worker: the index of its link, its video and its submission.
#[derive(Debug)]
pub struct Ended {
    pub index: usize,
    pub id: String,
    pub request: DownloadRequest,
    pub end: WorkerEnd,
}

/// What happens to a run.
#[derive(Debug)]
pub enum DailyEvent {
    Begun,
    /// The page was read.
    Listed(Vec<VideoCard>),
    /// The page could not be read.
    Unlisted(String),
    /// The service stops before the page was read.
    Interrupted,
    /// Whether the candidate has been completed, and whether a previous owner of
    /// its task is done.
    Looked { completed: bool, idle: bool },
    /// The worker was started.
    Started,
    Ended(Ended),
}

/// What a run asks for next.
#[derive(Debug)]
pub enum DailyStep {
    /// Read that page of that link's listing.
    Fetch(usize, usize),
    /// Look up the candidate of that link.
    Consider(usize),
    /// Start a worker for that link's video.
    Start(usize, Waiting),
    /// Wait for a worker to end.
    Wait,
    /// The run is over.
    Done,
}

/// Whether a task in that state was stopped.
pub open spec fn was_stopped(state: Option<TaskState>) -> bool {
    state == Some(TaskState::Paused) || state == Some(TaskState::Cancelled)
}

/// The state of a task, where there is such a task.
pub open spec fn state_of(v: RegistryView, id: Seq<char>) -> Option<TaskState> {
    if v.tasks.contains_key(id) {
        Some(v.tasks[id].state)
    } else {
        None
    }
}

/// What is published of a task on behalf of a submission, unless there is a
/// newer one or the service stops.
pub open spec fn published(v: RegistryView, token: u64, t: TaskView, now: u64) -> RegistryView {
    if !v.closed && v.current(t.id, token) {
        RegistryView {
            tasks: v.tasks.insert(t.id, TaskView { updated_at: now, ..t }),
            ..v
        }
    } else {
        v
    }
}

/// The first link from `i` on whose queue is not empty; the number of links
/// where there is none.
pub open spec fn first_waiting(links: Seq<LinkView>, i: int) -> int
    decreases links.len() - i,
{
    if i < 0 || i >= links.len() {
        links.len() as int
    } else if links[i].queued.len() > 0 {
        i
    } else {
        first_waiting(links, i + 1)
    }
}

/// How many videos of the first `n` links are under way.
pub open spec fn flying(links: Seq<LinkView>, n: int) -> nat
    decreases n,
{
    if n <= 0 {
        0
    } else {
        flying(links, n - 1) + links[n - 1].in_flight as nat
    }
}

proof fn lemma_flying_update(links: Seq<LinkView>, i: int, link: LinkView, n: int)
    requires
        0 <= i < links.len(),
        0 <= n <= links.len(),
    ensures
        flying(links.update(i, link), n) == flying(links, n) + (if i < n {
            link.in_flight - links[i].in_flight
        } else {
            0
        }),
        i < n ==> links[i].in_flight <= flying(links, n),
    decreases n,
{
    if n > 0 {
        lemma_flying_update(links, i, link, n - 1);
    }
}

/// What a run holds.
pub struct DailyView {
    pub links: Seq<LinkView>,
    pub limit: usize,
    pub active: usize,
    pub stopped: bool,
    pub at: int,
    pub awaiting: Awaiting,
}

/// What the links of a run hold.
pub open spec fn link_views(links: Seq<LinkQueue>) -> Seq<LinkView> {
    Seq::new(links.len(), |i: int| links[i]@)
}

impl View for Daily {
    type V = DailyView;

    open spec fn view(&self) -> DailyView {
        DailyView {
            links: link_views(self.links@),
            limit: self.limit,
            active: self.active,
            stopped: self.stopped,
            at: self.at as int,
            awaiting: self.awaiting,
        }
    }
}

impl DailyView {
    /// Every link keeps its books, and what is under way is counted.
    pub open spec fn inv(self) -> bool {
        &&& 1 <= self.limit <= 8
        &&& self.active <= self.limit
        &&& self.active == flying(self.links, self.links.len() as int)
        &&& 0 <= self.at <= self.links.len()
        &&& forall|i: int|
            0 <= i < self.links.len() ==> (#[trigger] self.links[i]).inv() && self.links[i].pages()
                < usize::MAX && (self.links[i].candidate is Some <==> self.awaiting
                == Awaiting::Look && i == self.at)
        &&& self.awaiting == Awaiting::Look || self.awaiting == Awaiting::Listing ==> self.at
            < self.links.len()
        &&& self.awaiting == Awaiting::Listing ==> self.links[self.at].next_page
            <= self.links[self.at].pages()
    }

    /// Whether the event is one that the run waits for.
    pub open spec fn accepts(self, event: DailyEvent) -> bool {
        match event {
            DailyEvent::Begun => self.awaiting == Awaiting::Begin,
            DailyEvent::Listed(_) => self.awaiting == Awaiting::Listing,
            DailyEvent::Unlisted(_) => self.awaiting == Awaiting::Listing,
            DailyEvent::Interrupted => self.awaiting == Awaiting::Listing,
            DailyEvent::Looked { .. } => self.awaiting == Awaiting::Look,
            DailyEvent::Started => self.awaiting == Awaiting::Start,
            DailyEvent::Ended(e) => {
                &&& self.awaiting == Awaiting::Worker
                &&& e.index < self.links.len()
                &&& self.links[e.index as int].in_flight > 0
            },
        }
    }

    /// The run with another link in place of the `i`-th.
    pub open spec fn with(self, i: int, link: LinkView) -> DailyView {
        DailyView { links: self.links.update(i, link), ..self }
    }

    /// A worker has ended. One that was stopped stops the run; one that crashed
    /// fails its task, and the run goes on.
    pub open spec fn ended(self, v: RegistryView, e: Ended, now: u64) -> (DailyView, RegistryView) {
        let i = e.index as int;
        let id = e.id@;
        let left = DailyView { active: (self.active - 1) as usize, at: 0, ..self };
        match e.end {
            WorkerEnd::Returned { completed } => {
                let stops = !completed && was_stopped(state_of(v, id));
                (
                    DailyView {
                        stopped: self.stopped || stops,
                        ..left.with(i, self.links[i].ended(completed, !completed && !stops))
                    },
                    v,
                )
            },
            WorkerEnd::Crashed(why) => (
                left.with(i, self.links[i].ended(false, true)),
                if v.tasks.contains_key(id) {
                    published(v, e.request.token, crashed_task(v.tasks[id], why@), now)
                } else {
                    v
                },
            ),
        }
    }

    /// Whether the run was asked to stop is looked up; asking is then over.
    pub open spec fn asked(self, v: RegistryView) -> (DailyView, RegistryView) {
        (
            DailyView { stopped: self.stopped || v.closed || v.daily_cancel, ..self },
            RegistryView { daily_cancel: v.closed && v.daily_cancel, ..v },
        )
    }

    /// What an event does to the run and to the tasks.
    pub open spec fn took(self, v: RegistryView, event: DailyEvent, now: u64) -> (
        DailyView,
        RegistryView,
    ) {
        match event {
            DailyEvent::Begun => self.asked(RegistryView { daily_cancel: false, ..v }),
            DailyEvent::Listed(cards) => self.with(
                self.at,
                self.links[self.at].listed(cards@),
            ).asked(v),
            DailyEvent::Unlisted(e) => self.with(self.at, self.links[self.at].unlisted(e@)).asked(v),
            DailyEvent::Interrupted => (DailyView { stopped: true, ..self }, v),
            DailyEvent::Looked { completed, idle } => {
                let (link, w) = self.links[self.at].considered(v, completed, idle, now);
                self.with(self.at, link).asked(w)
            },
            DailyEvent::Started => (self, v),
            DailyEvent::Ended(e) => {
                let (d, w) = self.ended(v, e, now);
                d.asked(w)
            },
        }
    }

    /// The next video is started: the first one that waits, in link order, as
    /// long as there is room. Where its task no longer waits, a user has stopped
    /// it, and the run stops. With nothing to start, a worker is waited for; with
    /// none, the run is over.
    pub open spec fn starting(self, v: RegistryView) -> (DailyView, DailyStep) {
        let i = first_waiting(self.links, 0);
        let wait = if self.active == 0 {
            (DailyView { awaiting: Awaiting::Nothing, ..self }, DailyStep::Done)
        } else {
            (DailyView { awaiting: Awaiting::Worker, ..self }, DailyStep::Wait)
        };
        if self.stopped || self.active >= self.limit || i >= self.links.len() {
            wait
        } else {
            let link = self.links[i];
            let first = link.queued[0];
            if state_of(v, first.card.id@) == Some(TaskState::Queued) {
                (
                    DailyView {
                        active: (self.active + 1) as usize,
                        awaiting: Awaiting::Start,
                        ..self.with(i, link.started())
                    },
                    DailyStep::Start(i as usize, first),
                )
            } else {
                (
                    DailyView { stopped: true, ..wait.0 }.with(
                        i,
                        LinkView { queued: link.queued.skip(1), ..link },
                    ),
                    wait.1,
                )
            }
        }
    }

    /// What the run asks for next: the links are filled in their order, unless
    /// the run is to stop, and then videos are started.
    pub open spec fn onward(self, v: RegistryView) -> (DailyView, DailyStep)
        decreases self.links.len() - self.at,
    {
        if self.stopped || self.at < 0 || self.at >= self.links.len() {
            self.starting(v)
        } else {
            let (link, step) = self.links[self.at].filled();
            let d = self.with(self.at, link);
            match step {
                FillStep::Enough => DailyView { at: self.at + 1, ..d }.onward(v),
                FillStep::Fetch(page) => (
                    DailyView { awaiting: Awaiting::Listing, ..d },
                    DailyStep::Fetch(self.at as usize, page),
                ),
                FillStep::Consider => (
                    DailyView { awaiting: Awaiting::Look, ..d },
                    DailyStep::Consider(self.at as usize),
                ),
            }
        }
    }

    /// No candidate is being looked at, and none is waited for.
    pub open spec fn ready(self) -> bool {
        DailyView { awaiting: Awaiting::Begin, ..self }.inv()
    }
}

/// What is left waiting when a run is over can be resumed.
pub open spec fn put_back(v: RegistryView, w: Waiting, now: u64) -> RegistryView {
    if v.tasks.contains_key(w.card.id@) {
        published(v, w.request.token, left_task(v.tasks[w.card.id@]), now)
    } else {
        v
    }
}

/// The same of the first `n` videos of a queue.
pub open spec fn put_back_queue(v: RegistryView, queue: Seq<Waiting>, n: int, now: u64) -> RegistryView
    decreases n,
{
    if n <= 0 {
        v
    } else {
        put_back(put_back_queue(v, queue, n - 1, now), queue[n - 1], now)
    }
}

/// The same of the queues of the first `n` links.
pub open spec fn put_back_all(v: RegistryView, links: Seq<LinkView>, n: int, now: u64) -> RegistryView
    decreases n,
{
    if n <= 0 {
        v
    } else {
        let queue = links[n - 1].queued;
        put_back_queue(put_back_all(v, links, n - 1, now), queue, queue.len() as int, now)
    }
}

impl Daily {
    /// Every link keeps its books, and what is under way is counted.
    pub open spec fn wf(&self) -> bool {
        self@.inv()
    }

    /// A run over the links of a configuration.
    pub fn new(cfg: &Config) -> (r: Self)
        requires
            cfg.max_pages < usize::MAX,
        ensures
            r.wf(),
            r@.links.len() == cfg.all_links().len(),
            forall|i: int|
                0 <= i < r@.links.len() ==> {
                    let link = #[trigger] r@.links[i];
                    &&& link == LinkView::start(link.cfg)
                    &&& link.cfg@ == (crate::configuration::jav::ConfigView {
                        popular_path: cfg.all_links()[i].0,
                        top_n: cfg.all_links()[i].1,
                        links: Seq::empty(),
                        ..cfg@
                    })
                },
            r.limit == (if cfg.concurrent_videos < 1 {
                1usize
            } else if cfg.concurrent_videos > 8 {
                8
            } else {
                cfg.concurrent_videos
            }),
            r.active == 0,
            !r.stopped,
            r.at == 0,
            r.awaiting == Awaiting::Begin,
            r@.orderly(),
    {
        let all = cfg.listing_links();
        let ghost expected = cfg.all_links();
        let mut links: Vec<LinkQueue> = Vec::new();
        let mut i: usize = 0;
        while i < all.len()
            invariant
                i <= all@.len(),
                cfg.max_pages < usize::MAX,
                expected == crate::configuration::listing::link_views(all@),
                links@.len() == i,
                forall|k: int|
                    0 <= k < i ==> (#[trigger] links@[k]).wf() && links@[k]@ == LinkView::start(
                        links@[k].cfg,
                    ) && links@[k].cfg@ == (crate::configuration::jav::ConfigView {
                        popular_path: expected[k].0,
                        top_n: expected[k].1,
                        links: Seq::empty(),
                        ..cfg@
                    }),
                flying(link_views(links@), i as int) == 0,
            decreases all@.len() - i,
        {
            let ghost before = link_views(links@);
            assert(expected[i as int] == crate::configuration::listing::link_view(all@[i as int]));
            let link = LinkQueue::new(cfg.for_link(&all[i]));
            links.push(link);
            proof {
                assert(link_views(links@) =~= before.push(link@));
                lemma_flying_push(before, link@, i as int);
            }
            i += 1;
        }
        let r = Daily {
            links,
            limit: if cfg.concurrent_videos < 1 {
                1
            } else if cfg.concurrent_videos > 8 {
                8
            } else {
                cfg.concurrent_videos
            },
            active: 0,
            stopped: false,
            at: 0,
            awaiting: Awaiting::Begin,
        };
        proof {
            assert forall|k: int| 0 <= k < r@.links.len() implies (#[trigger] r@.links[k]).inv()
                && r@.links[k].pages() < usize::MAX && r@.links[k].candidate is None by {
                assert(r@.links[k] == links@[k]@);
                assert(links@[k].cfg.max_pages == links@[k].cfg@.max_pages);
            }
        }
        r
    }

    /// The next video is started, or a worker is waited for.
    fn start_next(&mut self, registry: &TaskRegistry) -> (r: DailyStep)
        requires
            old(self)@.ready(),
            registry.wf(),
        ensures
            final(self).wf(),
            (final(self)@, r) == old(self)@.starting(registry.view()),
    {
        let ghost start = self@;
        let wait = if self.active == 0 {
            DailyStep::Done
        } else {
            DailyStep::Wait
        };
        self.awaiting = if self.active == 0 {
            Awaiting::Nothing
        } else {
            Awaiting::Worker
        };
        if self.stopped || self.active >= self.limit {
            return wait;
        }
        let mut i: usize = 0;
        while i < self.links.len() && self.links[i].queued.len() == 0
            invariant
                i <= self.links@.len(),
                start.links == link_views(self.links@),
                first_waiting(start.links, 0) == first_waiting(start.links, i as int),
            decreases self.links@.len() - i,
        {
            assert(start.links[i as int] == self.links@[i as int]@);
            i += 1;
        }
        if i == self.links.len() {
            return wait;
        }
        let ghost before = self.links@;
        let mut link = self.links.remove(i);
        let ghost books = link@;
        proof {
            assert(start.links[i as int] == books);
            assert(books.inv());
        }
        let first = link.queued.pop_front();
        assert(link.queued@ =~= books.queued.skip(1));
        let mut result: DailyStep = wait;
        if let Some(w) = first {
            let ready = match registry.task_state(w.card.id.as_str()) {
                Some(s) => s == TaskState::Queued,
                None => false,
            };
            if ready {
                link.in_flight = link.in_flight + 1;
                link.report.attempted = link.report.attempted + 1;
                self.active = self.active + 1;
                self.awaiting = Awaiting::Start;
                result = DailyStep::Start(i, w);
            } else {
                self.stopped = true;
            }
        }
        self.links.insert(i, link);
        proof {
            assert(self.links@ =~= before.update(i as int, link));
            assert(self@.links =~= start.links.update(i as int, link@));
            lemma_flying_update(start.links, i as int, link@, start.links.len() as int);
        }
        result
    }

    /// What an event does to the run and to the tasks.
    fn take(&mut self, registry: &mut TaskRegistry, event: DailyEvent, now: u64)
        requires
            old(self).wf(),
            old(registry).wf(),
            old(self)@.accepts(event),
            event is Looked ==> old(registry).view().next_token < u64::MAX,
        ensures
            final(self)@.ready(),
            final(registry).wf(),
            (final(self)@, final(registry).view()) == old(self)@.took(
                old(registry).view(),
                event,
                now,
            ),
    {
        let ghost start = self@;
        let ghost before = self.links@;
        let at = self.at;
        match event {
            DailyEvent::Begun => {
                let _ = registry.take_daily_cancel();
            },
            DailyEvent::Listed(cards) => {
                assert(start.links[at as int] == before[at as int]@);
                let mut link = self.links.remove(at);
                link.listed(cards);
                self.links.insert(at, link);
                proof {
                    assert(self.links@ =~= before.update(at as int, link));
                    assert(self@.links =~= start.links.update(at as int, link@));
                    lemma_flying_update(start.links, at as int, link@, start.links.len() as int);
                }
            },
            DailyEvent::Unlisted(error) => {
                assert(start.links[at as int] == before[at as int]@);
                let mut link = self.links.remove(at);
                link.listing_failed(error.as_str());
                self.links.insert(at, link);
                proof {
                    assert(self.links@ =~= before.update(at as int, link));
                    assert(self@.links =~= start.links.update(at as int, link@));
                    lemma_flying_update(start.links, at as int, link@, start.links.len() as int);
                }
            },
            DailyEvent::Interrupted => {
                self.stopped = true;
                return;
            },
            DailyEvent::Looked { completed, idle } => {
                assert(start.links[at as int] == before[at as int]@);
                let mut link = self.links.remove(at);
                link.consider(registry, completed, idle, now);
                self.links.insert(at, link);
                proof {
                    assert(self.links@ =~= before.update(at as int, link));
                    assert(self@.links =~= start.links.update(at as int, link@));
                    lemma_flying_update(start.links, at as int, link@, start.links.len() as int);
                }
            },
            DailyEvent::Started => {
                return;
            },
            DailyEvent::Ended(e) => {
                self.finished(registry, e, now);
            },
        }
        let asked = registry.is_closed() || registry.take_daily_cancel();
        if asked {
            self.stopped = true;
        }
    }

    /// A worker has ended.
    fn finished(&mut self, registry: &mut TaskRegistry, e: Ended, now: u64)
        requires
            old(self).wf(),
            old(registry).wf(),
            old(self)@.accepts(DailyEvent::Ended(e)),
        ensures
            final(self)@.ready(),
            final(registry).wf(),
            (final(self)@, final(registry).view()) == old(self)@.ended(old(registry).view(), e, now),
    {
        let ghost start = self@;
        let ghost before = self.links@;
        let ghost v = registry.view();
        let index = e.index;
        proof {
            assert(start.links[index as int] == before[index as int]@);
            lemma_flying_update(
                start.links,
                index as int,
                start.links[index as int],
                start.links.len() as int,
            );
        }
        let mut link = self.links.remove(index);
        link.in_flight = link.in_flight - 1;
        self.active = self.active - 1;
        self.at = 0;
        match e.end {
            WorkerEnd::Returned { completed } => {
                if completed {
                    link.report.completed = link.report.completed + 1;
                } else {
                    let halted = match registry.task_state(e.id.as_str()) {
                        Some(s) => s == TaskState::Paused || s == TaskState::Cancelled,
                        None => false,
                    };
                    if halted {
                        self.stopped = true;
                    } else {
                        link.report.failed = link.report.failed + 1;
                    }
                }
            },
            WorkerEnd::Crashed(why) => {
                link.report.failed = link.report.failed + 1;
                if let Some(task) = registry.task(e.id.as_str()) {
                    let lost = crashed(&task, why.as_str());
                    let _ = registry.update_request(&e.request, lost, now);
                }
            },
        }
        self.links.insert(index, link);
        proof {
            assert(self.links@ =~= before.update(index as int, link));
            assert(self@.links =~= start.links.update(index as int, link@));
            lemma_flying_update(start.links, index as int, link@, start.links.len() as int);
        }
    }

    /// The next step of a run: after each event the links are filled in their
    /// order, then videos are started while there is room, then a worker is
    /// waited for. A run that is to stop starts nothing more.
    pub fn step(&mut self, registry: &mut TaskRegistry, event: DailyEvent, now: u64) -> (r: DailyStep)
        requires
            old(self).wf(),
            old(registry).wf(),
            old(self)@.accepts(event),
            event is Looked ==> old(registry).view().next_token < u64::MAX,
        ensures
            final(self).wf(),
            final(registry).wf(),
            ({
                let (d, v) = old(self)@.took(old(registry).view(), event, now);
                &&& final(registry).view() == v
                &&& (final(self)@, r) == d.onward(v)
            }),
            old(self)@.orderly() ==> final(self)@.orderly(),
            old(self)@.orderly() && !final(self).stopped && (r is Start || r is Wait || r is Done)
                ==> forall|i: int| 0 <= i < final(self)@.links.len() ==> served(
                #[trigger] final(self)@.links[i],
            ),
    {
        proof {
            assert(self@.links.len() == self.links.len());
            if self@.orderly() {
                law_every_link_is_served(self@, registry.view(), event, now);
            }
        }
        self.take(registry, event, now);
        let ghost v = registry.view();
        let ghost start = self@;
        while !self.stopped && self.at < self.links.len()
            invariant
                self@.ready(),
                registry.wf(),
                registry.view() == v,
                (start, v) == old(self)@.took(old(registry).view(), event, now),
                self@.onward(v) == start.onward(v),
                old(self)@.orderly() ==> start.onward(v).0.orderly(),
            decreases self.links@.len() - self.at,
        {
            let ghost here = self@;
            let ghost before = self.links@;
            let at = self.at;
            assert(here.links[at as int] == before[at as int]@);
            assert(here.links[at as int].inv());
            let mut link = self.links.remove(at);
            let step = link.fill();
            self.links.insert(at, link);
            proof {
                assert(self.links@ =~= before.update(at as int, link));
                assert(self@.links =~= here.links.update(at as int, link@));
                lemma_flying_update(here.links, at as int, link@, here.links.len() as int);
            }
            match step {
                FillStep::Enough => {
                    self.at = at + 1;
                },
                FillStep::Fetch(page) => {
                    self.awaiting = Awaiting::Listing;
                    return DailyStep::Fetch(at, page);
                },
                FillStep::Consider => {
                    self.awaiting = Awaiting::Look;
                    return DailyStep::Consider(at);
                },
            }
        }
        self.start_next(registry)
    }

    /// When a run is over, what is left waiting can be resumed.
    pub fn put_back(&self, registry: &mut TaskRegistry, now: u64)
        requires
            old(registry).wf(),
        ensures
            final(registry).wf(),
            final(registry).view() == put_back_all(
                old(registry).view(),
                self@.links,
                self@.links.len() as int,
                now,
            ),
    {
        let ghost v = registry.view();
        let mut i: usize = 0;
        while i < self.links.len()
            invariant
                i <= self.links@.len(),
                registry.wf(),
                registry.view() == put_back_all(v, self@.links, i as int, now),
            decreases self.links@.len() - i,
        {
            let link = &self.links[i];
            assert(self@.links[i as int] == link@);
            let ghost u = registry.view();
            let mut j: usize = 0;
            while j < link.queued.len()
                invariant
                    j <= link.queued@.len(),
                    registry.wf(),
                    registry.view() == put_back_queue(u, link.queued@, j as int, now),
                decreases link.queued@.len() - j,
            {
                let w = &link.queued[j];
                if let Some(task) = registry.task(w.card.id.as_str()) {
                    let _ = registry.update_request(&w.request, left_over(&task), now);
                }
                j += 1;
            }
            i += 1;
        }
    }
}

proof fn lemma_flying_push(links: Seq<LinkView>, link: LinkView, n: int)
    requires
        0 <= n <= links.len(),
    ensures
        flying(links.push(link), n) == flying(links, n),
        n == links.len() ==> flying(links.push(link), n + 1) == flying(links, n) + link.in_flight,
    decreases n,
{
    if n > 0 {
        lemma_flying_push(links, link, n - 1);
    }
}

/// A link never brings more videos than its quota, however its workers end.
pub proof fn law_quota_is_never_exceeded(d: DailyView, i: int)
    requires
        d.inv(),
        0 <= i < d.links.len(),
    ensures
        d.links[i].report.completed <= d.links[i].quota(),
        d.links[i].report.completed + d.links[i].in_flight + d.links[i].queued.len()
            <= d.links[i].quota(),
{
    assert(d.links[i].inv());
}

/// Nothing is counted that was not looked at: what was skipped, attempted or
/// waits are candidates, and what completed or failed was attempted.
pub proof fn law_counts_are_consistent(d: DailyView, i: int)
    requires
        d.inv(),
        0 <= i < d.links.len(),
    ensures
        ({
            let l = d.links[i];
            &&& l.report.skipped + l.report.attempted + l.queued.len() <= l.report.candidates
            &&& l.report.completed + l.report.failed + l.in_flight <= l.report.attempted
        }),
{
    assert(d.links[i].inv());
}

/// A run that is to stop lists nothing, looks at nothing and starts nothing: it
/// waits for the workers that are under way and is over with the last of them.
/// No event makes it go on.
pub proof fn law_stopped_runs_start_nothing(d: DailyView, v: RegistryView, event: DailyEvent, now: u64)
    requires
        d.stopped,
    ensures
        d.onward(v).1 == (if d.active == 0 {
            DailyStep::Done
        } else {
            DailyStep::Wait
        }),
        d.onward(v).0.stopped,
        d.took(v, event, now).0.stopped,
{
}

/// A pause or a cancellation of one video that is under way stops the run; one
/// that fails, or whose worker crashes, does not.
pub proof fn law_stopping_a_video_stops_the_run(d: DailyView, v: RegistryView, e: Ended, now: u64)
    requires
        !d.stopped,
        !v.closed,
        !v.daily_cancel,
    ensures
        d.took(v, DailyEvent::Ended(e), now).0.stopped <==> (e.end
            matches WorkerEnd::Returned { completed } && !completed && was_stopped(
            state_of(v, e.id@),
        )),
{
}

proof fn lemma_first_waiting(links: Seq<LinkView>, i: int)
    requires
        0 <= i <= links.len(),
    ensures
        i <= first_waiting(links, i) <= links.len(),
    decreases links.len() - i,
{
    if i < links.len() && links[i].queued.len() == 0 {
        lemma_first_waiting(links, i + 1);
    }
}

/// A run is over only when no worker is under way and, unless it was stopped,
/// nothing waits for one.
pub proof fn law_runs_end_with_their_workers(d: DailyView, v: RegistryView)
    requires
        d.ready(),
    ensures
        ({
            let (f, step) = d.onward(v);
            &&& f.links.len() == d.links.len()
            &&& step is Done ==> d.active == 0 && (f.stopped || first_waiting(f.links, 0)
                == f.links.len())
        }),
    decreases d.links.len() - d.at,
{
    if !d.stopped && d.at < d.links.len() {
        let (link, step) = d.links[d.at].filled();
        let next = DailyView { at: d.at + 1, ..d.with(d.at, link) };
        if step is Enough {
            lemma_flying_update(d.links, d.at, link, d.links.len() as int);
            assert(d.links[d.at].inv());
            law_runs_end_with_their_workers(next, v);
        }
    } else {
        lemma_first_waiting(d.links, 0);
    }
}

/// Whether a link needs nothing more for now: as many videos are brought, under
/// way or waiting as it is to bring, or every card that was listed has been looked
/// at, and no further page may be read or one could not be.
pub open spec fn served(l: LinkView) -> bool {
    ||| l.report.completed + l.in_flight + l.queued.len() >= l.cfg.top_n && l.report.completed
        + l.in_flight + l.queued.len() >= 1
    ||| (forall|j: int|
        0 <= j < l.candidates.len() ==> l.seen.contains((#[trigger] l.candidates[j]).id@)) && (
    l.error is Some || (l.next_page > l.cfg.max_pages && l.next_page > 1))
}

/// Whether a card of that id was listed for a link: it has been looked at, or it is
/// still to be.
pub open spec fn known(l: LinkView, id: Seq<char>) -> bool {
    ||| l.seen.contains(id)
    ||| exists|j: int| 0 <= j < l.candidates.len() && (#[trigger] l.candidates[j]).id@ == id
}

impl DailyView {
    /// The links are taken in their order: unless the run is to stop, those in front
    /// of the one that is being filled are served, and a worker is started only once
    /// all are.
    pub open spec fn orderly(self) -> bool {
        &&& !self.stopped ==> forall|i: int|
            0 <= i < self.at && i < self.links.len() ==> served(#[trigger] self.links[i])
        &&& self.awaiting == Awaiting::Begin ==> self.at == 0
        &&& self.awaiting == Awaiting::Start && !self.stopped ==> self.at >= self.links.len()
    }
}

/// The first of the candidates that were not looked at: all in front of it were.
proof fn lemma_fresh(candidates: Seq<VideoCard>, seen: Seq<Seq<char>>)
    ensures
        0 <= fresh(candidates, seen) <= candidates.len(),
        forall|j: int|
            0 <= j < fresh(candidates, seen) ==> seen.contains((#[trigger] candidates[j]).id@),
        fresh(candidates, seen) < candidates.len() ==> !seen.contains(
            candidates[fresh(candidates, seen)].id@,
        ),
    decreases candidates.len(),
{
    if candidates.len() > 0 && seen.contains(candidates[0].id@) {
        let rest = candidates.skip(1);
        lemma_fresh(rest, seen);
        assert forall|j: int| 0 <= j < fresh(candidates, seen) implies seen.contains(
            (#[trigger] candidates[j]).id@,
        ) by {
            if j > 0 {
                assert(rest[j - 1] == candidates[j]);
            }
        }
        if fresh(rest, seen) < rest.len() {
            assert(rest[fresh(rest, seen)] == candidates[fresh(rest, seen) + 1]);
        }
    }
}

/// Filling a link forgets no card that was listed, and stops asking only where the
/// link is served.
proof fn lemma_filled(l: LinkView)
    ensures
        ({
            let (m, step) = l.filled();
            &&& step is Enough ==> served(m)
            &&& forall|id: Seq<char>| #[trigger] known(l, id) <==> known(m, id)
            &&& m.queued == l.queued && m.in_flight == l.in_flight && m.cfg == l.cfg && m.next_page
                == l.next_page && m.error == l.error
        }),
{
    lemma_fresh(l.candidates, l.seen);
    let n = fresh(l.candidates, l.seen);
    let (m, step) = l.filled();
    assert forall|id: Seq<char>| #[trigger] known(l, id) <==> known(m, id) by {
        if step is Consider {
            let looked = l.seen.push(l.candidates[n].id@);
            assert(m.seen == looked);
            assert(looked.contains(l.candidates[n].id@)) by {
                assert(looked[l.seen.len() as int] == l.candidates[n].id@);
            }
            if l.seen.contains(id) {
                let k = choose|k: int| 0 <= k < l.seen.len() && l.seen[k] == id;
                assert(looked[k] == id);
            }
            if known(l, id) && !l.seen.contains(id) {
                let j = choose|j: int|
                    0 <= j < l.candidates.len() && (#[trigger] l.candidates[j]).id@ == id;
                if j > n {
                    assert(m.candidates[j - n - 1] == l.candidates[j]);
                }
            }
            if known(m, id) && !looked.contains(id) {
                let j = choose|j: int|
                    0 <= j < m.candidates.len() && (#[trigger] m.candidates[j]).id@ == id;
                assert(l.candidates[j + n + 1] == m.candidates[j]);
            }
            if looked.contains(id) && !l.seen.contains(id) {
                let k = choose|k: int| 0 <= k < looked.len() && looked[k] == id;
                assert(k == l.seen.len());
                assert(l.candidates[n].id@ == id);
            }
        } else if l.reserved() < l.quota() && known(l, id) && !l.seen.contains(id) {
            let j = choose|j: int|
                0 <= j < l.candidates.len() && (#[trigger] l.candidates[j]).id@ == id;
            assert(l.seen.contains(l.candidates[j].id@));
        }
    }
}

/// What a run asks for next, once an event was taken in. A page is asked for only of
/// a link that lacks videos and whose listed cards have all been looked at, and it is
/// the page behind the last one; a card is looked at once, and only where its link
/// lacks videos; a video is started only where there is room, and it is the first
/// that waits, in link order. In each case the links in front are served.
pub proof fn law_links_are_filled_in_order(d: DailyView, v: RegistryView)
    requires
        d.ready(),
        d.links.len() <= usize::MAX,
    ensures
        ({
            let (e, step) = d.onward(v);
            &&& e.links.len() == d.links.len()
            &&& forall|i: int, id: Seq<char>|
                0 <= i < d.links.len() ==> (#[trigger] known(e.links[i], id) <==> known(
                    d.links[i],
                    id,
                ))
            &&& match step {
                DailyStep::Fetch(i, page) => {
                    let l = d.links[i as int];
                    &&& !d.stopped && !e.stopped && d.at <= i < d.links.len() && e.at == i
                    &&& forall|k: int| d.at <= k < i ==> served(#[trigger] e.links[k])
                    &&& page == l.next_page && (page <= l.cfg.max_pages || page <= 1)
                    &&& l.error is None
                    &&& l.report.completed + l.in_flight + l.queued.len() < l.cfg.top_n
                        || l.report.completed + l.in_flight + l.queued.len() < 1
                    &&& forall|j: int|
                        0 <= j < l.candidates.len() ==> l.seen.contains(
                            (#[trigger] l.candidates[j]).id@,
                        )
                    &&& e.active == d.active && e.awaiting == Awaiting::Listing
                },
                DailyStep::Consider(i) => {
                    let l = d.links[i as int];
                    let m = e.links[i as int];
                    &&& !d.stopped && !e.stopped && d.at <= i < d.links.len() && e.at == i
                    &&& forall|k: int| d.at <= k < i ==> served(#[trigger] e.links[k])
                    &&& l.report.completed + l.in_flight + l.queued.len() < l.cfg.top_n
                        || l.report.completed + l.in_flight + l.queued.len() < 1
                    &&& m.candidate is Some && l.candidates.contains(m.candidate->0)
                    &&& !l.seen.contains(m.candidate->0.id@) && m.seen.contains(
                        m.candidate->0.id@,
                    )
                    &&& m.report.candidates == l.report.candidates + 1 || l.report.candidates
                        == usize::MAX
                    &&& e.active == d.active && e.awaiting == Awaiting::Look
                },
                DailyStep::Start(i, w) => {
                    let m = e.links[i as int];
                    &&& !d.stopped && !e.stopped && 0 <= i < d.links.len()
                    &&& forall|k: int| d.at <= k < d.links.len() ==> served(#[trigger] e.links[k])
                    &&& d.active < d.limit && e.active == d.active + 1
                    &&& forall|k: int| 0 <= k < i ==> (#[trigger] d.links[k]).queued.len() == 0
                    &&& d.links[i as int].queued =~= seq![w] + m.queued
                    &&& m.in_flight == d.links[i as int].in_flight + 1
                    &&& m.report.attempted == d.links[i as int].report.attempted + 1
                    &&& v.tasks.contains_key(w.card.id@) && v.tasks[w.card.id@].state
                        == TaskState::Queued
                    &&& e.awaiting == Awaiting::Start && e.at == d.links.len()
                },
                DailyStep::Wait | DailyStep::Done => {
                    &&& e.active == d.active && (step is Done <==> d.active == 0)
                    &&& !e.stopped ==> forall|k: int|
                        d.at <= k < d.links.len() ==> served(#[trigger] e.links[k])
                    &&& !e.stopped ==> d.active >= d.limit || forall|k: int|
                        0 <= k < d.links.len() ==> (#[trigger] e.links[k]).queued.len() == 0
                    &&& e.awaiting == (if step is Done {
                        Awaiting::Nothing
                    } else {
                        Awaiting::Worker
                    })
                },
            }
        }),
        forall|k: int|
            0 <= k < d.at && k < d.links.len() && served(#[trigger] d.links[k]) ==> d.onward(
                v,
            ).0.stopped || served(d.onward(v).0.links[k]),
    decreases d.links.len() - d.at,
{
    if !d.stopped && d.at < d.links.len() {
        let l = d.links[d.at];
        lemma_filled(l);
        lemma_fresh(l.candidates, l.seen);
        let (m, step) = l.filled();
        let next = DailyView { at: d.at + 1, ..d.with(d.at, m) };
        match step {
            FillStep::Enough => {
                assert(l.inv());
                lemma_flying_update(d.links, d.at, m, d.links.len() as int);
                law_links_are_filled_in_order(next, v);
                let (e, asked) = next.onward(v);
                assert(d.onward(v) == (e, asked));
                assert forall|i: int, id: Seq<char>| 0 <= i < d.links.len() implies (#[trigger] known(
                    e.links[i],
                    id,
                ) <==> known(d.links[i], id)) by {
                    assert(known(e.links[i], id) <==> known(next.links[i], id));
                    if i == d.at {
                        assert(known(l, id) <==> known(m, id));
                    }
                }
                assert(served(next.links[d.at]));
                assert forall|k: int| 0 <= k < d.at && served(#[trigger] d.links[k]) implies e.stopped
                    || served(e.links[k]) by {
                    assert(next.links[k] == d.links[k]);
                }
                if let DailyStep::Start(i, w) = asked {
                    assert forall|k: int| 0 <= k < i implies (#[trigger] d.links[k]).queued.len()
                        == 0 by {
                        assert(next.links[k].queued == d.links[k].queued);
                    }
                    assert(next.links[i as int].queued == d.links[i as int].queued);
                    assert(next.links[i as int].in_flight == d.links[i as int].in_flight);
                }
                if let DailyStep::Fetch(i, page) = asked {
                    assert(next.links[i as int] == d.links[i as int]);
                }
                if let DailyStep::Consider(i) = asked {
                    assert(next.links[i as int] == d.links[i as int]);
                }
            },
            FillStep::Fetch(page) => {
                let e = d.onward(v).0;
                assert(e.links[d.at] == m);
                assert forall|i: int, id: Seq<char>| 0 <= i < d.links.len() implies (#[trigger] known(
                    e.links[i],
                    id,
                ) <==> known(d.links[i], id)) by {
                    if i == d.at {
                        assert(known(l, id) <==> known(m, id));
                    }
                }
            },
            FillStep::Consider => {
                let e = d.onward(v).0;
                assert(e.links[d.at] == m);
                let n = fresh(l.candidates, l.seen);
                assert(m.seen[l.seen.len() as int] == l.candidates[n].id@);
                assert(l.candidates.contains(l.candidates[n]));
                assert forall|i: int, id: Seq<char>| 0 <= i < d.links.len() implies (#[trigger] known(
                    e.links[i],
                    id,
                ) <==> known(d.links[i], id)) by {
                    if i == d.at {
                        assert(known(l, id) <==> known(m, id));
                    }
                }
            },
        }
    } else {
        lemma_first_waiting(d.links, 0);
        lemma_none_waits(d.links, 0);
        let i = first_waiting(d.links, 0);
        if i < d.links.len() {
            assert(d.links[i].inv());
            lemma_flying_update(d.links, i, d.links[i], d.links.len() as int);
        }
        let (e, step) = d.starting(v);
        assert(d.onward(v) == (e, step));
        assert forall|k: int, id: Seq<char>| 0 <= k < d.links.len() implies (#[trigger] known(
            e.links[k],
            id,
        ) <==> known(d.links[k], id)) by {
            if e.links[k] != d.links[k] {
                assert(e.links[k].seen == d.links[k].seen);
                assert(e.links[k].candidates == d.links[k].candidates);
            }
        }
        assert forall|k: int|
            0 <= k < d.at && k < d.links.len() && served(#[trigger] d.links[k]) implies e.stopped
            || served(e.links[k]) by {
            if !e.stopped && e.links[k] != d.links[k] {
                assert(k == i);
                assert(e.links[k] == d.links[k].started());
            }
        }
        if let DailyStep::Start(j, w) = step {
            assert(d.links[i].queued =~= seq![w] + e.links[i].queued);
        }
        if step is Wait || step is Done {
            assert(!e.stopped ==> e.links == d.links);
        }
    }
}

proof fn lemma_none_waits(links: Seq<LinkView>, i: int)
    requires
        0 <= i <= links.len(),
    ensures
        forall|k: int| i <= k < first_waiting(links, i) ==> (#[trigger] links[k]).queued.len() == 0,
        first_waiting(links, i) < links.len() ==> links[first_waiting(links, i)].queued.len() > 0,
    decreases links.len() - i,
{
    if i < links.len() && links[i].queued.len() == 0 {
        lemma_none_waits(links, i + 1);
    }
}

/// What an event leaves of a run that keeps its books: it still does, and no card
/// that was listed is forgotten.
proof fn lemma_took(d: DailyView, v: RegistryView, event: DailyEvent, now: u64)
    requires
        d.inv(),
        d.accepts(event),
    ensures
        ({
            let e = d.took(v, event, now).0;
            &&& e.ready()
            &&& e.links.len() == d.links.len()
            &&& d.stopped ==> e.stopped
            &&& forall|i: int, id: Seq<char>|
                0 <= i < d.links.len() && known(d.links[i], id) ==> #[trigger] known(e.links[i], id)
            &&& e.at == (if event is Ended {
                0
            } else {
                d.at
            })
            &&& forall|i: int|
                0 <= i < d.links.len() && !(event is Ended) && i != d.at ==> (
                #[trigger] e.links[i]) == d.links[i]
            &&& event is Begun || event is Started ==> e.links == d.links
        }),
{
    let e = d.took(v, event, now).0;
    let n = d.links.len() as int;
    match event {
        DailyEvent::Listed(cards) => {
            let l = d.links[d.at];
            let m = l.listed(cards@);
            assert(l.inv());
            lemma_flying_update(d.links, d.at, m, n);
            assert forall|i: int, id: Seq<char>|
                0 <= i < n && known(d.links[i], id) implies #[trigger] known(e.links[i], id) by {
                if i == d.at && !l.seen.contains(id) {
                    let j = choose|j: int|
                        0 <= j < l.candidates.len() && (#[trigger] l.candidates[j]).id@ == id;
                    assert(m.candidates[j] == l.candidates[j]);
                }
            }
        },
        DailyEvent::Unlisted(why) => {
            let l = d.links[d.at];
            assert(l.inv());
            lemma_flying_update(d.links, d.at, l.unlisted(why@), n);
            assert forall|i: int, id: Seq<char>|
                0 <= i < n && known(d.links[i], id) implies #[trigger] known(e.links[i], id) by {}
        },
        DailyEvent::Looked { completed, idle } => {
            let l = d.links[d.at];
            assert(l.inv());
            let (m, w) = l.considered(v, completed, idle, now);
            assert(m.seen == l.seen && m.candidates == l.candidates);
            lemma_flying_update(d.links, d.at, m, n);
            assert forall|i: int, id: Seq<char>|
                0 <= i < n && known(d.links[i], id) implies #[trigger] known(e.links[i], id) by {
                if i == d.at {
                    assert(known(m, id) == known(l, id));
                }
            }
        },
        DailyEvent::Ended(end) => {
            let i = end.index as int;
            let l = d.links[i];
            assert(l.inv());
            let m = e.links[i];
            assert(m.seen == l.seen && m.candidates == l.candidates);
            lemma_flying_update(d.links, i, m, n);
            assert forall|k: int, id: Seq<char>|
                0 <= k < n && known(d.links[k], id) implies #[trigger] known(e.links[k], id) by {
                if k == i {
                    assert(known(m, id) == known(l, id));
                }
            }
        },
        _ => {},
    }
}

/// Unless a run is stopped, a worker is started or waited for, or the run is over,
/// only once each link has as many videos brought, under way or waiting as it is to
/// bring, or has nothing left: every card that was listed was looked at, and no
/// further page may be read or one could not be. This holds whatever happens, in
/// whatever order, from the start of a run on.
pub proof fn law_every_link_is_served(d: DailyView, v: RegistryView, event: DailyEvent, now: u64)
    requires
        d.inv(),
        d.links.len() <= usize::MAX,
        d.accepts(event),
        d.orderly(),
    ensures
        ({
            let (taken, w) = d.took(v, event, now);
            let (e, step) = taken.onward(w);
            &&& e.orderly()
            &&& !e.stopped && (step is Start || step is Wait || step is Done) ==> forall|i: int|
                0 <= i < e.links.len() ==> served(#[trigger] e.links[i])
        }),
{
    let (taken, w) = d.took(v, event, now);
    let (e, step) = taken.onward(w);
    lemma_took(d, v, event, now);
    law_links_are_filled_in_order(taken, w);
    if !taken.stopped {
        assert forall|i: int| 0 <= i < taken.at && i < taken.links.len() implies served(
            #[trigger] taken.links[i],
        ) by {
            assert(taken.links[i] == d.links[i]);
        }
        if !e.stopped {
            assert forall|i: int| 0 <= i < e.links.len() && (i < taken.at || !(step is Fetch || step is Consider)
                || i < e.at) implies served(#[trigger] e.links[i]) by {
                if i < taken.at {
                    assert(served(taken.links[i]));
                }
            }
        }
    }
}

/// No card that was listed is passed over: it is looked at, or still to be, from
/// the moment its page was read, whatever happens then.
pub proof fn law_listed_cards_are_not_lost(
    d: DailyView,
    v: RegistryView,
    event: DailyEvent,
    now: u64,
    i: int,
    id: Seq<char>,
)
    requires
        d.inv(),
        d.links.len() <= usize::MAX,
        d.accepts(event),
        0 <= i < d.links.len(),
    ensures
        ({
            let (taken, w) = d.took(v, event, now);
            let e = taken.onward(w).0;
            &&& known(d.links[i], id) ==> known(e.links[i], id)
            &&& event matches DailyEvent::Listed(cards) ==> i == d.at ==> forall|j: int|
                0 <= j < cards@.len() ==> known(e.links[i], (#[trigger] cards@[j]).id@)
        }),
{
    let (taken, w) = d.took(v, event, now);
    let e = taken.onward(w).0;
    lemma_took(d, v, event, now);
    law_links_are_filled_in_order(taken, w);
    assert(known(e.links[i], id) <==> known(taken.links[i], id));
    if let DailyEvent::Listed(cards) = event {
        if i == d.at {
            assert forall|j: int| 0 <= j < cards@.len() implies known(
                e.links[i],
                (#[trigger] cards@[j]).id@,
            ) by {
                let m = taken.links[i];
                assert(m.candidates[d.links[i].candidates.len() + j] == cards@[j]);
                assert(known(m, cards@[j].id@));
            }
        }
    }
}

/// A candidate that is not there yet, that nobody is at work on and that the service
/// can take is queued behind the others of its link, as a task that waits and that
/// only this run has submitted; any other is skipped, and no task changes.
pub proof fn law_new_candidates_are_queued(
    d: DailyView,
    v: RegistryView,
    completed: bool,
    idle: bool,
    now: u64,
)
    requires
        d.inv(),
        d.awaiting == Awaiting::Look,
        v.inv(),
        v.next_token < u64::MAX,
    ensures
        ({
            let l = d.links[d.at];
            let card = l.candidate->0;
            let id = card.id@;
            let free = !completed && idle && !v.closed && !v.committing.contains(id) && !v.pending(
                id,
            ) && (v.tasks.contains_key(id) ==> v.tasks[id].state == TaskState::Completed
                || v.tasks[id].state == TaskState::Failed || v.tasks[id].state
                == TaskState::Cancelled || v.tasks[id].state == TaskState::Skipped);
            let (e, w) = d.took(v, DailyEvent::Looked { completed, idle }, now);
            let m = e.links[d.at];
            &&& l.candidate is Some && m.candidate is None
            &&& m.seen == l.seen && m.candidates == l.candidates && m.in_flight == l.in_flight
            &&& forall|k: Seq<char>|
                k != id ==> (#[trigger] w.tasks.contains_key(k) <==> v.tasks.contains_key(k))
                    && w.tasks[k] == v.tasks[k]
            &&& free ==> {
                &&& m.queued.len() == l.queued.len() + 1 && m.queued.drop_last() =~= l.queued
                &&& m.queued.last().card == card
                &&& w.current(id, m.queued.last().request.token)
                &&& !v.current(id, m.queued.last().request.token)
                &&& w.tasks.contains_key(id) && w.tasks[id].state == TaskState::Queued
                &&& w.tasks[id].id == id && w.tasks[id].url == card.url@ && w.tasks[id].title
                    == card.title@
                &&& m.report.skipped == l.report.skipped
            }
            &&& !free ==> {
                &&& m.queued == l.queued && m.report.skipped == l.report.skipped + 1
                &&& w.tasks == v.tasks && w.requests == v.requests
            }
        }),
{
    let l = d.links[d.at];
    assert(l.inv());
}

/// A worker that ends makes room for another. Its video counts as brought exactly
/// where it is there, and as failed where it is not and nobody stopped it; the
/// other links are as they were, and all are filled anew.
pub proof fn law_ends_are_counted(d: DailyView, v: RegistryView, e: Ended, now: u64)
    requires
        d.inv(),
        d.accepts(DailyEvent::Ended(e)),
    ensures
        ({
            let i = e.index as int;
            let l = d.links[i];
            let f = d.took(v, DailyEvent::Ended(e), now).0;
            let m = f.links[i];
            let there = e.end matches WorkerEnd::Returned { completed } && completed;
            let halted = e.end is Returned && !there && v.tasks.contains_key(e.id@) && (
            v.tasks[e.id@].state == TaskState::Paused || v.tasks[e.id@].state
                == TaskState::Cancelled);
            &&& f.active + 1 == d.active && f.at == 0 && f.limit == d.limit
            &&& m.in_flight + 1 == l.in_flight
            &&& m.report.completed == l.report.completed + (if there {
                1int
            } else {
                0
            })
            &&& m.report.failed == l.report.failed + (if there || halted {
                0int
            } else {
                1
            })
            &&& m.report.attempted == l.report.attempted && m.report.skipped == l.report.skipped
            &&& m.queued == l.queued && m.candidates == l.candidates && m.seen == l.seen
                && m.next_page == l.next_page && m.error == l.error
            &&& halted ==> f.stopped
            &&& forall|k: int|
                0 <= k < d.links.len() && k != i ==> (#[trigger] f.links[k]) == d.links[k]
        }),
{
    let i = e.index as int;
    assert(d.links[i].inv());
    lemma_flying_update(d.links, i, d.links[i], d.links.len() as int);
}

/// Each page of a listing is read once: whether it could be read or not, the next
/// one that is asked for is the one behind it, and after one that could not be read
/// none is.
pub proof fn law_pages_are_read_once(
    d: DailyView,
    v: RegistryView,
    event: DailyEvent,
    now: u64,
)
    requires
        d.inv(),
        d.awaiting == Awaiting::Listing,
        d.accepts(event),
    ensures
        ({
            let l = d.links[d.at];
            let m = d.took(v, event, now).0.links[d.at];
            &&& event is Listed ==> m.next_page == l.next_page + 1 && m.error == l.error
                && m.candidates =~= l.candidates + event->Listed_0@
            &&& event is Unlisted ==> m.next_page == l.next_page + 1 && m.error is Some
                && m.candidates == l.candidates
            &&& event is Interrupted ==> m == l && d.took(v, event, now).0.stopped
            &&& m.seen == l.seen && m.queued == l.queued && m.in_flight == l.in_flight && m.report
                == l.report
        }),
{
    assert(d.links[d.at].inv());
}

/// Whether one registry follows another in which videos were put back: the
/// submissions are the same, and no task waits that did not.
spec fn calmer(a: RegistryView, b: RegistryView) -> bool {
    &&& b.requests == a.requests
    &&& b.closed == a.closed
    &&& b.inv()
    &&& forall|k: Seq<char>| #[trigger]
        b.tasks.contains_key(k) ==> a.tasks.contains_key(k) && (b.tasks[k].state
            == TaskState::Queued ==> a.tasks[k].state == TaskState::Queued)
}

proof fn lemma_put_back_queue(v: RegistryView, queue: Seq<Waiting>, n: int, now: u64)
    requires
        v.inv(),
        0 <= n <= queue.len(),
    ensures
        calmer(v, put_back_queue(v, queue, n, now)),
        forall|j: int|
            0 <= j < n && !v.closed && v.current(
                (#[trigger] queue[j]).card.id@,
                queue[j].request.token,
            ) ==> put_back_queue(v, queue, n, now).tasks[queue[j].card.id@].state
                != TaskState::Queued,
    decreases n,
{
    if n > 0 {
        lemma_put_back_queue(v, queue, n - 1, now);
        let u = put_back_queue(v, queue, n - 1, now);
        let w = put_back(u, queue[n - 1], now);
        assert(calmer(u, w));
        assert forall|j: int|
            0 <= j < n && !v.closed && v.current(
                (#[trigger] queue[j]).card.id@,
                queue[j].request.token,
            ) implies w.tasks[queue[j].card.id@].state != TaskState::Queued by {
            let id = queue[j].card.id@;
            assert(u.requests.contains_key(id));
            assert(w.requests.contains_key(id));
            assert(w.tasks.contains_key(id));
        }
    }
}

/// When a run is over, none of the videos it leaves waiting still waits for a
/// worker, unless it was submitted anew or the service stops.
pub proof fn law_nothing_is_left_waiting(
    v: RegistryView,
    links: Seq<LinkView>,
    n: int,
    i: int,
    j: int,
    now: u64,
)
    requires
        v.inv(),
        0 <= i < n <= links.len(),
        0 <= j < links[i].queued.len(),
        !v.closed,
        v.current(links[i].queued[j].card.id@, links[i].queued[j].request.token),
    ensures
        put_back_all(v, links, n, now).tasks[links[i].queued[j].card.id@].state
            != TaskState::Queued,
    decreases n,
{
    let id = links[i].queued[j].card.id@;
    lemma_put_back_all(v, links, n - 1, now);
    let u = put_back_all(v, links, n - 1, now);
    let queue = links[n - 1].queued;
    let m = queue.len() as int;
    let w = put_back_queue(u, queue, m, now);
    lemma_put_back_queue(u, queue, m, now);
    if i == n - 1 {
        assert(u.current(queue[j].card.id@, queue[j].request.token));
    } else {
        law_nothing_is_left_waiting(v, links, n - 1, i, j, now);
        assert(w.requests.contains_key(id));
        assert(w.tasks.contains_key(id));
    }
}

proof fn lemma_put_back_all(v: RegistryView, links: Seq<LinkView>, n: int, now: u64)
    requires
        v.inv(),
        0 <= n <= links.len(),
    ensures
        calmer(v, put_back_all(v, links, n, now)),
    decreases n,
{
    if n > 0 {
        lemma_put_back_all(v, links, n - 1, now);
        let queue = links[n - 1].queued;
        lemma_put_back_queue(
            put_back_all(v, links, n - 1, now),
            queue,
            queue.len() as int,
            now,
        );
    }
}

// ── What is said of a run ────────────────────────────────────────────────

/// What is said of one link.
pub open spec fn link_text(link: LinkView, stopped: bool) -> Seq<char> {
    let head = link.cfg.popular_path@ + ": "@ + decimal(link.report.completed as nat) + "/"@
        + decimal(link.quota() as nat) + " completed"@;
    if link.error is Some {
        head + "; listing failed: "@ + link.error->0
    } else if !stopped && link.report.completed < link.quota() {
        head + "; not enough eligible videos within "@ + decimal(link.pages() as nat)
            + " listing page(s)"@
    } else {
        head
    }
}

fn number(n: usize) -> (r: String)
    ensures
        r@ == decimal(n as nat),
{
    from_chars(decimal_chars(n as u64).as_slice())
}

/// What is said of one link.
pub fn link_summary(link: &LinkQueue, stopped: bool) -> (r: String)
    ensures
        r@ == link_text(link@, stopped),
{
    let quota = if link.cfg.top_n < 1 {
        1
    } else {
        link.cfg.top_n
    };
    let pages = if link.cfg.max_pages < 1 {
        1
    } else {
        link.cfg.max_pages
    };
    let mut text = join3(
        link.cfg.popular_path.as_str(),
        ": ",
        number(link.report.completed).as_str(),
    );
    text = join3(text.as_str(), "/", number(quota).as_str());
    text = join2(text.as_str(), " completed");
    match &link.error {
        Some(e) => join3(text.as_str(), "; listing failed: ", e.as_str()),
        None => {
            if !stopped && link.report.completed < quota {
                let more = join3(
                    text.as_str(),
                    "; not enough eligible videos within ",
                    number(pages).as_str(),
                );
                join2(more.as_str(), " listing page(s)")
            } else {
                text
            }
        },
    }
}

/// The sum of a report's fields over the first `n` links.
pub open spec fn sum(links: Seq<LinkView>, field: spec_fn(LinkView) -> usize, n: int) -> nat
    decreases n,
{
    if n <= 0 {
        0
    } else {
        sum(links, field, n - 1) + field(links[n - 1]) as nat
    }
}

/// Whether the totals of a run fit a machine word.
pub open spec fn totals_fit(links: Seq<LinkView>) -> bool {
    let n = links.len() as int;
    &&& sum(links, |l: LinkView| l.report.candidates, n) <= usize::MAX
    &&& sum(links, |l: LinkView| l.quota(), n) <= usize::MAX
}

proof fn lemma_sum_le(
    links: Seq<LinkView>,
    a: spec_fn(LinkView) -> usize,
    b: spec_fn(LinkView) -> usize,
    n: int,
)
    requires
        0 <= n <= links.len(),
        forall|i: int| 0 <= i < links.len() ==> a(#[trigger] links[i]) <= b(links[i]),
    ensures
        sum(links, a, n) <= sum(links, b, n),
    decreases n,
{
    if n > 0 {
        lemma_sum_le(links, a, b, n - 1);
        assert(a(links[n - 1]) <= b(links[n - 1]));
    }
}

proof fn lemma_sum_prefix(links: Seq<LinkView>, f: spec_fn(LinkView) -> usize, m: int, n: int)
    requires
        0 <= m <= n <= links.len(),
    ensures
        sum(links, f, m) <= sum(links, f, n),
    decreases n - m,
{
    if m < n {
        lemma_sum_prefix(links, f, m, n - 1);
    }
}

impl Daily {
    /// The totals of a run, and how many videos it was to bring.
    pub fn totals(&self) -> (r: (DailyReport, usize))
        requires
            self.wf(),
            totals_fit(self@.links),
        ensures
            ({
                let n = self@.links.len() as int;
                let ls = self@.links;
                &&& r.0.candidates == sum(ls, |l: LinkView| l.report.candidates, n)
                &&& r.0.skipped == sum(ls, |l: LinkView| l.report.skipped, n)
                &&& r.0.attempted == sum(ls, |l: LinkView| l.report.attempted, n)
                &&& r.0.completed == sum(ls, |l: LinkView| l.report.completed, n)
                &&& r.0.failed == sum(ls, |l: LinkView| l.report.failed, n)
                &&& r.1 == sum(ls, |l: LinkView| l.quota(), n)
            }),
    {
        let ghost ls = self@.links;
        let ghost n = ls.len() as int;
        let ghost fc = |l: LinkView| l.report.candidates;
        let ghost fs = |l: LinkView| l.report.skipped;
        let ghost fa = |l: LinkView| l.report.attempted;
        let ghost fd = |l: LinkView| l.report.completed;
        let ghost ff = |l: LinkView| l.report.failed;
        let ghost fq = |l: LinkView| l.quota();
        let mut t = DailyReport::default();
        let mut target: usize = 0;
        let mut i: usize = 0;
        proof {
            lemma_sum_le(ls, fs, fc, n);
            lemma_sum_le(ls, fa, fc, n);
            lemma_sum_le(ls, fd, fc, n);
            lemma_sum_le(ls, ff, fc, n);
        }
        while i < self.links.len()
            invariant
                i <= self.links@.len(),
                self.wf(),
                ls == self@.links,
                n == ls.len(),
                fc == (|l: LinkView| l.report.candidates),
                fs == (|l: LinkView| l.report.skipped),
                fa == (|l: LinkView| l.report.attempted),
                fd == (|l: LinkView| l.report.completed),
                ff == (|l: LinkView| l.report.failed),
                fq == (|l: LinkView| l.quota()),
                sum(ls, fc, n) <= usize::MAX,
                sum(ls, fs, n) <= usize::MAX,
                sum(ls, fa, n) <= usize::MAX,
                sum(ls, fd, n) <= usize::MAX,
                sum(ls, ff, n) <= usize::MAX,
                sum(ls, fq, n) <= usize::MAX,
                t.candidates == sum(ls, fc, i as int),
                t.skipped == sum(ls, fs, i as int),
                t.attempted == sum(ls, fa, i as int),
                t.completed == sum(ls, fd, i as int),
                t.failed == sum(ls, ff, i as int),
                target == sum(ls, fq, i as int),
            decreases self.links@.len() - i,
        {
            proof {
                lemma_sum_prefix(ls, fc, i + 1, n);
                lemma_sum_prefix(ls, fs, i + 1, n);
                lemma_sum_prefix(ls, fa, i + 1, n);
                lemma_sum_prefix(ls, fd, i + 1, n);
                lemma_sum_prefix(ls, ff, i + 1, n);
                lemma_sum_prefix(ls, fq, i + 1, n);
            }
            let link = &self.links[i];
            assert(ls[i as int] == link@);
            assert(link@.inv());
            let quota = if link.cfg.top_n < 1 {
                1
            } else {
                link.cfg.top_n
            };
            t.candidates = t.candidates + link.report.candidates;
            t.skipped = t.skipped + link.report.skipped;
            t.attempted = t.attempted + link.report.attempted;
            t.completed = t.completed + link.report.completed;
            t.failed = t.failed + link.report.failed;
            target = target + quota;
            i += 1;
        }
        (t, target)
    }
}

/// Some texts with a separator between two of them.
pub open spec fn joined_with(parts: Seq<Seq<char>>, sep: Seq<char>) -> Seq<char>
    decreases parts.len(),
{
    if parts.len() == 0 {
        Seq::empty()
    } else if parts.len() == 1 {
        parts[0]
    } else {
        joined_with(parts.drop_last(), sep) + sep + parts.last()
    }
}

fn join_with(parts: &Vec<String>, sep: &str) -> (r: String)
    ensures
        r@ == joined_with(views(parts@), sep@),
{
    let ghost all = views(parts@);
    let mut out: Vec<char> = Vec::new();
    let mut i: usize = 0;
    assert(out@ =~= joined_with(all.take(0), sep@));
    while i < parts.len()
        invariant
            i <= parts@.len(),
            all == views(parts@),
            out@ == joined_with(all.take(i as int), sep@),
        decreases parts@.len() - i,
    {
        let ghost before = out@;
        assert(all.take(i + 1).drop_last() =~= all.take(i as int));
        assert(all.take(i + 1).last() == parts@[i as int]@);
        if i > 0 {
            push_all(&mut out, to_chars(sep).as_slice());
        }
        push_all(&mut out, to_chars(parts[i].as_str()).as_slice());
        if i == 0 {
            assert(out@ =~= parts@[0]@);
        }
        i += 1;
    }
    assert(all.take(all.len() as int) =~= all);
    from_chars(out.as_slice())
}

/// What is said of a run.
pub open spec fn run_text(
    trigger: Seq<char>,
    t: DailyReport,
    target: nat,
    links: Seq<LinkView>,
    stopped: bool,
) -> Seq<char> {
    let parts = Seq::new(links.len(), |i: int| link_text(links[i], stopped));
    let head = trigger + ": "@ + decimal(t.completed as nat) + "/"@ + decimal(target)
        + " completed, "@ + decimal(t.attempted as nat) + " attempted, "@ + decimal(
        t.failed as nat,
    ) + " failed, "@ + decimal(t.skipped as nat) + " skipped; "@ + joined_with(parts, "; "@);
    if stopped {
        head + "; stopped by user"@
    } else {
        head
    }
}

/// Whether a run has brought all it was to bring.
pub fn fulfilled(t: &DailyReport, target: usize) -> (r: bool)
    ensures
        r == (t.completed == target),
{
    t.completed == target
}

impl Daily {
    /// What is said of a run with those totals.
    pub fn summary(&self, trigger: &str, t: &DailyReport, target: usize) -> (r: String)
        ensures
            r@ == run_text(trigger@, *t, target as nat, self@.links, self.stopped),
    {
        let ghost expected = Seq::new(
            self@.links.len(),
            |i: int| link_text(self@.links[i], self.stopped),
        );
        let mut parts: Vec<String> = Vec::new();
        let mut i: usize = 0;
        while i < self.links.len()
            invariant
                i <= self.links@.len(),
                parts@.len() == i,
                expected == Seq::new(
                    self@.links.len(),
                    |i: int| link_text(self@.links[i], self.stopped),
                ),
                forall|k: int| 0 <= k < i ==> (#[trigger] parts@[k])@ == expected[k],
            decreases self.links@.len() - i,
        {
            parts.push(link_summary(&self.links[i], self.stopped));
            i += 1;
        }
        assert(views(parts@) =~= expected);
        let mut text = join3(trigger, ": ", number(t.completed).as_str());
        text = join3(text.as_str(), "/", number(target).as_str());
        text = join3(text.as_str(), " completed, ", number(t.attempted).as_str());
        text = join3(text.as_str(), " attempted, ", number(t.failed).as_str());
        text = join3(text.as_str(), " failed, ", number(t.skipped).as_str());
        text = join3(text.as_str(), " skipped; ", join_with(&parts, "; ").as_str());
        if self.stopped {
            join2(text.as_str(), "; stopped by user")
        } else {
            text
        }
    }
}

/// The task of a video that still waits when its run has ended: it can be
/// resumed.
pub open spec fn left_task(t: TaskView) -> TaskView {
    if t.state == TaskState::Queued {
        TaskView {
            state: TaskState::Paused,
            phase: "paused"@,
            message: "daily run stopped; resume to download"@,
            ..t
        }
    } else {
        t
    }
}

/// The task of a video that still waits when its run has ended: it can be
/// resumed.
pub fn left_over(task: &TaskInfo) -> (r: TaskInfo)
    ensures
        r@ == left_task(task@),
{
    let mut t = task.copy();
    if t.state == TaskState::Queued {
        t.state = TaskState::Paused;
        t.phase = "paused".to_owned();
        t.message = "daily run stopped; resume to download".to_owned();
    }
    t
}

/// The task of a video whose worker crashed.
pub open spec fn crashed_task(t: TaskView, why: Seq<char>) -> TaskView {
    TaskView {
        state: TaskState::Failed,
        phase: "failed"@,
        message: "download worker failed: "@ + why,
        ..t
    }
}

/// The task of a video whose worker crashed.
pub fn crashed(task: &TaskInfo, why: &str) -> (r: TaskInfo)
    ensures
        r@ == crashed_task(task@, why@),
{
    let mut t = task.copy();
    t.state = TaskState::Failed;
    t.phase = "failed".to_owned();
    t.message = join2("download worker failed: ", why);
    t
}

/// The card to resume a task with.
pub fn resumed_card(task: &TaskInfo) -> (r: VideoCard)
    ensures
        r@ == (CardView {
            id: task.id@,
            url: task.url@,
            title: task.title@,
            image_url: Seq::empty(),
            duration_secs: None,
            rank: None,
        }),
{
    VideoCard {
        id: task.id.clone(),
        url: task.url.clone(),
        title: task.title.clone(),
        image_url: String::new(),
        duration_secs: None,
        rank: None,
    }
}

/// Whether a task is resumed together with the others.
pub open spec fn resumable(state: TaskState) -> bool {
    state == TaskState::Paused || state == TaskState::Failed
}

/// The tasks to resume when all are resumed, each once.
pub fn resume_all(registry: &TaskRegistry) -> (r: Vec<String>)
    requires
        registry.wf(),
    ensures
        forall|k: Seq<char>| #[trigger]
            listed(r@, k, r@.len() as int) <==> registry.view().tasks.contains_key(k) && resumable(
                registry.view().tasks[k].state,
            ),
        forall|i: int, j: int| 0 <= i < j < r@.len() ==> (#[trigger] r@[i])@ != (#[trigger] r@[j])@,
{
    let ghost v = registry.view();
    let all = registry.tasks();
    let mut r: Vec<String> = Vec::new();
    let mut i: usize = 0;
    while i < all.len()
        invariant
            i <= all@.len(),
            one_each(all@),
            forall|j: int|
                0 <= j < all@.len() ==> v.tasks.contains_key((#[trigger] all@[j]).id@)
                    && v.tasks[all@[j].id@] == all@[j]@,
            forall|a: int, b: int|
                0 <= a < b < r@.len() ==> (#[trigger] r@[a])@ != (#[trigger] r@[b])@,
            forall|a: int, k: int|
                0 <= a < r@.len() && i <= k < all@.len() ==> (#[trigger] r@[a])@ != (
                #[trigger] all@[k]).id@,
            forall|a: int|
                0 <= a < r@.len() ==> v.tasks.contains_key((#[trigger] r@[a])@) && resumable(
                    v.tasks[r@[a]@].state,
                ),
            forall|k: int|
                0 <= k < i && resumable((#[trigger] all@[k]).state) ==> listed(
                    r@,
                    all@[k].id@,
                    r@.len() as int,
                ),
        decreases all@.len() - i,
    {
        let ghost before = r@;
        if all[i].state == TaskState::Paused || all[i].state == TaskState::Failed {
            r.push(all[i].id.as_str().to_owned());
            proof {
                assert(r@[r@.len() - 1]@ == all@[i as int].id@);
                assert forall|k: int| 0 <= k < i && resumable((#[trigger] all@[k]).state) implies listed(
                    r@,
                    all@[k].id@,
                    r@.len() as int,
                ) by {
                    let j = choose|j: int|
                        0 <= j < before.len() && (#[trigger] before[j])@ == all@[k].id@;
                    assert(r@[j]@ == all@[k].id@);
                }
            }
        }
        i += 1;
    }
    proof {
        assert forall|k: Seq<char>| #[trigger] listed(r@, k, r@.len() as int)
            <==> v.tasks.contains_key(k) && resumable(v.tasks[k].state) by {
            if v.tasks.contains_key(k) && resumable(v.tasks[k].state) {
                assert(holds(all@, k));
                let j = choose|j: int| 0 <= j < all@.len() && (#[trigger] all@[j]).id@ == k;
                assert(v.tasks[all@[j].id@] == all@[j]@);
            }
        }
    }
    r
}

} // verus!
