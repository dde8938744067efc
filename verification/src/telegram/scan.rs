//! Scanning chats: which messages are looked at, which are downloaded, and what
//! is remembered for the next scan.
use vstd::prelude::*;
use crate::configuration::telegram::{ChatConfig, Config};
use crate::outside::id_set::{empty_ids, insert_id, list_ids, no_ids, remove_id};
use crate::storage::telegram::ChatData;
use crate::table::{listed, Table};
use crate::telegram::flood::{flood_wait_secs, wait_of};
use crate::text::{parse_signed, same_str, signed_64, to_chars};

verus! {

/// How a scan of one chat ended. Where it was interrupted the cursor is that of
/// the scan before, so that what was not scanned is revisited.
#[derive(Debug, Clone, Copy, PartialEq, Eq, Structural)]
pub struct ChatOutcome {
    pub completed: bool,
    pub last_id: i32,
}

/// Counts of a scan.
#[derive(Debug, Clone, Copy, PartialEq, Eq, Structural)]
pub struct ChatStats {
    pub scanned: u64,
    pub downloaded: u64,
    pub skipped: u64,
    pub failed: u64,
}

/// What a scan does with a message.
#[derive(Debug, Clone, Copy, PartialEq, Eq, Structural)]
pub enum MessageStep {
    /// Everything that is new, and everything to retry, has been seen.
    Stop,
    Skip,
    Download,
}

/// How a download ended.
#[derive(Debug, Clone, Copy, PartialEq, Eq, Structural)]
pub enum DownloadEnd {
    Downloaded,
    /// The file was there already, or is not wanted.
    Skipped,
    Failed,
}

/// A scan of one chat.
pub struct ChatScan {
    /// Messages up to this one were seen by an earlier scan.
    pub last_read: i32,
    /// The last message that this scan has seen.
    pub last_id: i32,
    /// The messages to retry that this scan has not seen yet.
    pub unseen: rustc_hash::FxHashSet<i32>,
    /// The messages to retry next time.
    pub live: rustc_hash::FxHashSet<i32>,
    pub stats: ChatStats,
}

fn id_set(ids: &Vec<i32>) -> (r: rustc_hash::FxHashSet<i32>)
    ensures
        r@ == ids@.to_set(),
{
    let mut r = empty_ids();
    let mut i: usize = 0;
    assert(ids@.take(0).to_set() =~= Set::<i32>::empty());
    while i < ids.len()
        invariant
            i <= ids@.len(),
            r@ == ids@.take(i as int).to_set(),
        decreases ids@.len() - i,
    {
        let _ = insert_id(&mut r, ids[i]);
        proof {
            let a = ids@.take(i as int);
            let b = ids@.take(i + 1);
            assert(b =~= a.push(ids@[i as int]));
            assert(b.to_set() =~= a.to_set().insert(ids@[i as int])) by {
                assert forall|x: i32| b.to_set().contains(x) == a.to_set().insert(
                    ids@[i as int],
                ).contains(x) by {
                    if b.contains(x) {
                        let k = choose|k: int| 0 <= k < b.len() && b[k] == x;
                        if k < a.len() {
                            assert(a[k] == x);
                        }
                    }
                    if a.contains(x) {
                        let k = choose|k: int| 0 <= k < a.len() && a[k] == x;
                        assert(b[k] == x);
                    }
                    if x == ids@[i as int] {
                        assert(b[i as int] == x);
                    }
                }
            }
        }
        i += 1;
    }
    assert(ids@.take(ids@.len() as int) =~= ids@);
    r
}

/// What a scan knows.
pub struct ScanView {
    pub last_read: i32,
    pub last_id: i32,
    /// The messages to retry that have not been seen yet.
    pub unseen: Set<i32>,
    /// The messages to retry next time.
    pub live: Set<i32>,
}

/// Whether a message is looked at: it is new, or to be retried.
pub open spec fn is_due(v: ScanView, id: i32) -> bool {
    id > v.last_read || v.unseen.contains(id)
}

/// What a scan knows after a message.
pub open spec fn after_message(v: ScanView, id: i32) -> ScanView {
    if !is_due(v, id) {
        v
    } else {
        ScanView {
            last_id: if id > v.last_id {
                id
            } else {
                v.last_id
            },
            unseen: if id <= v.last_read {
                v.unseen.remove(id)
            } else {
                v.unseen
            },
            ..v
        }
    }
}

/// What a scan does with a message.
pub open spec fn message_step(v: ScanView, id: i32, wanted: bool) -> MessageStep {
    if !is_due(v, id) {
        if v.unseen == Set::<i32>::empty() {
            MessageStep::Stop
        } else {
            MessageStep::Skip
        }
    } else if wanted {
        MessageStep::Download
    } else {
        MessageStep::Skip
    }
}

/// What a scan knows after the download of a message.
pub open spec fn after_download(
    v: ScanView,
    id: i32,
    end: DownloadEnd,
    shutting_down: bool,
) -> ScanView {
    ScanView {
        live: if end != DownloadEnd::Failed {
            v.live.remove(id)
        } else if shutting_down {
            v.live
        } else {
            v.live.insert(id)
        },
        ..v
    }
}

/// What a scan knows after messages.
pub open spec fn after_messages(v: ScanView, ids: Seq<i32>) -> ScanView
    decreases ids.len(),
{
    if ids.len() == 0 {
        v
    } else {
        after_message(after_messages(v, ids.drop_last()), ids.last())
    }
}

/// How a scan ends: a shutdown interrupts it; where the user has cancelled the
/// downloads, what was seen counts as seen.
pub open spec fn concluded(v: ScanView, cancelled: bool, work_cancelled: bool) -> ChatOutcome {
    ChatOutcome {
        completed: !cancelled,
        last_id: if !cancelled || work_cancelled {
            v.last_id
        } else {
            v.last_read
        },
    }
}

/// A count after one more.
pub open spec fn next_count(n: u64) -> u64 {
    if n == u64::MAX {
        0
    } else {
        (n + 1) as u64
    }
}

impl View for ChatScan {
    type V = ScanView;

    open spec fn view(&self) -> ScanView {
        ScanView {
            last_read: self.last_read,
            last_id: self.last_id,
            unseen: self.unseen@,
            live: self.live@,
        }
    }
}

impl ChatScan {
    /// A scan from a cursor on, with messages to retry.
    pub fn new(last_read: i32, retry: &Vec<i32>) -> (r: Self)
        ensures
            r@ == (ScanView {
                last_read,
                last_id: last_read,
                unseen: retry@.to_set(),
                live: retry@.to_set(),
            }),
            r.stats == (ChatStats { scanned: 0, downloaded: 0, skipped: 0, failed: 0 }),
    {
        ChatScan {
            last_read,
            last_id: last_read,
            unseen: id_set(retry),
            live: id_set(retry),
            stats: ChatStats { scanned: 0, downloaded: 0, skipped: 0, failed: 0 },
        }
    }

    /// What the scan does with a message, newest first: one that an earlier scan
    /// has seen is passed over unless it is to be retried, and the scan stops
    /// once none of those is left. `wanted` says whether the message has media of
    /// a kind that is configured and passes the filter of the chat.
    pub fn message(&mut self, id: i32, wanted: bool) -> (r: MessageStep)
        ensures
            final(self)@ == after_message(old(self)@, id),
            r == message_step(old(self)@, id, wanted),
            id > old(self).last_read || old(self).unseen@.contains(id) ==> r == (if wanted {
                MessageStep::Download
            } else {
                MessageStep::Skip
            }),
            final(self).last_read == old(self).last_read,
            final(self).live@ == old(self).live@,
            final(self).stats == (ChatStats {
                scanned: next_count(old(self).stats.scanned),
                ..old(self).stats
            }),
    {
        self.stats.scanned = self.stats.scanned.wrapping_add(1);
        if id <= self.last_read {
            let ghost before = self.unseen@;
            if !remove_id(&mut self.unseen, id) {
                assert(before.remove(id) =~= before);
                if no_ids(&self.unseen) {
                    return MessageStep::Stop;
                }
                return MessageStep::Skip;
            }
        }
        if id > self.last_id {
            self.last_id = id;
        }
        if wanted {
            MessageStep::Download
        } else {
            MessageStep::Skip
        }
    }

    /// A download has ended. What failed is retried next time, unless the
    /// service shuts down: then it is kept as it was.
    pub fn finished(&mut self, id: i32, end: DownloadEnd, shutting_down: bool)
        ensures
            final(self)@ == after_download(old(self)@, id, end, shutting_down),
            final(self).stats == (match end {
                DownloadEnd::Downloaded => ChatStats {
                    downloaded: next_count(old(self).stats.downloaded),
                    ..old(self).stats
                },
                DownloadEnd::Skipped => ChatStats {
                    skipped: next_count(old(self).stats.skipped),
                    ..old(self).stats
                },
                DownloadEnd::Failed => if shutting_down {
                    old(self).stats
                } else {
                    ChatStats { failed: next_count(old(self).stats.failed), ..old(self).stats }
                },
            }),
    {
        match end {
            DownloadEnd::Downloaded => {
                self.stats.downloaded = self.stats.downloaded.wrapping_add(1);
                let _ = remove_id(&mut self.live, id);
            },
            DownloadEnd::Skipped => {
                self.stats.skipped = self.stats.skipped.wrapping_add(1);
                let _ = remove_id(&mut self.live, id);
            },
            DownloadEnd::Failed => {
                if !shutting_down {
                    self.stats.failed = self.stats.failed.wrapping_add(1);
                    let _ = insert_id(&mut self.live, id);
                }
            },
        }
    }

    /// How the scan ended: a shutdown interrupts it; where the user has cancelled
    /// the downloads, what was seen counts as seen.
    pub fn conclude(&self, cancelled: bool, work_cancelled: bool) -> (r: ChatOutcome)
        ensures
            r == concluded(self@, cancelled, work_cancelled),
            r.completed == !cancelled,
            r.last_id == (if !cancelled || work_cancelled {
                self@.last_id
            } else {
                self@.last_read
            }),
    {
        ChatOutcome {
            completed: !cancelled,
            last_id: if !cancelled || work_cancelled {
                self.last_id
            } else {
                self.last_read
            },
        }
    }

    /// The messages to retry next time.
    pub fn retries(&self) -> (r: Vec<i32>)
        ensures
            r@.no_duplicates(),
            r@.to_set() == self@.live,
    {
        list_ids(&self.live)
    }
}

/// The cursor after a scan is that of the newest message that was looked at; it
/// never moves back, and what the scan started from stays as it was.
pub proof fn law_cursor_is_the_newest(v: ScanView, ids: Seq<i32>)
    requires
        v.last_id == v.last_read,
    ensures
        after_messages(v, ids).last_read == v.last_read,
        after_messages(v, ids).live == v.live,
        after_messages(v, ids).last_id >= v.last_read,
        forall|i: int| 0 <= i < ids.len() ==> after_messages(v, ids).last_id >= #[trigger] ids[i],
        after_messages(v, ids).last_id == v.last_read || ids.contains(
            after_messages(v, ids).last_id,
        ),
    decreases ids.len(),
{
    if ids.len() > 0 {
        let before = ids.drop_last();
        law_cursor_is_the_newest(v, before);
        let now = after_messages(v, ids);
        assert forall|i: int| 0 <= i < ids.len() implies now.last_id >= #[trigger] ids[i] by {
            if i < before.len() {
                assert(before[i] == ids[i]);
            }
        }
        if now.last_id != v.last_read {
            if now.last_id == ids.last() {
                assert(ids[ids.len() - 1] == now.last_id);
            } else {
                let k = choose|k: int| 0 <= k < before.len() && before[k] == now.last_id;
                assert(ids[k] == now.last_id);
            }
        }
    }
}

/// A message that is to be retried is looked at, however old it is and whatever
/// was seen before it, unless it was itself; the scan does not stop before.
pub proof fn law_retries_are_looked_at(v: ScanView, ids: Seq<i32>, id: i32)
    requires
        v.unseen.contains(id),
        !ids.contains(id),
    ensures
        is_due(after_messages(v, ids), id),
        after_messages(v, ids).unseen.contains(id),
        forall|other: i32, wanted: bool|
            message_step(after_messages(v, ids), other, wanted) != MessageStep::Stop,
    decreases ids.len(),
{
    if ids.len() > 0 {
        let before = ids.drop_last();
        assert(ids[ids.len() - 1] != id);
        assert forall|k: int| 0 <= k < before.len() implies before[k] != id by {
            assert(ids[k] == before[k]);
        }
        law_retries_are_looked_at(v, before, id);
    }
    assert(after_messages(v, ids).unseen != Set::<i32>::empty());
}

proof fn lemma_unseen(v: ScanView, ids: Seq<i32>)
    ensures
        after_messages(v, ids).last_read == v.last_read,
        after_messages(v, ids).live == v.live,
        forall|id: i32| #[trigger]
            after_messages(v, ids).unseen.contains(id) <==> v.unseen.contains(id) && (id
                > v.last_read || !ids.contains(id)),
    decreases ids.len(),
{
    if ids.len() > 0 {
        let before = ids.drop_last();
        lemma_unseen(v, before);
        let w = after_messages(v, ids);
        assert forall|id: i32| #[trigger] w.unseen.contains(id) <==> v.unseen.contains(id) && (id
            > v.last_read || !ids.contains(id)) by {
            let old_one = after_messages(v, before);
            assert(old_one.unseen.contains(id) <==> v.unseen.contains(id) && (id > v.last_read
                || !before.contains(id)));
            assert(ids.contains(id) <==> before.contains(id) || ids.last() == id) by {
                if before.contains(id) {
                    let k = choose|k: int| 0 <= k < before.len() && before[k] == id;
                    assert(ids[k] == id);
                }
                if ids.contains(id) && ids.last() != id {
                    let k = choose|k: int| 0 <= k < ids.len() && ids[k] == id;
                    assert(before[k] == id);
                }
                if ids.last() == id {
                    assert(ids[ids.len() - 1] == id);
                }
            }
        }
    }
}

/// Whatever a scan has seen before, in whatever order: every wanted message that is
/// newer than where the last scan ended is downloaded, and so is every wanted one
/// that is to be retried, the first time it comes. Nothing else is. The scan stops
/// at an older message exactly when all that are to be retried have come.
pub proof fn law_new_and_retried_messages_are_downloaded(
    v: ScanView,
    ids: Seq<i32>,
    id: i32,
    wanted: bool,
)
    ensures
        ({
            let step = message_step(after_messages(v, ids), id, wanted);
            let due = id > v.last_read || (v.unseen.contains(id) && !ids.contains(id));
            &&& due && wanted ==> step == MessageStep::Download
            &&& due && !wanted ==> step == MessageStep::Skip
            &&& !due ==> step != MessageStep::Download
            &&& !due ==> (step == MessageStep::Stop <==> forall|k: i32| #[trigger]
                v.unseen.contains(k) ==> k <= v.last_read && ids.contains(k))
        }),
{
    lemma_unseen(v, ids);
    let w = after_messages(v, ids);
    if w.unseen == Set::<i32>::empty() {
        assert forall|k: i32| #[trigger] v.unseen.contains(k) implies k <= v.last_read
            && ids.contains(k) by {
            assert(!w.unseen.contains(k));
        }
    } else if forall|k: i32| #[trigger]
        v.unseen.contains(k) ==> k <= v.last_read && ids.contains(k) {
        assert(w.unseen =~= Set::<i32>::empty());
    }
}

/// The end of a download changes nothing but whether that message is to be retried:
/// it is where it failed, unless the service shuts down, and it is not where the
/// file is there.
pub proof fn law_ends_only_decide_on_retries(
    v: ScanView,
    id: i32,
    end: DownloadEnd,
    shutting_down: bool,
    other: i32,
)
    ensures
        ({
            let w = after_download(v, id, end, shutting_down);
            &&& w.last_read == v.last_read && w.last_id == v.last_id && w.unseen == v.unseen
            &&& other != id ==> (w.live.contains(other) <==> v.live.contains(other))
            &&& end == DownloadEnd::Failed && !shutting_down ==> w.live.contains(id)
            &&& end == DownloadEnd::Failed && shutting_down ==> (w.live.contains(id)
                <==> v.live.contains(id))
            &&& end != DownloadEnd::Failed ==> !w.live.contains(id)
        }),
{
}

/// A message whose download failed is retried by the next scan, which starts
/// from the cursor and the retries that this one leaves; one that was downloaded
/// is not.
pub proof fn law_failures_are_retried(v: ScanView, id: i32)
    ensures
        ({
            let failed = after_download(v, id, DownloadEnd::Failed, false);
            let next = ScanView {
                last_read: failed.last_id,
                last_id: failed.last_id,
                unseen: failed.live,
                live: failed.live,
            };
            is_due(next, id)
        }),
        ({
            let done = after_download(v, id, DownloadEnd::Downloaded, false);
            let next = ScanView {
                last_read: done.last_id,
                last_id: done.last_id,
                unseen: done.live,
                live: done.live,
            };
            id <= v.last_id ==> !is_due(next, id)
        }),
{
}

/// How long to wait after an error in the listing of messages: as long as the
/// server wants, or a second.
pub open spec fn pause_of(error: Seq<char>) -> nat {
    match wait_of(error) {
        Some(n) => n,
        None => 1,
    }
}

/// How long to wait after an error in the listing of messages: as long as the
/// server wants, or a second.
pub fn listing_pause(error: &str) -> (r: u64)
    ensures
        r == pause_of(error@),
{
    match flood_wait_secs(error) {
        Some(s) => s,
        None => 1,
    }
}

// ── The loop of a scan ───────────────────────────────────────────────────

/// Where the scan of a chat stands.
#[derive(Debug, Clone, Copy, PartialEq, Eq, Structural)]
pub enum ScanPhase {
    /// May it go on, or is it paused or stopped?
    Gate,
    /// Waiting for the next message.
    Listing,
    /// Waiting after an error in the listing.
    Sleeping,
    /// Waiting for its turn to download that message.
    Acquiring(i32),
    /// Waiting for the downloads that are under way.
    Draining,
}

/// What the scan of a chat asks for.
#[derive(Debug, Clone, Copy, PartialEq, Eq, Structural)]
pub enum ScanAction {
    /// Wait while paused.
    Gate,
    NextMessage,
    /// Wait so many seconds.
    Sleep(u64),
    /// Wait for a turn to download.
    Acquire,
    /// Start that download, and wait while paused.
    Download(i32),
    /// Wait for the downloads that are under way.
    Drain,
    /// There is nothing to do.
    Idle,
}

/// What the scan of a chat was given.
#[derive(Debug)]
pub enum ScanEvent {
    /// Whether it may go on.
    Gate(bool),
    /// The next message, and whether it is wanted.
    Message(i32, bool),
    /// There are no more messages.
    Exhausted,
    ListingFailed(String),
    /// Whether the wait was cut short.
    Slept(bool),
    /// Whether it is its turn.
    Acquired(bool),
    Cancelled,
}

/// What follows in the scan of a chat.
pub open spec fn scan_next(v: ScanView, phase: ScanPhase, event: ScanEvent) -> (
    ScanPhase,
    ScanAction,
) {
    match (phase, event) {
        (ScanPhase::Listing, ScanEvent::Message(id, wanted)) => match message_step(v, id, wanted) {
            MessageStep::Stop => (ScanPhase::Draining, ScanAction::Drain),
            MessageStep::Skip => (ScanPhase::Gate, ScanAction::Gate),
            MessageStep::Download => (ScanPhase::Acquiring(id), ScanAction::Acquire),
        },
        (ScanPhase::Gate, ScanEvent::Gate(go)) => if go {
            (ScanPhase::Listing, ScanAction::NextMessage)
        } else {
            (ScanPhase::Draining, ScanAction::Drain)
        },
        (ScanPhase::Listing, ScanEvent::Exhausted) => (ScanPhase::Draining, ScanAction::Drain),
        (ScanPhase::Listing, ScanEvent::Cancelled) => (ScanPhase::Draining, ScanAction::Drain),
        (ScanPhase::Listing, ScanEvent::ListingFailed(error)) => (
            ScanPhase::Sleeping,
            ScanAction::Sleep(pause_of(error@) as u64),
        ),
        (ScanPhase::Sleeping, ScanEvent::Slept(cut)) => if cut {
            (ScanPhase::Draining, ScanAction::Drain)
        } else {
            (ScanPhase::Gate, ScanAction::Gate)
        },
        (ScanPhase::Acquiring(id), ScanEvent::Acquired(turn)) => if turn {
            (ScanPhase::Gate, ScanAction::Download(id))
        } else {
            (ScanPhase::Draining, ScanAction::Drain)
        },
        _ => (phase, ScanAction::Idle),
    }
}

/// In the loop of a scan, a wanted message that is new or to be retried waits for its
/// turn and is then downloaded, and the scan goes on to the next one. It ends only
/// where it is stopped, there are no more messages, or an older message comes after
/// all that were to be retried; an error in the listing makes it wait and go on.
pub proof fn law_scans_go_on(v: ScanView, id: i32, wanted: bool, event: ScanEvent)
    ensures
        (id > v.last_read || v.unseen.contains(id)) && wanted ==> scan_next(
            v,
            ScanPhase::Listing,
            ScanEvent::Message(id, wanted),
        ) == (ScanPhase::Acquiring(id), ScanAction::Acquire),
        scan_next(v, ScanPhase::Acquiring(id), ScanEvent::Acquired(true)) == (
            ScanPhase::Gate,
            ScanAction::Download(id),
        ),
        scan_next(v, ScanPhase::Gate, ScanEvent::Gate(true)) == (
            ScanPhase::Listing,
            ScanAction::NextMessage,
        ),
        scan_next(v, ScanPhase::Sleeping, ScanEvent::Slept(false)) == (
            ScanPhase::Gate,
            ScanAction::Gate,
        ),
        scan_next(v, ScanPhase::Listing, event).0 == ScanPhase::Draining <==> event is Exhausted
            || event is Cancelled || (event matches ScanEvent::Message(n, _) && n <= v.last_read
            && v.unseen == Set::<i32>::empty()),
        event is ListingFailed ==> scan_next(v, ScanPhase::Listing, event).0 == ScanPhase::Sleeping
            && scan_next(v, ScanPhase::Listing, event).1 is Sleep,
        scan_next(v, ScanPhase::Gate, event).0 == ScanPhase::Draining <==> event
            == ScanEvent::Gate(false),
        scan_next(v, ScanPhase::Sleeping, event).0 == ScanPhase::Draining <==> event
            == ScanEvent::Slept(true),
        scan_next(v, ScanPhase::Acquiring(id), event).0 == ScanPhase::Draining <==> event
            == ScanEvent::Acquired(false),
{
}

/// What follows in the scan of a chat, which counts what it sees in `scan`.
pub fn scan_step(scan: &mut ChatScan, phase: ScanPhase, event: ScanEvent) -> (r: (
    ScanPhase,
    ScanAction,
))
    ensures
        r == scan_next(old(scan)@, phase, event),
        match (phase, event) {
            (ScanPhase::Listing, ScanEvent::Message(id, wanted)) => {
                &&& final(scan)@ == after_message(old(scan)@, id)
                &&& final(scan).stats == (ChatStats {
                    scanned: next_count(old(scan).stats.scanned),
                    ..old(scan).stats
                })
                &&& r == (match message_step(old(scan)@, id, wanted) {
                    MessageStep::Stop => (ScanPhase::Draining, ScanAction::Drain),
                    MessageStep::Skip => (ScanPhase::Gate, ScanAction::Gate),
                    MessageStep::Download => (ScanPhase::Acquiring(id), ScanAction::Acquire),
                })
            },
            _ => *final(scan) == *old(scan),
        },
        match (phase, event) {
            (ScanPhase::Gate, ScanEvent::Gate(true)) => r == (
                ScanPhase::Listing,
                ScanAction::NextMessage,
            ),
            (ScanPhase::Gate, ScanEvent::Gate(false)) | (
                ScanPhase::Listing,
                ScanEvent::Exhausted,
            ) | (ScanPhase::Listing, ScanEvent::Cancelled) | (
                ScanPhase::Sleeping,
                ScanEvent::Slept(true),
            ) | (ScanPhase::Acquiring(_), ScanEvent::Acquired(false)) => r == (
                ScanPhase::Draining,
                ScanAction::Drain,
            ),
            (ScanPhase::Listing, ScanEvent::ListingFailed(error)) => r.0 == ScanPhase::Sleeping && (
            r.1 matches ScanAction::Sleep(n) && n == pause_of(error@)),
            (ScanPhase::Sleeping, ScanEvent::Slept(false)) => r == (
                ScanPhase::Gate,
                ScanAction::Gate,
            ),
            (ScanPhase::Acquiring(id), ScanEvent::Acquired(true)) => r == (
                ScanPhase::Gate,
                ScanAction::Download(id),
            ),
            (ScanPhase::Listing, ScanEvent::Message(_, _)) => true,
            _ => r == (phase, ScanAction::Idle),
        },
{
    match (phase, event) {
        (ScanPhase::Listing, ScanEvent::Message(id, wanted)) => {
            match scan.message(id, wanted) {
                MessageStep::Stop => (ScanPhase::Draining, ScanAction::Drain),
                MessageStep::Skip => (ScanPhase::Gate, ScanAction::Gate),
                MessageStep::Download => (ScanPhase::Acquiring(id), ScanAction::Acquire),
            }
        },
        (ScanPhase::Gate, ScanEvent::Gate(go)) => if go {
            (ScanPhase::Listing, ScanAction::NextMessage)
        } else {
            (ScanPhase::Draining, ScanAction::Drain)
        },
        (ScanPhase::Listing, ScanEvent::Exhausted) | (ScanPhase::Listing, ScanEvent::Cancelled) => (
            ScanPhase::Draining,
            ScanAction::Drain,
        ),
        (ScanPhase::Listing, ScanEvent::ListingFailed(error)) => (
            ScanPhase::Sleeping,
            ScanAction::Sleep(listing_pause(error.as_str())),
        ),
        (ScanPhase::Sleeping, ScanEvent::Slept(cut)) => if cut {
            (ScanPhase::Draining, ScanAction::Drain)
        } else {
            (ScanPhase::Gate, ScanAction::Gate)
        },
        (ScanPhase::Acquiring(id), ScanEvent::Acquired(turn)) => if turn {
            (ScanPhase::Gate, ScanAction::Download(id))
        } else {
            (ScanPhase::Draining, ScanAction::Drain)
        },
        (p, _) => (p, ScanAction::Idle),
    }
}

/// Whether downloads that are under way are broken off when a scan ends: a
/// shutdown keeps their partial files as they are, while a user who cancels has
/// them wind up.
pub fn breaks_off(cancelled: bool, work_cancelled: bool) -> (r: bool)
    ensures
        r == (cancelled && !work_cancelled),
{
    cancelled && !work_cancelled
}

// ── A cycle over all chats ───────────────────────────────────────────────

/// What follows the scan of one chat.
#[derive(Debug, Clone, Copy, PartialEq, Eq, Structural)]
pub enum CycleStep {
    /// Make the cursor and the messages to retry durable together, and go on.
    Persist,
    /// Go on with the next chat.
    Next,
    /// The cycle was interrupted.
    Interrupted,
}

/// What is remembered of a chat after a scan of it: what is to be retried, and
/// the cursor, which moves on only where what was seen counts as seen.
pub open spec fn remembered(
    before: Map<Seq<char>, ChatData>,
    chat_id: Seq<char>,
    live: Set<i32>,
    step: CycleStep,
    last_id: i32,
    d: ChatData,
) -> bool {
    let cursor = if before.contains_key(chat_id) {
        before[chat_id].last_read_message_id
    } else {
        0
    };
    &&& d.ids_to_retry@.no_duplicates()
    &&& d.ids_to_retry@.to_set() == live
    &&& d.chat_id@ == (if before.contains_key(chat_id) {
        before[chat_id].chat_id@
    } else {
        chat_id
    })
    &&& d.last_read_message_id == (if step == CycleStep::Persist && last_id > cursor {
        last_id
    } else {
        cursor
    })
}

/// What follows the scan of one chat: `None` stands for a scan that failed.
pub open spec fn cycle_step(
    outcome: Option<ChatOutcome>,
    cancelled: bool,
    work_cancelled: bool,
) -> CycleStep {
    match outcome {
        Some(o) => if o.completed || work_cancelled {
            CycleStep::Persist
        } else {
            CycleStep::Interrupted
        },
        None => if cancelled {
            CycleStep::Interrupted
        } else {
            CycleStep::Next
        },
    }
}

/// The scan of a chat, from what is remembered of it.
pub fn scan_of(chats: &Table<ChatData>, chat_id: &str) -> (r: ChatScan)
    requires
        chats.wf(),
    ensures
        ({
            let retry = if chats.view().contains_key(chat_id@) {
                chats.view()[chat_id@].ids_to_retry@.to_set()
            } else {
                Set::empty()
            };
            let last_read = if chats.view().contains_key(chat_id@) {
                chats.view()[chat_id@].last_read_message_id
            } else {
                0
            };
            r@ == (ScanView { last_read, last_id: last_read, unseen: retry, live: retry })
        }),
        r.stats == (ChatStats { scanned: 0, downloaded: 0, skipped: 0, failed: 0 }),
{
    match chats.get(chat_id) {
        Some(d) => ChatScan::new(d.last_read_message_id, &d.ids_to_retry),
        None => {
            let none: Vec<i32> = Vec::new();
            assert(none@.to_set() =~= Set::<i32>::empty());
            ChatScan::new(0, &none)
        },
    }
}

/// Remember what the scan of a chat has come to, and say what follows. A scan
/// that failed still leaves what is to be retried.
pub fn after_chat(
    chats: &mut Table<ChatData>,
    chat_id: &str,
    scan: &ChatScan,
    outcome: Option<ChatOutcome>,
    cancelled: bool,
    work_cancelled: bool,
) -> (r: CycleStep)
    requires
        old(chats).wf(),
    ensures
        final(chats).wf(),
        r == cycle_step(outcome, cancelled, work_cancelled),
        final(chats).view().contains_key(chat_id@),
        remembered(
            old(chats).view(),
            chat_id@,
            scan@.live,
            r,
            match outcome {
                Some(o) => o.last_id,
                None => 0,
            },
            final(chats).view()[chat_id@],
        ),
        final(chats).view().remove(chat_id@) == old(chats).view().remove(chat_id@),
{
    let ghost before = chats.view();
    let step = match &outcome {
        Some(o) => if o.completed || work_cancelled {
            CycleStep::Persist
        } else {
            CycleStep::Interrupted
        },
        None => if cancelled {
            CycleStep::Interrupted
        } else {
            CycleStep::Next
        },
    };
    let mut data = match chats.remove(chat_id) {
        Some(d) => d,
        None => ChatData {
            chat_id: chat_id.to_owned(),
            ids_to_retry: Vec::new(),
            last_read_message_id: 0,
        },
    };
    data.ids_to_retry = scan.retries();
    match outcome {
        Some(o) => {
            if step == CycleStep::Persist && o.last_id > data.last_read_message_id {
                data.last_read_message_id = o.last_id;
            }
        },
        None => {},
    }
    chats.insert(chat_id, data);
    assert(chats.view().remove(chat_id@) =~= before.remove(chat_id@));
    step
}

/// A scan that ran to its end, or whose downloads the user cancelled, is made durable
/// and moves the cursor to the newest message that it saw; one that a shutdown broke
/// off leaves the cursor where it was, so that its messages come again; and one that
/// failed moves nothing and does not keep the other chats from being scanned.
pub proof fn law_scans_move_the_cursor_on(
    before: Map<Seq<char>, ChatData>,
    chat_id: Seq<char>,
    ids: Seq<i32>,
    live: Set<i32>,
    cancelled: bool,
    work_cancelled: bool,
    d: ChatData,
    failed: bool,
)
    requires
        ({
            let cursor = if before.contains_key(chat_id) {
                before[chat_id].last_read_message_id
            } else {
                0
            };
            let v = ScanView { last_read: cursor, last_id: cursor, unseen: live, live };
            let o = concluded(after_messages(v, ids), cancelled, work_cancelled);
            let outcome = if failed {
                None
            } else {
                Some(o)
            };
            remembered(
                before,
                chat_id,
                live,
                cycle_step(outcome, cancelled, work_cancelled),
                if failed {
                    0
                } else {
                    o.last_id
                },
                d,
            )
        }),
    ensures
        ({
            let cursor = if before.contains_key(chat_id) {
                before[chat_id].last_read_message_id
            } else {
                0
            };
            &&& !failed && (!cancelled || work_cancelled) ==> {
                &&& forall|i: int| 0 <= i < ids.len() ==> d.last_read_message_id >= #[trigger] ids[i]
                &&& d.last_read_message_id == cursor || ids.contains(d.last_read_message_id)
                &&& d.last_read_message_id >= cursor
            }
            &&& failed || (cancelled && !work_cancelled) ==> d.last_read_message_id == cursor
            &&& forall|id: i32| #[trigger] d.ids_to_retry@.contains(id) <==> live.contains(id)
        }),
        cycle_step(None, cancelled, work_cancelled) == (if cancelled {
            CycleStep::Interrupted
        } else {
            CycleStep::Next
        }),
{
    let cursor = if before.contains_key(chat_id) {
        before[chat_id].last_read_message_id
    } else {
        0
    };
    let v = ScanView { last_read: cursor, last_id: cursor, unseen: live, live };
    law_cursor_is_the_newest(v, ids);
    assert forall|id: i32| #[trigger] d.ids_to_retry@.contains(id) <==> live.contains(id) by {
        assert(d.ids_to_retry@.to_set().contains(id) <==> live.contains(id));
    }
}

/// An interrupted scan moves no cursor, and no scan moves one back.
pub proof fn law_interrupted_scans_are_repeated(
    before: Map<Seq<char>, ChatData>,
    chat_id: Seq<char>,
    live: Set<i32>,
    step: CycleStep,
    last_id: i32,
    d: ChatData,
)
    requires
        before.contains_key(chat_id),
        remembered(before, chat_id, live, step, last_id, d),
    ensures
        d.last_read_message_id >= before[chat_id].last_read_message_id,
        step != CycleStep::Persist ==> d.last_read_message_id
            == before[chat_id].last_read_message_id,
{
}

// ── Chats ────────────────────────────────────────────────────────────────

/// How a chat is found.
#[derive(Debug, Clone, PartialEq, Eq)]
pub enum ChatRef {
    /// Among the dialogs of the account, by its number.
    Dialog(i64),
    Username(String),
}

/// How a chat with that id is found: a number names a dialog.
pub fn chat_ref(chat_id: &str) -> (r: ChatRef)
    ensures
        match parse_signed(chat_id@, i64::MIN as int, i64::MAX as int) {
            Some(n) => r matches ChatRef::Dialog(d) && d == n,
            None => r matches ChatRef::Username(u) && u@ == chat_id@,
        },
{
    match signed_64(to_chars(chat_id).as_slice()) {
        Some(n) => ChatRef::Dialog(n),
        None => ChatRef::Username(chat_id.to_owned()),
    }
}

/// Whether a chat is configured.
pub open spec fn is_subscribed(chats: Seq<ChatConfig>, chat_id: Seq<char>) -> bool {
    exists|i: int| 0 <= i < chats.len() && (#[trigger] chats[i]).chat_id@ == chat_id
}

/// Add a chat to the configuration, unless it is there; returns whether it was
/// added.
pub fn subscribe_chat(chats: &mut Vec<ChatConfig>, chat_id: &str) -> (r: bool)
    ensures
        r == !is_subscribed(old(chats)@, chat_id@),
        if r {
            &&& final(chats)@.len() == old(chats)@.len() + 1
            &&& final(chats)@.drop_last() == old(chats)@
            &&& final(chats)@.last().chat_id@ == chat_id@
            &&& final(chats)@.last().download_filter is None
        } else {
            final(chats)@ == old(chats)@
        },
{
    let ghost before = chats@;
    let mut i: usize = 0;
    while i < chats.len()
        invariant
            i <= chats@.len(),
            chats@ == before,
            forall|j: int| 0 <= j < i ==> (#[trigger] before[j]).chat_id@ != chat_id@,
        decreases chats@.len() - i,
    {
        if same_str(chats[i].chat_id.as_str(), chat_id) {
            assert(before[i as int].chat_id@ == chat_id@);
            return false;
        }
        i += 1;
    }
    chats.push(ChatConfig { chat_id: chat_id.to_owned(), download_filter: None });
    assert(chats@.drop_last() =~= before);
    true
}

// ── Messages ─────────────────────────────────────────────────────────────

/// What a filter can ask of a message. Times are seconds since the epoch.
#[derive(Debug, Clone)]
pub struct MessageInfo {
    pub id: i32,
    pub date: i64,
    pub text: String,
    pub sender_name: Option<String>,
    pub reply_to: Option<i32>,
    pub media_type: String,
    pub file_extension: String,
    pub file_name: String,
    pub file_size: i64,
    pub duration: i64,
    pub width: i64,
    pub height: i64,
}

/// A value in a filter.
#[derive(Debug, Clone, PartialEq, Eq)]
pub enum Value {
    Bool(bool),
    DateTime(i64),
    Int(i64),
    Str(String),
}

/// What a value is.
pub enum ValueView {
    Bool(bool),
    DateTime(i64),
    Int(i64),
    Str(Seq<char>),
}

impl View for Value {
    type V = ValueView;

    open spec fn view(&self) -> ValueView {
        match self {
            Value::Bool(b) => ValueView::Bool(*b),
            Value::DateTime(t) => ValueView::DateTime(*t),
            Value::Int(n) => ValueView::Int(*n),
            Value::Str(s) => ValueView::Str(s@),
        }
    }
}

/// What a variable of a filter stands for in a message.
pub open spec fn variable(m: MessageInfo, name: Seq<char>) -> Option<ValueView> {
    if name == "message_date"@ {
        Some(ValueView::DateTime(m.date))
    } else if name == "message_id"@ || name == "id"@ {
        Some(ValueView::Int(m.id as i64))
    } else if name == "message_caption"@ || name == "caption"@ {
        Some(ValueView::Str(m.text@))
    } else if name == "sender_name"@ {
        Some(
            ValueView::Str(
                match m.sender_name {
                    Some(s) => s@,
                    None => Seq::empty(),
                },
            ),
        )
    } else if name == "sender_id"@ || name == "message_thread_id"@ || name == "topic_id"@ {
        Some(ValueView::Int(0))
    } else if name == "reply_to_message_id"@ {
        Some(
            ValueView::Int(
                match m.reply_to {
                    Some(n) => n as i64,
                    None => 0,
                },
            ),
        )
    } else if name == "media_type"@ {
        Some(ValueView::Str(m.media_type@))
    } else if name == "file_extension"@ {
        Some(ValueView::Str(m.file_extension@))
    } else if name == "media_file_name"@ || name == "file_name"@ {
        Some(ValueView::Str(m.file_name@))
    } else if name == "media_file_size"@ || name == "file_size"@ {
        Some(ValueView::Int(m.file_size))
    } else if name == "media_duration"@ {
        Some(ValueView::Int(m.duration))
    } else if name == "media_width"@ {
        Some(ValueView::Int(m.width))
    } else if name == "media_height"@ {
        Some(ValueView::Int(m.height))
    } else {
        None
    }
}

impl MessageInfo {
    /// What a variable of a filter stands for in the message.
    pub fn get_var(&self, name: &str) -> (r: Option<Value>)
        ensures
            match r {
                Some(v) => variable(*self, name@) == Some(v@),
                None => variable(*self, name@) is None,
            },
    {
        if same_str(name, "message_date") {
            Some(Value::DateTime(self.date))
        } else if same_str(name, "message_id") || same_str(name, "id") {
            Some(Value::Int(self.id as i64))
        } else if same_str(name, "message_caption") || same_str(name, "caption") {
            Some(Value::Str(self.text.clone()))
        } else if same_str(name, "sender_name") {
            Some(
                Value::Str(
                    match &self.sender_name {
                        Some(s) => s.clone(),
                        None => String::new(),
                    },
                ),
            )
        } else if same_str(name, "sender_id") || same_str(name, "message_thread_id") || same_str(
            name,
            "topic_id",
        ) {
            Some(Value::Int(0))
        } else if same_str(name, "reply_to_message_id") {
            Some(
                Value::Int(
                    match self.reply_to {
                        Some(n) => n as i64,
                        None => 0,
                    },
                ),
            )
        } else if same_str(name, "media_type") {
            Some(Value::Str(self.media_type.clone()))
        } else if same_str(name, "file_extension") {
            Some(Value::Str(self.file_extension.clone()))
        } else if same_str(name, "media_file_name") || same_str(name, "file_name") {
            Some(Value::Str(self.file_name.clone()))
        } else if same_str(name, "media_file_size") || same_str(name, "file_size") {
            Some(Value::Int(self.file_size))
        } else if same_str(name, "media_duration") {
            Some(Value::Int(self.duration))
        } else if same_str(name, "media_width") {
            Some(Value::Int(self.width))
        } else if same_str(name, "media_height") {
            Some(Value::Int(self.height))
        } else {
            None
        }
    }
}

/// Whether a message passes a filter that has come to that, where it could be
/// worked out: only a filter that says yes lets it pass.
pub fn passes_filter(result: &Result<Value, String>) -> (r: bool)
    ensures
        r == (*result matches Ok(Value::Bool(b)) && b),
{
    match result {
        Ok(Value::Bool(b)) => *b,
        _ => false,
    }
}

// ── What is wanted ───────────────────────────────────────────────────────

/// Whether a name is in a list.
pub open spec fn in_list(list: Seq<String>, name: Seq<char>) -> bool {
    listed(list, name, list.len() as int)
}

/// Whether the formats of a kind let an extension pass: all of them, or that one.
pub open spec fn has_format(formats: Seq<String>, extension: Seq<char>) -> bool {
    in_list(formats, "all"@) || in_list(formats, extension)
}

/// Whether media of that kind, with that file extension, are configured: the kind
/// is, and audio, documents and videos have a format that is.
pub open spec fn is_configured(cfg: Config, kind: Seq<char>, extension: Seq<char>) -> bool {
    in_list(cfg.media_types@, kind) && (if kind == "audio"@ {
        has_format(cfg.file_formats.audio@, extension)
    } else if kind == "document"@ {
        has_format(cfg.file_formats.document@, extension)
    } else if kind == "video"@ {
        has_format(cfg.file_formats.video@, extension)
    } else {
        true
    })
}

/// The formats that are listed for media of a kind, where formats matter.
pub open spec fn formats_of(cfg: Config, kind: Seq<char>) -> Option<Seq<String>> {
    if kind == "audio"@ {
        Some(cfg.file_formats.audio@)
    } else if kind == "document"@ {
        Some(cfg.file_formats.document@)
    } else if kind == "video"@ {
        Some(cfg.file_formats.video@)
    } else {
        None
    }
}

/// Media are wanted only where their kind is listed; audio, documents and videos only
/// where their format is listed too, or all are; of other kinds the format does not
/// matter.
pub proof fn law_media_are_wanted_by_kind_and_format(
    cfg: Config,
    kind: Seq<char>,
    extension: Seq<char>,
    i: int,
)
    ensures
        is_configured(cfg, kind, extension) ==> exists|k: int|
            0 <= k < cfg.media_types@.len() && (#[trigger] cfg.media_types@[k])@ == kind,
        ({
            let formats = formats_of(cfg, kind);
            &&& is_configured(cfg, kind, extension) ==> (formats matches Some(f) ==> exists|k: int|
                0 <= k < f.len() && ((#[trigger] f[k])@ == extension || f[k]@ == "all"@))
            &&& 0 <= i < cfg.media_types@.len() && cfg.media_types@[i]@ == kind && (formats
                matches Some(f) ==> exists|k: int|
                0 <= k < f.len() && ((#[trigger] f[k])@ == extension || f[k]@ == "all"@))
                ==> is_configured(cfg, kind, extension)
        }),
{
    let formats = formats_of(cfg, kind);
    reveal_strlit("audio");
    reveal_strlit("document");
    reveal_strlit("video");
    if let Some(f) = formats {
        if is_configured(cfg, kind, extension) {
            if in_list(f, "all"@) {
                let k = choose|k: int| 0 <= k < f.len() && (#[trigger] f[k])@ == "all"@;
                assert(f[k]@ == "all"@);
            } else {
                let k = choose|k: int| 0 <= k < f.len() && (#[trigger] f[k])@ == extension;
                assert(f[k]@ == extension);
            }
        }
    }
    if 0 <= i < cfg.media_types@.len() && cfg.media_types@[i]@ == kind {
        assert(in_list(cfg.media_types@, kind));
        if let Some(f) = formats {
            if exists|k: int|
                0 <= k < f.len() && ((#[trigger] f[k])@ == extension || f[k]@ == "all"@) {
                let k = choose|k: int|
                    0 <= k < f.len() && ((#[trigger] f[k])@ == extension || f[k]@ == "all"@);
                assert(in_list(f, f[k]@));
                assert(has_format(f, extension));
            }
        }
    }
}

fn lists(list: &Vec<String>, name: &str) -> (r: bool)
    ensures
        r == in_list(list@, name@),
{
    let mut i: usize = 0;
    while i < list.len()
        invariant
            i <= list@.len(),
            forall|j: int| 0 <= j < i ==> (#[trigger] list@[j])@ != name@,
        decreases list@.len() - i,
    {
        if same_str(list[i].as_str(), name) {
            assert(list@[i as int]@ == name@);
            return true;
        }
        i += 1;
    }
    false
}

/// Whether media of that kind, with that file extension, are configured.
pub fn media_matches_config(cfg: &Config, kind: &str, extension: &str) -> (r: bool)
    ensures
        r == is_configured(*cfg, kind@, extension@),
{
    if !lists(&cfg.media_types, kind) {
        return false;
    }
    if same_str(kind, "audio") {
        lists(&cfg.file_formats.audio, "all") || lists(&cfg.file_formats.audio, extension)
    } else if same_str(kind, "document") {
        lists(&cfg.file_formats.document, "all") || lists(&cfg.file_formats.document, extension)
    } else if same_str(kind, "video") {
        lists(&cfg.file_formats.video, "all") || lists(&cfg.file_formats.video, extension)
    } else {
        true
    }
}

/// The media of a message, as far as the settings speak of them.
#[derive(Debug, Clone, PartialEq, Eq)]
pub struct MediaKind {
    pub kind: String,
    pub extension: String,
}

/// Whether a message is downloaded: it has media, they are configured, and the
/// filter of the chat, where it has one, has come to yes.
pub fn is_wanted(cfg: &Config, media: &Option<MediaKind>, filter: &Option<Result<Value, String>>) -> (r:
    bool)
    ensures
        r == (media is Some && is_configured(
            *cfg,
            (media->0).kind@,
            (media->0).extension@,
        ) && (filter is None || filter->0 == Ok::<Value, String>(Value::Bool(true)))),
{
    let configured = match media {
        Some(m) => media_matches_config(cfg, m.kind.as_str(), m.extension.as_str()),
        None => false,
    };
    if !configured {
        return false;
    }
    match filter {
        Some(result) => passes_filter(result),
        None => true,
    }
}

} // verus!
