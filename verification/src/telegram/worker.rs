//! The loop of the engine: when it scans, when it waits, and when it ends.
use vstd::prelude::*;
use crate::configuration::telegram::{ChatConfig, Config};
use crate::storage::telegram::ChatData;
use crate::table::Table;
use crate::telegram::scan::{is_configured, is_subscribed, media_matches_config, MediaKind};
use crate::text::{
    decimal, decimal_chars, from_chars, is_digit, join2, join3, lemma_decimal_round_trip,
    parse_signed, same_str,
};

verus! {

/// Where the loop stands.
#[derive(Debug, Clone, Copy, PartialEq, Eq, Structural)]
pub enum Phase {
    /// A new round: is a cancellation pending?
    Round,
    /// What was cancelled is being discarded.
    Discarding,
    /// Waiting while paused.
    Paused,
    /// Waiting for a resume, with the downloads cancelled.
    Resuming,
    /// Reading the settings and the cursors anew.
    Reloading,
    /// A scan is running.
    Scanning,
    /// Waiting for something to do.
    Selecting,
    /// A request is being carried out.
    Handling,
    Over,
}

/// How a user names a chat.
#[derive(Debug, Clone, PartialEq, Eq)]
pub enum ChatTarget {
    Username(String),
    /// The link of an invitation.
    Invite(String),
    DialogId(i64),
}

/// What a user asks of the engine.
#[derive(Debug, Clone, PartialEq, Eq)]
pub enum ChatRequest {
    Scan,
    /// Download that message of the chat.
    Once(ChatTarget, i32),
    /// Scan the chat from now on.
    Subscribe(ChatTarget),
}

/// What the loop asks for.
#[derive(Debug, PartialEq, Eq)]
pub enum WorkerAction {
    /// Is a cancellation pending? Where that is set, the engine is said to run.
    CheckCancelling(bool),
    /// Forget pending requests and retries, and persist that.
    Discard,
    WaitWhilePaused,
    WaitForResume,
    Reload,
    /// Run that scan, and persist what it has come to.
    Scan(u64),
    /// Wait for something to do; a scan that was due is over where that is set.
    Select(bool),
    Handle(ChatRequest),
    Stop,
    /// There is nothing to do.
    Idle,
}

/// What the loop was given.
#[derive(Debug)]
pub enum WorkerEvent {
    Cancelling(bool),
    Discarded,
    /// Waiting is over: the engine may go on, or it is stopped.
    PauseOver { running: bool, shutdown: bool, cancelling: bool },
    Resumed { shutdown: bool },
    Reloaded,
    ScanDone { completed: bool, shutdown: bool, work_cancelled: bool },
    Shutdown,
    WorkCancelled,
    SettingsChanged,
    /// The timer ticked; a scan may be due.
    Tick(bool),
    Requested(Option<ChatRequest>),
    Handled,
}

/// The loop.
#[derive(Debug)]
pub struct Worker {
    pub phase: Phase,
    pub scan_due: bool,
    /// How many scans have been started.
    pub cycle: u64,
}

/// What becomes of the loop with an event, and what it then asks for.
pub open spec fn works(a: Worker, event: WorkerEvent, b: Worker, r: WorkerAction) -> bool {
    let round = Worker { phase: Phase::Round, ..a };
    let over = Worker { phase: Phase::Over, ..a };
    match (a.phase, event) {
        (Phase::Round, WorkerEvent::Cancelling(c)) => if c {
            b == (Worker { phase: Phase::Discarding, ..a }) && r
                == WorkerAction::Discard
        } else {
            b == (Worker { phase: Phase::Paused, ..a }) && r
                == WorkerAction::WaitWhilePaused
        },
        (Phase::Discarding, WorkerEvent::Discarded) => b == (Worker {
            phase: Phase::Paused,
            ..a
        }) && r == WorkerAction::WaitWhilePaused,
        (Phase::Paused, WorkerEvent::PauseOver { running, shutdown, cancelling }) => {
            if running {
                b == (Worker { phase: Phase::Reloading, ..a }) && r
                    == WorkerAction::Reload
            } else if shutdown {
                b == over && r == WorkerAction::Stop
            } else if cancelling {
                b == round && r == WorkerAction::CheckCancelling(false)
            } else {
                b == (Worker { phase: Phase::Resuming, ..a }) && r
                    == WorkerAction::WaitForResume
            }
        },
        (Phase::Resuming, WorkerEvent::Resumed { shutdown }) => if shutdown {
            b == over && r == WorkerAction::Stop
        } else {
            b == round && r == WorkerAction::CheckCancelling(false)
        },
        (Phase::Reloading, WorkerEvent::Reloaded) => if a.scan_due {
            &&& b == (Worker {
                phase: Phase::Scanning,
                scan_due: false,
                cycle: (a.cycle + 1) as u64,
            })
            &&& r == WorkerAction::Scan((a.cycle + 1) as u64)
        } else {
            b == (Worker { phase: Phase::Selecting, ..a }) && r
                == WorkerAction::Select(false)
        },
        (
            Phase::Scanning,
            WorkerEvent::ScanDone { completed, shutdown, work_cancelled },
        ) => if shutdown {
            b == over && r == WorkerAction::Stop
        } else if !completed || work_cancelled {
            b == round && r == WorkerAction::CheckCancelling(false)
        } else {
            b == (Worker { phase: Phase::Selecting, ..a }) && r
                == WorkerAction::Select(true)
        },
        (Phase::Selecting, WorkerEvent::Shutdown) => b == over && r
            == WorkerAction::Stop,
        (Phase::Selecting, WorkerEvent::WorkCancelled) => b == round && r
            == WorkerAction::CheckCancelling(false),
        (Phase::Selecting, WorkerEvent::SettingsChanged) | (
            Phase::Selecting,
            WorkerEvent::Requested(None),
        ) => b == round && r == WorkerAction::CheckCancelling(true),
        (Phase::Selecting, WorkerEvent::Tick(due)) => b == (Worker {
            scan_due: due,
            ..round
        }) && r == WorkerAction::CheckCancelling(true),
        (Phase::Selecting, WorkerEvent::Requested(Some(request))) => {
            if request == ChatRequest::Scan {
                b == (Worker { scan_due: true, ..round }) && r
                    == WorkerAction::CheckCancelling(true)
            } else {
                b == (Worker { phase: Phase::Handling, ..a }) && r
                    == WorkerAction::Handle(request)
            }
        },
        (Phase::Handling, WorkerEvent::Handled) => b == round && r
            == WorkerAction::CheckCancelling(true),
        _ => b == a && r == WorkerAction::Idle,
    }
}

/// A scan starts where one is due, and only there, each with the next number; settings
/// are read anew before each. One becomes due by the timer or a request, and a scan
/// uses it up; nothing that happens meanwhile makes the loop forget it. A shutdown ends
/// the loop, a cancellation does not, and requests are handled as they come.
pub proof fn law_scans_run_when_due(a: Worker, event: WorkerEvent, b: Worker, r: WorkerAction)
    requires
        works(a, event, b, r),
        a.cycle < u64::MAX,
    ensures
        r is Scan <==> a.phase == Phase::Reloading && event is Reloaded && a.scan_due,
        r matches WorkerAction::Scan(n) ==> n == a.cycle + 1 && b.cycle == n && !b.scan_due,
        !(r is Scan) ==> b.cycle == a.cycle,
        b.scan_due && !a.scan_due ==> a.phase == Phase::Selecting && (event == WorkerEvent::Tick(true)
            || event == WorkerEvent::Requested(Some(ChatRequest::Scan))),
        a.phase == Phase::Selecting && (event == WorkerEvent::Tick(true) || event
            == WorkerEvent::Requested(Some(ChatRequest::Scan))) ==> b.scan_due,
        a.scan_due && !b.scan_due ==> r is Scan || (a.phase == Phase::Selecting && event
            == WorkerEvent::Tick(false)),
        r is Reload <==> a.phase == Phase::Paused && (event matches WorkerEvent::PauseOver {
            running,
            ..
        } && running),
        r is Discard <==> a.phase == Phase::Round && event == WorkerEvent::Cancelling(true),
        a.phase == Phase::Selecting ==> (event matches WorkerEvent::Requested(Some(q)) ==> q
            != ChatRequest::Scan ==> r == WorkerAction::Handle(q)),
        r is Stop ==> b.phase == Phase::Over && (event is Shutdown || (event
            matches WorkerEvent::PauseOver { shutdown, .. } && shutdown) || (event
            matches WorkerEvent::Resumed { shutdown } && shutdown) || (event
            matches WorkerEvent::ScanDone { shutdown, .. } && shutdown)),
        a.phase == Phase::Selecting && event is Shutdown ==> r is Stop,
        a.phase == Phase::Scanning ==> (event matches WorkerEvent::ScanDone {
            completed,
            shutdown,
            work_cancelled,
        } ==> (shutdown <==> r is Stop) && (!shutdown && completed && !work_cancelled <==> r
            == WorkerAction::Select(true))),
        a.phase == Phase::Over ==> b == a && r == WorkerAction::Idle,
{
}

impl Worker {
    /// The loop starts with a round.
    pub fn start() -> (r: (Self, WorkerAction))
        ensures
            r.0.phase == Phase::Round,
            !r.0.scan_due,
            r.0.cycle == 0,
            r.1 == WorkerAction::CheckCancelling(false),
    {
        (
            Worker { phase: Phase::Round, scan_due: false, cycle: 0 },
            WorkerAction::CheckCancelling(false),
        )
    }

    /// What follows. A scan runs only when one is due, and once each time.
    pub fn step(&mut self, event: WorkerEvent) -> (r: WorkerAction)
        requires
            old(self).cycle < u64::MAX,
        ensures
            works(*old(self), event, *final(self), r),
    {
        match (self.phase, event) {
            (Phase::Round, WorkerEvent::Cancelling(c)) => {
                if c {
                    self.phase = Phase::Discarding;
                    WorkerAction::Discard
                } else {
                    self.phase = Phase::Paused;
                    WorkerAction::WaitWhilePaused
                }
            },
            (Phase::Discarding, WorkerEvent::Discarded) => {
                self.phase = Phase::Paused;
                WorkerAction::WaitWhilePaused
            },
            (Phase::Paused, WorkerEvent::PauseOver { running, shutdown, cancelling }) => {
                if running {
                    self.phase = Phase::Reloading;
                    WorkerAction::Reload
                } else if shutdown {
                    self.phase = Phase::Over;
                    WorkerAction::Stop
                } else if cancelling {
                    self.phase = Phase::Round;
                    WorkerAction::CheckCancelling(false)
                } else {
                    self.phase = Phase::Resuming;
                    WorkerAction::WaitForResume
                }
            },
            (Phase::Resuming, WorkerEvent::Resumed { shutdown }) => {
                if shutdown {
                    self.phase = Phase::Over;
                    WorkerAction::Stop
                } else {
                    self.phase = Phase::Round;
                    WorkerAction::CheckCancelling(false)
                }
            },
            (Phase::Reloading, WorkerEvent::Reloaded) => {
                if self.scan_due {
                    self.phase = Phase::Scanning;
                    self.scan_due = false;
                    self.cycle = self.cycle + 1;
                    WorkerAction::Scan(self.cycle)
                } else {
                    self.phase = Phase::Selecting;
                    WorkerAction::Select(false)
                }
            },
            (Phase::Scanning, WorkerEvent::ScanDone { completed, shutdown, work_cancelled }) => {
                if shutdown {
                    self.phase = Phase::Over;
                    WorkerAction::Stop
                } else if !completed || work_cancelled {
                    self.phase = Phase::Round;
                    WorkerAction::CheckCancelling(false)
                } else {
                    self.phase = Phase::Selecting;
                    WorkerAction::Select(true)
                }
            },
            (Phase::Selecting, WorkerEvent::Shutdown) => {
                self.phase = Phase::Over;
                WorkerAction::Stop
            },
            (Phase::Selecting, WorkerEvent::WorkCancelled) => {
                self.phase = Phase::Round;
                WorkerAction::CheckCancelling(false)
            },
            (Phase::Selecting, WorkerEvent::SettingsChanged) | (
                Phase::Selecting,
                WorkerEvent::Requested(None),
            ) => {
                self.phase = Phase::Round;
                WorkerAction::CheckCancelling(true)
            },
            (Phase::Selecting, WorkerEvent::Tick(due)) => {
                self.phase = Phase::Round;
                self.scan_due = due;
                WorkerAction::CheckCancelling(true)
            },
            (Phase::Selecting, WorkerEvent::Requested(Some(request))) => {
                match request {
                    ChatRequest::Scan => {
                        self.phase = Phase::Round;
                        self.scan_due = true;
                        WorkerAction::CheckCancelling(true)
                    },
                    other => {
                        self.phase = Phase::Handling;
                        WorkerAction::Handle(other)
                    },
                }
            },
            (Phase::Handling, WorkerEvent::Handled) => {
                self.phase = Phase::Round;
                WorkerAction::CheckCancelling(true)
            },
            _ => WorkerAction::Idle,
        }
    }
}

// ── Cursors ──────────────────────────────────────────────────────────────

/// What is known of a chat with the cursor moved by hand: a chat that is not
/// known yet has nothing to retry.
pub open spec fn moved(chats: Map<Seq<char>, ChatData>, chat_id: Seq<char>, cursor: i32, d: ChatData) -> bool {
    &&& d.last_read_message_id == cursor
    &&& if chats.contains_key(chat_id) {
        d.chat_id == chats[chat_id].chat_id && d.ids_to_retry@ == chats[chat_id].ids_to_retry@
    } else {
        d.chat_id@ == chat_id && d.ids_to_retry@.len() == 0
    }
}

/// Move the cursor of a chat, as the user has asked: also back.
pub fn move_cursor(chats: &mut Table<ChatData>, chat_id: &str, cursor: i32)
    requires
        old(chats).wf(),
    ensures
        final(chats).wf(),
        final(chats).view().contains_key(chat_id@),
        moved(old(chats).view(), chat_id@, cursor, final(chats).view()[chat_id@]),
        final(chats).view().remove(chat_id@) == old(chats).view().remove(chat_id@),
{
    let ghost before = chats.view();
    let data = match chats.remove(chat_id) {
        Some(d) => ChatData {
            chat_id: d.chat_id,
            ids_to_retry: d.ids_to_retry,
            last_read_message_id: cursor,
        },
        None => ChatData {
            chat_id: chat_id.to_owned(),
            ids_to_retry: Vec::new(),
            last_read_message_id: cursor,
        },
    };
    chats.insert(chat_id, data);
    assert(chats.view().remove(chat_id@) =~= before.remove(chat_id@));
}

// ── What is said of a request ────────────────────────────────────────────

/// How a request ended.
#[derive(Debug, Clone)]
pub enum RequestEnd {
    /// The message was downloaded, from the chat with that id.
    Downloaded(String),
    NotDownloaded(String),
    /// The chat is scanned from now on, under that id.
    Subscribed(String),
    AlreadySubscribed,
    NotSubscribed(String),
}

/// What is said when a request begins, of the chat called `label`.
pub fn request_begins(request: &ChatRequest, label: &str) -> (r: String)
    ensures
        r@ == (match *request {
            ChatRequest::Scan => Seq::empty(),
            ChatRequest::Once(_, id) => "Opening message "@ + signed_text(id as int) + " from "@
                + label@,
            ChatRequest::Subscribe(_) => "Opening "@ + label@,
        }),
{
    match request {
        ChatRequest::Scan => String::new(),
        ChatRequest::Once(_, id) => {
            let n = signed_decimal(*id as i64);
            let head = join3("Opening message ", n.as_str(), " from ");
            join2(head.as_str(), label)
        },
        ChatRequest::Subscribe(_) => join2("Opening ", label),
    }
}

/// A signed number in decimal.
pub open spec fn signed_text(n: int) -> Seq<char> {
    if n < 0 {
        "-"@ + decimal((-n) as nat)
    } else {
        decimal(n as nat)
    }
}

/// A signed number in decimal.
pub fn signed_decimal(n: i64) -> (r: String)
    ensures
        r@ == signed_text(n as int),
{
    if n < 0 {
        let d = from_chars(decimal_chars((-(n as i128)) as u64).as_slice());
        join2("-", d.as_str())
    } else {
        from_chars(decimal_chars(n as u64).as_slice())
    }
}

/// What is said when a request for that message of the chat called `label` has
/// ended.
pub fn request_ended(end: &RequestEnd, message_id: i32, label: &str) -> (r: String)
    ensures
        ({
            let n = signed_text(message_id as int);
            r@ == (match *end {
                RequestEnd::Downloaded(chat) => "Finished downloading message "@ + n + " from "@
                    + label@ + " as "@ + chat@,
                RequestEnd::NotDownloaded(e) => "Could not download message "@ + n + " from "@
                    + label@ + ": "@ + e@,
                RequestEnd::Subscribed(chat) => "Subscribed to "@ + label@ + " as "@ + chat@,
                RequestEnd::AlreadySubscribed => "Already subscribed to "@ + label@,
                RequestEnd::NotSubscribed(e) => "Could not subscribe to "@ + label@ + ": "@ + e@,
            })
        }),
{
    let n = signed_decimal(message_id as i64);
    match end {
        RequestEnd::Downloaded(chat) => {
            let a = join3("Finished downloading message ", n.as_str(), " from ");
            let b = join3(a.as_str(), label, " as ");
            join2(b.as_str(), chat.as_str())
        },
        RequestEnd::NotDownloaded(e) => {
            let a = join3("Could not download message ", n.as_str(), " from ");
            let b = join3(a.as_str(), label, ": ");
            join2(b.as_str(), e.as_str())
        },
        RequestEnd::Subscribed(chat) => {
            let a = join3("Subscribed to ", label, " as ");
            join2(a.as_str(), chat.as_str())
        },
        RequestEnd::AlreadySubscribed => join2("Already subscribed to ", label),
        RequestEnd::NotSubscribed(e) => {
            let a = join3("Could not subscribe to ", label, ": ");
            join2(a.as_str(), e.as_str())
        },
    }
}

// ── Requests ─────────────────────────────────────────────────────────────

/// Whether a chat is configured under the name that the user gives it, before
/// anything is looked up.
pub fn already_subscribed(chats: &Vec<ChatConfig>, target: &ChatTarget) -> (r: Option<String>)
    ensures
        match *target {
            ChatTarget::Username(name) => if is_subscribed(chats@, name@) {
                r matches Some(id) && id@ == name@
            } else {
                r is None
            },
            _ => r is None,
        },
{
    match target {
        ChatTarget::Username(name) => {
            let mut i: usize = 0;
            while i < chats.len()
                invariant
                    i <= chats@.len(),
                    *target == ChatTarget::Username(*name),
                    forall|j: int| 0 <= j < i ==> (#[trigger] chats@[j]).chat_id@ != name@,
                decreases chats@.len() - i,
            {
                if same_str(chats[i].chat_id.as_str(), name.as_str()) {
                    assert(chats@[i as int].chat_id@ == name@);
                    return Some(name.as_str().to_owned());
                }
                i += 1;
            }
            None
        },
        _ => None,
    }
}

/// The id of a chat that is named by the number of its dialog.
pub fn dialog_chat(target: &ChatTarget) -> (r: Option<String>)
    ensures
        match *target {
            ChatTarget::DialogId(id) => r matches Some(s) && s@ == signed_text(id as int),
            _ => r is None,
        },
{
    match target {
        ChatTarget::DialogId(id) => Some(signed_decimal(*id)),
        _ => None,
    }
}

/// What the service has found of a single message.
#[derive(Debug, Clone, Copy, PartialEq, Eq, Structural)]
pub enum FoundMessage {
    Missing,
    WithoutMedia,
    /// Its media are of a kind that is not configured.
    Disabled,
    Ready,
}

/// What was found of a single message: whether there is one, and its media.
pub fn found_message(cfg: &Config, exists: bool, media: &Option<MediaKind>) -> (r: FoundMessage)
    ensures
        r == (if !exists {
            FoundMessage::Missing
        } else if media is None {
            FoundMessage::WithoutMedia
        } else if !is_configured(*cfg, (media->0).kind@, (media->0).extension@) {
            FoundMessage::Disabled
        } else {
            FoundMessage::Ready
        }),
{
    if !exists {
        return FoundMessage::Missing;
    }
    match media {
        None => FoundMessage::WithoutMedia,
        Some(m) => if media_matches_config(cfg, m.kind.as_str(), m.extension.as_str()) {
            FoundMessage::Ready
        } else {
            FoundMessage::Disabled
        },
    }
}

/// Whether a single message can be downloaded; else what is said.
pub fn check_message(id: i32, found: FoundMessage) -> (r: Result<(), String>)
    ensures
        ({
            let head = "message "@ + signed_text(id as int);
            match found {
                FoundMessage::Ready => r is Ok,
                FoundMessage::Missing => r matches Err(e) && e@ == head + " was not found"@,
                FoundMessage::WithoutMedia => r matches Err(e) && e@ == head + " has no media"@,
                FoundMessage::Disabled => r matches Err(e) && e@ == head
                    + " media type is disabled by config"@,
            }
        }),
{
    let n = signed_decimal(id as i64);
    match found {
        FoundMessage::Ready => Ok(()),
        FoundMessage::Missing => Err(join3("message ", n.as_str(), " was not found")),
        FoundMessage::WithoutMedia => Err(join3("message ", n.as_str(), " has no media")),
        FoundMessage::Disabled => Err(
            join3("message ", n.as_str(), " media type is disabled by config"),
        ),
    }
}

/// The id that a dialog gets in the configuration finds the same dialog again.
pub proof fn law_dialog_ids_are_found_again(id: i64)
    ensures
        parse_signed(signed_text(id as int), i64::MIN as int, i64::MAX as int) == Some(id as int),
{
    reveal_strlit("-");
    let n: nat = if id < 0 {
        (-id) as nat
    } else {
        id as nat
    };
    lemma_decimal_round_trip(n);
    if id < 0 {
        assert(signed_text(id as int).skip(1) =~= decimal(n));
    } else {
        assert(is_digit(decimal(n)[0]));
    }
}

} // verus!
