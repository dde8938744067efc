//! Both tracks of a stream are downloaded before they are merged.
use vstd::prelude::*;
use crate::jav::app::TaskState;
use crate::jav::downloader::{stop_of, Outcome};
use crate::jav::source::stream::m3u8::M3u8Info;

verus! {

/// How many tracks a stream has: the video, and the audio where it is apart.
pub fn track_count(info: &M3u8Info) -> (r: usize)
    ensures
        r == (if info.audio is Some {
            2usize
        } else {
            1
        }),
{
    if info.audio.is_some() {
        2
    } else {
        1
    }
}

/// Whether the segments of a track that are there can be used, by the description
/// of the track beside them: its addresses, ranges and keys must be the same. A
/// track without segments is refused.
pub fn prepare_track(info: &M3u8Info, found: &Option<Vec<u8>>, manifest: &[u8]) -> (r: Result<
    bool,
    &'static str,
>)
    ensures
        if info.segments@.len() == 0 {
            r matches Err(e) && e@ == "playlist contained no segments"@
        } else {
            r == Ok::<bool, &'static str>(found matches Some(f) && f@ == manifest@)
        },
{
    if info.segments.len() == 0 {
        return Err("playlist contained no segments");
    }
    match found {
        None => Ok(false),
        Some(f) => {
            if f.len() != manifest.len() {
                return Ok(false);
            }
            let mut i: usize = 0;
            while i < f.len()
                invariant
                    i <= f@.len(),
                    f@.len() == manifest@.len(),
                    *found == Some(*f),
                    info.segments@.len() > 0,
                    forall|k: int| 0 <= k < i ==> f@[k] == manifest@[k],
                decreases f@.len() - i,
            {
                if f[i] != manifest[i] {
                    assert(f@[i as int] != manifest@[i as int]);
                    return Ok(false);
                }
                i += 1;
            }
            assert(f@ =~= manifest@);
            Ok(true)
        },
    }
}

/// Where the download of a stream stands. Tracks are counted from 0.
#[derive(Debug, Clone, Copy, PartialEq, Eq, Structural)]
pub enum HlsPhase {
    /// Is the task still at work?
    Gate(usize),
    Preparing(usize),
    Fetching(usize),
    Merging,
    Over,
}

/// What the download of a stream asks for.
#[derive(Debug, Clone, PartialEq, Eq)]
pub enum HlsAction {
    /// Look at the state of the task.
    Check,
    /// Prepare the directory, the keys and the start of that track.
    Prepare(usize),
    /// Fetch the segments of that track.
    Fetch(usize),
    /// Merge the tracks and check what came of it.
    Merge,
    /// The stream ended that way before it was complete.
    End(Outcome),
    Fail(String),
    /// The output was made, at that path.
    Produced(String),
    /// There is nothing to do.
    Idle,
}

/// What the download of a stream was given, with the state of its task where
/// that was looked at anew.
#[derive(Debug)]
pub enum HlsEvent {
    State(TaskState),
    Prepared(Result<(), String>, TaskState),
    Fetched(Result<Outcome, String>),
    Merged(Result<String, String>, TaskState),
}

/// The download of a stream.
#[derive(Debug)]
pub struct Hls {
    pub phase: HlsPhase,
    pub tracks: usize,
}

/// How a run ends whose task is in that state.
pub open spec fn stop(state: TaskState) -> Option<Outcome> {
    match state {
        TaskState::Paused => Some(Outcome::Paused),
        TaskState::Cancelled => Some(Outcome::Cancelled),
        _ => None,
    }
}

/// What becomes of the download of a stream with an event, and what it then asks for.
pub open spec fn fetches(a: Hls, event: HlsEvent, b: Hls, r: HlsAction) -> bool {
    let now = b.phase;
    match (a.phase, event) {
        (HlsPhase::Gate(k), HlsEvent::State(s)) => match stop(s) {
            Some(o) => now == HlsPhase::Over && r == HlsAction::End(o),
            None => now == HlsPhase::Preparing(k) && r == HlsAction::Prepare(k),
        },
        (HlsPhase::Preparing(k), HlsEvent::Prepared(done, s)) => match stop(s) {
            Some(o) => now == HlsPhase::Over && r == HlsAction::End(o),
            None => match done {
                Ok(_) => now == HlsPhase::Fetching(k) && r == HlsAction::Fetch(k),
                Err(e) => now == HlsPhase::Over && r == HlsAction::Fail(e),
            },
        },
        (HlsPhase::Fetching(k), HlsEvent::Fetched(done)) => match done {
            Err(e) => now == HlsPhase::Over && r == HlsAction::Fail(e),
            Ok(o) => if o != Outcome::Done {
                now == HlsPhase::Over && r == HlsAction::End(o)
            } else if k + 1 < a.tracks {
                now == HlsPhase::Gate((k + 1) as usize) && r == HlsAction::Check
            } else {
                now == HlsPhase::Merging && r == HlsAction::Merge
            },
        },
        (HlsPhase::Merging, HlsEvent::Merged(done, s)) => match stop(s) {
            Some(o) => now == HlsPhase::Over && r == HlsAction::End(o),
            None => match done {
                Ok(path) => now == HlsPhase::Over && r == HlsAction::Produced(path),
                Err(e) => now == HlsPhase::Over && r == HlsAction::Fail(e),
            },
        },
        _ => now == a.phase && r == HlsAction::Idle,
    }
}

/// The tracks of a stream are prepared and fetched one after the other; they are
/// merged only once the last of them is complete, and an output counts as made only
/// where the merge made it. A task that is stopped ends the download that way,
/// whatever else went wrong, and what goes wrong ends it.
pub proof fn law_every_track_is_merged(a: Hls, event: HlsEvent, b: Hls, r: HlsAction)
    requires
        fetches(a, event, b, r),
        a.tracks < usize::MAX,
    ensures
        r is Merge ==> (a.phase matches HlsPhase::Fetching(k) && k + 1 >= a.tracks) && (event
            matches HlsEvent::Fetched(Ok(o)) && o == Outcome::Done),
        a.phase matches HlsPhase::Fetching(k) ==> (event matches HlsEvent::Fetched(Ok(o)) ==> o
            == Outcome::Done ==> (k + 1 < a.tracks ==> b.phase == HlsPhase::Gate((k + 1) as usize) && r
            is Check) && (k + 1 >= a.tracks ==> r is Merge)),
        r matches HlsAction::Prepare(k) ==> a.phase == HlsPhase::Gate(k) && b.phase
            == HlsPhase::Preparing(k),
        r matches HlsAction::Fetch(k) ==> a.phase == HlsPhase::Preparing(k) && b.phase
            == HlsPhase::Fetching(k) && event is Prepared && event->Prepared_0 is Ok,
        r matches HlsAction::Produced(p) ==> a.phase == HlsPhase::Merging && (event
            matches HlsEvent::Merged(Ok(path), _) && p == path),
        event matches HlsEvent::Prepared(_, s) ==> a.phase is Preparing ==> (s == TaskState::Paused
            ==> r == HlsAction::End(Outcome::Paused)) && (s == TaskState::Cancelled ==> r
            == HlsAction::End(Outcome::Cancelled)),
        event matches HlsEvent::Merged(_, s) ==> a.phase is Merging ==> (s == TaskState::Paused ==> r
            == HlsAction::End(Outcome::Paused)) && (s == TaskState::Cancelled ==> r
            == HlsAction::End(Outcome::Cancelled)),
        event matches HlsEvent::State(s) ==> a.phase is Gate ==> (s == TaskState::Paused ==> r
            == HlsAction::End(Outcome::Paused)) && (s == TaskState::Cancelled ==> r
            == HlsAction::End(Outcome::Cancelled)) && (s == TaskState::Running ==> r is Prepare),
        a.phase is Merging ==> (event matches HlsEvent::Merged(done, s) ==> s == TaskState::Running
            ==> (r is Produced <==> done is Ok) && (r is Fail <==> done is Err)),
        a.phase is Preparing ==> (event matches HlsEvent::Prepared(done, s) ==> s
            == TaskState::Running ==> (r is Fetch <==> done is Ok) && (r is Fail <==> done is Err)),
        r is End || r is Fail || r is Produced ==> b.phase == HlsPhase::Over,
        a.phase is Over ==> b.phase is Over && r == HlsAction::Idle,
{
}

impl Hls {
    /// The video comes first.
    pub fn start(info: &M3u8Info) -> (r: (Self, HlsAction))
        ensures
            r.0 == (Hls {
                phase: HlsPhase::Gate(0),
                tracks: if info.audio is Some {
                    2
                } else {
                    1
                },
            }),
            r.1 == HlsAction::Check,
    {
        (Hls { phase: HlsPhase::Gate(0), tracks: track_count(info) }, HlsAction::Check)
    }

    /// What follows. A stop wins over an error that it may have caused; the merge
    /// begins when every track is complete.
    pub fn step(&mut self, event: HlsEvent) -> (r: HlsAction)
        ensures
            final(self).tracks == old(self).tracks,
            fetches(*old(self), event, *final(self), r),
    {
        match (self.phase, event) {
            (HlsPhase::Gate(k), HlsEvent::State(s)) => match stop_of(s) {
                Some(o) => {
                    self.phase = HlsPhase::Over;
                    HlsAction::End(o)
                },
                None => {
                    self.phase = HlsPhase::Preparing(k);
                    HlsAction::Prepare(k)
                },
            },
            (HlsPhase::Preparing(k), HlsEvent::Prepared(done, s)) => match stop_of(s) {
                Some(o) => {
                    self.phase = HlsPhase::Over;
                    HlsAction::End(o)
                },
                None => match done {
                    Ok(_) => {
                        self.phase = HlsPhase::Fetching(k);
                        HlsAction::Fetch(k)
                    },
                    Err(e) => {
                        self.phase = HlsPhase::Over;
                        HlsAction::Fail(e)
                    },
                },
            },
            (HlsPhase::Fetching(k), HlsEvent::Fetched(done)) => match done {
                Err(e) => {
                    self.phase = HlsPhase::Over;
                    HlsAction::Fail(e)
                },
                Ok(o) => {
                    if o != Outcome::Done {
                        self.phase = HlsPhase::Over;
                        HlsAction::End(o)
                    } else if k < self.tracks && k + 1 < self.tracks {
                        self.phase = HlsPhase::Gate(k + 1);
                        HlsAction::Check
                    } else {
                        self.phase = HlsPhase::Merging;
                        HlsAction::Merge
                    }
                },
            },
            (HlsPhase::Merging, HlsEvent::Merged(done, s)) => {
                self.phase = HlsPhase::Over;
                match stop_of(s) {
                    Some(o) => HlsAction::End(o),
                    None => match done {
                        Ok(path) => HlsAction::Produced(path),
                        Err(e) => HlsAction::Fail(e),
                    },
                }
            },
            _ => HlsAction::Idle,
        }
    }
}

} // verus!
