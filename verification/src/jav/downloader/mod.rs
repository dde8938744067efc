//! Resolve a video page, fetch its HLS segments concurrently, decrypt and merge
//! them into a single file.
//!
//! Every long-running step is interruptible: pause keeps the temporary directory
//! so that a later resume only fetches the missing segments.
pub mod hls;
pub mod merge;
pub mod segment;
pub mod segments;

use vstd::prelude::*;
use vstd::slice::slice_subrange;
use crate::configuration::jav::Config;
use crate::jav::app::{TaskInfo, TaskState, TaskView};
use crate::jav::source::http::{
    body_text, is_block_page, validate_media_body, MediaRejected, BODY_PROBE,
};
use crate::jav::source::scraper::VideoCard;
use crate::jav::source::stream::m3u8::{M3u8Info, Segment, SegmentView};
use crate::jav::util::{cloudflare_hint, hinted, iv_for_segment, opt_bytes, segment_iv};
use crate::outside::cipher::{aes_cbc, decrypt_blocks};
use crate::paths::{output_path, path_in, segment_dir, video_path};
use crate::table::Table;
use crate::video_resolution::{rejection, rejection_text, too_small};
use crate::text::{
    decimal, decimal_chars, from_chars, join2, join3, same_str, to_chars, trim, trim_str, views,
};

verus! {

/// How a download run ended.
#[derive(Debug, Clone, Copy, PartialEq, Eq, Structural)]
pub enum Outcome {
    Done,
    Paused,
    Cancelled,
}

/// How a run ends whose task is in that state, where that ends it.
pub fn stop_of(state: TaskState) -> (r: Option<Outcome>)
    ensures
        r == (match state {
            TaskState::Paused => Some(Outcome::Paused),
            TaskState::Cancelled => Some(Outcome::Cancelled),
            _ => None,
        }),
{
    match state {
        TaskState::Paused => Some(Outcome::Paused),
        TaskState::Cancelled => Some(Outcome::Cancelled),
        _ => None,
    }
}

// ── Whole-segment decryption ─────────────────────────────────────────────

/// The key of an encrypted segment does not have 16 bytes.
#[derive(Debug, Clone, Copy, PartialEq, Eq, Structural)]
pub struct KeyLength(pub usize);

/// The bytes of a segment in whole blocks.
pub open spec fn whole_blocks(data: Seq<u8>) -> Seq<u8> {
    data.take(data.len() - data.len() % 16)
}

/// Decrypt a segment without padding; a trailing partial block is dropped.
pub fn decrypt(data: &[u8], key: &[u8], iv: &Option<Vec<u8>>, index: usize) -> (r: Result<
    Vec<u8>,
    KeyLength,
>)
    ensures
        if key@.len() != 16 {
            r == Err::<Vec<u8>, KeyLength>(KeyLength(key@.len() as usize))
        } else if data@.len() < 16 {
            r matches Ok(v) && v@ == Seq::<u8>::empty()
        } else {
            r matches Ok(v) && v@ == aes_cbc(
                key@,
                segment_iv(index as nat, opt_bytes(*iv)),
                whole_blocks(data@),
            ) && v@.len() == whole_blocks(data@).len()
        },
{
    if key.len() != 16 {
        return Err(KeyLength(key.len()));
    }
    let usable = data.len() - data.len() % 16;
    if usable == 0 {
        let none: Vec<u8> = Vec::new();
        assert(none@ =~= Seq::<u8>::empty());
        return Ok(none);
    }
    let mut k: [u8; 16] = [0u8;16];
    let mut i: usize = 0;
    while i < 16
        invariant
            i <= 16,
            key@.len() == 16,
            k@.len() == 16,
            forall|j: int| 0 <= j < i ==> k@[j] == key@[j],
        decreases 16 - i,
    {
        k[i] = key[i];
        i += 1;
    }
    assert(k@ =~= key@);
    let vector = iv_for_segment(index, iv);
    let blocks = slice_subrange(data, 0, usable);
    assert(blocks@ =~= whole_blocks(data@));
    Ok(decrypt_blocks(&k, &vector, blocks))
}

// ── Keys ─────────────────────────────────────────────────────────────────

/// The URL of a segment's key, where it is encrypted.
pub open spec fn key_of(s: SegmentView) -> Option<Seq<char>> {
    match s.encryption {
        Some(e) => Some(e.0),
        None => None,
    }
}

/// The distinct keys of some segments, in the order in which they are needed.
pub open spec fn distinct_keys(segments: Seq<SegmentView>) -> Seq<Seq<char>>
    decreases segments.len(),
{
    if segments.len() == 0 {
        Seq::empty()
    } else {
        let head = distinct_keys(segments.drop_last());
        match key_of(segments.last()) {
            Some(k) => if head.contains(k) {
                head
            } else {
                head.push(k)
            },
            None => head,
        }
    }
}

/// The segments of a track, its init segment first.
pub open spec fn track_segments(info: M3u8Info) -> Seq<SegmentView> {
    let rest = crate::jav::source::stream::m3u8::segment_views(info.segments@);
    match info.init_segment {
        Some(s) => seq![s@] + rest,
        None => rest,
    }
}

fn add_key(keys: &mut Vec<String>, segment: &Segment)
    ensures
        views(final(keys)@) == (match key_of(segment@) {
            Some(k) => if views(old(keys)@).contains(k) {
                views(old(keys)@)
            } else {
                views(old(keys)@).push(k)
            },
            None => views(old(keys)@),
        }),
{
    let ghost before = views(keys@);
    if let Some(e) = &segment.encryption {
        let mut i: usize = 0;
        while i < keys.len()
            invariant
                i <= keys@.len(),
                before == views(keys@),
                segment@.encryption matches Some(x) && x.0 == e.key_url@,
                forall|j: int| 0 <= j < i ==> before[j] != e.key_url@,
            decreases keys@.len() - i,
        {
            assert(before[i as int] == keys@[i as int]@);
            if same_str(keys[i].as_str(), e.key_url.as_str()) {
                return;
            }
            i += 1;
        }
        assert(!before.contains(e.key_url@));
        keys.push(e.key_url.clone());
        assert(views(keys@) =~= before.push(e.key_url@));
    }
}

/// The keys that a track needs, each once.
pub fn track_keys(info: &M3u8Info) -> (r: Vec<String>)
    ensures
        views(r@) == distinct_keys(track_segments(*info)),
{
    let mut keys: Vec<String> = Vec::new();
    let ghost all = track_segments(*info);
    let ghost rest = crate::jav::source::stream::m3u8::segment_views(info.segments@);
    assert(views(keys@) =~= distinct_keys(all.take(0)));
    let ghost mut done: int = 0;
    if let Some(init) = &info.init_segment {
        add_key(&mut keys, init);
        assert(all.take(1).drop_last() =~= all.take(0));
        assert(all.take(1).last() == init@);
        proof {
            done = 1;
        }
    }
    let mut i: usize = 0;
    while i < info.segments.len()
        invariant
            i <= info.segments@.len(),
            all == track_segments(*info),
            rest == crate::jav::source::stream::m3u8::segment_views(info.segments@),
            done == (if info.init_segment is Some {
                1int
            } else {
                0
            }),
            views(keys@) == distinct_keys(all.take(done + i)),
        decreases info.segments@.len() - i,
    {
        assert(rest[i as int] == info.segments@[i as int]@);
        assert(all.take(done + i + 1).drop_last() =~= all.take(done + i));
        assert(all.take(done + i + 1).last() == info.segments@[i as int]@);
        add_key(&mut keys, &info.segments[i]);
        i += 1;
    }
    assert(all.take(done + i) =~= all);
    keys
}

/// Whether an answer is the key of a segment.
pub fn check_key(url: &str, data: &[u8]) -> (r: Result<(), String>)
    ensures
        if data@.len() == 0 || is_block_page(body_text(data@)) {
            r matches Err(m) && m@ == "media request for "@ + url@
                + ": empty, HTML or Cloudflare response instead of media"@
        } else if data@.len() != 16 {
            r matches Err(m) && m@ == "unexpected AES key length "@ + decimal(data@.len())
        } else {
            r is Ok
        },
{
    if let Err(rejected) = validate_media_body(url, data) {
        return Err(rejected.0);
    }
    if data.len() != 16 {
        let n = from_chars(decimal_chars(data.len() as u64).as_slice());
        return Err(join2("unexpected AES key length ", n.as_str()));
    }
    Ok(())
}

/// The key and the initialization vector to decrypt a segment with; `Err` where
/// the key is not there.
pub fn segment_key(segment: &Segment, keys: &Table<Vec<u8>>) -> (r: Result<
    Option<(Vec<u8>, [u8; 16])>,
    (),
>)
    requires
        keys.wf(),
    ensures
        match segment.encryption {
            None => r matches Ok(None),
            Some(e) => if keys.view().contains_key(e.key_url@) {
                r matches Ok(Some(pair)) && pair.0@ == keys.view()[e.key_url@]@ && pair.1 == e.iv
            } else {
                r is Err
            },
        },
{
    match &segment.encryption {
        None => Ok(None),
        Some(e) => match keys.get(e.key_url.as_str()) {
            Some(key) => {
                let mut copy: Vec<u8> = Vec::new();
                let mut i: usize = 0;
                while i < key.len()
                    invariant
                        i <= key@.len(),
                        copy@ == key@.take(i as int),
                    decreases key@.len() - i,
                {
                    assert(key@.take(i as int).push(key@[i as int]) =~= key@.take(i + 1));
                    copy.push(key[i]);
                    i += 1;
                }
                assert(key@.take(key@.len() as int) =~= key@);
                Ok(Some((copy, e.iv)))
            },
            None => Err(()),
        },
    }
}

// ── One segment ──────────────────────────────────────────────────────────

/// Why the body of a segment is refused.
#[derive(Debug)]
pub enum BodyError {
    /// It is no media: asking again cannot help.
    Rejected(MediaRejected),
    /// It does not have the length of its range.
    Incomplete(String),
}

/// The body of a segment as it arrives: its first bytes, which show whether it
/// is media, and how many there are.
pub struct SegmentBody {
    prefix: Vec<u8>,
    length: u64,
    arrived: Ghost<Seq<u8>>,
}

/// The bytes of a body that are looked at.
pub open spec fn probe(body: Seq<u8>) -> Seq<u8> {
    if body.len() < BODY_PROBE {
        body
    } else {
        body.take(BODY_PROBE as int)
    }
}

/// What is said of a segment that is shorter or longer than its range.
pub open spec fn incomplete_text(url: Seq<char>) -> Seq<char> {
    "incomplete HLS byte range for "@ + url
}

impl SegmentBody {
    /// The bytes that have arrived.
    pub closed spec fn arrived(&self) -> Seq<u8> {
        self.arrived@
    }

    /// The first bytes and the length are those of what has arrived.
    pub closed spec fn wf(&self) -> bool {
        self.prefix@ == probe(self.arrived@) && self.length == self.arrived@.len()
    }

    /// Nothing has arrived.
    pub fn new() -> (r: Self)
        ensures
            r.wf(),
            r.arrived() == Seq::<u8>::empty(),
    {
        let r = SegmentBody { prefix: Vec::new(), length: 0, arrived: Ghost(Seq::empty()) };
        assert(r.prefix@ =~= probe(r.arrived@));
        r
    }

    /// Take a part of the body in. While the first bytes are still arriving, they
    /// are checked with every part.
    pub fn push(&mut self, url: &str, part: &[u8]) -> (r: Result<(), MediaRejected>)
        requires
            old(self).wf(),
            old(self).arrived().len() + part@.len() <= u64::MAX,
        ensures
            final(self).wf(),
            final(self).arrived() == old(self).arrived() + part@,
            ({
                let all = final(self).arrived();
                if old(self).arrived().len() < BODY_PROBE && (all.len() == 0 || is_block_page(
                    body_text(all),
                )) {
                    r matches Err(m) && m.0@ == "media request for "@ + url@
                        + ": empty, HTML or Cloudflare response instead of media"@
                } else {
                    r is Ok
                }
            }),
    {
        let ghost before = self.arrived@;
        let ghost all = before + part@;
        self.length = self.length + part.len() as u64;
        proof {
            self.arrived@ = all;
        }
        if self.prefix.len() < BODY_PROBE {
            assert(self.prefix@ == before);
            let room: usize = BODY_PROBE - self.prefix.len();
            let n: usize = if part.len() < room {
                part.len()
            } else {
                room
            };
            let mut i: usize = 0;
            assert(before + part@.take(0) =~= before);
            while i < n
                invariant
                    i <= n <= part@.len(),
                    self.prefix@ == before + part@.take(i as int),
                    self.length == all.len(),
                    self.arrived@ == all,
                decreases n - i,
            {
                assert((before + part@.take(i as int)).push(part@[i as int]) =~= before
                    + part@.take(i + 1));
                self.prefix.push(part[i]);
                i += 1;
            }
            assert(self.prefix@ =~= probe(all));
            let checked = validate_media_body(url, self.prefix.as_slice());
            proof {
                if all.len() >= BODY_PROBE {
                    assert(probe(all).take(BODY_PROBE as int) =~= probe(all));
                }
                assert(body_text(probe(all)) == body_text(all));
            }
            return checked;
        }
        assert(probe(all) =~= probe(before)) by {
            assert(all.take(BODY_PROBE as int) =~= before.take(BODY_PROBE as int));
        }
        Ok(())
    }

    /// The body has ended: it must be media, and have the length of its range,
    /// where it has one.
    pub fn finish(&self, url: &str, range: Option<(u64, u64)>) -> (r: Result<(), BodyError>)
        requires
            self.wf(),
        ensures
            if self.arrived().len() == 0 || is_block_page(body_text(self.arrived())) {
                r matches Err(BodyError::Rejected(m)) && m.0@ == "media request for "@ + url@
                    + ": empty, HTML or Cloudflare response instead of media"@
            } else if range is Some && (range->0).1 != self.arrived().len() {
                r matches Err(BodyError::Incomplete(m)) && m@ == incomplete_text(url@)
            } else {
                r is Ok
            },
    {
        let checked = validate_media_body(url, self.prefix.as_slice());
        proof {
            let all = self.arrived@;
            if all.len() >= BODY_PROBE {
                assert(probe(all).take(BODY_PROBE as int) =~= probe(all));
            }
            assert(body_text(probe(all)) == body_text(all));
        }
        if let Err(rejected) = checked {
            return Err(BodyError::Rejected(rejected));
        }
        if let Some((_, expected)) = range {
            if self.length != expected {
                return Err(BodyError::Incomplete(join2("incomplete HLS byte range for ", url)));
            }
        }
        Ok(())
    }
}

// ── One run ──────────────────────────────────────────────────────────────

/// How far a run has come.
#[derive(Debug, Clone, Copy, PartialEq, Eq, Structural)]
pub enum Phase {
    /// Looking for output under the listing's title.
    Known,
    Resolving,
    /// Creating the directory.
    Directory,
    /// Looking for output under the page's title.
    Final,
    /// Adopting segments of an earlier version.
    Adopting,
    /// Fetching and merging.
    Fetching,
    Over,
}

/// A run in progress.
#[derive(Debug)]
pub struct Run {
    pub phase: Phase,
    /// The title of the output.
    pub title: String,
    /// Where the output goes.
    pub path: String,
}

/// What a run asks for.
#[derive(Debug, PartialEq, Eq)]
pub enum RunAction {
    /// Look for output that is valid media.
    CheckOutput(String),
    Resolve,
    CreateDirectory,
    /// Move the segments from the first directory to the second.
    AdoptSegments(String, String),
    /// Fetch the segments into that directory and merge them.
    Fetch(String),
    /// Record that the video is there: its title, its path and its size.
    Complete(String, String, u64),
    /// End the run without the video, for that reason.
    Skip(String),
    Fail(String),
    /// The task was stopped: reconcile it.
    Stop,
    /// There is nothing to do.
    Idle,
}

/// What a run was given.
#[derive(Debug)]
pub enum RunEvent {
    /// The path and the size of the output, where there is one.
    Output(Option<(String, u64)>),
    /// The title that the page shows, the minimum resolution that was set when
    /// the stream was asked for, and the resolution of the stream.
    Resolved(String, u32, Option<(u64, u64)>),
    Failed(String),
    DirectoryReady,
    Adopted,
    /// The run ended as its task was stopped.
    Interrupted,
    /// The output was made: its path and its size.
    Produced(String, u64),
}

/// The title of the output: the page's, or the listing's where the page has none.
pub open spec fn output_title(page: Seq<char>, listed: Seq<char>) -> Seq<char> {
    if trim(page).len() == 0 {
        listed
    } else {
        page
    }
}

/// What becomes of a run with an answer, and what it then asks for.
pub open spec fn runs(
    a: Run,
    cfg: Config,
    card: VideoCard,
    event: RunEvent,
    b: Run,
    r: RunAction,
) -> bool {
    let temp = path_in(cfg.temp_path@, "temp_"@ + card.id@);
    let legacy = path_in(cfg.save_path@, "temp_"@ + card.id@);
    match (a.phase, event) {
        (Phase::Known, RunEvent::Output(Some((path, size)))) | (
            Phase::Final,
            RunEvent::Output(Some((path, size))),
        ) => {
            &&& b == (Run { phase: Phase::Over, ..a })
            &&& r matches RunAction::Complete(t, p, s) && t@ == a.title@ && p == path
                && s == size
        },
        (Phase::Known, RunEvent::Output(None)) => {
            b == (Run { phase: Phase::Resolving, ..a }) && r == RunAction::Resolve
        },
        (Phase::Resolving, RunEvent::Resolved(title, minimum, resolution)) => {
            if too_small(minimum, resolution) {
                &&& b == (Run { phase: Phase::Over, ..a })
                &&& r matches RunAction::Skip(m) && m@ == rejection_text(
                    minimum,
                    resolution->0,
                )
            } else {
                &&& b.phase == Phase::Directory
                &&& b.title@ == output_title(title@, card.title@)
                &&& b.path@ == video_path(
                    cfg.save_path@,
                    card.id@,
                    output_title(title@, card.title@),
                )
                &&& r == RunAction::CreateDirectory
            }
        },
        (Phase::Resolving, RunEvent::Failed(m)) | (
            Phase::Fetching,
            RunEvent::Failed(m),
        ) => {
            &&& b == (Run { phase: Phase::Over, ..a })
            &&& r matches RunAction::Fail(t) && t@ == hinted(m@)
        },
        (Phase::Directory, RunEvent::Failed(m)) => {
            &&& b == (Run { phase: Phase::Over, ..a })
            &&& r matches RunAction::Fail(t) && t@
                == "cannot create save directory: "@ + m@
        },
        (Phase::Directory, RunEvent::DirectoryReady) => {
            &&& b == (Run { phase: Phase::Final, ..a })
            &&& r matches RunAction::CheckOutput(p) && p@ == a.path@
        },
        (Phase::Final, RunEvent::Output(None)) => {
            &&& b == (Run { phase: Phase::Adopting, ..a })
            &&& r matches RunAction::AdoptSegments(from, to) && from@ == legacy && to@
                == temp
        },
        (Phase::Adopting, RunEvent::Failed(m)) => {
            &&& b == (Run { phase: Phase::Over, ..a })
            &&& r matches RunAction::Fail(t) && t@
                == "cannot move temporary segments: "@ + m@
        },
        (Phase::Adopting, RunEvent::Adopted) => {
            &&& b == (Run { phase: Phase::Fetching, ..a })
            &&& r matches RunAction::Fetch(d) && d@ == temp
        },
        (Phase::Fetching, RunEvent::Interrupted) => {
            b == (Run { phase: Phase::Over, ..a }) && r == RunAction::Stop
        },
        (Phase::Fetching, RunEvent::Produced(path, size)) => {
            &&& b == (Run { phase: Phase::Over, ..a })
            &&& r matches RunAction::Complete(t, p, s) && t@ == a.title@ && p == path
                && s == size
        },
        _ => b == a && r == RunAction::Idle,
    }
}

/// A run asks the site for nothing where its output is there; fetches nothing of a
/// video that is known to be too small; and counts a video as there only with a file
/// that was found or made, under that path and of that size. What goes wrong ends it,
/// and once it is over it stays so.
pub proof fn law_runs_bring_their_video(
    a: Run,
    cfg: Config,
    card: VideoCard,
    event: RunEvent,
    b: Run,
    r: RunAction,
)
    requires
        runs(a, cfg, card, event, b, r),
    ensures
        r matches RunAction::Complete(t, p, s) ==> t@ == a.title@ && ((event
            matches RunEvent::Output(Some((path, size))) && p == path && s == size && (a.phase
            == Phase::Known || a.phase == Phase::Final)) || (event matches RunEvent::Produced(
            path,
            size,
        ) && p == path && s == size && a.phase == Phase::Fetching)),
        (a.phase == Phase::Known || a.phase == Phase::Final) && event is Output && event->Output_0 is Some
            ==> r is Complete,
        a.phase == Phase::Fetching && event is Produced ==> r is Complete,
        r is Resolve <==> a.phase == Phase::Known && event == RunEvent::Output(None),
        a.phase == Phase::Resolving ==> (event matches RunEvent::Resolved(title, minimum, res) ==> (r
            is Skip <==> minimum > 0 && res is Some && ((res->0).0 < minimum || (res->0).1
            < minimum)) && (!(r is Skip) ==> r == RunAction::CreateDirectory && b.path@ == video_path(
            cfg.save_path@,
            card.id@,
            b.title@,
        ))),
        r is Skip ==> a.phase == Phase::Resolving && b.phase == Phase::Over,
        r matches RunAction::CheckOutput(p) ==> p@ == a.path@ && a.phase == Phase::Directory && event
            is DirectoryReady,
        r is Fetch ==> a.phase == Phase::Adopting && event is Adopted,
        r is AdoptSegments ==> a.phase == Phase::Final && event == RunEvent::Output(None),
        event is Failed && (a.phase == Phase::Resolving || a.phase == Phase::Directory || a.phase
            == Phase::Adopting || a.phase == Phase::Fetching) ==> r is Fail && b.phase
            == Phase::Over,
        a.phase == Phase::Fetching && event is Interrupted ==> r == RunAction::Stop,
        r is Complete || r is Fail || r is Stop || r is Skip ==> b.phase == Phase::Over,
        a.phase == Phase::Over ==> b == a && r == RunAction::Idle,
{
}

impl Run {
    /// A listing or manual request may already supply the final title: look for
    /// that output before contacting the site.
    pub fn start(cfg: &Config, card: &VideoCard) -> (r: (Self, RunAction))
        ensures
            r.0.phase == Phase::Known,
            r.0.title@ == card.title@,
            r.0.path@ == video_path(cfg.save_path@, card.id@, card.title@),
            r.1 matches RunAction::CheckOutput(p) && p@ == r.0.path@,
    {
        let path = output_path(cfg.save_path.as_str(), card.id.as_str(), card.title.as_str());
        let action = RunAction::CheckOutput(path.clone());
        (Run { phase: Phase::Known, title: card.title.clone(), path }, action)
    }

    /// What follows an answer. A stream that is too small is not fetched. A failure
    /// to resolve, to fetch or to merge gets the hint that a cookie may be needed.
    pub fn step(&mut self, cfg: &Config, card: &VideoCard, event: RunEvent) -> (r: RunAction)
        ensures
            runs(*old(self), *cfg, *card, event, *final(self), r),
    {
        match (self.phase, event) {
            (Phase::Known, RunEvent::Output(Some((path, size)))) | (
                Phase::Final,
                RunEvent::Output(Some((path, size))),
            ) => {
                self.phase = Phase::Over;
                RunAction::Complete(self.title.clone(), path, size)
            },
            (Phase::Known, RunEvent::Output(None)) => {
                self.phase = Phase::Resolving;
                RunAction::Resolve
            },
            (Phase::Resolving, RunEvent::Resolved(title, minimum, resolution)) => {
                if let Some(reason) = rejection(minimum, resolution) {
                    self.phase = Phase::Over;
                    return RunAction::Skip(reason);
                }
                self.phase = Phase::Directory;
                let title = if to_chars(trim_str(title.as_str()).as_str()).len() == 0 {
                    card.title.clone()
                } else {
                    title
                };
                self.path = output_path(cfg.save_path.as_str(), card.id.as_str(), title.as_str());
                self.title = title;
                RunAction::CreateDirectory
            },
            (Phase::Resolving, RunEvent::Failed(m)) | (Phase::Fetching, RunEvent::Failed(m)) => {
                self.phase = Phase::Over;
                RunAction::Fail(cloudflare_hint(m.as_str()))
            },
            (Phase::Directory, RunEvent::Failed(m)) => {
                self.phase = Phase::Over;
                RunAction::Fail(join2("cannot create save directory: ", m.as_str()))
            },
            (Phase::Directory, RunEvent::DirectoryReady) => {
                self.phase = Phase::Final;
                RunAction::CheckOutput(self.path.clone())
            },
            (Phase::Final, RunEvent::Output(None)) => {
                self.phase = Phase::Adopting;
                RunAction::AdoptSegments(
                    segment_dir(cfg.save_path.as_str(), card.id.as_str()),
                    segment_dir(cfg.temp_path.as_str(), card.id.as_str()),
                )
            },
            (Phase::Adopting, RunEvent::Failed(m)) => {
                self.phase = Phase::Over;
                RunAction::Fail(join2("cannot move temporary segments: ", m.as_str()))
            },
            (Phase::Adopting, RunEvent::Adopted) => {
                self.phase = Phase::Fetching;
                RunAction::Fetch(segment_dir(cfg.temp_path.as_str(), card.id.as_str()))
            },
            (Phase::Fetching, RunEvent::Interrupted) => {
                self.phase = Phase::Over;
                RunAction::Stop
            },
            (Phase::Fetching, RunEvent::Produced(path, size)) => {
                self.phase = Phase::Over;
                RunAction::Complete(self.title.clone(), path, size)
            },
            _ => RunAction::Idle,
        }
    }
}

// ── What a run makes of its task ─────────────────────────────────────────

/// The task once its run has started; `None` where it no longer waits.
pub fn started(task: &TaskInfo, card: &VideoCard) -> (r: Option<TaskInfo>)
    ensures
        if task.state == TaskState::Queued {
            r matches Some(t) && t@ == (TaskView {
                state: TaskState::Running,
                phase: "resolving"@,
                title: card.title@,
                message: "resolving stream"@,
                ..task@
            })
        } else {
            r is None
        },
{
    if task.state != TaskState::Queued {
        return None;
    }
    let mut t = task.copy();
    t.state = TaskState::Running;
    t.phase = "resolving".to_owned();
    t.title = card.title.clone();
    t.message = "resolving stream".to_owned();
    Some(t)
}

/// The task whose video is not downloaded.
pub fn skipped(task: &TaskInfo, reason: &str) -> (r: TaskInfo)
    ensures
        r@ == (TaskView {
            state: TaskState::Skipped,
            phase: "filtered"@,
            message: reason@,
            speed: 0,
            ..task@
        }),
{
    let mut t = task.copy();
    t.state = TaskState::Skipped;
    t.phase = "filtered".to_owned();
    t.message = reason.to_owned();
    t.speed = 0;
    t
}

/// The task once its stream has been resolved.
pub fn prepared(task: &TaskInfo, run: &Run) -> (r: TaskInfo)
    ensures
        r@ == (TaskView { title: run.title@, path: run.path@, phase: "preparing"@, ..task@ }),
{
    let mut t = task.copy();
    t.title = run.title.clone();
    t.path = run.path.clone();
    t.phase = "preparing".to_owned();
    t
}

/// How many segments a stream has, those of its audio included.
pub open spec fn total_segments(info: M3u8Info) -> nat {
    info.segments@.len() + (match info.audio {
        Some(a) => a.segments@.len(),
        None => 0,
    })
}

/// What is said of a download that has come so far.
pub open spec fn segments_text(done: nat, total: nat) -> Seq<char> {
    decimal(done) + "/"@ + decimal(total) + " segments"@
}

fn say_segments(done: usize, total: usize) -> (r: String)
    ensures
        r@ == segments_text(done as nat, total as nat),
{
    let a = from_chars(decimal_chars(done as u64).as_slice());
    let b = from_chars(decimal_chars(total as u64).as_slice());
    let head = join3(a.as_str(), "/", b.as_str());
    join2(head.as_str(), " segments")
}

/// The task when its segments are about to be fetched.
pub fn downloading(task: &TaskInfo, info: &M3u8Info) -> (r: TaskInfo)
    requires
        total_segments(*info) <= usize::MAX,
    ensures
        r@ == (TaskView {
            total_segments: total_segments(*info) as usize,
            done_segments: 0,
            downloaded_bytes: 0,
            phase: "downloading"@,
            message: segments_text(0, total_segments(*info)),
            ..task@
        }),
{
    let more: usize = match &info.audio {
        Some(a) => a.segments.len(),
        None => 0,
    };
    let total = info.segments.len() + more;
    let mut t = task.copy();
    t.total_segments = total;
    t.done_segments = 0;
    t.downloaded_bytes = 0;
    t.phase = "downloading".to_owned();
    t.message = say_segments(0, total);
    t
}

/// The task while its segments are being fetched.
pub fn progressed(task: &TaskInfo, done: usize, total: usize, bytes: u64, speed: u64) -> (r:
    TaskInfo)
    ensures
        r@ == (TaskView {
            done_segments: done,
            downloaded_bytes: bytes,
            speed,
            message: segments_text(done as nat, total as nat),
            ..task@
        }),
{
    let mut t = task.copy();
    t.done_segments = done;
    t.downloaded_bytes = bytes;
    t.speed = speed;
    t.message = say_segments(done, total);
    t
}

/// The task when the segments of a track have been fetched: the final counts.
pub fn counted(task: &TaskInfo, done: usize, bytes: u64) -> (r: TaskInfo)
    ensures
        r@ == (TaskView { done_segments: done, downloaded_bytes: bytes, ..task@ }),
{
    let mut t = task.copy();
    t.done_segments = done;
    t.downloaded_bytes = bytes;
    t
}

/// The task while its segments are being merged.
pub fn merging(task: &TaskInfo) -> (r: TaskInfo)
    ensures
        r@ == (TaskView {
            phase: "merging"@,
            message: "merging and validating audio/video"@,
            speed: 0,
            ..task@
        }),
{
    let mut t = task.copy();
    t.phase = "merging".to_owned();
    t.message = "merging and validating audio/video".to_owned();
    t.speed = 0;
    t
}

/// How a stop ends a run: the task, and whether its segments are deleted; `None`
/// where the task was not stopped. A task that has vanished was cancelled.
pub fn finish_stopped(task: &TaskInfo) -> (r: Option<(TaskInfo, bool)>)
    ensures
        match task.state {
            TaskState::Paused => r matches Some((t, clean)) && !clean && t@ == (TaskView {
                phase: "paused"@,
                speed: 0,
                message: "paused — resume to continue from downloaded segments"@,
                ..task@
            }),
            TaskState::Cancelled => r matches Some((t, clean)) && clean && t@ == (TaskView {
                phase: "cancelled"@,
                speed: 0,
                message: "cancelled"@,
                ..task@
            }),
            _ => r is None,
        },
{
    let mut t = task.copy();
    t.speed = 0;
    match task.state {
        TaskState::Paused => {
            t.phase = "paused".to_owned();
            t.message = "paused — resume to continue from downloaded segments".to_owned();
            Some((t, false))
        },
        TaskState::Cancelled => {
            t.phase = "cancelled".to_owned();
            t.message = "cancelled".to_owned();
            Some((t, true))
        },
        _ => None,
    }
}

/// The task once its video is there.
pub fn finish_completed(task: &TaskInfo, title: &str, path: &str, size: u64) -> (r: TaskInfo)
    ensures
        ({
            let n = if task.total_segments == 0 {
                1usize
            } else {
                task.total_segments
            };
            r@ == (TaskView {
                state: TaskState::Completed,
                title: title@,
                downloaded_bytes: size,
                total_bytes: size,
                phase: "completed"@,
                total_segments: n,
                done_segments: n,
                speed: 0,
                message: "completed"@,
                path: path@,
                ..task@
            })
        }),
{
    let mut t = task.copy();
    t.state = TaskState::Completed;
    t.title = title.to_owned();
    t.downloaded_bytes = size;
    t.total_bytes = size;
    t.phase = "completed".to_owned();
    if t.total_segments == 0 {
        t.total_segments = 1;
    }
    t.done_segments = t.total_segments;
    t.speed = 0;
    t.message = "completed".to_owned();
    t.path = path.to_owned();
    t
}

/// The task once its run has failed.
pub fn finish_failed(task: &TaskInfo, message: &str) -> (r: TaskInfo)
    ensures
        r@ == (TaskView {
            state: TaskState::Failed,
            phase: "failed"@,
            speed: 0,
            message: message@,
            ..task@
        }),
{
    let mut t = task.copy();
    t.state = TaskState::Failed;
    t.phase = "failed".to_owned();
    t.speed = 0;
    t.message = message.to_owned();
    t
}

} // verus!
