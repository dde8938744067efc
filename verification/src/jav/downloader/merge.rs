//! Merge only complete tracks, and publish an MP4 only after validating it.
use vstd::prelude::*;
use crate::jav::source::stream::m3u8::M3u8Info;
use crate::paths::{stream_path, with_extension};
use crate::text::{
    char_views, contains, decimal, decimal_chars, from_chars, has, join2, join3, line_list, lines,
    opt_view, parse_unsigned, push_all, same_str, to_chars, trim_str, unsigned_at_most, views,
};

verus! {

/// The files that a track is assembled from, in order: its init segment, where
/// it has one, and its segments.
pub open spec fn track_files(init: bool, total: nat) -> Seq<Seq<char>> {
    (if init {
        seq!["init.mp4"@]
    } else {
        Seq::empty()
    }) + Seq::new(total, |i: int| decimal(i as nat) + ".ts"@)
}

/// The name of the file that holds segment `index`.
pub fn segment_name(index: usize) -> (r: String)
    ensures
        r@ == decimal(index as nat) + ".ts"@,
{
    let n = from_chars(decimal_chars(index as u64).as_slice());
    join2(n.as_str(), ".ts")
}

/// The files that a track is assembled from, in order.
pub fn list_files(init: bool, total: usize) -> (r: Vec<String>)
    ensures
        views(r@) == track_files(init, total as nat),
{
    let mut v: Vec<String> = Vec::new();
    let ghost base: int = if init {
        1
    } else {
        0
    };
    let ghost all = track_files(init, total as nat);
    if init {
        v.push("init.mp4".to_owned());
    }
    assert(views(v@) =~= all.take(base));
    let mut i: usize = 0;
    while i < total
        invariant
            i <= total,
            base == (if init {
                1int
            } else {
                0
            }),
            all == track_files(init, total as nat),
            views(v@) == all.take(base + i),
        decreases total - i,
    {
        let ghost before = views(v@);
        let name = segment_name(i);
        let ghost text = name@;
        v.push(name);
        assert(views(v@) =~= before.push(text));
        assert(all[base + i] == text);
        assert(all.take(base + i + 1) =~= all.take(base + i).push(all[base + i]));
        i += 1;
    }
    assert(all.take(base + i) =~= all);
    v
}

/// The files to assemble a track from; `None` where the playlist has no segments.
pub fn assemble_track(info: &M3u8Info) -> (r: Option<Vec<String>>)
    ensures
        if info.segments@.len() == 0 {
            r is None
        } else {
            r matches Some(v) && views(v@) == track_files(
                info.init_segment is Some,
                info.segments@.len(),
            )
        },
{
    if info.segments.len() == 0 {
        return None;
    }
    Some(list_files(info.init_segment.is_some(), info.segments.len()))
}

// ── What the inputs and the output hold ──────────────────────────────────

/// One stream of a media file.
#[derive(Debug, Clone)]
pub struct StreamInfo {
    pub codec_type: String,
    pub codec_name: Option<String>,
    pub profile: Option<String>,
    /// How many frames there are, as it is written, where it is known.
    pub nb_frames: Option<String>,
}

/// The first stream of that kind from `i` on; the number of streams where there
/// is none.
pub open spec fn stream_at(streams: Seq<StreamInfo>, kind: Seq<char>, i: int) -> int
    decreases streams.len() - i,
{
    if i < 0 || i >= streams.len() {
        streams.len() as int
    } else if streams[i].codec_type@ == kind {
        i
    } else {
        stream_at(streams, kind, i + 1)
    }
}

fn find_stream(streams: &Vec<StreamInfo>, kind: &str) -> (r: usize)
    ensures
        r == stream_at(streams@, kind@, 0),
        r <= streams@.len(),
{
    let mut i: usize = 0;
    while i < streams.len()
        invariant
            i <= streams@.len(),
            stream_at(streams@, kind@, 0) == stream_at(streams@, kind@, i as int),
        decreases streams@.len() - i,
    {
        if same_str(streams[i].codec_type.as_str(), kind) {
            return i;
        }
        i += 1;
    }
    i
}

/// Whether the audio of an input can go into the output as it is; `None` where
/// the input has no audio.
pub open spec fn audio_copied(streams: Seq<StreamInfo>) -> Option<bool> {
    let i = stream_at(streams, "audio"@, 0);
    if i >= streams.len() {
        None
    } else {
        Some(
            opt_view(streams[i].codec_name) == Some("aac"@) && opt_view(streams[i].profile) == Some(
                "LC"@,
            ),
        )
    }
}

/// Whether the audio of an input can go into the output as it is; `None` where
/// the input has no audio, and merging it would produce a silent video.
pub fn copies_audio(streams: &Vec<StreamInfo>) -> (r: Option<bool>)
    ensures
        r == audio_copied(streams@),
{
    let i = find_stream(streams, "audio");
    if i == streams.len() {
        return None;
    }
    let codec = match &streams[i].codec_name {
        Some(c) => same_str(c.as_str(), "aac"),
        None => false,
    };
    let profile = match &streams[i].profile {
        Some(p) => same_str(p.as_str(), "LC"),
        None => false,
    };
    Some(codec && profile)
}

/// How long a stream is, against what is expected of it. Both lengths are given as
/// they are to be written.
#[derive(Debug, Clone, PartialEq, Eq)]
pub enum Length {
    /// It does not say.
    Unknown,
    TooShort { actual: String, expected: String },
    Enough,
}

/// Whether a stream says that it has no frames.
pub open spec fn says_empty(s: StreamInfo) -> bool {
    s.nb_frames matches Some(n) && parse_unsigned(n@, u64::MAX as nat) == Some(0nat)
}

/// Why the first stream of a kind is refused, where it is: there must be one, it
/// may not be empty, and it must be long enough, where a length is expected.
pub open spec fn stream_error(
    streams: Seq<StreamInfo>,
    kind: Seq<char>,
    length: Option<Length>,
) -> Option<Seq<char>> {
    let i = stream_at(streams, kind, 0);
    if i >= streams.len() {
        Some("no "@ + kind + " stream found; refusing to mark the download complete"@)
    } else if says_empty(streams[i]) {
        Some("merged "@ + kind + " stream is empty"@)
    } else {
        match length {
            Some(Length::Unknown) => Some("merged "@ + kind + " stream has no duration"@),
            Some(Length::TooShort { actual, expected }) => Some(
                "merged "@ + kind + " is too short ("@ + actual@ + "s, expected "@ + expected@
                    + "s)"@,
            ),
            _ => None,
        }
    }
}

/// Why an output is refused, where it is: first its video is looked at, then its
/// audio. `lengths` holds the lengths of the two, where they matter.
pub open spec fn output_error(
    streams: Seq<StreamInfo>,
    lengths: Option<(Length, Length)>,
) -> Option<Seq<char>> {
    let video = match lengths {
        Some(l) => Some(l.0),
        None => None,
    };
    let audio = match lengths {
        Some(l) => Some(l.1),
        None => None,
    };
    match stream_error(streams, "video"@, video) {
        Some(m) => Some(m),
        None => stream_error(streams, "audio"@, audio),
    }
}

fn is_empty_stream(s: &StreamInfo) -> (r: bool)
    ensures
        r == says_empty(*s),
{
    match &s.nb_frames {
        Some(n) => match unsigned_at_most(to_chars(n.as_str()).as_slice(), u64::MAX) {
            Some(x) => x == 0,
            None => false,
        },
        None => false,
    }
}

/// Why the first stream of a kind is refused, where it is.
pub fn check_stream(streams: &Vec<StreamInfo>, kind: &str, length: Option<&Length>) -> (r: Result<
    (),
    String,
>)
    ensures
        match stream_error(
            streams@,
            kind@,
            match length {
                Some(l) => Some(*l),
                None => None,
            },
        ) {
            Some(m) => r matches Err(e) && e@ == m,
            None => r is Ok,
        },
{
    let i = find_stream(streams, kind);
    if i == streams.len() {
        return Err(
            join3("no ", kind, " stream found; refusing to mark the download complete"),
        );
    }
    if is_empty_stream(&streams[i]) {
        return Err(join3("merged ", kind, " stream is empty"));
    }
    match length {
        Some(Length::Unknown) => Err(join3("merged ", kind, " stream has no duration")),
        Some(Length::TooShort { actual, expected }) => {
            let head = join3("merged ", kind, " is too short (");
            let middle = join3(head.as_str(), actual.as_str(), "s, expected ");
            Err(join3(middle.as_str(), expected.as_str(), "s)"))
        },
        _ => Ok(()),
    }
}

/// Whether an output can be published: it needs video and audio, neither may be
/// empty, and both must be long enough, where a length is expected.
pub fn validate_output(streams: &Vec<StreamInfo>, lengths: &Option<(Length, Length)>) -> (r: Result<
    (),
    String,
>)
    ensures
        match output_error(streams@, *lengths) {
            Some(m) => r matches Err(e) && e@ == m,
            None => r is Ok,
        },
{
    let (video, audio) = match lengths {
        Some(l) => (Some(&l.0), Some(&l.1)),
        None => (None, None),
    };
    match check_stream(streams, "video", video) {
        Err(e) => Err(e),
        Ok(()) => check_stream(streams, "audio", audio),
    }
}

// ── The merge ────────────────────────────────────────────────────────────

/// What every merge starts with.
pub open spec fn leading_args() -> Seq<Seq<char>> {
    seq![
        "-nostdin"@,
        "-y"@,
        "-hide_banner"@,
        "-loglevel"@,
        "error"@,
        "-xerror"@,
        "-abort_on"@,
        "empty_output+empty_output_stream"@,
    ]
}

/// How an input is named.
pub open spec fn input_args(path: Seq<char>) -> Seq<Seq<char>> {
    seq!["-probesize"@, "50000000"@, "-analyzeduration"@, "30000000"@, "-i"@, path]
}

/// Which streams are taken. Audio is mandatory: an optional one would quietly
/// produce a silent video.
pub open spec fn map_args(separate: bool) -> Seq<Seq<char>> {
    seq![
        "-map"@,
        "0:v:0"@,
        "-map"@,
        if separate {
            "1:a:0"@
        } else {
            "0:a:0"@
        },
        "-c:v"@,
        "copy"@,
        "-c:a"@,
    ]
}

/// How the audio is taken: as it is, or, where its timestamps are repaired or it
/// cannot stay as it is, encoded anew.
pub open spec fn audio_args(copy: bool, repair: bool) -> Seq<Seq<char>> {
    if copy && !repair {
        seq!["copy"@]
    } else {
        seq!["aac"@, "-profile:a"@, "aac_low"@, "-b:a"@, "192k"@]
    }
}

/// How the timestamps of the audio are repaired.
pub open spec fn filter_args(repair: bool) -> Seq<Seq<char>> {
    if repair {
        seq!["-af"@, "aresample=async=1"@]
    } else {
        Seq::empty()
    }
}

/// What every merge ends with.
pub open spec fn trailing_args(output: Seq<char>) -> Seq<Seq<char>> {
    seq![
        "-movflags"@,
        "+faststart"@,
        "-avoid_negative_ts"@,
        "make_zero"@,
        "-f"@,
        "mp4"@,
        output,
    ]
}

/// The arguments of a merge.
pub open spec fn command_args(
    video: Seq<char>,
    audio: Option<Seq<char>>,
    copy: bool,
    repair: bool,
    output: Seq<char>,
) -> Seq<Seq<char>> {
    leading_args() + input_args(video) + (match audio {
        Some(a) => input_args(a),
        None => Seq::empty(),
    }) + map_args(audio is Some) + audio_args(copy, repair) + filter_args(repair) + trailing_args(
        output,
    )
}

fn push_arg(v: &mut Vec<String>, arg: &str)
    ensures
        views(final(v)@) == views(old(v)@).push(arg@),
{
    let ghost before = views(v@);
    v.push(arg.to_owned());
    assert(views(v@) =~= before.push(arg@));
}

fn add_input(v: &mut Vec<String>, path: &str)
    ensures
        views(final(v)@) == views(old(v)@) + input_args(path@),
{
    let ghost before = views(v@);
    push_arg(v, "-probesize");
    push_arg(v, "50000000");
    push_arg(v, "-analyzeduration");
    push_arg(v, "30000000");
    push_arg(v, "-i");
    push_arg(v, path);
    assert(views(v@) =~= before + input_args(path@));
}

fn add_leading(v: &mut Vec<String>)
    ensures
        views(final(v)@) == views(old(v)@) + leading_args(),
{
    let ghost before = views(v@);
    push_arg(v, "-nostdin");
    push_arg(v, "-y");
    push_arg(v, "-hide_banner");
    push_arg(v, "-loglevel");
    push_arg(v, "error");
    push_arg(v, "-xerror");
    push_arg(v, "-abort_on");
    push_arg(v, "empty_output+empty_output_stream");
    assert(views(v@) =~= before + leading_args());
}

fn add_maps(v: &mut Vec<String>, separate: bool)
    ensures
        views(final(v)@) == views(old(v)@) + map_args(separate),
{
    let ghost before = views(v@);
    push_arg(v, "-map");
    push_arg(v, "0:v:0");
    push_arg(v, "-map");
    if separate {
        push_arg(v, "1:a:0");
    } else {
        push_arg(v, "0:a:0");
    }
    push_arg(v, "-c:v");
    push_arg(v, "copy");
    push_arg(v, "-c:a");
    assert(views(v@) =~= before + map_args(separate));
}

fn add_audio(v: &mut Vec<String>, copy: bool, repair: bool)
    ensures
        views(final(v)@) == views(old(v)@) + audio_args(copy, repair),
{
    let ghost before = views(v@);
    if copy && !repair {
        push_arg(v, "copy");
        assert(views(v@) =~= before + seq!["copy"@]);
    } else {
        push_arg(v, "aac");
        push_arg(v, "-profile:a");
        push_arg(v, "aac_low");
        push_arg(v, "-b:a");
        push_arg(v, "192k");
        assert(views(v@) =~= before + seq!["aac"@, "-profile:a"@, "aac_low"@, "-b:a"@, "192k"@]);
    }
}

fn add_filter(v: &mut Vec<String>, repair: bool)
    ensures
        views(final(v)@) == views(old(v)@) + filter_args(repair),
{
    let ghost before = views(v@);
    if repair {
        push_arg(v, "-af");
        push_arg(v, "aresample=async=1");
    }
    assert(views(v@) =~= before + filter_args(repair));
}

fn add_trailing(v: &mut Vec<String>, output: &str)
    ensures
        views(final(v)@) == views(old(v)@) + trailing_args(output@),
{
    let ghost before = views(v@);
    push_arg(v, "-movflags");
    push_arg(v, "+faststart");
    push_arg(v, "-avoid_negative_ts");
    push_arg(v, "make_zero");
    push_arg(v, "-f");
    push_arg(v, "mp4");
    push_arg(v, output);
    assert(views(v@) =~= before + trailing_args(output@));
}

/// The arguments of a merge: the video, the audio where that is separate, and the
/// output. `copy` leaves the audio as it is; `repair` reconciles its samples with
/// their timestamps.
pub fn merge_args(video: &str, audio: &Option<String>, copy: bool, repair: bool, output: &str) -> (r:
    Vec<String>)
    ensures
        views(r@) == command_args(video@, opt_view(*audio), copy, repair, output@),
{
    let mut v: Vec<String> = Vec::new();
    add_leading(&mut v);
    assert(views(v@) =~= leading_args());
    add_input(&mut v, video);
    let ghost one = views(v@);
    if let Some(a) = audio {
        add_input(&mut v, a.as_str());
    }
    assert(views(v@) =~= one + (match opt_view(*audio) {
        Some(a) => input_args(a),
        None => Seq::empty(),
    }));
    add_maps(&mut v, audio.is_some());
    add_audio(&mut v, copy, repair);
    add_filter(&mut v, repair);
    add_trailing(&mut v, output);
    v
}

/// Whether a line reports that the timestamps of the output's audio are out of
/// order.
pub open spec fn is_audio_line(line: Seq<char>) -> bool {
    &&& contains(line, "Non-monotonous DTS"@) || contains(line, "Non-monotonic DTS"@)
    &&& contains(line, "output stream 0:1;"@) || contains(line, "[aost#0:1/"@)
}

/// Whether a message reports that the timestamps of the output's audio are out of
/// order.
pub open spec fn audio_disorder(message: Seq<char>) -> bool {
    exists|i: int| 0 <= i < lines(message).len() && is_audio_line(#[trigger] lines(message)[i])
}

fn line_is_audio(v: &[char]) -> (r: bool)
    ensures
        r == is_audio_line(v@),
{
    (has(v, to_chars("Non-monotonous DTS").as_slice()) || has(
        v,
        to_chars("Non-monotonic DTS").as_slice(),
    )) && (has(v, to_chars("output stream 0:1;").as_slice()) || has(
        v,
        to_chars("[aost#0:1/").as_slice(),
    ))
}

/// What follows a merge that failed.
#[derive(Debug, Clone, PartialEq, Eq)]
pub enum MergeStep {
    /// Merge once more, with the timestamps of the audio repaired.
    Repair,
    Fail(String),
}

/// What follows a merge that failed with a message. Errors stay strict: only
/// audio timestamps out of order are repaired, once, and never those of video.
pub fn after_failure(repaired: bool, message: &str) -> (r: MergeStep)
    ensures
        if !repaired && audio_disorder(message@) {
            r == MergeStep::Repair
        } else {
            r matches MergeStep::Fail(m) && m@ == "ffmpeg merge failed: "@ + crate::text::trim(
                message@,
            )
        },
{
    let all = line_list(to_chars(message).as_slice());
    let ghost ls = lines(message@);
    let mut found = false;
    let mut i: usize = 0;
    while i < all.len()
        invariant
            i <= all@.len(),
            ls == char_views(all@),
            found == exists|k: int| 0 <= k < i && is_audio_line(#[trigger] ls[k]),
        decreases all@.len() - i,
    {
        assert(ls[i as int] == all@[i as int]@);
        if line_is_audio(all[i].as_slice()) {
            found = true;
        }
        i += 1;
    }
    assert(found == audio_disorder(message@));
    if !repaired && found {
        MergeStep::Repair
    } else {
        MergeStep::Fail(join2("ffmpeg merge failed: ", trim_str(message).as_str()))
    }
}

// ── One merge ────────────────────────────────────────────────────────────

/// How far a merge has come.
#[derive(Debug, Clone, Copy, PartialEq, Eq, Structural)]
pub enum MergePhase {
    /// Assembling the video.
    Video,
    /// Assembling the audio that is apart.
    Audio,
    /// Looking at what the audio is.
    Probing,
    /// Making room for the output beside its destination.
    Staging,
    Encoding,
    Checking,
    /// Copying the output across file systems.
    Copying,
    /// Asking whether the end may still be published.
    Committing,
    Over,
}

/// What a merge asks for.
#[derive(Debug, Clone, PartialEq, Eq)]
pub enum MergeAction {
    AssembleVideo,
    AssembleAudio,
    Probe,
    Stage,
    /// Run the encoder, with the audio as it is or not, and repaired or not.
    Encode(bool, bool),
    Check,
    Copy,
    Commit,
    Publish,
    Fail(String),
    /// There is nothing to do.
    Idle,
}

/// What a merge was given.
#[derive(Debug)]
pub enum MergeEvent {
    Assembled,
    Probed(Vec<StreamInfo>),
    /// Whether the output is made on another file system than its destination.
    Staged(bool),
    Encoded,
    /// The encoder gave up, with that message.
    EncoderFailed(String),
    Checked,
    Copied,
    /// Whether the end may still be published.
    Committed(bool),
    /// The step failed.
    Failed(String),
}

/// A merge.
#[derive(Debug)]
pub struct Merge {
    pub phase: MergePhase,
    /// The audio is apart from the video.
    pub separate: bool,
    /// The audio goes into the output as it is.
    pub copy: bool,
    /// The timestamps of the audio are being repaired.
    pub repaired: bool,
    /// The output is made on another file system than its destination.
    pub local: bool,
}

/// What is said of a merge that its task does not wait for any more.
pub open spec fn interrupted() -> Seq<char> {
    "merge interrupted"@
}

/// Whether a merge has failed with that message.
pub open spec fn fails(before: Merge, after: Merge, action: MergeAction, message: Seq<char>) -> bool {
    &&& after == (Merge { phase: MergePhase::Over, ..before })
    &&& action matches MergeAction::Fail(m) && m@ == message
}

/// What becomes of a merge with an event, and what it then asks for.
pub open spec fn merges(
    a: Merge,
    event: MergeEvent,
    running: bool,
    b: Merge,
    r: MergeAction,
) -> bool {
    match (a.phase, event) {
        (MergePhase::Over, _) => b == a && r == MergeAction::Idle,
        (_, MergeEvent::Failed(m)) => fails(a, b, r, m@),
        (MergePhase::Video, MergeEvent::Assembled) => if a.separate {
            b == (Merge { phase: MergePhase::Audio, ..a }) && r
                == MergeAction::AssembleAudio
        } else {
            b == (Merge { phase: MergePhase::Probing, ..a }) && r == MergeAction::Probe
        },
        (MergePhase::Audio, MergeEvent::Assembled) => b == (Merge {
            phase: MergePhase::Probing,
            ..a
        }) && r == MergeAction::Probe,
        (MergePhase::Probing, MergeEvent::Probed(streams)) => match audio_copied(
            streams@,
        ) {
            None => fails(
                a,
                b,
                r,
                "no audio stream found; refusing to produce a silent video"@,
            ),
            Some(copy) => if running {
                b == (Merge { phase: MergePhase::Staging, copy, ..a }) && r
                    == MergeAction::Stage
            } else {
                fails(a, b, r, interrupted())
            },
        },
        (MergePhase::Staging, MergeEvent::Staged(local)) => if running {
            b == (Merge { phase: MergePhase::Encoding, local, ..a }) && r
                == MergeAction::Encode(a.copy, a.repaired)
        } else {
            fails(a, b, r, interrupted())
        },
        (MergePhase::Encoding, MergeEvent::Encoded) => b == (Merge {
            phase: MergePhase::Checking,
            ..a
        }) && r == MergeAction::Check,
        (MergePhase::Encoding, MergeEvent::EncoderFailed(m)) => {
            if !a.repaired && audio_disorder(m@) {
                if running {
                    b == (Merge { repaired: true, ..a }) && r == MergeAction::Encode(
                        a.copy,
                        true,
                    )
                } else {
                    fails(a, b, r, interrupted())
                }
            } else {
                fails(a, b, r, "ffmpeg merge failed: "@ + crate::text::trim(m@))
            }
        },
        (MergePhase::Checking, MergeEvent::Checked) => if !running {
            fails(a, b, r, interrupted())
        } else if a.local {
            b == (Merge { phase: MergePhase::Copying, ..a }) && r == MergeAction::Copy
        } else {
            b == (Merge { phase: MergePhase::Committing, ..a }) && r
                == MergeAction::Commit
        },
        (MergePhase::Copying, MergeEvent::Copied) => b == (Merge {
            phase: MergePhase::Committing,
            ..a
        }) && r == MergeAction::Commit,
        (MergePhase::Committing, MergeEvent::Committed(may)) => if may {
            b == (Merge { phase: MergePhase::Over, ..a }) && r == MergeAction::Publish
        } else {
            fails(a, b, r, "merge interrupted before publication"@)
        },
        _ => b == a && r == MergeAction::Idle,
    }
}

/// A merge goes through its steps in order. The audio that is apart is assembled too;
/// a video without sound is not made; sound is copied only where the players take it;
/// the encoder runs once, and once more with repaired timestamps only where the audio
/// was out of order; nothing is copied or published that was not encoded and checked;
/// and nothing is published unless its task still waits for it.
pub proof fn law_merges_publish_what_was_checked(
    a: Merge,
    event: MergeEvent,
    running: bool,
    b: Merge,
    r: MergeAction,
)
    requires
        merges(a, event, running, b, r),
    ensures
        r is Publish <==> a.phase == MergePhase::Committing && event == MergeEvent::Committed(true),
        b.phase == MergePhase::Committing && a.phase != MergePhase::Committing ==> (a.phase
            == MergePhase::Checking && event is Checked && running && !a.local) || (a.phase
            == MergePhase::Copying && event is Copied),
        b.phase == MergePhase::Copying && a.phase != MergePhase::Copying ==> a.phase
            == MergePhase::Checking && event is Checked && running && a.local,
        b.phase == MergePhase::Checking && a.phase != MergePhase::Checking ==> a.phase
            == MergePhase::Encoding && event is Encoded,
        r is Encode ==> running && (a.phase == MergePhase::Staging || (a.phase
            == MergePhase::Encoding && !a.repaired && b.repaired && event is EncoderFailed)),
        r matches MergeAction::Encode(copy, repair) ==> copy == b.copy && repair == b.repaired,
        a.repaired ==> b.repaired,
        b.repaired && !a.repaired ==> (event matches MergeEvent::EncoderFailed(m)
            && audio_disorder(m@)),
        a.phase == MergePhase::Video && event is Assembled && a.separate ==> r
            == MergeAction::AssembleAudio && b.phase == MergePhase::Audio,
        a.phase == MergePhase::Video && event is Assembled && !a.separate ==> r
            == MergeAction::Probe,
        a.phase == MergePhase::Audio && event is Assembled ==> r == MergeAction::Probe,
        a.phase == MergePhase::Probing ==> (event matches MergeEvent::Probed(streams) ==> (
        audio_copied(streams@) is None ==> r is Fail) && (audio_copied(streams@) matches Some(copy)
            ==> running ==> b.copy == copy && r == MergeAction::Stage) && (!running ==> r is Fail)),
        a.phase != MergePhase::Over && event is Failed ==> r is Fail && b.phase
            == MergePhase::Over,
        a.phase == MergePhase::Over ==> b == a && r == MergeAction::Idle,
        r is Fail || r is Publish ==> b.phase == MergePhase::Over,
{
}

impl Merge {
    /// A merge starts with the video.
    pub fn start(info: &M3u8Info) -> (r: (Self, MergeAction))
        ensures
            r.0 == (Merge {
                phase: MergePhase::Video,
                separate: info.audio is Some,
                copy: false,
                repaired: false,
                local: false,
            }),
            r.1 == MergeAction::AssembleVideo,
    {
        (
            Merge {
                phase: MergePhase::Video,
                separate: info.audio.is_some(),
                copy: false,
                repaired: false,
                local: false,
            },
            MergeAction::AssembleVideo,
        )
    }

    fn fail(&mut self, message: &str) -> (r: MergeAction)
        ensures
            fails(*old(self), *final(self), r, message@),
    {
        self.phase = MergePhase::Over;
        MergeAction::Fail(message.to_owned())
    }

    /// What follows; `running` says whether the task is still at work. Nothing is
    /// published but an output that was checked, of a task that may still end.
    pub fn step(&mut self, event: MergeEvent, running: bool) -> (r: MergeAction)
        ensures
            merges(*old(self), event, running, *final(self), r),
    {
        match (self.phase, event) {
            (MergePhase::Over, _) => MergeAction::Idle,
            (_, MergeEvent::Failed(m)) => self.fail(m.as_str()),
            (MergePhase::Video, MergeEvent::Assembled) => {
                if self.separate {
                    self.phase = MergePhase::Audio;
                    MergeAction::AssembleAudio
                } else {
                    self.phase = MergePhase::Probing;
                    MergeAction::Probe
                }
            },
            (MergePhase::Audio, MergeEvent::Assembled) => {
                self.phase = MergePhase::Probing;
                MergeAction::Probe
            },
            (MergePhase::Probing, MergeEvent::Probed(streams)) => match copies_audio(&streams) {
                None => self.fail("no audio stream found; refusing to produce a silent video"),
                Some(copy) => {
                    if !running {
                        return self.fail("merge interrupted");
                    }
                    self.copy = copy;
                    self.phase = MergePhase::Staging;
                    MergeAction::Stage
                },
            },
            (MergePhase::Staging, MergeEvent::Staged(local)) => {
                if !running {
                    return self.fail("merge interrupted");
                }
                self.local = local;
                self.phase = MergePhase::Encoding;
                MergeAction::Encode(self.copy, self.repaired)
            },
            (MergePhase::Encoding, MergeEvent::Encoded) => {
                self.phase = MergePhase::Checking;
                MergeAction::Check
            },
            (MergePhase::Encoding, MergeEvent::EncoderFailed(m)) => {
                match after_failure(self.repaired, m.as_str()) {
                    MergeStep::Repair => {
                        if !running {
                            return self.fail("merge interrupted");
                        }
                        self.repaired = true;
                        MergeAction::Encode(self.copy, true)
                    },
                    MergeStep::Fail(text) => self.fail(text.as_str()),
                }
            },
            (MergePhase::Checking, MergeEvent::Checked) => {
                if !running {
                    return self.fail("merge interrupted");
                }
                if self.local {
                    self.phase = MergePhase::Copying;
                    MergeAction::Copy
                } else {
                    self.phase = MergePhase::Committing;
                    MergeAction::Commit
                }
            },
            (MergePhase::Copying, MergeEvent::Copied) => {
                self.phase = MergePhase::Committing;
                MergeAction::Commit
            },
            (MergePhase::Committing, MergeEvent::Committed(may)) => {
                if may {
                    self.phase = MergePhase::Over;
                    MergeAction::Publish
                } else {
                    self.fail("merge interrupted before publication")
                }
            },
            _ => MergeAction::Idle,
        }
    }
}

// ── Plain concatenation ──────────────────────────────────────────────────

/// A list of the first `n` segments, one on a line.
pub open spec fn listing(n: nat) -> Seq<char>
    decreases n,
{
    if n == 0 {
        Seq::empty()
    } else {
        listing((n - 1) as nat) + "file '"@ + decimal((n - 1) as nat) + ".ts'\n"@
    }
}

/// The list of segments that are concatenated without being decoded.
pub fn concat_listing(total: usize) -> (r: String)
    ensures
        r@ == listing(total as nat),
{
    let mut out: Vec<char> = Vec::new();
    let mut i: usize = 0;
    assert(out@ =~= listing(0));
    while i < total
        invariant
            i <= total,
            out@ == listing(i as nat),
        decreases total - i,
    {
        let ghost before = out@;
        push_all(&mut out, to_chars("file '").as_slice());
        push_all(&mut out, decimal_chars(i as u64).as_slice());
        push_all(&mut out, to_chars(".ts'\n").as_slice());
        i += 1;
    }
    from_chars(out.as_slice())
}

/// The arguments to put fragments into one container.
pub fn remux_args(input: &str, output: &str) -> (r: Vec<String>)
    ensures
        views(r@) == seq![
            "-y"@,
            "-loglevel"@,
            "error"@,
            "-i"@,
            input@,
            "-c"@,
            "copy"@,
            "-movflags"@,
            "+faststart"@,
            output@,
        ],
{
    let mut v: Vec<String> = Vec::new();
    push_arg(&mut v, "-y");
    push_arg(&mut v, "-loglevel");
    push_arg(&mut v, "error");
    push_arg(&mut v, "-i");
    push_arg(&mut v, input);
    push_arg(&mut v, "-c");
    push_arg(&mut v, "copy");
    push_arg(&mut v, "-movflags");
    push_arg(&mut v, "+faststart");
    push_arg(&mut v, output);
    assert(views(v@) =~= seq![
        "-y"@,
        "-loglevel"@,
        "error"@,
        "-i"@,
        input@,
        "-c"@,
        "copy"@,
        "-movflags"@,
        "+faststart"@,
        output@,
    ]);
    v
}

/// The arguments to concatenate the segments of a list.
pub fn concat_args(list: &str, output: &str) -> (r: Vec<String>)
    ensures
        views(r@) == seq![
            "-y"@,
            "-loglevel"@,
            "error"@,
            "-f"@,
            "concat"@,
            "-safe"@,
            "0"@,
            "-i"@,
            list@,
            "-c"@,
            "copy"@,
            "-movflags"@,
            "+faststart"@,
            "-avoid_negative_ts"@,
            "make_zero"@,
            output@,
        ],
{
    let mut v: Vec<String> = Vec::new();
    push_arg(&mut v, "-y");
    push_arg(&mut v, "-loglevel");
    push_arg(&mut v, "error");
    push_arg(&mut v, "-f");
    push_arg(&mut v, "concat");
    push_arg(&mut v, "-safe");
    push_arg(&mut v, "0");
    push_arg(&mut v, "-i");
    push_arg(&mut v, list);
    push_arg(&mut v, "-c");
    push_arg(&mut v, "copy");
    push_arg(&mut v, "-movflags");
    push_arg(&mut v, "+faststart");
    push_arg(&mut v, "-avoid_negative_ts");
    push_arg(&mut v, "make_zero");
    push_arg(&mut v, output);
    assert(views(v@) =~= seq![
        "-y"@,
        "-loglevel"@,
        "error"@,
        "-f"@,
        "concat"@,
        "-safe"@,
        "0"@,
        "-i"@,
        list@,
        "-c"@,
        "copy"@,
        "-movflags"@,
        "+faststart"@,
        "-avoid_negative_ts"@,
        "make_zero"@,
        output@,
    ]);
    v
}

/// What comes of segments that are merged without being decoded.
#[derive(Debug, Clone, PartialEq, Eq)]
pub struct Merged {
    /// The file that is made.
    pub path: String,
    /// The files that it is made of, one behind the other.
    pub files: Vec<String>,
}

/// What comes of `total` segments that are merged without being decoded: fragments
/// behind their start are a file of their own kind, whether or not they could be
/// put into one container; other segments that could not are left as a stream.
pub fn merge_segments(
    final_path: &str,
    total: usize,
    fragments: bool,
    start_exists: bool,
    contained: bool,
) -> (r: Result<Merged, &'static str>)
    ensures
        if fragments && !start_exists {
            r matches Err(e) && e@ == "fMP4 init segment is missing"@
        } else {
            r matches Ok(m) && views(m.files@) == track_files(fragments, total as nat) && m.path@
                == (if fragments || contained {
                final_path@
            } else {
                with_extension(final_path@, "ts"@)
            })
        },
{
    if fragments && !start_exists {
        return Err("fMP4 init segment is missing");
    }
    let path = if fragments || contained {
        final_path.to_owned()
    } else {
        stream_path(final_path)
    };
    Ok(Merged { path, files: list_files(fragments, total) })
}

// ── Laws ─────────────────────────────────────────────────────────────────

/// A track is assembled from its init segment, where it has one, and then from all its
/// segments, in the order of their numbers.
pub proof fn law_tracks_are_assembled_in_order(init: bool, total: nat, k: int)
    requires
        0 <= k < total,
    ensures
        track_files(true, total).len() == total + 1 && track_files(false, total).len() == total,
        track_files(true, total)[0] == "init.mp4"@,
        track_files(true, total)[k + 1] == decimal(k as nat) + ".ts"@,
        track_files(false, total)[k] == decimal(k as nat) + ".ts"@,
{
}

proof fn lemma_stream_at(streams: Seq<StreamInfo>, kind: Seq<char>, i: int)
    requires
        0 <= i <= streams.len(),
    ensures
        i <= stream_at(streams, kind, i) <= streams.len(),
        forall|j: int|
            i <= j < stream_at(streams, kind, i) ==> (#[trigger] streams[j]).codec_type@ != kind,
        stream_at(streams, kind, i) < streams.len() ==> streams[stream_at(
            streams,
            kind,
            i,
        )].codec_type@ == kind,
    decreases streams.len() - i,
{
    if i < streams.len() && streams[i].codec_type@ != kind {
        lemma_stream_at(streams, kind, i + 1);
    }
}

/// An output is accepted exactly where it has pictures and sound: of each kind the
/// first stream is there and does not say that it is empty, and where lengths matter,
/// both are known and long enough.
pub proof fn law_outputs_have_pictures_and_sound(
    streams: Seq<StreamInfo>,
    lengths: Option<(Length, Length)>,
    v: int,
    a: int,
)
    ensures
        output_error(streams, lengths) is None ==> {
            &&& exists|i: int|
                0 <= i < streams.len() && (#[trigger] streams[i]).codec_type@ == "video"@
                    && !says_empty(streams[i])
            &&& exists|i: int|
                0 <= i < streams.len() && (#[trigger] streams[i]).codec_type@ == "audio"@
                    && !says_empty(streams[i])
            &&& lengths matches Some(l) ==> l.0 == Length::Enough && l.1 == Length::Enough
        },
        0 <= v < streams.len() && 0 <= a < streams.len() && streams[v].codec_type@ == "video"@
            && streams[a].codec_type@ == "audio"@ && !says_empty(streams[v]) && !says_empty(
            streams[a],
        ) && (forall|i: int| 0 <= i < v ==> (#[trigger] streams[i]).codec_type@ != "video"@) && (
        forall|i: int| 0 <= i < a ==> (#[trigger] streams[i]).codec_type@ != "audio"@) && (lengths
            matches Some(l) ==> l.0 == Length::Enough && l.1 == Length::Enough) ==> output_error(
            streams,
            lengths,
        ) is None,
{
    lemma_stream_at(streams, "video"@, 0);
    lemma_stream_at(streams, "audio"@, 0);
    let i = stream_at(streams, "video"@, 0);
    let j = stream_at(streams, "audio"@, 0);
    if output_error(streams, lengths) is None {
        assert(streams[i].codec_type@ == "video"@ && !says_empty(streams[i]));
        assert(streams[j].codec_type@ == "audio"@ && !says_empty(streams[j]));
    }
    if 0 <= v < streams.len() && streams[v].codec_type@ == "video"@ && (forall|i: int|
        0 <= i < v ==> (#[trigger] streams[i]).codec_type@ != "video"@) {
        assert(i == v);
    }
    if 0 <= a < streams.len() && streams[a].codec_type@ == "audio"@ && (forall|i: int|
        0 <= i < a ==> (#[trigger] streams[i]).codec_type@ != "audio"@) {
        assert(j == a);
    }
}

/// Sound goes into the output as it is only where it is what every player takes, and
/// is encoded anew otherwise or where its timestamps are repaired; the pictures are
/// never encoded anew.
pub proof fn law_pictures_are_never_encoded_anew(
    streams: Seq<StreamInfo>,
    video: Seq<char>,
    audio: Option<Seq<char>>,
    copy: bool,
    repair: bool,
    output: Seq<char>,
    a: int,
)
    ensures
        0 <= a < streams.len() && streams[a].codec_type@ == "audio"@ && (forall|i: int|
            0 <= i < a ==> (#[trigger] streams[i]).codec_type@ != "audio"@) ==> audio_copied(streams)
            == Some(
            opt_view(streams[a].codec_name) == Some("aac"@) && opt_view(streams[a].profile) == Some(
                "LC"@,
            ),
        ),
        (forall|i: int| 0 <= i < streams.len() ==> (#[trigger] streams[i]).codec_type@ != "audio"@)
            ==> audio_copied(streams) is None,
        map_args(audio is Some)[4] == "-c:v"@ && map_args(audio is Some)[5] == "copy"@,
        copy && !repair ==> audio_args(copy, repair) == seq!["copy"@],
        !copy || repair ==> audio_args(copy, repair)[0] == "aac"@,
        map_args(true)[3] == "1:a:0"@ && map_args(false)[3] == "0:a:0"@,
        command_args(video, audio, copy, repair, output).last() == output,
{
    lemma_stream_at(streams, "audio"@, 0);
    let j = stream_at(streams, "audio"@, 0);
    if 0 <= a < streams.len() && streams[a].codec_type@ == "audio"@ && (forall|i: int|
        0 <= i < a ==> (#[trigger] streams[i]).codec_type@ != "audio"@) {
        assert(j == a);
    }
}

} // verus!
