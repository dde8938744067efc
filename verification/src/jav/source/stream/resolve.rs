//! Following playlists to the segments behind them.
//!
//! A playlist may list variants, or other playlists, which may list others. What
//! is needed next follows from the answers so far, so that whoever asks the
//! servers holds those answers and nothing else.
use vstd::prelude::*;
use crate::jav::source::stream::m3u8::{
    clone_variant, master_lines, media_playlist, opt_segment, parse_master_variants, parse_media_m3u8, preferred,
    segment_views, trimmed_lines, variant_views, M3u8Info, SegmentView, Variant, VariantView,
};
use crate::jav::source::stream::{
    law_chosen_playlists_are_preferred, lemma_choice, after_answer, audio_address, audio_playlist, choice, choose_playlist, kind_of,
    listed_playlists, playlist_kind, playlists_on, step_after, variants_of, with_audio,
    with_quality, PlaylistAnswer, PlaylistKind, PlaylistStep, StepView, ATTEMPTS, MAX_DEPTH,
};
use crate::outside::url::{parse, url_text};
use crate::text::{join2, join3, lines, views};

verus! {

/// What a media playlist is.
pub struct InfoView {
    pub variant: VariantView,
    pub segments: Seq<SegmentView>,
    pub init: Option<SegmentView>,
    pub audio: Option<Box<InfoView>>,
    pub durations: Seq<Seq<char>>,
}

/// What a media playlist is.
pub open spec fn info_view(i: M3u8Info) -> InfoView
    decreases i,
{
    InfoView {
        variant: i.variant@,
        segments: segment_views(i.segments@),
        init: opt_segment(i.init_segment),
        audio: match i.audio {
            Some(a) => Some(Box::new(info_view(*a))),
            None => None,
        },
        durations: views(i.durations@),
    }
}

/// What media playlists are.
pub open spec fn info_views(v: Seq<M3u8Info>) -> Seq<InfoView> {
    Seq::new(v.len(), |i: int| info_view(v[i]))
}

/// What came back so far.
pub struct Replies {
    /// The answers of servers, each with the address that it came from in the
    /// end.
    pub answers: Vec<(PlaylistAnswer, String)>,
    /// Which of several playlists is the longest.
    pub picks: Vec<usize>,
}

/// How many of the replies have been used.
#[derive(Debug, Clone, Copy, PartialEq, Eq, Structural)]
pub struct Used {
    pub answers: usize,
    pub picks: usize,
}

/// How long the segments of a playlist are.
#[derive(Debug)]
pub struct Lengths {
    /// The durations that are declared, as they are written.
    pub durations: Vec<String>,
    /// How many segments there are.
    pub segments: usize,
}

/// What is needed to go on.
#[derive(Debug)]
pub enum Need {
    /// The answer for that address, after a pause of so many milliseconds.
    Fetch(String, u64),
    /// Which is the longest of playlists with these segments; of several it is
    /// the last.
    Pick(Vec<Lengths>),
}

/// What is needed to go on, as a value.
pub enum NeedView {
    Fetch(Seq<char>, u64),
    Pick(Seq<(Seq<Seq<char>>, nat)>),
}

/// How long the segments of playlists are, as values.
pub open spec fn length_views(v: Seq<Lengths>) -> Seq<(Seq<Seq<char>>, nat)> {
    Seq::new(v.len(), |i: int| (views(v[i].durations@), v[i].segments as nat))
}

impl View for Need {
    type V = NeedView;

    open spec fn view(&self) -> NeedView {
        match self {
            Need::Fetch(url, wait) => NeedView::Fetch(url@, *wait),
            Need::Pick(lists) => NeedView::Pick(length_views(lists@)),
        }
    }
}

/// How far following playlists has got.
#[derive(Debug)]
pub enum Resolution {
    Need(Need),
    Done(M3u8Info),
    Failed(String),
}

/// How far following playlists has got, as a value.
pub enum ResolutionView {
    Need(NeedView),
    Done(InfoView),
    Failed(Seq<char>),
}

impl View for Resolution {
    type V = ResolutionView;

    open spec fn view(&self) -> ResolutionView {
        match self {
            Resolution::Need(n) => ResolutionView::Need(n@),
            Resolution::Done(i) => ResolutionView::Done(info_view(*i)),
            Resolution::Failed(e) => ResolutionView::Failed(e@),
        }
    }
}

// ── Fetching one playlist ────────────────────────────────────────────────

/// How far fetching a playlist has got.
pub enum FetchView {
    /// The next answer is needed, after a pause.
    Need(u64),
    Failed(Seq<char>),
    /// The address that it came from, and its text.
    Read(Seq<char>, Seq<char>),
}

/// How far fetching a playlist has got with the answers from `from` on, and how
/// many are used then.
pub open spec fn fetched(url: Seq<char>, replies: Replies, from: usize, attempt: int) -> (
    FetchView,
    usize,
)
    decreases ATTEMPTS - attempt,
{
    if from >= replies.answers@.len() {
        (FetchView::Need((300 * (attempt - 1)) as u64), from)
    } else {
        let next = (from + 1) as usize;
        let reply = replies.answers@[from as int];
        match step_after(url, attempt, reply.0) {
            StepView::Read => match reply.0 {
                PlaylistAnswer::Body(text) => (FetchView::Read(reply.1@, text@), next),
                _ => (FetchView::Failed(Seq::empty()), next),
            },
            StepView::Retry(_) => if attempt < ATTEMPTS {
                fetched(url, replies, next, attempt + 1)
            } else {
                (FetchView::Failed(Seq::empty()), next)
            },
            StepView::Fail(m) => (FetchView::Failed(m), next),
        }
    }
}

enum Fetch<'a> {
    Need(u64),
    Failed(String),
    Read(&'a str, &'a str),
}

impl View for Fetch<'_> {
    type V = FetchView;

    closed spec fn view(&self) -> FetchView {
        match self {
            Fetch::Need(wait) => FetchView::Need(*wait),
            Fetch::Failed(m) => FetchView::Failed(m@),
            Fetch::Read(address, text) => FetchView::Read(address@, text@),
        }
    }
}

fn fetch<'a>(url: &str, replies: &'a Replies, from: usize, attempt: usize) -> (r: (Fetch<'a>, usize))
    requires
        1 <= attempt <= ATTEMPTS,
    ensures
        (r.0@, r.1) == fetched(url@, *replies, from, attempt as int),
    decreases ATTEMPTS - attempt,
{
    if from >= replies.answers.len() {
        return (Fetch::Need(300 * (attempt as u64 - 1)), from);
    }
    let reply = &replies.answers[from];
    match after_answer(url, attempt, &reply.0) {
        PlaylistStep::Read => match &reply.0 {
            PlaylistAnswer::Body(text) => (
                Fetch::Read(reply.1.as_str(), text.as_str()),
                from + 1,
            ),
            _ => (Fetch::Failed(String::new()), from + 1),
        },
        PlaylistStep::Retry(_) => if attempt < ATTEMPTS {
            fetch(url, replies, from + 1, attempt + 1)
        } else {
            (Fetch::Failed(String::new()), from + 1)
        },
        PlaylistStep::Fail(m) => (Fetch::Failed(m), from + 1),
    }
}

// ── Following ────────────────────────────────────────────────────────────

/// A playlist that another one refers to, with what that says of its quality.
pub struct Target {
    pub url: String,
    pub variant: Option<Variant>,
}

/// A playlist that another one refers to, as a value.
pub struct TargetView {
    pub url: Seq<char>,
    pub variant: Option<VariantView>,
}

impl View for Target {
    type V = TargetView;

    open spec fn view(&self) -> TargetView {
        TargetView {
            url: self.url@,
            variant: match self.variant {
                Some(v) => Some(v@),
                None => None,
            },
        }
    }
}

/// The views of targets.
pub open spec fn target_views(v: Seq<Target>) -> Seq<TargetView> {
    Seq::new(v.len(), |i: int| v[i]@)
}

/// The targets that variants are.
pub open spec fn variant_targets(vs: Seq<VariantView>) -> Seq<TargetView> {
    Seq::new(vs.len(), |i: int| TargetView { url: vs[i].uri, variant: Some(vs[i]) })
}

/// The targets that addresses are.
pub open spec fn plain_targets(urls: Seq<Seq<char>>) -> Seq<TargetView> {
    Seq::new(urls.len(), |i: int| TargetView { url: urls[i], variant: None })
}

/// A playlist with the quality that a variant says it has.
pub open spec fn qualified(info: InfoView, variant: Option<VariantView>) -> InfoView {
    match variant {
        None => info,
        Some(v) => InfoView {
            variant: VariantView {
                uri: info.variant.uri,
                bandwidth: if info.variant.bandwidth is Some {
                    info.variant.bandwidth
                } else {
                    v.bandwidth
                },
                resolution: if info.variant.resolution is Some {
                    info.variant.resolution
                } else {
                    v.resolution
                },
                audio_group: v.audio_group,
            },
            ..info
        },
    }
}

/// The variants of playlists.
pub open spec fn info_variants(infos: Seq<InfoView>) -> Seq<VariantView> {
    Seq::new(infos.len(), |i: int| infos[i].variant)
}

/// How long the segments of playlists are.
pub open spec fn info_lengths(infos: Seq<InfoView>) -> Seq<(Seq<Seq<char>>, nat)> {
    Seq::new(infos.len(), |i: int| (infos[i].durations, infos[i].segments.len()))
}

/// What following some playlists has come to.
pub struct WalkView {
    pub need: Option<NeedView>,
    /// The playlists with segments that were found.
    pub infos: Seq<InfoView>,
    /// What the last failure was.
    pub failure: Seq<char>,
    pub used: Used,
}

/// What the first `n` targets have come to, at that depth. It ends where
/// something is needed.
pub open spec fn walked(
    targets: Seq<TargetView>,
    n: nat,
    resolution: Seq<char>,
    depth: int,
    replies: Replies,
    used: Used,
) -> WalkView
    decreases MAX_DEPTH + 1 - depth, 0nat, n,
{
    if n == 0 || n > targets.len() || depth > MAX_DEPTH || depth < 0 {
        WalkView { need: None, infos: Seq::empty(), failure: Seq::empty(), used }
    } else {
        let before = walked(targets, (n - 1) as nat, resolution, depth, replies, used);
        if before.need is Some {
            before
        } else {
            let target = targets[n - 1];
            let (end, used) = resolved(target.url, resolution, depth + 1, replies, before.used);
            match end {
                ResolutionView::Need(need) => WalkView { need: Some(need), used, ..before },
                ResolutionView::Done(info) => WalkView {
                    infos: before.infos.push(qualified(info, target.variant)),
                    used,
                    ..before
                },
                ResolutionView::Failed(e) => WalkView {
                    failure: "variant "@ + target.url + ": "@ + e,
                    used,
                    ..before
                },
            }
        }
    }
}

/// The segments that a text lists.
pub open spec fn media_end(text: Seq<char>, base: Seq<char>) -> ResolutionView {
    match media_playlist(text, base) {
        Ok(st) => ResolutionView::Done(
            InfoView {
                variant: VariantView {
                    uri: base,
                    bandwidth: None,
                    resolution: None,
                    audio_group: None,
                },
                segments: st.segments,
                init: st.init,
                audio: None,
                durations: st.durations,
            },
        ),
        Err(e) => ResolutionView::Failed(e.text()),
    }
}

/// A playlist with its audio, where that can be joined to it.
pub open spec fn joined_audio(info: InfoView, audio: InfoView) -> ResolutionView {
    if audio.segments.len() == 0 || audio.audio is Some {
        ResolutionView::Failed("invalid external HLS audio playlist"@)
    } else {
        ResolutionView::Done(InfoView { audio: Some(Box::new(audio)), ..info })
    }
}

/// How far following a master playlist has got: of the variants that could be
/// followed, the one that is preferred is taken, with its audio.
pub open spec fn master_end(
    text: Seq<char>,
    base: Seq<char>,
    resolution: Seq<char>,
    depth: int,
    replies: Replies,
    used: Used,
) -> (ResolutionView, Used)
    decreases MAX_DEPTH + 1 - depth, 1nat, 0nat,
{
    let vs = master_lines(trimmed_lines(lines(text)), base);
    let w = walked(variant_targets(vs), vs.len(), resolution, depth, replies, used);
    let info = w.infos[choice(info_variants(w.infos), resolution)];
    if depth > MAX_DEPTH || depth < 0 {
        (ResolutionView::Failed("m3u8 recursion limit exceeded"@), used)
    } else if vs.len() == 0 {
        (ResolutionView::Failed("master playlist contains no variants"@), used)
    } else if w.need is Some {
        (ResolutionView::Need(w.need->0), w.used)
    } else if w.infos.len() == 0 {
        (ResolutionView::Failed("no variant playlist could be resolved: "@ + w.failure), w.used)
    } else {
        match info.variant.audio_group {
            None => (ResolutionView::Done(info), w.used),
            Some(group) => match audio_address(text, base, group) {
                Err(e) => (ResolutionView::Failed(e.text()), w.used),
                Ok(None) => (ResolutionView::Done(info), w.used),
                Ok(Some(address)) => {
                    let (end, used) = resolved(address, resolution, depth + 1, replies, w.used);
                    match end {
                        ResolutionView::Done(audio) => (joined_audio(info, audio), used),
                        _ => (end, used),
                    }
                },
            },
        }
    }
}

/// How far following a playlist has got that may list others: of those that
/// could be followed, the longest is taken; without any, its own segments are.
pub open spec fn index_end(
    text: Seq<char>,
    base: Seq<char>,
    resolution: Seq<char>,
    depth: int,
    replies: Replies,
    used: Used,
) -> (ResolutionView, Used)
    decreases MAX_DEPTH + 1 - depth, 1nat, 0nat,
{
    let urls = playlists_on(lines(text), base);
    let w = walked(plain_targets(urls), urls.len(), resolution, depth, replies, used);
    if w.need is Some {
        (ResolutionView::Need(w.need->0), w.used)
    } else if w.infos.len() == 0 {
        (media_end(text, base), w.used)
    } else if w.used.picks < replies.picks@.len() && replies.picks@[w.used.picks as int]
        < w.infos.len() {
        (
            ResolutionView::Done(w.infos[replies.picks@[w.used.picks as int] as int]),
            Used { picks: (w.used.picks + 1) as usize, ..w.used },
        )
    } else {
        (ResolutionView::Need(NeedView::Pick(info_lengths(w.infos))), w.used)
    }
}

/// How far following a playlist has got at that depth, and how many replies are
/// used then.
pub open spec fn resolved(
    url: Seq<char>,
    resolution: Seq<char>,
    depth: int,
    replies: Replies,
    used: Used,
) -> (ResolutionView, Used)
    decreases MAX_DEPTH + 1 - depth, 2nat, 0nat,
{
    if depth > MAX_DEPTH || depth < 0 {
        (ResolutionView::Failed("m3u8 recursion limit exceeded"@), used)
    } else {
        let (end, answers) = fetched(url, replies, used.answers, 1);
        let used = Used { answers, ..used };
        match end {
            FetchView::Need(wait) => (ResolutionView::Need(NeedView::Fetch(url, wait)), used),
            FetchView::Failed(m) => (ResolutionView::Failed(m), used),
            FetchView::Read(address, text) => match url_text(address) {
                Err(e) => (ResolutionView::Failed(e), used),
                Ok(base) => match kind_of(text) {
                    PlaylistKind::Media => (media_end(text, base), used),
                    PlaylistKind::Master => master_end(
                        text,
                        base,
                        resolution,
                        depth,
                        replies,
                        used,
                    ),
                    PlaylistKind::Index => index_end(text, base, resolution, depth, replies, used),
                },
            },
        }
    }
}

/// Once something is needed, nothing more is followed.
proof fn lemma_walk_stops(
    targets: Seq<TargetView>,
    n: nat,
    m: nat,
    resolution: Seq<char>,
    depth: int,
    replies: Replies,
    used: Used,
)
    requires
        n <= m <= targets.len(),
        walked(targets, n, resolution, depth, replies, used).need is Some,
    ensures
        walked(targets, m, resolution, depth, replies, used) == walked(
            targets,
            n,
            resolution,
            depth,
            replies,
            used,
        ),
    decreases m - n,
{
    if n < m {
        lemma_walk_stops(targets, n, (m - 1) as nat, resolution, depth, replies, used);
    }
}

struct Walk {
    need: Option<Need>,
    infos: Vec<M3u8Info>,
    failure: String,
    used: Used,
}

impl View for Walk {
    type V = WalkView;

    closed spec fn view(&self) -> WalkView {
        WalkView {
            need: match self.need {
                Some(n) => Some(n@),
                None => None,
            },
            infos: info_views(self.infos@),
            failure: self.failure@,
            used: self.used,
        }
    }
}

fn walk(targets: &Vec<Target>, resolution: &str, depth: usize, replies: &Replies, used: Used) -> (r:
    Walk)
    requires
        depth <= MAX_DEPTH,
    ensures
        r@ == walked(
            target_views(targets@),
            targets@.len(),
            resolution@,
            depth as int,
            *replies,
            used,
        ),
    decreases MAX_DEPTH + 1 - depth, 0nat,
{
    let ghost ts = target_views(targets@);
    let mut w = Walk { need: None, infos: Vec::new(), failure: String::new(), used };
    let mut i: usize = 0;
    assert(w@ =~= walked(ts, 0, resolution@, depth as int, *replies, used)) by {
        assert(w@.infos =~= Seq::empty());
    }
    while i < targets.len()
        invariant
            depth <= MAX_DEPTH,
            ts == target_views(targets@),
            i <= targets@.len(),
            w.need is None,
            w@ == walked(ts, i as nat, resolution@, depth as int, *replies, used),
        decreases targets@.len() - i,
    {
        let ghost before = w@;
        let target = &targets[i];
        assert(ts[i as int] == target@);
        let (end, now) = follow(target.url.as_str(), resolution, depth + 1, replies, w.used);
        w.used = now;
        match end {
            Resolution::Need(need) => {
                w.need = Some(need);
                proof {
                    assert(w@ == walked(
                        ts,
                        (i + 1) as nat,
                        resolution@,
                        depth as int,
                        *replies,
                        used,
                    ));
                    lemma_walk_stops(
                        ts,
                        (i + 1) as nat,
                        targets@.len(),
                        resolution@,
                        depth as int,
                        *replies,
                        used,
                    );
                }
                return w;
            },
            Resolution::Done(info) => {
                let ghost found = info_view(info);
                let info = match &target.variant {
                    Some(v) => with_quality(info, v),
                    None => info,
                };
                assert(info_view(info) == qualified(found, target@.variant));
                w.infos.push(info);
                assert(w@.infos =~= before.infos.push(qualified(found, target@.variant)));
            },
            Resolution::Failed(e) => {
                let head = join3("variant ", target.url.as_str(), ": ");
                w.failure = join2(head.as_str(), e.as_str());
            },
        }
        i += 1;
    }
    w
}

fn lengths_of(infos: &Vec<M3u8Info>) -> (r: Vec<Lengths>)
    ensures
        length_views(r@) == info_lengths(info_views(infos@)),
{
    let mut r: Vec<Lengths> = Vec::new();
    let mut i: usize = 0;
    while i < infos.len()
        invariant
            i <= infos@.len(),
            r@.len() == i,
            forall|k: int|
                0 <= k < i ==> views((#[trigger] r@[k]).durations@) == views(infos@[k].durations@)
                    && r@[k].segments == infos@[k].segments@.len(),
        decreases infos@.len() - i,
    {
        let durations = &infos[i].durations;
        let mut list: Vec<String> = Vec::new();
        let mut j: usize = 0;
        while j < durations.len()
            invariant
                j <= durations@.len(),
                list@.len() == j,
                forall|k: int| 0 <= k < j ==> (#[trigger] list@[k])@ == durations@[k]@,
            decreases durations@.len() - j,
        {
            list.push(durations[j].as_str().to_owned());
            j += 1;
        }
        assert(views(list@) =~= views(durations@));
        r.push(Lengths { durations: list, segments: infos[i].segments.len() });
        i += 1;
    }
    assert(length_views(r@) =~= info_lengths(info_views(infos@)));
    r
}

fn read_media(text: &str, base: &str) -> (r: Resolution)
    ensures
        r@ == media_end(text@, base@),
{
    match parse_media_m3u8(text, base) {
        Ok(info) => Resolution::Done(info),
        Err(e) => Resolution::Failed(e.message()),
    }
}

fn follow(url: &str, resolution: &str, depth: usize, replies: &Replies, used: Used) -> (r: (
    Resolution,
    Used,
))
    requires
        depth <= MAX_DEPTH + 1,
    ensures
        (r.0@, r.1) == resolved(url@, resolution@, depth as int, *replies, used),
    decreases MAX_DEPTH + 1 - depth, 2nat,
{
    if depth > MAX_DEPTH {
        return (Resolution::Failed("m3u8 recursion limit exceeded".to_owned()), used);
    }
    let (end, answers) = fetch(url, replies, used.answers, 1);
    let used = Used { answers, picks: used.picks };
    let (address, text) = match end {
        Fetch::Need(wait) => {
            return (Resolution::Need(Need::Fetch(url.to_owned(), wait)), used);
        },
        Fetch::Failed(m) => {
            return (Resolution::Failed(m), used);
        },
        Fetch::Read(address, text) => (address, text),
    };
    let base = match parse(address) {
        Err(e) => {
            return (Resolution::Failed(e), used);
        },
        Ok(base) => base,
    };
    match playlist_kind(text) {
        PlaylistKind::Media => (read_media(text, base.as_str()), used),
        PlaylistKind::Master => follow_variants(
            text,
            base.as_str(),
            resolution,
            depth,
            replies,
            used,
        ),
        PlaylistKind::Index => follow_listed(text, base.as_str(), resolution, depth, replies, used),
    }
}

fn follow_variants(
    text: &str,
    base: &str,
    resolution: &str,
    depth: usize,
    replies: &Replies,
    used: Used,
) -> (r: (Resolution, Used))
    requires
        depth <= MAX_DEPTH,
    ensures
        (r.0@, r.1) == master_end(text@, base@, resolution@, depth as int, *replies, used),
    decreases MAX_DEPTH + 1 - depth, 1nat,
{
    let variants = parse_master_variants(text, base);
    let ghost vs = variant_views(variants@);
    if variants.len() == 0 {
        return (Resolution::Failed("master playlist contains no variants".to_owned()), used);
    }
    let targets = targets_of(variants);
    let w = walk(&targets, resolution, depth, replies, used);
    let ghost all = w@.infos;
    assert(targets@.len() == vs.len());
    let used = w.used;
    if let Some(need) = w.need {
        return (Resolution::Need(need), used);
    }
    let mut infos = w.infos;
    if infos.len() == 0 {
        return (
            Resolution::Failed(
                join2("no variant playlist could be resolved: ", w.failure.as_str()),
            ),
            used,
        );
    }
    let at = choose_playlist(&infos, resolution);
    assert(variants_of(infos@) =~= info_variants(all));
    let info = infos.swap_remove(at);
    assert(info_view(info) == all[at as int]);
    match audio_playlist(text, base, &info.variant.audio_group) {
        Err(e) => (Resolution::Failed(e.message()), used),
        Ok(None) => (Resolution::Done(info), used),
        Ok(Some(address)) => {
            let (end, used) = follow(address.as_str(), resolution, depth + 1, replies, used);
            match end {
                Resolution::Done(audio) => {
                    match with_audio(info, audio) {
                        Some(both) => (Resolution::Done(both), used),
                        None => (
                            Resolution::Failed("invalid external HLS audio playlist".to_owned()),
                            used,
                        ),
                    }
                },
                other => (other, used),
            }
        },
    }
}

fn follow_listed(
    text: &str,
    base: &str,
    resolution: &str,
    depth: usize,
    replies: &Replies,
    used: Used,
) -> (r: (Resolution, Used))
    requires
        depth <= MAX_DEPTH,
    ensures
        (r.0@, r.1) == index_end(text@, base@, resolution@, depth as int, *replies, used),
    decreases MAX_DEPTH + 1 - depth, 1nat,
{
    let targets = plain_targets_of(listed_playlists(text, base));
    let w = walk(&targets, resolution, depth, replies, used);
    let ghost all = w@.infos;
    let used = w.used;
    if let Some(need) = w.need {
        return (Resolution::Need(need), used);
    }
    let mut infos = w.infos;
    if infos.len() == 0 {
        return (read_media(text, base), used);
    }
    if used.picks < replies.picks.len() {
        let pick = replies.picks[used.picks];
        if pick < infos.len() {
            let info = infos.swap_remove(pick);
            assert(info_view(info) == all[pick as int]);
            return (
                Resolution::Done(info),
                Used { answers: used.answers, picks: used.picks + 1 },
            );
        }
    }
    (Resolution::Need(Need::Pick(lengths_of(&infos))), used)
}

fn targets_of(variants: Vec<Variant>) -> (r: Vec<Target>)
    ensures
        target_views(r@) == variant_targets(variant_views(variants@)),
{
    let mut r: Vec<Target> = Vec::new();
    let mut i: usize = 0;
    let ghost vs = variant_views(variants@);
    while i < variants.len()
        invariant
            vs == variant_views(variants@),
            i <= variants@.len(),
            r@.len() == i,
            forall|k: int|
                0 <= k < i ==> (#[trigger] r@[k])@ == (TargetView {
                    url: vs[k].uri,
                    variant: Some(vs[k]),
                }),
        decreases variants@.len() - i,
    {
        let v = clone_variant(&variants[i]);
        assert(vs[i as int] == v@);
        r.push(Target { url: v.uri.as_str().to_owned(), variant: Some(v) });
        i += 1;
    }
    assert(target_views(r@) =~= variant_targets(vs));
    r
}

fn plain_targets_of(urls: Vec<String>) -> (r: Vec<Target>)
    ensures
        target_views(r@) == plain_targets(views(urls@)),
{
    let mut r: Vec<Target> = Vec::new();
    let mut i: usize = 0;
    while i < urls.len()
        invariant
            i <= urls@.len(),
            r@.len() == i,
            forall|k: int|
                0 <= k < i ==> (#[trigger] r@[k])@ == (TargetView {
                    url: views(urls@)[k],
                    variant: None,
                }),
        decreases urls@.len() - i,
    {
        r.push(Target { url: urls[i].as_str().to_owned(), variant: None });
        i += 1;
    }
    assert(target_views(r@) =~= plain_targets(views(urls@)));
    r
}

/// Follow a playlist to the segments behind it, with the replies so far: they
/// are found, they cannot be, or something more is needed. The answer to what is
/// needed goes behind the replies so far.
pub fn resolve_playlist(url: &str, resolution: &str, replies: &Replies) -> (r: Resolution)
    ensures
        r@ == resolved(url@, resolution@, 0, *replies, Used { answers: 0, picks: 0 }).0,
{
    let (end, _) = follow(url, resolution, 0, replies, Used { answers: 0, picks: 0 });
    end
}

/// What a variant's own playlist holds is downloaded as it is: what the master
/// playlist says of it only fills in what it does not say itself, and names its audio.
pub proof fn law_variants_keep_their_segments(info: InfoView, v: VariantView)
    ensures
        ({
            let q = qualified(info, Some(v));
            &&& q.segments == info.segments && q.init == info.init && q.durations
                == info.durations && q.audio == info.audio && q.variant.uri == info.variant.uri
            &&& q.variant.audio_group == v.audio_group
            &&& info.variant.resolution is None ==> q.variant.resolution == v.resolution
            &&& info.variant.resolution is Some ==> q.variant.resolution == info.variant.resolution
            &&& info.variant.bandwidth is None ==> q.variant.bandwidth == v.bandwidth
            &&& info.variant.bandwidth is Some ==> q.variant.bandwidth == info.variant.bandwidth
            &&& qualified(info, None) == info
        }),
{
}

/// Playlists that are followed one by one lose nothing: each that can be had is
/// there, in their order, and one that cannot does not keep the others from being
/// had.
pub proof fn law_playlists_are_followed_one_by_one(
    targets: Seq<TargetView>,
    n: nat,
    resolution: Seq<char>,
    depth: int,
    replies: Replies,
    used: Used,
)
    requires
        0 <= depth <= MAX_DEPTH,
        n < targets.len(),
        walked(targets, n, resolution, depth, replies, used).need is None,
    ensures
        ({
            let before = walked(targets, n, resolution, depth, replies, used);
            let after = walked(targets, n + 1, resolution, depth, replies, used);
            let end = resolved(
                targets[n as int].url,
                resolution,
                depth + 1,
                replies,
                before.used,
            ).0;
            &&& walked(targets, 0, resolution, depth, replies, used).infos.len() == 0
            &&& end matches ResolutionView::Done(info) ==> after.need is None && after.infos
                =~= before.infos.push(qualified(info, targets[n as int].variant))
            &&& end is Failed ==> after.need is None && after.infos =~= before.infos
            &&& end matches ResolutionView::Need(x) ==> after.need == Some(x)
        }),
{
}

/// A master playlist yields the segments of one of its variants that could be had:
/// one that is preferred at the resolution that was asked for, or the first with the
/// same address. Where that variant has audio apart, its audio comes with it.
pub proof fn law_masters_yield_the_preferred_variant(
    text: Seq<char>,
    base: Seq<char>,
    resolution: Seq<char>,
    depth: int,
    replies: Replies,
    used: Used,
)
    requires
        0 <= depth <= MAX_DEPTH,
        master_end(text, base, resolution, depth, replies, used).0 is Done,
    ensures
        ({
            let vs = master_lines(trimmed_lines(lines(text)), base);
            let w = walked(variant_targets(vs), vs.len(), resolution, depth, replies, used);
            let got = master_end(text, base, resolution, depth, replies, used).0->Done_0;
            exists|i: int, k: int|
                #![trigger w.infos[i], w.infos[k]]
                0 <= k <= i < w.infos.len() && preferred(info_variants(w.infos), resolution, i)
                    && w.infos[k].variant.uri == w.infos[i].variant.uri && got.variant
                    == w.infos[k].variant && got.segments == w.infos[k].segments && got.init
                    == w.infos[k].init && got.durations == w.infos[k].durations && (
                w.infos[k].variant.audio_group matches Some(group) ==> (audio_address(
                    text,
                    base,
                    group,
                ) matches Ok(Some(_)) ==> got.audio is Some) && (audio_address(text, base, group)
                    matches Ok(None) ==> got.audio == w.infos[k].audio))
        }),
{
    let vs = master_lines(trimmed_lines(lines(text)), base);
    let w = walked(variant_targets(vs), vs.len(), resolution, depth, replies, used);
    let all = info_variants(w.infos);
    law_chosen_playlists_are_preferred(all, resolution);
    let k = choice(all, resolution);
    let i = choose|i: int|
        preferred(all, resolution, i) && 0 <= i < all.len() && (#[trigger] all[i]).uri
            == all[k].uri && k <= i;
    assert(all[i] == w.infos[i].variant);
    assert(all[k] == w.infos[k].variant);
}

/// Whether the audio of a playlist, where it has any apart, can be downloaded:
/// it has segments, and no audio apart itself.
pub open spec fn plain_audio(info: InfoView) -> bool {
    info.audio matches Some(a) ==> a.segments.len() > 0 && a.audio is None
}

/// Audio that is apart from the video it belongs to has segments, and no audio
/// apart from itself, however playlists refer to each other.
pub proof fn law_audio_is_plain(
    url: Seq<char>,
    resolution: Seq<char>,
    depth: int,
    replies: Replies,
    used: Used,
)
    ensures
        resolved(url, resolution, depth, replies, used).0 matches ResolutionView::Done(info)
            ==> plain_audio(info),
    decreases MAX_DEPTH + 1 - depth, 1nat, 0nat,
{
    if 0 <= depth <= MAX_DEPTH {
        let (end, answers) = fetched(url, replies, used.answers, 1);
        let used = Used { answers, ..used };
        if let FetchView::Read(address, text) = end {
            if let Ok(base) = url_text(address) {
                let vs = master_lines(trimmed_lines(lines(text)), base);
                lemma_walk_is_plain(variant_targets(vs), vs.len(), resolution, depth, replies, used);
                let urls = playlists_on(lines(text), base);
                lemma_walk_is_plain(
                    plain_targets(urls),
                    urls.len(),
                    resolution,
                    depth,
                    replies,
                    used,
                );
                let w = walked(variant_targets(vs), vs.len(), resolution, depth, replies, used);
                if w.infos.len() > 0 {
                    lemma_choice(info_variants(w.infos), resolution);
                }
            }
        }
    }
}

proof fn lemma_walk_is_plain(
    targets: Seq<TargetView>,
    n: nat,
    resolution: Seq<char>,
    depth: int,
    replies: Replies,
    used: Used,
)
    ensures
        forall|i: int|
            0 <= i < walked(targets, n, resolution, depth, replies, used).infos.len()
                ==> plain_audio(
                #[trigger] walked(targets, n, resolution, depth, replies, used).infos[i],
            ),
    decreases MAX_DEPTH + 1 - depth, 0nat, n,
{
    if !(n == 0 || n > targets.len() || depth > MAX_DEPTH || depth < 0) {
        lemma_walk_is_plain(targets, (n - 1) as nat, resolution, depth, replies, used);
        let before = walked(targets, (n - 1) as nat, resolution, depth, replies, used);
        law_audio_is_plain(targets[n - 1].url, resolution, depth + 1, replies, before.used);
    }
}

} // verus!
