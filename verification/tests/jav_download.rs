use aes::cipher::block_padding::{NoPadding, Pkcs7};
use aes::cipher::{BlockModeEncrypt, KeyIvInit};
use media_downloader::configuration::jav::Config;
use media_downloader::jav::app::{TaskInfo, TaskState};
use media_downloader::jav::downloader::hls::{prepare_track, Hls, HlsAction, HlsEvent};
use media_downloader::jav::downloader::merge::{
    after_failure, assemble_track, check_stream, concat_args, concat_listing, copies_audio,
    list_files, merge_args, merge_segments, remux_args, segment_name, validate_output, Length,
    Merge, MergeAction, MergeEvent, MergeStep, Merged, StreamInfo,
};
use media_downloader::jav::downloader::segment::{SegmentError, SegmentWriter};
use media_downloader::jav::downloader::{
    check_key, decrypt, downloading, finish_completed, finish_failed, finish_stopped, merging,
    progressed, segment_key, skipped, started, stop_of, track_keys, BodyError, Outcome, Run, RunAction,
    RunEvent, SegmentBody,
};
use media_downloader::jav::downloader::segments::{
    RoundStep, SegmentJob, TrackAction, TrackEvent, TrackRun,
};
use media_downloader::jav::source::scraper::VideoCard;
use media_downloader::jav::source::stream::m3u8::{parse_media_m3u8, M3u8Info};
use media_downloader::jav::util::{
    cloudflare_hint, iv_for_segment, parse_hex, sanitize_filename, strip_fake_header, SpeedTracker,
};
use media_downloader::table::Table;
use media_downloader::video_resolution::{rejected, rejection};

type Enc = cbc::Encryptor<aes::Aes128>;

const MILLISECOND: u64 = 1_000_000;

fn encrypt_blocks(key: &[u8], iv: &[u8], plaintext: &[u8]) -> Vec<u8> {
    let mut buf = plaintext.to_vec();
    let len = buf.len();
    let enc = Enc::new_from_slices(key, iv).unwrap();
    enc.encrypt_padded::<NoPadding>(&mut buf, len).unwrap().to_vec()
}

fn encrypt_padded(key: &[u8], iv: &[u8], plaintext: &[u8]) -> Vec<u8> {
    let mut buf = plaintext.to_vec();
    let len = buf.len();
    buf.resize(len + 16, 0);
    let enc = Enc::new_from_slices(key, iv).unwrap();
    enc.encrypt_padded::<Pkcs7>(&mut buf, len).unwrap().to_vec()
}

fn decrypt_in_chunks(
    data: Vec<u8>,
    key: &[u8],
    iv: &[u8; 16],
    size: usize,
) -> Result<Vec<u8>, SegmentError> {
    let mut writer = SegmentWriter::new(Some((key, iv)))?;
    let mut out = Vec::new();
    for chunk in data.chunks(size) {
        out.extend(writer.push(chunk));
    }
    out.extend(writer.finish()?);
    Ok(out)
}

#[test]
fn mod_decrypts_aes_cbc_round_trip() {
    let key = [7u8; 16];
    let iv = iv_for_segment(0, &None);
    let plaintext = vec![0x47u8; 32];
    let ciphertext = encrypt_blocks(&key, &iv, &plaintext);
    let out = decrypt(&ciphertext, &key, &None, 0).unwrap();
    assert_eq!(out, plaintext);
}

#[test]
fn mod_decrypt_uses_segment_index_as_iv() {
    let key = [3u8; 16];
    let plaintext = vec![9u8; 16];
    let ciphertext = encrypt_blocks(&key, &iv_for_segment(5, &None), &plaintext);
    assert_eq!(decrypt(&ciphertext, &key, &None, 5).unwrap(), plaintext);
    // Wrong index → wrong IV → garbage, never the plaintext.
    assert_ne!(decrypt(&ciphertext, &key, &None, 6).unwrap(), plaintext);
}

#[test]
fn decrypt_drops_a_trailing_partial_block() {
    let key = [1u8; 16];
    let mut ciphertext = encrypt_blocks(&key, &iv_for_segment(0, &None), &[5u8; 16]);
    ciphertext.extend_from_slice(&[0xde, 0xad]); // truncated tail
    let out = decrypt(&ciphertext, &key, &None, 0).unwrap();
    assert_eq!(out.len(), 16);
}

#[test]
fn mod_rejects_wrong_key_length() {
    assert!(decrypt(&[0u8; 16], &[0u8; 8], &None, 0).is_err());
}

#[test]
fn decrypts_aes_cbc_round_trip() {
    let key = [7u8; 16];
    let iv = iv_for_segment(0, &None);
    let plaintext = vec![0x47u8; 32];
    let ciphertext = encrypt_padded(&key, &iv, &plaintext);
    let out = decrypt_in_chunks(ciphertext, &key, &iv_for_segment(0, &None), 17).unwrap();
    assert_eq!(out, plaintext);
}

#[test]
fn decrypt_uses_segment_index_as_iv() {
    let key = [3u8; 16];
    let plaintext = vec![9u8; 16];
    let ciphertext = encrypt_padded(&key, &iv_for_segment(5, &None), &plaintext);
    assert_eq!(
        decrypt_in_chunks(ciphertext.clone(), &key, &iv_for_segment(5, &None), 17).unwrap(),
        plaintext
    );
    // Wrong index → wrong IV → garbage, never the plaintext.
    assert_ne!(
        decrypt_in_chunks(ciphertext.clone(), &key, &iv_for_segment(6, &None), 17).unwrap(),
        plaintext
    );
}

#[test]
fn decrypt_rejects_a_trailing_partial_block() {
    let key = [1u8; 16];
    let mut ciphertext = encrypt_padded(&key, &iv_for_segment(0, &None), &[5u8; 16]);
    ciphertext.extend_from_slice(&[0xde, 0xad]); // truncated tail
    assert!(decrypt_in_chunks(ciphertext, &key, &iv_for_segment(0, &None), 17).is_err());
}

#[test]
fn rejects_wrong_key_length() {
    assert!(decrypt_in_chunks(vec![0u8; 16], &[0u8; 8], &iv_for_segment(0, &None), 17).is_err());
}

#[test]
fn chunks_make_no_difference() {
    let key = [9u8; 16];
    let iv = iv_for_segment(3, &None);
    let plaintext: Vec<u8> = (0..40_000u32).map(|i| (i * 7 % 251) as u8).collect();
    let ciphertext = encrypt_padded(&key, &iv, &plaintext);
    for size in [1, 15, 16, 17, 4096, 50_000] {
        assert_eq!(
            decrypt_in_chunks(ciphertext.clone(), &key, &iv, size).unwrap(),
            plaintext
        );
    }
    let mut plain = SegmentWriter::new(None).ok().unwrap();
    let mut out = plain.push(&plaintext);
    out.extend(plain.finish().unwrap());
    assert_eq!(out, plaintext);
}

#[test]
fn segments_that_cannot_be_used_say_why() {
    let key = [1u8; 16];
    let iv = iv_for_segment(0, &None);
    assert_eq!(
        decrypt_in_chunks(vec![0; 16], &[0; 8], &iv, 16),
        Err(SegmentError::KeyLength(8))
    );
    assert_eq!(
        decrypt_in_chunks(vec![0; 17], &key, &iv, 16),
        Err(SegmentError::Truncated)
    );
    let unpadded = encrypt_blocks(&key, &iv, &[0u8; 16]);
    assert_eq!(decrypt_in_chunks(unpadded, &key, &iv, 16), Err(SegmentError::Padding));
    assert_eq!(
        SegmentWriter::new(None).ok().unwrap().finish(),
        Err(SegmentError::Empty)
    );
}

#[test]
fn sanitize_replaces_reserved_characters() {
    assert_eq!(
        sanitize_filename("a/b:c*d?e\"f<g>h|i\\j"),
        "a_b_c_d_e_f_g_h_i_j"
    );
    assert_eq!(sanitize_filename("  ..name..  "), "name");
}

#[test]
fn sanitize_truncates_on_char_boundary() {
    let long = "あ".repeat(200);
    let out = sanitize_filename(&long);
    assert!(out.len() <= 180);
    assert!(out.chars().all(|c| c == 'あ'));
}

#[test]
fn hex_parsing() {
    assert_eq!(parse_hex("0x00ff"), Some(vec![0, 255]));
    assert_eq!(parse_hex("abc"), None);
    assert_eq!(parse_hex("+f"), Some(vec![15]));
    assert_eq!(parse_hex("0x+f10+a"), Some(vec![15, 16, 10]));
    assert_eq!(parse_hex("++"), None);
    assert_eq!(parse_hex("-f"), None);
}

#[test]
fn iv_defaults_to_segment_index() {
    let iv = iv_for_segment(2, &None);
    assert_eq!(iv[15], 2);
    assert_eq!(iv_for_segment(0, &Some(vec![0x2a]))[15], 0x2a);
}

#[test]
fn strips_leading_fake_header() {
    let mut data = vec![0x89, b'P', b'N', b'G', 0x0d, 0x0a, 0x1a, 0x0a];
    data.extend(std::iter::repeat_n(0x00, 40));
    let start = data.len();
    for _ in 0..5 {
        let mut packet = vec![0x47];
        packet.extend(std::iter::repeat_n(0x11, 187));
        data.extend(packet);
    }
    let stripped = strip_fake_header(&data);
    assert_eq!(stripped.len(), data.len() - start);
    assert_eq!(stripped[0], 0x47);
    assert_eq!(strip_fake_header(stripped), stripped, "nothing more is stripped");
}

#[test]
fn keeps_data_that_already_starts_with_sync_byte() {
    let data = vec![0x47; 188 * 5];
    assert_eq!(strip_fake_header(&data).len(), data.len());
}

/// The speed in KiB per second, 0 where there is none to tell.
fn speed(tracker: &SpeedTracker) -> f64 {
    match tracker.rate() {
        Some((bytes, nanos)) => bytes as f64 / 1024.0 / (nanos as f64 / 1e9),
        None => 0.0,
    }
}

#[test]
fn speed_tracker_averages_over_window() {
    let mut st = SpeedTracker::new(3000 * MILLISECOND);
    let t0 = 10_000 * MILLISECOND;
    let mut rate = 0.0;
    for i in 1..=4u64 {
        st.add_sample(t0 + i * 250 * MILLISECOND, i * 256 * 1024);
        rate = speed(&st);
    }
    assert!((rate - 1024.0).abs() < 1.0, "got {rate}");
}

#[test]
fn util_speed_tracker_averages_over_window() {
    let mut st = SpeedTracker::new(3000 * MILLISECOND);
    let t0 = 77_000 * MILLISECOND;
    let mut rate = 0.0;
    for i in 1..=4u64 {
        st.add_sample(t0 + i * 250 * MILLISECOND, i * 256 * 1024);
        rate = speed(&st);
    }
    assert!((rate - 1024.0).abs() < 1.0, "got {rate}");
}

#[test]
fn speed_tracker_drops_old_samples() {
    let mut st = SpeedTracker::new(3000 * MILLISECOND);
    let t0 = 10_000 * MILLISECOND;
    st.add_sample(t0, 0);
    st.add_sample(t0 + 1000 * MILLISECOND, 1024 * 1024);
    st.add_sample(t0 + 4000 * MILLISECOND, 1024 * 1024);
    assert_eq!(speed(&st), 0.0);
    st.add_sample(t0 + 5000 * MILLISECOND, 2 * 1024 * 1024);
    assert!((speed(&st) - 1024.0).abs() < 1.0);
}

#[test]
fn challenges_are_explained() {
    assert_eq!(cloudflare_hint("connection reset"), "connection reset");
    assert!(cloudflare_hint("HTTP 403").len() > "HTTP 403".len());
}

fn playlist(text: &str) -> M3u8Info {
    parse_media_m3u8(text, "https://example.com/media.m3u8").unwrap()
}

const FMP4: &str = "#EXTM3U\n#EXT-X-MAP:URI=\"init.mp4\"\n#EXTINF:1,\n0.ts\n#EXTINF:1,\n1.ts\n#EXTINF:1,\n2.ts";

#[test]
fn tracks_are_assembled_from_their_segments_in_order() {
    assert_eq!(
        assemble_track(&playlist(FMP4)).unwrap(),
        ["init.mp4", "0.ts", "1.ts", "2.ts"]
    );
    assert_eq!(
        assemble_track(&playlist("#EXTM3U\n#EXTINF:1,\n0.ts")).unwrap(),
        ["0.ts"]
    );
    assert!(assemble_track(&playlist("#EXTM3U\n")).is_none());
    assert_eq!(segment_name(12), "12.ts");
    assert_eq!(concat_listing(2).lines().count(), 2);
}

fn stream(kind: &str, codec: &str, frames: &str) -> StreamInfo {
    StreamInfo {
        codec_type: kind.into(),
        codec_name: Some(codec.into()),
        profile: Some("LC".into()),
        nb_frames: Some(frames.into()),
    }
}

#[test]
fn outputs_without_pictures_or_sound_are_refused() {
    let video = || stream("video", "h264", "10");
    let audio = || stream("audio", "aac", "10");
    let check = |streams: Vec<StreamInfo>| validate_output(&streams, &None);
    let refused = |message: &str| Err::<(), String>(message.into());
    assert_eq!(check(vec![video(), audio()]), Ok(()));
    assert_eq!(
        check(vec![audio()]),
        refused("no video stream found; refusing to mark the download complete")
    );
    assert_eq!(
        check(vec![video()]),
        refused("no audio stream found; refusing to mark the download complete")
    );
    assert_eq!(
        check(vec![stream("video", "h264", "0"), audio()]),
        refused("merged video stream is empty")
    );
    assert_eq!(
        check(vec![video(), stream("audio", "aac", "0")]),
        refused("merged audio stream is empty")
    );
    assert_eq!(check_stream(&vec![audio()], "audio", None), Ok(()));
    assert_eq!(copies_audio(&vec![video(), audio()]), Some(true));
    assert_eq!(copies_audio(&vec![video(), stream("audio", "ac3", "10")]), Some(false));
}

#[test]
fn the_video_is_checked_before_the_audio() {
    let video = || stream("video", "h264", "10");
    let audio = || stream("audio", "aac", "10");
    let short = || Length::TooShort { actual: "3.0".into(), expected: "60.0".into() };
    let check = |streams: Vec<StreamInfo>, video: Length, audio: Length| {
        validate_output(&streams, &Some((video, audio)))
    };
    assert_eq!(
        check(vec![video()], short(), Length::Unknown),
        Err("merged video is too short (3.0s, expected 60.0s)".into())
    );
    assert_eq!(
        check(vec![video(), stream("audio", "aac", "0")], Length::Unknown, short()),
        Err("merged video stream has no duration".into())
    );
    assert_eq!(
        check(vec![stream("video", "h264", "0"), audio()], short(), short()),
        Err("merged video stream is empty".into())
    );
    assert_eq!(
        check(vec![video(), audio()], Length::Enough, short()),
        Err("merged audio is too short (3.0s, expected 60.0s)".into())
    );
    assert_eq!(
        check(vec![video(), audio()], Length::Enough, Length::Unknown),
        Err("merged audio stream has no duration".into())
    );
    assert_eq!(check(vec![video(), audio()], Length::Enough, Length::Enough), Ok(()));
}

#[test]
fn merges_are_repaired_once() {
    let plain = merge_args("v", &None, true, false, "out.mp4");
    let with_audio = merge_args("v", &Some("a".into()), true, false, "out.mp4");
    assert!(with_audio.len() > plain.len());
    assert!(plain.iter().any(|a| a == "out.mp4"));
    let disorder = "Non-monotonous DTS in output stream 0:1; previous: 2, current: 1";
    assert_eq!(after_failure(false, disorder), MergeStep::Repair);
    assert!(matches!(after_failure(true, disorder), MergeStep::Fail(_)));
    assert_eq!(
        after_failure(false, "Non-monotonous DTS in output stream 0:0; "),
        MergeStep::Fail(
            "ffmpeg merge failed: Non-monotonous DTS in output stream 0:0;".into()
        )
    );
}

#[test]
fn merges_publish_only_what_was_checked() {
    let streams = || vec![stream("video", "h264", "10"), stream("audio", "aac", "10")];
    let disorder = "Non-monotonous DTS in output stream 0:1; previous: 2, current: 1";
    let (mut merge, action) = Merge::start(&playlist(FMP4));
    assert_eq!(action, MergeAction::AssembleVideo);
    assert_eq!(merge.step(MergeEvent::Assembled, true), MergeAction::Probe);
    assert_eq!(merge.step(MergeEvent::Probed(streams()), true), MergeAction::Stage);
    assert_eq!(
        merge.step(MergeEvent::Staged(true), true),
        MergeAction::Encode(true, false)
    );
    assert_eq!(
        merge.step(MergeEvent::EncoderFailed(disorder.into()), true),
        MergeAction::Encode(true, true)
    );
    assert_eq!(merge.step(MergeEvent::Encoded, true), MergeAction::Check);
    assert_eq!(merge.step(MergeEvent::Checked, true), MergeAction::Copy);
    assert_eq!(merge.step(MergeEvent::Copied, true), MergeAction::Commit);
    assert_eq!(merge.step(MergeEvent::Committed(true), true), MergeAction::Publish);

    let mut info = playlist(FMP4);
    info.audio = Some(Box::new(playlist("#EXTM3U\n#EXTINF:1,\n0.ts")));
    let (mut merge, _) = Merge::start(&info);
    assert_eq!(merge.step(MergeEvent::Assembled, true), MergeAction::AssembleAudio);
    assert_eq!(merge.step(MergeEvent::Assembled, true), MergeAction::Probe);
    assert_eq!(
        merge.step(MergeEvent::Probed(vec![stream("video", "h264", "1")]), true),
        MergeAction::Fail("no audio stream found; refusing to produce a silent video".into())
    );
    assert_eq!(merge.step(MergeEvent::Encoded, true), MergeAction::Idle);

    let (mut merge, _) = Merge::start(&playlist(FMP4));
    merge.step(MergeEvent::Assembled, true);
    assert_eq!(
        merge.step(MergeEvent::Probed(streams()), false),
        MergeAction::Fail("merge interrupted".into())
    );
    let (mut merge, _) = Merge::start(&playlist(FMP4));
    assert_eq!(
        merge.step(MergeEvent::Failed("missing media segment 0.ts".into()), true),
        MergeAction::Fail("missing media segment 0.ts".into())
    );
}

#[test]
fn segments_are_merged_without_being_decoded() {
    let made = |path: &str, files: &[&str]| {
        Ok::<Merged, &'static str>(Merged {
            path: path.into(),
            files: files.iter().map(|f| f.to_string()).collect(),
        })
    };
    assert_eq!(
        merge_segments("/o/x.mp4", 2, true, true, false),
        made("/o/x.mp4", &["init.mp4", "0.ts", "1.ts"])
    );
    assert_eq!(
        merge_segments("/o/x.mp4", 1, false, false, true),
        made("/o/x.mp4", &["0.ts"])
    );
    assert_eq!(
        merge_segments("/o/x.mp4", 2, false, false, false),
        made("/o/x.ts", &["0.ts", "1.ts"])
    );
    assert_eq!(
        merge_segments("/o/x.mkv", 1, false, false, false),
        made("/o/x.ts", &["0.ts"])
    );
    assert_eq!(
        merge_segments("/o/x.mp4", 1, true, false, false),
        Err("fMP4 init segment is missing")
    );
    let files = list_files(false, 11);
    assert_eq!(files.len(), 11);
    assert_eq!(files[9], "9.ts");
    assert_eq!(files[10], "10.ts");
    assert_eq!(concat_args("list", "out").last().unwrap(), "out");
    assert_eq!(remux_args("in", "out")[4], "in");
}

#[test]
fn keys_are_fetched_once_and_checked() {
    let text = "#EXTM3U\n#EXT-X-KEY:METHOD=AES-128,URI=\"k1\"\n#EXTINF:1,\n0.ts\n#EXTINF:1,\n1.ts\n#EXT-X-KEY:METHOD=AES-128,URI=\"k2\"\n#EXTINF:1,\n2.ts";
    let info = playlist(text);
    assert_eq!(
        track_keys(&info),
        ["https://example.com/k1", "https://example.com/k2"]
    );
    assert!(check_key("u", &[0; 16]).is_ok());
    assert!(check_key("u", &[0; 15]).is_err());
    let mut keys: Table<Vec<u8>> = Table::new();
    assert!(segment_key(&info.segments[0], &keys).is_err());
    keys.insert("https://example.com/k1", vec![7; 16]);
    let (key, iv) = segment_key(&info.segments[1], &keys).unwrap().unwrap();
    assert_eq!(key, [7; 16]);
    assert_eq!(iv, iv_for_segment(1, &None));
    assert!(segment_key(&playlist("#EXTM3U\n#EXTINF:1,\n0.ts").segments[0], &keys)
        .unwrap()
        .is_none());
}

#[test]
fn bodies_are_checked_as_they_arrive() {
    let mut body = SegmentBody::new();
    assert!(body.push("u", &[0x47; 8]).is_ok());
    assert!(body.push("u", &[1; 2]).is_ok());
    assert!(body.finish("u", None).is_ok());
    assert!(body.finish("u", Some((0, 10))).is_ok());
    assert!(matches!(body.finish("u", Some((0, 11))), Err(BodyError::Incomplete(_))));
    let mut page = SegmentBody::new();
    assert!(page.push("u", b"<!DOCTYPE html><html>").is_err());
    assert!(matches!(SegmentBody::new().finish("u", None), Err(BodyError::Rejected(_))));
}

const RUNNING: TaskState = TaskState::Running;

fn lost(index: usize, message: &str, rejected: bool) -> TrackEvent {
    TrackEvent::Failed(index, message.into(), rejected)
}

#[test]
fn download_segments_reuses_sparse_cache_and_merges_out_of_order_completions() {
    let mut run = TrackRun::new(4, 2, 1);
    assert_eq!(run.step(TrackEvent::Begun, RUNNING), TrackAction::Fetch(0));
    assert_eq!(run.step(TrackEvent::Dispatched, RUNNING), TrackAction::Fetch(1));
    assert_eq!(run.step(TrackEvent::Dispatched, RUNNING), TrackAction::Wait);
    assert_eq!(run.step(TrackEvent::Fetched(1), RUNNING), TrackAction::Fetch(2));
    assert_eq!(run.step(TrackEvent::Dispatched, RUNNING), TrackAction::Wait);
    assert_eq!(run.step(TrackEvent::Fetched(2), RUNNING), TrackAction::Fetch(3));
    assert_eq!(run.step(TrackEvent::Dispatched, RUNNING), TrackAction::Wait);
    assert_eq!(run.step(TrackEvent::Fetched(3), RUNNING), TrackAction::Wait);
    assert_eq!(run.done, 4);
    assert_eq!(
        run.step(TrackEvent::Fetched(0), RUNNING),
        TrackAction::End(Ok(Outcome::Done))
    );
    assert_eq!(run.done, 5);
}

#[test]
fn download_segments_retries_transient_failures_concurrently() {
    let mut run = TrackRun::new(2, 2, 0);
    assert_eq!(run.step(TrackEvent::Begun, RUNNING), TrackAction::Fetch(0));
    assert_eq!(run.step(TrackEvent::Dispatched, RUNNING), TrackAction::Fetch(1));
    assert_eq!(run.step(TrackEvent::Dispatched, RUNNING), TrackAction::Wait);
    assert_eq!(run.step(lost(1, "HTTP 503", false), RUNNING), TrackAction::Wait);
    assert_eq!(run.step(lost(0, "HTTP 503", false), RUNNING), TrackAction::Pause(300));
    // Both retries are in flight together.
    assert_eq!(run.step(TrackEvent::Waited, RUNNING), TrackAction::Fetch(0));
    assert_eq!(run.step(TrackEvent::Dispatched, RUNNING), TrackAction::Fetch(1));
    assert_eq!(run.step(TrackEvent::Dispatched, RUNNING), TrackAction::Wait);
    assert_eq!(run.step(TrackEvent::Fetched(0), RUNNING), TrackAction::Wait);
    assert_eq!(
        run.step(TrackEvent::Fetched(1), RUNNING),
        TrackAction::End(Ok(Outcome::Done))
    );
}

#[test]
fn download_segments_exhausts_three_retries_without_publishing_partial_segment() {
    let mut run = TrackRun::new(1, 1, 0);
    let mut action = run.step(TrackEvent::Begun, RUNNING);
    for pause in [300, 600, 900] {
        assert_eq!(action, TrackAction::Fetch(0));
        assert_eq!(run.step(TrackEvent::Dispatched, RUNNING), TrackAction::Wait);
        assert_eq!(run.step(lost(0, "HTTP 503", false), RUNNING), TrackAction::Pause(pause));
        action = run.step(TrackEvent::Waited, RUNNING);
    }
    assert_eq!(action, TrackAction::Fetch(0));
    assert_eq!(run.step(TrackEvent::Dispatched, RUNNING), TrackAction::Wait);
    assert_eq!(
        run.step(lost(0, "HTTP 503", false), RUNNING),
        TrackAction::End(Err("1 segment(s) failed after 3 retries: HTTP 503".into()))
    );
    assert_eq!(run.done, 0);
}

#[test]
fn download_segments_media_rejection_skips_retries_and_retains_cached_segments() {
    let mut run = TrackRun::new(3, 1, 0);
    assert_eq!(run.step(TrackEvent::Begun, RUNNING), TrackAction::Fetch(0));
    run.step(TrackEvent::Dispatched, RUNNING);
    assert_eq!(run.step(TrackEvent::Fetched(0), RUNNING), TrackAction::Fetch(1));
    run.step(TrackEvent::Dispatched, RUNNING);
    assert_eq!(
        run.step(lost(1, "HTML instead of media", true), RUNNING),
        TrackAction::End(Err("HTML instead of media".into()))
    );
    assert_eq!(run.done, 1);
}

#[test]
fn download_segments_pause_and_cancel_keep_completed_cache_during_pending_request() {
    for (stop, outcome) in [
        (TaskState::Paused, Outcome::Paused),
        (TaskState::Cancelled, Outcome::Cancelled),
    ] {
        let mut run = TrackRun::new(3, 1, 0);
        run.step(TrackEvent::Begun, RUNNING);
        run.step(TrackEvent::Dispatched, RUNNING);
        assert_eq!(run.step(TrackEvent::Fetched(0), RUNNING), TrackAction::Fetch(1));
        assert_eq!(run.step(TrackEvent::Dispatched, RUNNING), TrackAction::Wait);
        // The failures of a stopped task are not retried once the pause is over.
        assert_eq!(
            run.step(lost(1, "download paused or cancelled", false), stop),
            TrackAction::Pause(300)
        );
        assert_eq!(run.step(TrackEvent::Waited, stop), TrackAction::End(Ok(outcome)));
        assert_eq!(run.done, 1);
        assert_eq!(stop_of(stop), Some(outcome));
    }
    assert_eq!(stop_of(TaskState::Running), None);
}

#[test]
fn crashed_workers_leave_no_error_of_their_own() {
    let mut job = SegmentJob::new(1, 1);
    job.dispatch();
    job.failed(0, "HTTP 503", false);
    assert_eq!(job.after_round(), RoundStep::Retry(300));
    job.start_round();
    job.dispatch();
    job.crashed(0);
    assert_eq!(job.last_error, "HTTP 503");
    assert_eq!(job.after_round(), RoundStep::Retry(600));
    let mut run = TrackRun::new(1, 40, 0);
    assert_eq!(run.job.concurrency, 32);
    run.step(TrackEvent::Begun, RUNNING);
    run.step(TrackEvent::Dispatched, RUNNING);
    assert_eq!(run.step(TrackEvent::Crashed(0), RUNNING), TrackAction::Pause(300));
    assert_eq!(run.step(TrackEvent::Waited, TaskState::Failed),
        TrackAction::End(Err("1 segment(s) failed after 3 retries: ".into())));
}

#[test]
fn segments_that_may_not_be_fetched_fail_at_once() {
    let mut job = SegmentJob::new(3, 1);
    assert_eq!(job.dispatch(), Some(0));
    job.refuse();
    assert_eq!(job.last_error, "paused, cancelled or media rejected");
    job.failed(0, "HTTP 503", false);
    assert_eq!(
        job.conclude(TaskState::Running),
        Err("3 segment(s) failed after 3 retries: HTTP 503".into())
    );
}

#[test]
fn cached_segments_are_kept_while_their_track_is_the_same() {
    let info = playlist(FMP4);
    assert_eq!(prepare_track(&info, &Some(b"same".to_vec()), b"same"), Ok(true));
    assert_eq!(prepare_track(&info, &Some(b"other".to_vec()), b"same"), Ok(false));
    assert_eq!(prepare_track(&info, &Some(b"sane".to_vec()), b"same"), Ok(false));
    assert_eq!(prepare_track(&info, &None, b"same"), Ok(false));
    assert_eq!(
        prepare_track(&playlist("#EXTM3U\n"), &None, b"same"),
        Err("playlist contained no segments")
    );
}

#[test]
fn streams_are_merged_when_every_track_is_complete() {
    let mut info = playlist(FMP4);
    info.audio = Some(Box::new(playlist("#EXTM3U\n#EXTINF:1,\n0.ts")));
    let (mut hls, action) = Hls::start(&info);
    assert_eq!(action, HlsAction::Check);
    for track in 0..2 {
        let running = HlsEvent::State(TaskState::Running);
        assert_eq!(hls.step(running), HlsAction::Prepare(track));
        let prepared = HlsEvent::Prepared(Ok(()), TaskState::Running);
        assert_eq!(hls.step(prepared), HlsAction::Fetch(track));
        let next = hls.step(HlsEvent::Fetched(Ok(Outcome::Done)));
        assert_eq!(next, if track == 0 { HlsAction::Check } else { HlsAction::Merge });
    }
    assert_eq!(
        hls.step(HlsEvent::Merged(Ok("/out/x.mp4".into()), TaskState::Running)),
        HlsAction::Produced("/out/x.mp4".into())
    );
    let (mut hls, _) = Hls::start(&playlist(FMP4));
    hls.step(HlsEvent::State(TaskState::Running));
    assert_eq!(
        hls.step(HlsEvent::Prepared(Err("reset".into()), TaskState::Paused)),
        HlsAction::End(Outcome::Paused),
        "a stop wins over an error that it may have caused"
    );
    let (mut hls, _) = Hls::start(&playlist(FMP4));
    assert_eq!(
        hls.step(HlsEvent::State(TaskState::Cancelled)),
        HlsAction::End(Outcome::Cancelled)
    );
}

fn card() -> VideoCard {
    VideoCard {
        id: "abp-123".into(),
        url: "https://missav.ai/cn/abp-123".into(),
        title: "Known title".into(),
        image_url: String::new(),
        duration_secs: None,
        rank: Some(2),
    }
}

fn cfg() -> Config {
    Config { save_path: "/out".into(), temp_path: "/tmp/p".into(), ..Config::default() }
}

#[test]
fn a_run_resolves_fetches_and_completes() {
    let (mut run, action) = Run::start(&cfg(), &card());
    assert!(matches!(action, RunAction::CheckOutput(ref p) if p == "/out/abp-123 - Known title.mp4"));
    assert_eq!(run.step(&cfg(), &card(), RunEvent::Output(None)), RunAction::Resolve);
    assert_eq!(
        run.step(&cfg(), &card(), RunEvent::Resolved("Page title".into(), 480, Some((1280, 720)))),
        RunAction::CreateDirectory
    );
    let action = run.step(&cfg(), &card(), RunEvent::DirectoryReady);
    assert!(matches!(action, RunAction::CheckOutput(ref p) if p == "/out/abp-123 - Page title.mp4"));
    let action = run.step(&cfg(), &card(), RunEvent::Output(None));
    assert!(matches!(action, RunAction::AdoptSegments(_, _)), "{action:?}");
    let action = run.step(&cfg(), &card(), RunEvent::Adopted);
    assert!(matches!(action, RunAction::Fetch(_)), "{action:?}");
    let produced = "/out/abp-123 - Page title.mp4";
    assert_eq!(
        run.step(&cfg(), &card(), RunEvent::Produced(produced.into(), 9)),
        RunAction::Complete("Page title".into(), produced.into(), 9)
    );
}

#[test]
fn runs_fail_stop_or_find_their_output() {
    let (mut run, _) = Run::start(&cfg(), &card());
    let path = "/out/abp-123 - Known title.mp4";
    assert_eq!(
        run.step(&cfg(), &card(), RunEvent::Output(Some((path.into(), 4)))),
        RunAction::Complete("Known title".into(), path.into(), 4)
    );
    let (mut run, _) = Run::start(&cfg(), &card());
    run.step(&cfg(), &card(), RunEvent::Output(None));
    assert!(matches!(
        run.step(&cfg(), &card(), RunEvent::Failed("no source".into())),
        RunAction::Fail(m) if m.contains("no source")
    ));
    let (mut run, _) = Run::start(&cfg(), &card());
    run.step(&cfg(), &card(), RunEvent::Output(None));
    run.step(&cfg(), &card(), RunEvent::Resolved(String::new(), 0, None));
    run.step(&cfg(), &card(), RunEvent::DirectoryReady);
    run.step(&cfg(), &card(), RunEvent::Output(None));
    run.step(&cfg(), &card(), RunEvent::Adopted);
    assert_eq!(run.title, "Known title");
    assert_eq!(run.step(&cfg(), &card(), RunEvent::Interrupted), RunAction::Stop);
}

#[test]
fn videos_that_are_too_small_are_skipped() {
    assert!(rejected(720, Some((1280, 719))));
    assert!(rejected(720, Some((719, 1280))));
    assert!(!rejected(720, Some((1280, 720))));
    assert!(!rejected(0, Some((1, 1))), "zero disables the filter");
    assert!(!rejected(720, None));
    let reason = "video resolution 640x360 is below the minimum of 480 pixels";
    assert_eq!(rejection(480, Some((640, 360))).as_deref(), Some(reason));
    assert_eq!(rejection(360, Some((640, 360))), None);
    let (mut run, _) = Run::start(&cfg(), &card());
    run.step(&cfg(), &card(), RunEvent::Output(None));
    assert_eq!(
        run.step(&cfg(), &card(), RunEvent::Resolved("Page title".into(), 480, Some((640, 360)))),
        RunAction::Skip(reason.into())
    );
    assert_eq!(run.step(&cfg(), &card(), RunEvent::DirectoryReady), RunAction::Idle);
    let running = started(&TaskInfo::new("abp-123", "u", 1), &card()).unwrap();
    let task = skipped(&running, reason);
    assert_eq!((task.state, task.phase.as_str()), (TaskState::Skipped, "filtered"));
    assert_eq!(task.message, reason);
    assert!(task.is_terminal());
}

#[test]
fn tasks_follow_their_download() {
    let queued = TaskInfo::new("abp-123", "u", 1);
    let running = started(&queued, &card()).unwrap();
    assert_eq!(running.state, TaskState::Running);
    let info = playlist(FMP4);
    let fetching = downloading(&running, &info);
    let half = progressed(&fetching, 1, 3, 10, 5);
    assert_eq!((half.done_segments, half.total_segments), (1, 3));
    assert_eq!((half.downloaded_bytes, half.speed), (10, 5));
    let merged = merging(&half);
    assert_ne!(merged.phase, half.phase);
    let done = finish_completed(&merged, "title", "/out/x.mp4", 7);
    assert_eq!(done.state, TaskState::Completed);
    assert_eq!(done.path, "/out/x.mp4");
    let failed = finish_failed(&merged, "boom");
    assert_eq!((failed.state, failed.message.as_str()), (TaskState::Failed, "boom"));
    let mut paused = merged.copy();
    paused.state = TaskState::Paused;
    let (_, clean) = finish_stopped(&paused).unwrap();
    assert!(!clean, "a paused download keeps what it has");
    let mut cancelled = merged.copy();
    cancelled.state = TaskState::Cancelled;
    assert!(finish_stopped(&cancelled).unwrap().1);
    cancelled.state = TaskState::Completed;
    assert!(started(&cancelled, &card()).is_none());
}
