use media_downloader::jav::source::stream::m3u8::{
    parse_byterange_attr, parse_master_variants, parse_media_m3u8, select_audio_uri,
    select_variant, M3u8Info, PlaylistError, Variant,
};
use media_downloader::jav::source::stream::resolve::{
    resolve_playlist, Need, Replies, Resolution,
};
use media_downloader::jav::source::stream::{
    after_answer, extract_m3u8_url, fetch_video_page, origin_of, parse_video_page,
    resolve_stream, unescape_packed_string,
    unpack_script, PlaylistAnswer, PlaylistStep,
};
use media_downloader::text::to_chars;

const BASE: &str = "https://cdn.example.com/video/index.m3u8";

/// The sum of the durations of a playlist.
fn total_duration(info: &M3u8Info) -> f64 {
    info.durations.iter().map(|d| d.parse::<f64>().unwrap()).sum()
}

#[test]
fn rejects_zero_overflow_and_malformed_byte_ranges() {
    for value in [
        "0",
        "0@1",
        "1@18446744073709551615",
        "2@18446744073709551614",
        "18446744073709551616@0",
        "1@18446744073709551616",
        "1@",
        "1@2@3",
        "-1@0",
        "+1@0",
        "1@-1",
        "abc",
        "",
        "\"1@0\"",
    ] {
        let text = format!("#EXTM3U\n#EXT-X-BYTERANGE:{value}\na.ts\n");
        assert!(
            parse_media_m3u8(&text, BASE).is_err(),
            "accepted segment {value:?}"
        );
        let text = format!("#EXTM3U\n#EXT-X-MAP:URI=\"a.mp4\",BYTERANGE=\"{value}\"\na.ts\n");
        assert!(
            parse_media_m3u8(&text, BASE).is_err(),
            "accepted map {value:?}"
        );
    }
    for attr in [
        "BYTERANGE",
        "BYTERANGE=",
        "BYTERANGE=1@0",
        "BYTERANGE=\"1@0",
        "BYTERANGE=\"1@0\"junk",
        "BYTERANGE=\"1@0\",BYTERANGE=\"2@0\"",
    ] {
        let text = format!("#EXTM3U\n#EXT-X-MAP:URI=\"a.mp4\",{attr}\na.ts\n");
        assert!(parse_media_m3u8(&text, BASE).is_err(), "accepted {attr}");
    }
    let text = "#EXTM3U\n#EXT-X-BYTERANGE:18446744073709551615@0\na.ts\n#EXT-X-BYTERANGE:1\na.ts\n";
    assert!(
        parse_media_m3u8(text, BASE).is_err(),
        "implicit continuation overflow"
    );
}

#[test]
fn valid_byte_range_boundaries_keep_cache_encoding_and_continuation() {
    let text = "#EXTM3U\n#EXT-X-MAP:URI=\"a.mp4\",BYTERANGE=\"4@2\"\n#EXT-X-BYTERANGE:3\na.mp4\n#EXT-X-BYTERANGE:1@18446744073709551614\na.mp4\n";
    let info = parse_media_m3u8(text, BASE).unwrap();
    assert_eq!(info.init_segment.unwrap().byte_range, Some((2, 4)));
    assert_eq!(info.segments[0].byte_range, Some((6, 3)));
    assert_eq!(info.segments[1].byte_range, Some((u64::MAX - 1, 1)));
    assert_eq!(info.segments[0].url, "https://cdn.example.com/video/a.mp4");
    assert!(info.segments[0].encryption.is_none());
    assert_eq!(
        parse_byterange_attr(&to_chars("18446744073709551615@0"), None),
        Ok((0, u64::MAX))
    );
    assert_eq!(parse_byterange_attr(&to_chars("3"), None), Ok((0, 3)));
    // A comma inside a quoted URI is not a new attribute.
    let info = parse_media_m3u8(
        "#EXTM3U\n#EXT-X-MAP:URI=\"a,BYTERANGE=invalid.mp4\",BYTERANGE=\"3@0\"\na.mp4\n",
        BASE,
    )
    .unwrap();
    assert_eq!(info.init_segment.unwrap().byte_range, Some((0, 3)));
}

#[test]
fn parses_plain_ts_playlist() {
    let text = "#EXTM3U\n#EXT-X-VERSION:3\n#EXT-X-TARGETDURATION:10\n\
#EXTINF:10.0,\nseg0.ts\n#EXTINF:9.5,\nsub/seg1.ts\n";
    let info = parse_media_m3u8(text, BASE).unwrap();
    assert_eq!(info.segments.len(), 2);
    assert_eq!(
        info.segments[0].url,
        "https://cdn.example.com/video/seg0.ts"
    );
    assert_eq!(
        info.segments[1].url,
        "https://cdn.example.com/video/sub/seg1.ts"
    );
    assert_eq!(info.segments[0].byte_range, None);
    assert!(info.init_segment.is_none());
    assert!(info.segments[0].encryption.is_none());
    assert_eq!(total_duration(&info), 19.5);
}

#[test]
fn parses_aes_key_and_iv() {
    let text = "#EXTM3U\n#EXT-X-KEY:METHOD=AES-128,URI=\"key.bin\",IV=0x0000000000000000000000000000002a\n\
#EXTINF:10.0,\ns0.ts\n";
    let info = parse_media_m3u8(text, BASE).unwrap();
    assert_eq!(
        info.segments[0]
            .encryption
            .as_ref()
            .map(|e| e.key_url.as_str()),
        Some("https://cdn.example.com/video/key.bin")
    );
    let mut expected = [0u8; 16];
    expected[15] = 0x2a;
    assert_eq!(info.segments[0].encryption.as_ref().unwrap().iv, expected);
}

#[test]
fn parses_fmp4_with_map_and_byterange() {
    let text = "#EXTM3U\n#EXT-X-VERSION:7\n#EXT-X-TARGETDURATION:6\n\
#EXT-X-MAP:URI=\"init.mp4\",BYTERANGE=\"720@0\"\n\
#EXTINF:6.0,\nseg1.m4s\n\
#EXT-X-BYTERANGE:82112@752\n#EXTINF:6.0,\nseg2.m4s\n\
#EXTINF:6.0,\n/other/seg3.m4s\n\
#EXTINF:6.0,\n//other.example.com/x/seg4.m4s\n";
    let info = parse_media_m3u8(text, BASE).unwrap();
    let init = info.init_segment.expect("init segment parsed");
    assert_eq!(init.url, "https://cdn.example.com/video/init.mp4");
    assert_eq!(init.byte_range, Some((0, 720)));
    assert_eq!(info.segments.len(), 4);
    assert_eq!(info.segments[1].byte_range, Some((752, 82112)));
    assert_eq!(
        info.segments[2].url,
        "https://cdn.example.com/other/seg3.m4s"
    );
    assert_eq!(info.segments[3].url, "https://other.example.com/x/seg4.m4s");
}

#[test]
fn byterange_without_offset_continues_from_previous() {
    let text = "#EXTM3U\n#EXT-X-MAP:URI=\"init.mp4\",BYTERANGE=\"720@0\"\n\
#EXTINF:6.0,\nseg1.m4s\n\
#EXT-X-BYTERANGE:82112\n#EXTINF:6.0,\nseg2.m4s\n";
    let info = parse_media_m3u8(text, BASE).unwrap();
    assert_eq!(info.init_segment.unwrap().byte_range, Some((0, 720)));
    assert_eq!(info.segments[1].byte_range, Some((720, 82112)));
}

#[test]
fn key_method_none_disables_encryption() {
    let text = "#EXTM3U\n#EXT-X-KEY:METHOD=AES-128,URI=\"key.bin\"\n\
#EXTINF:10.0,\ns0.ts\n\
#EXT-X-KEY:METHOD=NONE\n\
#EXTINF:10.0,\ns1.ts\n";
    let info = parse_media_m3u8(text, BASE).unwrap();
    assert!(
        info.segments[1].encryption.is_none(),
        "later METHOD=NONE must clear the key for subsequent segments"
    );
    assert_eq!(info.segments.len(), 2);
}

#[test]
fn segments_with_query_strings_and_no_extension() {
    let text = "#EXTM3U\n#EXTINF:6.0,\nseg1?token=abc&exp=1\n#EXTINF:6.0,\nclip\n";
    let info = parse_media_m3u8(text, BASE).unwrap();
    assert_eq!(
        info.segments[0].url,
        "https://cdn.example.com/video/seg1?token=abc&exp=1"
    );
    assert_eq!(info.segments[1].url, "https://cdn.example.com/video/clip");
}

#[test]
fn key_attributes_in_any_order_and_bom() {
    let text = "\u{feff}#EXTM3U\n#EXT-X-KEY:URI=\"key.bin\",METHOD=AES-128,KEYFORMAT=\"identity\"\n\
#EXTINF:10.0,\ns0.ts\n";
    let info = parse_media_m3u8(text, BASE).unwrap();
    assert_eq!(
        info.segments[0]
            .encryption
            .as_ref()
            .map(|e| e.key_url.as_str()),
        Some("https://cdn.example.com/video/key.bin")
    );
    assert_eq!(info.segments.len(), 1, "BOM line must not become a segment");
}

#[test]
fn parses_master_playlist_variants() {
    let text = "#EXTM3U\n\
#EXT-X-STREAM-INF:BANDWIDTH=800000,RESOLUTION=640x360\nlow/index.m3u8\n\
#EXT-X-STREAM-INF:BANDWIDTH=2400000,RESOLUTION=1280x720\nhigh/index.m3u8\n";
    let variants = parse_master_variants(text, BASE);
    assert_eq!(variants.len(), 2);
    assert_eq!(
        variants[1].uri,
        "https://cdn.example.com/video/high/index.m3u8"
    );
    assert_eq!(variants[1].resolution, Some((1280, 720)));
}

#[test]
fn variant_selection_modes() {
    let variants = vec![
        Variant {
            uri: "a".into(),
            audio_group: None,
            bandwidth: Some(1),
            resolution: Some((640, 360)),
        },
        Variant {
            uri: "b".into(),
            audio_group: None,
            bandwidth: Some(2),
            resolution: Some((1280, 720)),
        },
        Variant {
            uri: "c".into(),
            audio_group: None,
            bandwidth: Some(3),
            resolution: Some((1920, 1080)),
        },
    ];
    assert_eq!(select_variant(&variants, "highest").unwrap().uri, "c");
    assert_eq!(select_variant(&variants, "lowest").unwrap().uri, "a");
    assert_eq!(select_variant(&variants, "720").unwrap().uri, "b");
    assert_eq!(select_variant(&variants, "480").unwrap().uri, "a");
    assert_eq!(select_variant(&variants, "2160").unwrap().uri, "c");
}

#[test]
fn playlists_that_cannot_be_used_say_why() {
    let error = |text: &str| parse_media_m3u8(text, BASE).unwrap_err();
    assert_eq!(
        error("#EXTM3U\n#EXT-X-MEDIA-SEQUENCE:x\n#EXTINF:1,\na.ts\n"),
        PlaylistError::InvalidSequence("invalid digit found in string".into())
    );
    assert_eq!(
        error("#EXTM3U\n#EXT-X-MEDIA-SEQUENCE:99999999999999999999\n#EXTINF:1,\na.ts\n").message(),
        "number too large to fit in target type"
    );
    assert_eq!(
        error("#EXTM3U\n#EXT-X-KEY:METHOD=AES-128\n#EXTINF:1,\na.ts\n"),
        PlaylistError::MissingKeyUri
    );
    assert_eq!(
        error("#EXTM3U\n#EXT-X-KEY:METHOD=SAMPLE-AES,URI=\"k\"\n#EXTINF:1,\na.ts\n"),
        PlaylistError::UnsupportedMethod
    );
    assert_eq!(
        error("#EXTM3U\n#EXT-X-KEY:METHOD=AES-128,URI=\"k\",KEYFORMAT=\"x\"\n#EXTINF:1,\na.ts\n"),
        PlaylistError::UnsupportedKeyFormat
    );
    assert_eq!(
        error("#EXTM3U\n#EXT-X-KEY:METHOD=AES-128,URI=\"k\",IV=0xzz\n#EXTINF:1,\na.ts\n"),
        PlaylistError::InvalidIv
    );
    assert_eq!(
        error("#EXTM3U\n#EXT-X-KEY:METHOD=AES-128,URI=\"k\"\n#EXT-X-MAP:URI=\"i.mp4\"\n#EXTINF:1,\na.ts\n"),
        PlaylistError::InitNeedsIv
    );
    assert_eq!(
        error("#EXTM3U\n#EXT-X-MAP:URI=\"i.mp4\"\n#EXTINF:1,\na.ts\n#EXT-X-MAP:URI=\"j.mp4\"\n#EXTINF:1,\nb.ts\n"),
        PlaylistError::ChangingInit
    );
    assert_eq!(
        error("#EXTM3U\n#EXTINF:1,\nhttps://[/a.ts\n"),
        PlaylistError::InvalidUrl("invalid IPv6 address".into())
    );
    assert_eq!(
        parse_media_m3u8("#EXTM3U\n#EXTINF:1,\na.ts\n", "no base").unwrap_err().message(),
        "relative URL without a base"
    );
    assert_eq!(
        select_audio_uri("#EXTM3U\n", BASE, "aud").unwrap_err(),
        PlaylistError::NoRenditions
    );
}

#[test]
fn default_audio_stands_in_front() {
    let text = "#EXTM3U\n\
#EXT-X-MEDIA:TYPE=AUDIO,GROUP-ID=\"aud\",NAME=\"a\",URI=\"a.m3u8\"\n\
#EXT-X-MEDIA:TYPE=AUDIO,GROUP-ID=\"aud\",NAME=\"b\",DEFAULT=YES,URI=\"b.m3u8\"\n";
    assert_eq!(
        select_audio_uri(text, BASE, "aud").unwrap().as_deref(),
        Some("https://cdn.example.com/video/b.m3u8")
    );
}

#[test]
fn parses_title_and_playlist() {
    let page = parse_video_page(
        r#"<html><body><h1>Some Title</h1>
               <script>var src='https://cdn.example.com/hls/master.m3u8';</script>
               </body></html>"#,
    );
    assert_eq!(page.title, "Some Title");
    assert_eq!(
        page.playlist_url.as_deref(),
        Some("https://cdn.example.com/hls/master.m3u8")
    );
}

#[test]
fn pages_without_a_playlist_are_errors() {
    assert_eq!(
        fetch_video_page("<html><body><h1>Some \"Title\"</h1></body></html>").unwrap_err(),
        "no playlist found on the page (title: \"Some \\\"Title\\\"\") — the player markup may have changed"
    );
    let page = fetch_video_page("<h1>T</h1>https://cdn.example.com/a.m3u8").unwrap();
    assert_eq!(
        page.playlist_url.as_deref(),
        Some("https://cdn.example.com/a.m3u8")
    );
    let info = parse_media_m3u8(MEDIA, BASE).unwrap();
    assert_eq!(resolve_stream("T", BASE, Ok(info)).unwrap().playlist.segments.len(), 1);
    assert_eq!(
        resolve_stream("T", "u", Err("gone".into())).unwrap_err(),
        "cannot read the playlist u: gone"
    );
}

#[test]
fn falls_back_to_og_title_then_document_title() {
    let og = parse_video_page(
        r#"<html><head>
                 <meta property="og:title" content="OG Title">
                 <title>Doc Title</title>
               </head><body></body></html>"#,
    );
    assert_eq!(og.title, "OG Title");

    let doc = parse_video_page("<html><head><title>Doc Title</title></head></html>");
    assert_eq!(doc.title, "Doc Title");
    assert!(doc.playlist_url.is_none());
}

#[test]
fn extracts_m3u8_from_urlplay_assignment() {
    let body = r#"var player = {urlPlay: 'https://cdn.example.com/hls/master.m3u8?token=1'};"#;
    assert_eq!(
        extract_m3u8_url(body).as_deref(),
        Some("https://cdn.example.com/hls/master.m3u8?token=1")
    );
}

#[test]
fn extracts_m3u8_from_escaped_body() {
    let body = r#"{"file":"https:\/\/cdn.example.com\/a\/index.m3u8"}"#.replace("\\/", "/");
    assert_eq!(
        extract_m3u8_url(&body).as_deref(),
        Some("https://cdn.example.com/a/index.m3u8")
    );
}

#[test]
fn no_m3u8_returns_none() {
    assert_eq!(extract_m3u8_url("<html>nothing here</html>"), None);
}

#[test]
fn packed_players_are_decoded() {
    let page = r"<script>eval(function(p,a,c,k,e,d){return p}('0=\'1://2.3/4.5\';',6,6,'source|https|surrit|com|playlist|m3u8'.split('|'),0,{}))</script>";
    assert_eq!(
        extract_m3u8_url(page).as_deref(),
        Some("https://surrit.com/playlist.m3u8")
    );
}

#[test]
fn unpack_script_handles_base_15() {
    // The exact shape MissAV's player ships: radix 15, dictionary indexes
    // written in base 15, with letter digits among them.
    let payload = r"e='8://7.6/5-4-3-2-1/d.0';c='8://7.6/5-4-3-2-1/a/9.0';";
    let dictionary = "m3u8|bd4889d38713|a2d5|48c7|c1f8|7aab6fb0|com|surrit|https|video|720p|source1280|source842|playlist|source";
    let decoded = unpack_script(payload, 15, dictionary);
    assert_eq!(
        decoded,
        r"source='https://surrit.com/7aab6fb0-c1f8-48c7-a2d5-bd4889d38713/playlist.m3u8';source842='https://surrit.com/7aab6fb0-c1f8-48c7-a2d5-bd4889d38713/720p/video.m3u8';"
    );
}

#[test]
fn unpack_script_handles_base_36() {
    // At base 36 letters are digits, so tokens like 'q' are references too.
    let words: Vec<String> = (0..26).map(|i| ((b'a' + i) as char).to_string()).collect();
    let mut dictionary = words.join("|");
    dictionary.push_str("|https|com|example|m3u8");
    // Indices 26..29 in base 36 are q, r, s, t.
    let payload = "q.r/s.t";
    assert_eq!(
        unpack_script(payload, 36, &dictionary),
        "https.com/example.m3u8"
    );
}

#[test]
fn unpack_script_leaves_unknown_indexes_alone() {
    let decoded = unpack_script("1 99", 15, "a|b");
    assert_eq!(decoded, "b 99", "out-of-range references stay literal");
}

#[test]
fn reverse_of_data_link_is_stable() {
    // The mirror expects the reversed blob; make the round trip explicit.
    let original = "7ec8e9edc09896";
    let reversed: String = original.chars().rev().collect();
    let back: String = reversed.chars().rev().collect();
    assert_eq!(back, original);
}

#[test]
fn packed_strings_are_unescaped() {
    assert_eq!(unescape_packed_string(r"a\'b\\c"), r"a'b\c");
}

#[test]
fn pages_have_an_origin() {
    assert_eq!(origin_of("https://missav.ai/cn/abp-123"), "https://missav.ai/");
}

#[test]
fn playlists_are_asked_for_three_times() {
    let url = "https://cdn.example.com/a.m3u8";
    let failed = PlaylistAnswer::Failed("reset".into());
    assert_eq!(after_answer(url, 1, &failed), PlaylistStep::Retry(300));
    assert_eq!(after_answer(url, 2, &failed), PlaylistStep::Retry(600));
    assert_eq!(after_answer(url, 3, &failed), PlaylistStep::Fail("reset".into()));
    assert_eq!(
        after_answer(url, 1, &PlaylistAnswer::Rejected("no".into())),
        PlaylistStep::Fail("no".into())
    );
    assert_eq!(
        after_answer(url, 1, &PlaylistAnswer::Body("\u{feff} #EXTM3U".into())),
        PlaylistStep::Read
    );
    assert_eq!(
        after_answer(url, 1, &PlaylistAnswer::Body("plain".into())),
        PlaylistStep::Fail(format!("invalid HLS playlist at {url}: missing #EXTM3U"))
    );
}

fn body(address: &str, text: &str) -> (PlaylistAnswer, String) {
    (PlaylistAnswer::Body(text.into()), address.into())
}

fn needs(resolution: &Resolution) -> (&str, u64) {
    match resolution {
        Resolution::Need(Need::Fetch(url, wait)) => (url, *wait),
        other => panic!("unexpected: {other:?}"),
    }
}

const MASTER: &str = "#EXTM3U\n\
#EXT-X-MEDIA:TYPE=AUDIO,GROUP-ID=\"aud\",NAME=\"a\",DEFAULT=YES,URI=\"audio.m3u8\"\n\
#EXT-X-STREAM-INF:BANDWIDTH=1,RESOLUTION=640x360,AUDIO=\"aud\"\nlow.m3u8\n\
#EXT-X-STREAM-INF:BANDWIDTH=2,RESOLUTION=1280x720,AUDIO=\"aud\"\nhigh.m3u8\n";

const MEDIA: &str = "#EXTM3U\n#EXTINF:4.0,\n0.ts\n";

#[test]
fn master_playlists_are_followed_to_the_preferred_variant_and_its_audio() {
    let url = "https://cdn.example.com/v/master.m3u8";
    let at = |name: &str| format!("https://cdn.example.com/v/{name}");
    let mut replies = Replies { answers: vec![], picks: vec![] };
    assert_eq!(needs(&resolve_playlist(url, "highest", &replies)), (url, 0));
    replies.answers.push((PlaylistAnswer::Failed("reset".into()), url.into()));
    assert_eq!(needs(&resolve_playlist(url, "highest", &replies)), (url, 300));
    replies.answers.push(body(url, MASTER));
    assert_eq!(
        needs(&resolve_playlist(url, "highest", &replies)).0,
        at("low.m3u8")
    );
    replies.answers.push(body(&at("low.m3u8"), MEDIA));
    replies.answers.push(body(&at("high.m3u8"), MEDIA));
    assert_eq!(
        needs(&resolve_playlist(url, "highest", &replies)).0,
        at("audio.m3u8")
    );
    replies.answers.push(body(&at("audio.m3u8"), MEDIA));
    let info = match resolve_playlist(url, "highest", &replies) {
        Resolution::Done(info) => info,
        other => panic!("unexpected: {other:?}"),
    };
    assert_eq!(info.variant.uri, at("high.m3u8"));
    assert_eq!(info.variant.resolution, Some((1280, 720)));
    let audio = info.audio.expect("the audio is joined");
    assert_eq!(audio.segments.len(), 1);
    assert!(audio.audio.is_none());
    match resolve_playlist(url, "lowest", &replies) {
        Resolution::Done(info) => assert_eq!(info.variant.uri, at("low.m3u8")),
        other => panic!("unexpected: {other:?}"),
    }
}

#[test]
fn variants_that_cannot_be_followed_are_left_out() {
    let url = "https://cdn.example.com/v/master.m3u8";
    let rejected = || (PlaylistAnswer::Rejected("denied".to_string()), String::new());
    let plain = "#EXTM3U\n#EXT-X-STREAM-INF:BANDWIDTH=1\nlow.m3u8\n#EXT-X-STREAM-INF:BANDWIDTH=2\nhigh.m3u8\n";
    let one = Replies {
        answers: vec![
            body(url, plain),
            body("https://cdn.example.com/v/low.m3u8", MEDIA),
            rejected(),
        ],
        picks: vec![],
    };
    match resolve_playlist(url, "highest", &one) {
        Resolution::Done(info) => {
            assert_eq!(info.variant.uri, "https://cdn.example.com/v/low.m3u8")
        }
        other => panic!("unexpected: {other:?}"),
    }
    let none = Replies { answers: vec![body(url, plain), rejected(), rejected()], picks: vec![] };
    match resolve_playlist(url, "highest", &none) {
        Resolution::Failed(e) => assert_eq!(
            e,
            "no variant playlist could be resolved: variant https://cdn.example.com/v/high.m3u8: denied"
        ),
        other => panic!("unexpected: {other:?}"),
    }
    let empty = Replies {
        answers: vec![body(url, "#EXTM3U\n#EXT-X-STREAM-INF:BANDWIDTH=1\n")],
        picks: vec![],
    };
    assert!(matches!(
        resolve_playlist(url, "highest", &empty),
        Resolution::Failed(e) if e == "master playlist contains no variants"
    ));
}

#[test]
fn listed_playlists_are_compared_by_length() {
    let url = "https://cdn.example.com/v/list.m3u8";
    let list = "#EXTM3U\na.m3u8\nb.m3u8?x=1\n";
    let longer = "#EXTM3U\n#EXTINF:4.0,\n0.ts\n#EXTINF:4.0,\n1.ts\n";
    let mut replies = Replies {
        answers: vec![
            body(url, list),
            body("https://cdn.example.com/v/a.m3u8", MEDIA),
            body("https://cdn.example.com/v/b.m3u8?x=1", longer),
        ],
        picks: vec![],
    };
    match resolve_playlist(url, "", &replies) {
        Resolution::Need(Need::Pick(lists)) => {
            assert_eq!(lists[0].durations, ["4.0"]);
            assert_eq!(lists[1].durations, ["4.0", "4.0"]);
            assert_eq!((lists[0].segments, lists[1].segments), (1, 2));
        }
        other => panic!("unexpected: {other:?}"),
    }
    replies.picks.push(1);
    match resolve_playlist(url, "", &replies) {
        Resolution::Done(info) => assert_eq!(info.segments.len(), 2),
        other => panic!("unexpected: {other:?}"),
    }
}

#[test]
fn playlists_that_list_each_other_come_to_an_end() {
    let url = "https://cdn.example.com/v/loop.m3u8";
    let list = "#EXTM3U\nloop.m3u8\n";
    let mut replies = Replies { answers: vec![], picks: vec![] };
    for _ in 0..6 {
        assert_eq!(needs(&resolve_playlist(url, "", &replies)).0, url);
        replies.answers.push(body(url, list));
    }
    match resolve_playlist(url, "", &replies) {
        Resolution::Need(Need::Pick(lists)) => assert_eq!(lists.len(), 1),
        other => panic!("unexpected: {other:?}"),
    }
}
