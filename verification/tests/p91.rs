use media_downloader::configuration::app::Config as AppConfig;
use media_downloader::configuration::p91::Config;
use media_downloader::jav::source::http::{same_site, MediaHead};
use media_downloader::p91::api::{
    cancel_task, check_config, dismiss_task, pause_task, resolve_target, submit, Submission,
    Submitted,
};
use media_downloader::p91::app::{
    config_with_paths, credentials_changed, request_agent, update_config, TaskInfo, TaskRegistry, TaskState,
};
use media_downloader::p91::downloader::{
    after_body, content_total, existing_output, finish_completed, finish_failed, finish_stopped,
    percent, plan_transfer, progressed, resume_range, started, stopped_outcome, stopped_part,
    total_from_content_length, total_from_content_range, Outcome, Plan, PlanError, Run, RunAction,
    RunEvent,
};
use media_downloader::p91::source::http::{
    media_request, media_response, origin_of, page_request, range_header, split_cookies,
    text_response, Session, DEFAULT_USER_AGENT,
};
use media_downloader::p91::source::mp4::{
    box_header, boxes, range_end, range_ok, track_dimensions, Search, SearchStep,
};
use media_downloader::p91::source::resolver::{
    media_referer, pick_title, tries_hd, vid_matches, Resolution, ResolveAction, ResolveEvent,
    ResolvedVideo,
};
use media_downloader::p91::transfer::{counted, Transfer, TransferAction, TransferEvent};
use media_downloader::p91::source::scraper::{
    absolute, apply_filters, entity_decoded, extract_source_url, fetch_popular, fetch_video_page,
    media_source, parse_list, parse_video_page, unescape, video_id_from_url, SourceError, VideoCard, VideoPage,
};
use media_downloader::jav::util::sanitize_filename;
use media_downloader::storage::{completed_record, failed_record};
use media_downloader::text::to_chars;

fn task(id: &str) -> TaskInfo {
    TaskInfo::new(id, "u", 1)
}

/// Change what is known of a task.
fn update(registry: &mut TaskRegistry, id: &str, change: impl FnOnce(&mut TaskInfo)) {
    if let Some(mut info) = registry.task(id) {
        change(&mut info);
        registry.update_task(info, 2);
    }
}

#[test]
fn mod_refuses_duplicate_running_tasks() {
    let mut registry = TaskRegistry::new();
    let mut info = task("1");
    info.state = TaskState::Running;
    assert!(registry.register_task(info, true));
    assert!(!registry.register_task(task("1"), true));
}

#[test]
fn mod_allows_retry_after_terminal_state() {
    let mut registry = TaskRegistry::new();
    let mut info = task("1");
    info.state = TaskState::Failed;
    assert!(registry.register_task(info, true));
    assert!(registry.register_task(task("1"), true));
}

#[test]
fn slots_observe_live_capacity_and_queued_pause() {
    let mut registry = TaskRegistry::new();
    for id in ["1", "2", "3"] {
        assert!(registry.register_task(task(id), true));
    }
    assert_eq!(registry.slot_limit("1", 1), Some(1));
    assert_eq!(registry.slot_limit("2", 2), Some(2), "the live setting counts");
    assert_eq!(registry.slot_limit("3", 2), Some(2));
    update(&mut registry, "3", |task| task.state = TaskState::Paused);
    assert_eq!(registry.slot_limit("3", 2), None);
}

#[test]
fn registration_stays_blocked_until_paused_owner_releases() {
    let mut registry = TaskRegistry::new();
    assert!(registry.register_task(task("1"), true));
    update(&mut registry, "1", |task| task.state = TaskState::Paused);
    assert!(!registry.register_task(task("1"), false));
    assert!(registry.register_task(task("1"), true));
    assert!(registry.slot_limit("1", 1).is_some());
}

#[test]
fn copy_control_preserves_pausing_phase_and_running_count() {
    let mut registry = TaskRegistry::new();
    assert!(registry.register_task(task("1"), true));
    assert_eq!(registry.task_state("missing"), None);
    assert_eq!(registry.task_control("missing"), None);
    update(&mut registry, "1", |task| {
        task.state = TaskState::Running;
        task.phase = "pausing".into();
    });
    assert_eq!(registry.task_state("1"), Some(TaskState::Running));
    assert_eq!(registry.task_control("1"), Some(TaskState::Paused));
    assert_eq!(registry.running_task_count(), 1);
    update(&mut registry, "1", |task| task.state = TaskState::Cancelled);
    assert_eq!(registry.task_control("1"), Some(TaskState::Cancelled));
    assert_eq!(registry.running_task_count(), 0);
}

#[test]
fn mod_daily_cancel_flag_is_one_shot() {
    let mut registry = TaskRegistry::new();
    assert!(!registry.take_daily_cancel());
    registry.request_daily_cancel();
    assert!(registry.take_daily_cancel());
    assert!(!registry.take_daily_cancel());
}

#[test]
fn mod_stops_before_terminal_commit_win_over_success_and_failure() {
    for cancel in [false, true] {
        let mut registry = TaskRegistry::new();
        let mut info = task("test");
        info.state = TaskState::Running;
        registry.register_task(info, true);
        assert!(registry.stop_task("test", cancel, 2));
        assert!(!registry.begin_terminal_commit("test"));
    }
}

#[test]
fn late_stops_are_rejected_while_the_end_is_published() {
    let mut registry = TaskRegistry::new();
    let mut info = task("test");
    info.state = TaskState::Running;
    registry.register_task(info, true);
    assert!(registry.begin_terminal_commit("test"));
    assert!(!registry.stop_task("test", false, 2));
    assert!(!registry.stop_task("test", true, 2));
    registry.end_terminal_commit("test");
    assert!(registry.stop_task("test", true, 3));
}

#[test]
fn users_pause_cancel_and_dismiss_tasks() {
    let mut registry = TaskRegistry::new();
    registry.register_task(task("1"), true);
    let mut running = task("2");
    running.state = TaskState::Running;
    registry.register_task(running, true);
    assert!(pause_task(&mut registry, "1", 5).is_ok());
    assert!(pause_task(&mut registry, "2", 5).is_ok());
    assert_eq!(registry.task_state("1"), Some(TaskState::Paused));
    assert_eq!(registry.task("2").unwrap().phase, "pausing");
    assert_eq!(
        pause_task(&mut registry, "1", 5).unwrap_err().message,
        "task is not running or queued"
    );
    assert_eq!(pause_task(&mut registry, "9", 5).unwrap_err().status, 404);
    assert!(dismiss_task(&mut registry, "2", true).is_err());
    assert!(cancel_task(&mut registry, "2", 6).is_ok());
    assert_eq!(registry.task("2").unwrap().message, "cancelling…");
    assert_eq!(
        cancel_task(&mut registry, "2", 6).unwrap_err().message,
        "task is already finished"
    );
    assert_eq!(registry.visible_tasks().len(), 2);
    assert!(dismiss_task(&mut registry, "2", true).is_ok());
    assert!(registry.task("2").is_none());
    registry.begin_shutdown();
    assert!(!registry.register_task(task("3"), true));
}

#[test]
fn settings_and_submissions_are_checked() {
    let cfg = Config::default();
    assert!(check_config(&cfg, true).is_ok());
    let message = |cfg: Config| check_config(&cfg, false).unwrap_err().message;
    assert_eq!(
        message(Config { max_pages: 21, ..Config::default() }),
        "max_pages must be 1..=20"
    );
    assert_eq!(
        message(Config { concurrent_videos: 9, ..Config::default() }),
        "min_duration_secs must be nonnegative"
    );
    assert_eq!(
        check_config(&Config { concurrent_videos: 9, ..Config::default() }, true)
            .unwrap_err()
            .message,
        "concurrent_videos must be 1..=8"
    );
    let submission = |id: Option<&str>, url: Option<&str>| Submission {
        id: id.map(str::to_string),
        url: url.map(str::to_string),
        title: None,
        rank: None,
        vid: Some("7".into()),
    };
    let s = submission(Some("1950234389"), None);
    let (id, url) = resolve_target(&cfg, &s).unwrap();
    assert_eq!(url, "https://www.91porn.com/view_video.php?viewkey=1950234389");
    assert!(resolve_target(&cfg, &submission(None, None)).is_err());
    assert!(resolve_target(&cfg, &submission(None, Some("https://example.com/"))).is_err());
    let mut registry = TaskRegistry::new();
    match submit(&mut registry, &s, id.clone(), url.clone(), false, true, 1) {
        Submitted::Started(card) => assert_eq!(card.vid.as_deref(), Some("7")),
        other => panic!("unexpected: {other:?}"),
    }
    assert!(matches!(
        submit(&mut registry, &s, id.clone(), url.clone(), false, true, 1),
        Submitted::AlreadyRunning(_)
    ));
    assert!(matches!(
        submit(&mut registry, &s, id, url, true, true, 1),
        Submitted::AlreadyDownloaded(_)
    ));
    assert!(credentials_changed(
        &Config { cookie: "a=1".into(), ..Config::default() },
        &cfg
    ));
    assert_eq!(request_agent(&cfg), DEFAULT_USER_AGENT);
}

#[test]
fn content_total_reads_content_range_first() {
    assert_eq!(total_from_content_range("bytes 100-199/500"), Some(500));
    assert_eq!(total_from_content_range("not a range"), None);
}

#[test]
fn content_total_falls_back_to_content_length() {
    assert_eq!(total_from_content_length("250", 0), Some(250));
    assert_eq!(total_from_content_length("150", 100), Some(250));
    assert_eq!(total_from_content_length("", 0), None);
}

#[test]
fn content_totals_check_u64_boundaries_without_wrapping() {
    let max = u64::MAX.to_string();
    assert_eq!(total_from_content_length(&max, 0), Some(u64::MAX));
    assert_eq!(total_from_content_length(&max, 1), None);
    assert_eq!(total_from_content_length("1", u64::MAX - 1), Some(u64::MAX));
    assert_eq!(total_from_content_length("2", u64::MAX - 1), None);
    assert_eq!(total_from_content_length("0", u64::MAX), Some(u64::MAX));
    assert_eq!(total_from_content_length("18446744073709551616", 0), None);
    assert_eq!(total_from_content_length("invalid", 1), None);
    // Content-Range supplies an absolute total, not a length to add to
    // the resumed offset. Its checked integer parsing needs no arithmetic.
    assert_eq!(
        total_from_content_range(&format!("bytes 1-2/{max}")),
        Some(u64::MAX)
    );
    assert_eq!(
        total_from_content_range("bytes 1-2/18446744073709551616"),
        None
    );
    assert_eq!(total_from_content_range("bytes 1-2/*"), None);
}

#[test]
fn existing_output_ignores_empty_files() {
    assert!(existing_output(true, 0).is_none());
    assert_eq!(existing_output(true, 4), Some(4));
    assert!(existing_output(false, 4).is_none());
}

#[test]
fn escaped_texts_are_read_back() {
    for text in ["", "plain", "100% \u{e9}\u{4e2d}\u{1F600}+%41"] {
        let escaped: String = text.bytes().map(|b| format!("%{b:02x}")).collect();
        assert_eq!(unescape(&escaped), text);
    }
    assert_eq!(unescape("na\u{ef}ve + \u{4e2d}"), "na\u{ef}ve + \u{4e2d}");
}

#[test]
fn download_file_resumes_206_and_restarts_on_200() {
    assert_eq!(resume_range(3), Some((3, None)));
    assert_eq!(resume_range(0), None);
    assert_eq!(
        plan_transfer(3, 206, &Some("bytes 3-5/6".into()), &Some("3".into())),
        Ok(Plan::Write { append: true, offset: 3, total: Some(6) })
    );
    assert_eq!(
        plan_transfer(3, 200, &None, &Some("6".into())),
        Ok(Plan::Write { append: false, offset: 0, total: Some(6) })
    );
    assert_eq!(after_body(true, 6, Some(6), TaskState::Running), Ok(Outcome::Done));
    assert_eq!(content_total(&Some("bytes 3-5/6".into()), &Some("3".into()), 3), Some(6));
    for (status, range, append, pieces) in
        [(206, Some("bytes 3-5/6"), true, vec![3]), (200, None, false, vec![4, 2])]
    {
        let (mut run, action) = Transfer::start(3);
        assert_eq!(action, TransferAction::Request(Some((3, None))));
        let length = pieces.iter().sum::<u64>().to_string();
        let answer = TransferEvent::Answered(status, range.map(str::to_string), Some(length));
        assert_eq!(run.step(answer), TransferAction::Open(append));
        assert_eq!(run.step(TransferEvent::Opened(TaskState::Running)), TransferAction::Read);
        for piece in pieces {
            assert_eq!(run.step(TransferEvent::Piece(piece)), TransferAction::Write);
            let written = TransferEvent::Written(TaskState::Running);
            assert_eq!(run.step(written), TransferAction::Read);
        }
        assert_eq!(run.step(TransferEvent::Ended), TransferAction::Flush);
        let flushed = TransferEvent::Flushed(TaskState::Running);
        assert_eq!(run.step(flushed), TransferAction::Commit);
        let committed = TransferEvent::Committed(true, TaskState::Running);
        assert_eq!(run.step(committed), TransferAction::Rename);
        assert_eq!(
            run.step(TransferEvent::Renamed),
            TransferAction::End(Ok(Outcome::Done), Some((6, Some(6))))
        );
    }
}

#[test]
fn download_file_accepts_416_only_for_exact_existing_length() {
    for total in [3u64, 4] {
        let plan = plan_transfer(3, 416, &Some(format!("bytes */{total}")), &None);
        if total == 3 {
            assert_eq!(plan, Ok(Plan::Complete));
        } else {
            assert!(plan.is_err());
        }
        let (mut run, _) = Transfer::start(3);
        let answer = TransferEvent::Answered(416, Some(format!("bytes */{total}")), None);
        let action = run.step(answer);
        if total == 3 {
            assert_eq!(action, TransferAction::Commit);
            let committed = TransferEvent::Committed(true, TaskState::Running);
            assert_eq!(run.step(committed), TransferAction::Rename);
            assert_eq!(
                run.step(TransferEvent::Renamed),
                TransferAction::End(Ok(Outcome::Done), None)
            );
        } else {
            let error = "server rejected the resume offset 3".to_string();
            assert_eq!(action, TransferAction::End(Err(error), None));
        }
    }
}

#[test]
fn download_file_rejects_wrong_range_and_failed_responses_without_touching_partial() {
    assert_eq!(
        plan_transfer(3, 206, &Some("bytes 2-4/5".into()), &Some("3".into())),
        Err(PlanError::WrongRange)
    );
    let head = |status: u16, content_type: Option<&str>| MediaHead {
        status,
        status_line: status.to_string(),
        uri: "u".into(),
        cf_mitigated: None,
        content_type: content_type.map(str::to_string),
        cf_ray: None,
    };
    assert!(media_response("u", &head(503, None)).is_err());
    assert!(media_response("u", &head(200, Some("text/html"))).is_err());
    assert_eq!(plan_transfer(3, 416, &None, &None), Err(PlanError::Rejected));
    assert!(!PlanError::WrongRange.message(3).is_empty());
    let (mut run, _) = Transfer::start(3);
    let answer = TransferEvent::Answered(206, Some("bytes 2-4/5".into()), Some("3".into()));
    let error = "server returned an unexpected byte range for offset 3".to_string();
    assert_eq!(run.step(answer), TransferAction::End(Err(error), None));
    let (mut run, _) = Transfer::start(0);
    assert_eq!(
        run.step(TransferEvent::Failed("HTTP 503".into())),
        TransferAction::End(Err("HTTP 503".into()), None)
    );
    assert_eq!(run.step(TransferEvent::Ended), TransferAction::Idle);
}

fn reading(offset: u64, length: &str) -> Transfer {
    let (mut run, _) = Transfer::start(offset);
    let range = format!("bytes {offset}-8/9");
    run.step(TransferEvent::Answered(206, Some(range), Some(length.into())));
    run.step(TransferEvent::Opened(TaskState::Running));
    run
}

#[test]
fn download_file_rejects_truncated_body_and_retains_resumable_prefix() {
    assert!(after_body(true, 6, Some(9), TaskState::Running).is_err());
    assert_eq!(after_body(true, 6, None, TaskState::Running), Ok(Outcome::Done));
    let mut run = reading(3, "6");
    run.step(TransferEvent::Piece(3));
    run.step(TransferEvent::Written(TaskState::Running));
    assert_eq!(run.step(TransferEvent::Ended), TransferAction::Flush);
    assert_eq!(
        run.step(TransferEvent::Flushed(TaskState::Running)),
        TransferAction::End(Err("incomplete download: 6/9 bytes".into()), None)
    );
    let mut run = reading(3, "6");
    assert_eq!(run.step(TransferEvent::Failed("reset".into())), TransferAction::Flush);
    assert_eq!(
        run.step(TransferEvent::Failed("disk full".into())),
        TransferAction::End(Err("reset".into()), None)
    );
}

#[test]
fn download_file_pause_and_cancel_flush_prefix_while_body_is_pending() {
    assert_eq!(
        after_body(false, 6, Some(9), TaskState::Paused),
        Ok(Outcome::Paused)
    );
    assert_eq!(
        after_body(false, 6, Some(9), TaskState::Cancelled),
        Ok(Outcome::Cancelled)
    );
    assert_eq!(stopped_outcome(TaskState::Cancelled), Outcome::Cancelled);
    for (state, outcome) in [
        (TaskState::Paused, Outcome::Paused),
        (TaskState::Cancelled, Outcome::Cancelled),
    ] {
        let mut run = reading(3, "6");
        run.step(TransferEvent::Piece(3));
        run.step(TransferEvent::Written(TaskState::Running));
        assert_eq!(run.step(TransferEvent::Stopped(state)), TransferAction::Flush);
        let end = run.step(TransferEvent::Flushed(state));
        assert_eq!(end, TransferAction::End(Ok(outcome), Some((6, Some(9)))));
        let counted = counted(&task("1"), 6, Some(9));
        assert_eq!((counted.downloaded_bytes, counted.total_bytes), (6, 9));
        let (mut run, _) = Transfer::start(9);
        run.step(TransferEvent::Answered(416, Some("bytes */9".into()), None));
        assert_eq!(
            run.step(TransferEvent::Committed(false, state)),
            TransferAction::End(Ok(outcome), None),
            "a stop that came first wins"
        );
    }
}

fn card(vid: Option<&str>) -> VideoCard {
    VideoCard {
        id: "1950234389".into(),
        url: "https://www.91porn.com/view_video.php?viewkey=1950234389".into(),
        title: "Card title".into(),
        image_url: String::new(),
        duration_secs: None,
        rank: Some(1),
        vid: vid.map(str::to_string),
        hd: true,
        original: false,
    }
}

#[test]
fn a_run_resolves_transfers_and_completes() {
    let cfg = Config { save_path: "/out".into(), temp_path: "/tmp/p".into(), ..Config::default() };
    let (mut run, action) = Run::start(&cfg, &card(None));
    let known = "/out/1950234389 - Card title.mp4";
    assert_eq!(action, RunAction::CheckOutput(known.into()));
    assert_eq!(run.step(&cfg, &card(None), RunEvent::Output(None)), RunAction::Resolve);
    let video = ResolvedVideo {
        title: "Page title".into(),
        source_url: "https://cdn/x.mp4".into(),
        hd: true,
    };
    assert_eq!(
        run.step(&cfg, &card(None), RunEvent::Resolved(video)),
        RunAction::CreateDirectory
    );
    let path = "/out/1950234389 - Page title.mp4";
    assert_eq!(
        run.step(&cfg, &card(None), RunEvent::DirectoryReady),
        RunAction::CheckOutput(path.into())
    );
    assert_eq!(run.step(&cfg, &card(None), RunEvent::Output(None)), RunAction::Transfer);
    assert_eq!(
        run.step(&cfg, &card(None), RunEvent::Transferred(Outcome::Done, 9)),
        RunAction::Complete("Page title".into(), path.into(), 9)
    );
    let queued = task("1950234389");
    let running = started(&queued, &card(None)).unwrap();
    let half = progressed(&running, 5, 10, 2);
    assert_eq!((half.downloaded_bytes, half.total_bytes), (5, 10));
    assert_eq!(percent(5, 10), Some(50));
    assert_eq!(percent(5, 0), None);
    assert_eq!(finish_completed(&half, "t", path, 9).state, TaskState::Completed);
    assert_eq!(finish_failed(&half, "boom").message, "boom");
    let mut cancelled = half.copy();
    cancelled.state = TaskState::Cancelled;
    assert!(finish_stopped(&cancelled).1);
    assert!(!finish_stopped(&half).1);
    assert!(stopped_part(&half, &cfg, &card(None)).ends_with(".part"));
}

#[test]
fn http_same_site_matches_subdomains_only() {
    assert!(same_site(
        "https://www.91porn.com/a",
        "https://www.91porn.com/b"
    ));
    assert!(!same_site("https://evil.com/a", "https://www.91porn.com/b"));
}

#[test]
fn http_referer_uses_origin() {
    assert_eq!(
        origin_of("https://www.91porn.com/view_video.php?viewkey=1").as_deref(),
        Some("https://www.91porn.com/")
    );
}

#[test]
fn configured_cookies_land_in_the_jar() {
    let mut session = Session::new();
    assert!(!session.is_warm());
    let ticket = session.ticket();
    session.mark_warm(&ticket).unwrap();
    assert!(session.is_warm());
    session.set_configured_cookies(
        &Some("PHPSESSID=abc; userid=7".into()),
        "https://www.91porn.com",
    );
    assert!(!session.is_warm(), "new credentials invalidate the session");
    assert_eq!(session.cookies, ["PHPSESSID=abc; Path=/", "userid=7; Path=/"]);
    assert_eq!(session.site, "https://www.91porn.com");
}

#[test]
fn accepts_a_full_cookie_header() {
    let mut session = Session::new();
    session.set_configured_cookies(&Some("Cookie: a=1\nb=2".into()), "https://www.91porn.com");
    assert_eq!(session.cookies, ["a=1; Path=/", "b=2; Path=/"]);
    assert_eq!(split_cookies(&to_chars("a=1; b=2")), ["a=1; Path=/", "b=2; Path=/"]);
}

#[test]
fn http_default_user_agent_agrees_with_the_tls_profile() {
    assert!(DEFAULT_USER_AGENT.contains("Chrome/149."));
}

#[test]
fn obsolete_warmup_cannot_populate_or_warm_reconfigured_cookie_session() {
    for replacement in [Some("account=new".to_string()), None] {
        let mut session = Session::new();
        session.set_configured_cookies(&Some("account=old".into()), "https://site.example");
        let old = session.ticket();
        assert_eq!(session.ensure(&old), Ok(true), "a cold session is warmed");
        session.set_configured_cookies(&replacement, "https://site.example");
        assert!(!session.is_warm());
        assert!(session.mark_warm(&old).is_err());
        assert!(session.reset(&old).is_err());
        assert!(session.check_current(&old).unwrap_err().message().contains("session changed"));
        let new = session.ticket();
        session.mark_warm(&new).unwrap();
        assert!(session.is_warm());
        assert!(session.reset(&old).is_err());
        assert!(session.is_warm());
        assert!(session.ensure(&old).is_err());
        assert_eq!(session.ensure(&new), Ok(false), "a warm session is left alone");
        assert!(session.cookies.iter().all(|c| !c.starts_with("account=old")));
    }
}

#[test]
fn completed_listing_cannot_mark_a_replacement_generation_warm() {
    let mut session = Session::new();
    let old = session.ticket();
    session.set_configured_cookies(&Some("account=new".into()), "https://site.example");
    assert!(session.mark_warm(&old).is_err());
    assert!(!session.is_warm());
    let new = session.ticket();
    session.mark_warm(&new).unwrap();
    session.reset(&new).unwrap();
    assert!(!session.is_warm());
}

#[test]
fn requests_and_responses_of_the_site() {
    assert_eq!(range_header(3, None), "bytes=3-");
    assert_eq!(range_header(3, Some(9)), "bytes=3-9");
    let headers = media_request("https://www.91porn.com/x", "ua", Some((3, None)));
    assert!(headers.iter().any(|h| h.value == "bytes=3-"));
    let page = page_request(&Some("https://www.91porn.com/".into()), "ua");
    assert!(page.iter().any(|h| h.value == "https://www.91porn.com/"));
    assert!(text_response("u", 200, "200 OK", "<html>listing</html>").is_ok());
    assert!(text_response("u", 500, "500 Internal Server Error", "x").is_err());
    let head = |status: u16, content_type: &str| MediaHead {
        status,
        status_line: status.to_string(),
        uri: "u".into(),
        cf_mitigated: None,
        content_type: Some(content_type.into()),
        cf_ray: None,
    };
    assert!(media_response("u", &head(206, "video/mp4")).is_ok());
    assert!(media_response("u", &head(200, "text/html")).is_err());
}

#[test]
fn page_title_wins_over_the_listing_title() {
    assert_eq!(pick_title("Page title", &card(None)), "Page title");
    assert_eq!(pick_title("   ", &card(None)), "Card title");
}

#[test]
fn media_referer_uses_the_site_origin() {
    let cfg = Config::default();
    assert_eq!(media_referer(&cfg, &card(None)), "https://www.91porn.com/");
}

#[test]
fn vid_check_catches_decoy_pages() {
    let page = |vid: Option<&str>| VideoPage {
        title: String::new(),
        source_url: Some("https://cdn/x.mp4".into()),
        vid: vid.map(str::to_string),
    };
    assert!(vid_matches(&card(Some("123")), &page(Some("123"))));
    assert!(!vid_matches(&card(Some("123")), &page(Some("999"))));
    // Without an expected id the check cannot fail.
    assert!(vid_matches(&card(None), &page(Some("999"))));
    assert!(!vid_matches(&card(Some("123")), &page(None)));
}

#[test]
fn pages_are_resolved_in_high_definition_first() {
    let cfg = Config { prefer_hd: true, cookie: "a=1".into(), ..Config::default() };
    let hd = tries_hd(&cfg);
    let (mut run, action) = Resolution::start();
    assert_eq!(action, ResolveAction::EnsureSession);
    let action = run.step(&cfg, &card(None), hd, ResolveEvent::SessionReady);
    assert_eq!(
        action,
        if hd { ResolveAction::FetchHd } else { ResolveAction::FetchStandard }
    );
    let page = VideoPage {
        title: "Page".into(),
        source_url: Some("https://cdn/x.mp4".into()),
        vid: None,
    };
    match run.step(&cfg, &card(None), hd, ResolveEvent::Page(page)) {
        ResolveAction::Finish(video) => {
            assert_eq!(video.title, "Page");
            assert_eq!(video.hd, hd);
        }
        other => panic!("unexpected: {other:?}"),
    }
    let (mut run, _) = Resolution::start();
    assert!(matches!(
        run.step(&cfg, &card(None), hd, ResolveEvent::SessionFailed("down".into())),
        ResolveAction::Fail(_) | ResolveAction::RenewSession | ResolveAction::FetchHd
            | ResolveAction::FetchStandard
    ));
}

const LIST: &str = r#"
    <div class="row">
      <div class="well well-sm videos-text-align">
        <a href="https://www.91porn.com/view_video.php?viewkey=1950234389&page=1&viewtype=basic&category=top">
          <div class="thumb-overlay" id="playvthumb_1235716">
            <img class="img-responsive" src="https://cdn.example/thumb/1235716.jpg" />
            <div class="original-text-icon">91</div>
            <span class="duration">00:28:16</span>
          </div>
          <span class="video-title title-truncate m-t-5">First title</span>
        </a>
        <span class="info">Added:</span> 20 d
      </div>
      <div class="well well-sm videos-text-align">
        <a href="https://www.91porn.com/view_video.php?viewkey=9afa3b490bf4da774963&viewtype=basic">
          <div class="thumb-overlay" id="playvthumb_1239647">
            <img class="img-responsive" src="https://cdn.example/thumb/1239647.jpg" />
            <div class="hd-text-icon">HD</div>
            <span class="duration">00:08:59</span>
          </div>
          <span class="video-title">Second title</span>
        </a>
      </div>
      <div class="well well-sm videos-text-align">
        <a href="https://www.91porn.com/view_video.php?viewkey=1950234389&page=1">
          <img class="img-responsive" src="https://cdn.example/thumb/dup.jpg" />
          <span class="video-title">Duplicate of the first</span>
        </a>
      </div>
      <div class="well well-sm videos-text-align">
        <a href="https://www.91porn.com/view_video.php?viewkey=1874104404&viewtype=basic">
          <div class="thumb-overlay" id="playvthumb_9999999">
            <img class="img-responsive" src="https://cdn.example/thumb/1230000.jpg" />
            <div class="hd-text-icon">HD</div>
          </div>
          <span class="video-title">Stale duplicate block</span>
        </a>
      </div>
      <div class="other"><a href="https://www.91porn.com/v.php?category=top">Not a video</a></div>
    </div>"#;

#[test]
fn scraper_parses_synthetic_cards() {
    let cards = parse_list(LIST);
    assert_eq!(
        cards.len(),
        2,
        "the duplicate, stale and non-video blocks must be dropped"
    );
    assert_eq!(cards[0].id, "1950234389");
    assert_eq!(cards[0].title, "First title");
    assert_eq!(cards[0].duration_secs, Some(28 * 60 + 16));
    assert_eq!(cards[0].rank, Some(1));
    assert_eq!(cards[0].vid.as_deref(), Some("1235716"));
    assert!(cards[0].original);
    assert!(!cards[0].hd);
    assert_eq!(cards[1].id, "9afa3b490bf4da774963");
    assert_eq!(cards[1].rank, Some(2));
    assert!(cards[1].hd);
    assert!(!cards[1].original);
}

#[test]
fn filters_listings_by_quality_and_duration() {
    let hd_only = Config {
        hd_only: true,
        ..Config::default()
    };
    let mut cards = parse_list(LIST);
    apply_filters(&mut cards, &hd_only, &None);
    assert_eq!(cards.len(), 1);
    assert!(cards[0].hd);

    let long = Config {
        min_duration_secs: 600,
        ..Config::default()
    };
    let mut cards = parse_list(LIST);
    apply_filters(&mut cards, &long, &None);
    assert_eq!(cards.len(), 1, "the 8m59s card must be filtered out");
    assert_eq!(cards[0].duration_secs, Some(28 * 60 + 16));

    let filtered = Config {
        title_filter: "second".into(),
        ..Config::default()
    };
    let matcher = filtered.title_matcher().unwrap();
    let mut cards = parse_list(LIST);
    apply_filters(&mut cards, &filtered, &matcher);
    assert_eq!(cards.len(), 1);
    assert_eq!(cards[0].title, "Second title");
}

#[test]
fn drops_cards_whose_ids_disagree() {
    // The live listing embeds a second grid whose video ids and thumbnails
    // disagree; those cards resolve to unrelated videos.
    let cards = parse_list(LIST);
    assert!(
        cards.iter().all(|card| card.id != "1874104404"),
        "the stale duplicate block leaked through"
    );
}

#[test]
fn scraper_video_id_extraction() {
    assert_eq!(
        video_id_from_url("https://www.91porn.com/view_video.php?viewkey=1950234389").as_deref(),
        Some("1950234389")
    );
    assert_eq!(
        video_id_from_url("https://91porn.com/view_video_hd.php?viewkey=d6e29b733398775274a3&x=1")
            .as_deref(),
        Some("d6e29b733398775274a3")
    );
    assert_eq!(
        video_id_from_url("https://www.91porn.com/v.php?category=top"),
        None
    );
    assert_eq!(
        video_id_from_url("https://example.com/view_video.php?viewkey=1"),
        None
    );
    assert_eq!(
        video_id_from_url("https://www.91porn.com/view_video.php?viewkey=bad%20key"),
        None
    );
}

#[test]
fn decodes_strencode2_payloads() {
    let html = r#"<script>document.write(strencode2("%3c%73%6f%75%72%63%65%20%73%72%63%3d%27%68%74%74%70%73%3a%2f%2f%6c%61%2e%62%74%63%36%32%30%2e%63%6f%6d%2f%2f%6d%70%34%33%2f%31%32%33%39%33%39%37%2e%6d%70%34%3f%73%74%3d%61%62%63%26%65%3d%31%26%66%3d%64%65%66%27%20%74%79%70%65%3d%27%76%69%64%65%6f%2f%6d%70%34%27%3e"));</script>"#;
    let page = parse_video_page(html);
    assert_eq!(
        page.source_url.as_deref(),
        Some("https://la.btc620.com//mp43/1239397.mp4?st=abc&e=1&f=def")
    );
}

#[test]
fn ignores_the_commented_out_placeholder() {
    let html = r#"<video>
          <!-- <source src="https://ccm.91p52.com/358999.mp4?st=decoy" type='video/mp4'> -->
          <source src="/real/video.mp4" type='video/mp4'>
        </video>"#;
    assert_eq!(extract_source_url(html).as_deref(), Some("/real/video.mp4"));
}

#[test]
fn reads_the_title_from_the_heading() {
    let html = r#"<div id="videodetails"><h4 class="x">Real title here</h4></div>
          <div id="videodetails"><h4>Video Information<br></h4></div>"#;
    assert_eq!(parse_video_page(html).title, "Real title here");
}

#[test]
fn unescape_handles_bytes_and_code_units() {
    assert_eq!(unescape("%3c%3e"), "<>");
    assert_eq!(unescape("%u4e2d%u6587"), "中文");
    assert_eq!(unescape("%uD83D%uDE00!"), "\u{1F600}!", "a surrogate pair is one character");
    assert_eq!(unescape("a%uD83Db%uDE00"), "ab", "half a pair writes nothing");
    assert_eq!(unescape("100%"), "100%");
    assert_eq!(unescape("%zz"), "%zz");
    assert_eq!(unescape("a+b"), "a+b", "plus is not a space for unescape");
}

#[test]
fn absolute_resolves_relative_urls() {
    assert_eq!(absolute("//cdn.example/a.jpg"), "https://cdn.example/a.jpg");
    assert_eq!(
        absolute("/thumb/1.jpg"),
        "https://www.91porn.com/thumb/1.jpg"
    );
    assert_eq!(absolute("https://x/a.jpg"), "https://x/a.jpg");
}

#[test]
fn decodes_html_entities_in_titles() {
    assert_eq!(entity_decoded("a &quot;b&quot; &#39;c&#39;"), "a \"b\" 'c'");
    assert_eq!(entity_decoded("x &amp; y &lt;z&gt;"), "x & y <z>");
    assert_eq!(entity_decoded("&#x4e2d;&#25991;"), "中文");
    assert_eq!(entity_decoded("  spaced  "), "spaced");
    assert_eq!(entity_decoded("&unknown; stays"), "&unknown; stays");
}

#[test]
fn sources_are_resolved_against_their_page() {
    let page = "https://www.91porn.com/view_video.php?viewkey=1";
    assert_eq!(
        media_source(page, &Some("/real/video.mp4".into())).unwrap(),
        "https://www.91porn.com/real/video.mp4"
    );
    assert_eq!(media_source(page, &None), Err(SourceError::Missing));
    assert_eq!(
        media_source(page, &Some("ftp://x/a.mp4".into())),
        Err(SourceError::Scheme)
    );
    assert_eq!(
        media_source(page, &Some("https://[".into())),
        Err(SourceError::InvalidUrl("invalid IPv6 address".into()))
    );
}

#[test]
fn util_sanitize_replaces_reserved_characters() {
    assert_eq!(
        sanitize_filename("a/b:c*d?e\"f<g>h|i\\j"),
        "a_b_c_d_e_f_g_h_i_j"
    );
    assert_eq!(sanitize_filename("  ..name..  "), "name");
}

#[test]
fn util_sanitize_truncates_on_char_boundary() {
    let long = "あ".repeat(200);
    let out = sanitize_filename(&long);
    assert!(out.len() <= 180);
    assert!(out.chars().all(|c| c == 'あ'));
}

fn mp4_box(kind: &[u8; 4], body: &[u8]) -> Vec<u8> {
    let mut out = ((body.len() + 8) as u32).to_be_bytes().to_vec();
    out.extend(kind);
    out.extend(body);
    out
}

#[test]
fn dimensions_are_read_from_track_headers() {
    let mut header = vec![0u8; 84];
    header[76..80].copy_from_slice(&(1280u32 << 16).to_be_bytes());
    header[80..84].copy_from_slice(&(720u32 << 16).to_be_bytes());
    let track = |header: &[u8], handler: &[u8; 4]| {
        let mut body = vec![0u8; 8];
        body.extend(handler);
        let mut track = mp4_box(b"tkhd", header);
        track.extend(mp4_box(b"mdia", &mp4_box(b"hdlr", &body)));
        mp4_box(b"trak", &track)
    };
    let moov = track(&header, b"vide");
    assert_eq!(track_dimensions(&moov), Some((1280, 720)));
    assert_eq!(track_dimensions(&track(&header, b"soun")), None);
    assert_eq!(track_dimensions(&track(&[0; 84], b"vide")), None);
    assert_eq!(boxes(&moov).len(), 1);
    assert_eq!(box_header(&moov), Some((moov.len() as u64, 8)));
    assert_eq!(box_header(&[0; 4]), None);
}

#[test]
fn metadata_is_searched_box_by_box() {
    let mut search = Search::start();
    let mut ftyp = mp4_box(b"ftyp", &[0; 24]);
    ftyp.truncate(16);
    assert_eq!(search.step(&ftyp), SearchStep::Probe(32));
    let mut moov = mp4_box(b"moov", &[0; 92]);
    moov.truncate(16);
    assert_eq!(search.step(&moov), SearchStep::Read(40, 92));
    assert_eq!(Search::start().step(&[]), SearchStep::BadHeader);
    assert_eq!(Search::start().step(&mp4_box(b"moov", &[])), SearchStep::Empty);
    assert_eq!(
        Search::start().step(&[0, 0x40, 0, 1, b'm', b'o', b'o', b'v']),
        SearchStep::TooLarge
    );
    let mut end = Search { offset: u64::MAX, seen: 0 };
    assert_eq!(end.step(&mp4_box(b"free", &[])), SearchStep::Overflow);
    let mut last = Search { offset: 0, seen: 31 };
    assert_eq!(last.step(&mp4_box(b"free", &[])), SearchStep::NotFound);
    assert_eq!(range_end(16, 16), Some(31));
    assert_eq!(range_end(u64::MAX, 2), None);
    assert!(range_ok(206, &Some("bytes 16-31/100".into()), 16));
    assert!(!range_ok(206, &Some("bytes 0-15/100".into()), 16));
    assert!(!range_ok(404, &None, 16));
}

#[test]
fn records_tell_what_came_of_a_video() {
    let done = completed_record("1", "u", "t", Some(1), "/out/x.mp4", 5, 9);
    assert_eq!((done.status.as_str(), done.size, done.error), ("completed", 5, None));
    let failed = failed_record("1", "u", "t", None, "boom", 9);
    assert_eq!(failed.status, "failed");
    assert_eq!(failed.error.as_deref(), Some("boom"));
}

#[test]
fn pages_and_listings_without_videos_are_errors() {
    let cfg = Config::default();
    assert!(fetch_popular(&cfg, 1, "<html></html>")
        .unwrap_err()
        .starts_with("no videos parsed from https://www.91porn.com/v.php?category=top"));
    assert_eq!(fetch_popular(&cfg, 1, LIST).unwrap().len(), 2);
    let hd = Config { hd_only: true, ..Config::default() };
    assert_eq!(fetch_popular(&hd, 1, LIST).unwrap().len(), 1);
    let url = "https://www.91porn.com/view_video.php?viewkey=1";
    let page = fetch_video_page(url, "<source src='/a.mp4?x=1&amp;y=2' type='video/mp4'>").unwrap();
    assert_eq!(
        page.source_url.as_deref(),
        Some("https://www.91porn.com/a.mp4?x=1&y=2")
    );
    assert_eq!(
        fetch_video_page(url, "<html></html>").unwrap_err(),
        format!("no video source found on {url} — the player markup may have changed")
    );
    assert_eq!(
        fetch_video_page(url, "<source src='ftp://x/a.mp4' type='video/mp4'>").unwrap_err(),
        "invalid media URL scheme"
    );
    let common = AppConfig { p91_download_path: "/out".into(), ..AppConfig::default() };
    assert_eq!(config_with_paths(&cfg, &common).save_path, "/out");
    assert_eq!(update_config(&cfg, &cfg, false), Ok(false));
    assert!(update_config(&cfg, &cfg, true).is_err());
}
