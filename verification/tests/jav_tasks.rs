use media_downloader::configuration::app::Config as AppConfig;
use media_downloader::configuration::jav::Config;
use media_downloader::configuration::listing::ListingLink;
use media_downloader::jav::api::{
    cancel_task, check_access, check_config, default_page, dismiss_task, in_progress, list_videos,
    listing_config, pause_task, refresh_cookie, resolve_target, resume_task, stop_all_answer, submit,
    with_sort, ApiError, Submission, Submitted,
};
use media_downloader::jav::app::{
    config_with_paths, settings_change, update_config, SlotStep, TaskInfo, TaskRegistry, TaskState,
};
use media_downloader::jav::scheduler::{
    crashed, fulfilled, left_over, link_summary, resume_all, resumed_card, Daily, DailyEvent,
    DailyStep, Ended, Waiting, WorkerEnd,
};
use media_downloader::jav::source::scraper::VideoCard;
use media_downloader::table::Table;

fn task(id: &str) -> TaskInfo {
    TaskInfo::new(id, "u", 1)
}

/// Change what is known of a task.
fn update(registry: &mut TaskRegistry, id: &str, change: impl FnOnce(&mut TaskInfo)) {
    if let Some(mut info) = registry.task(id) {
        change(&mut info);
        registry.update_task(info, 2);
    }
}

#[test]
fn refuses_duplicate_running_tasks() {
    let mut registry = TaskRegistry::new();
    let mut info = task("1");
    info.state = TaskState::Running;
    assert!(registry.register_task(info, true).is_some());
    assert!(registry.register_task(task("1"), true).is_none());
}

#[test]
fn allows_retry_after_terminal_state() {
    let mut registry = TaskRegistry::new();
    let mut info = task("1");
    info.state = TaskState::Failed;
    assert!(registry.register_task(info, true).is_some());
    assert!(registry.register_task(task("1"), true).is_some());
}

#[test]
fn slots_observe_live_capacity_and_queued_cancellation() {
    let mut registry = TaskRegistry::new();
    let requests: Vec<_> = ["1", "2", "3"]
        .into_iter()
        .map(|id| registry.register_task(task(id), true).unwrap())
        .collect();
    assert_eq!(registry.activate("1", &requests[0], true), SlotStep::Compete);
    assert_eq!(registry.slot_limit("1", &requests[0], 1), Some(1));
    assert_eq!(registry.slot_limit("2", &requests[1], 2), Some(2), "the live setting counts");
    assert_eq!(registry.slot_limit("2", &requests[1], 0), Some(1));
    assert_eq!(registry.slot_limit("2", &requests[1], 99), Some(8));
    assert_eq!(registry.slot_limit("3", &requests[2], 2), Some(2));
    update(&mut registry, "3", |task| task.state = TaskState::Cancelled);
    assert_eq!(registry.slot_limit("3", &requests[2], 2), None);
}

#[test]
fn queued_resume_retires_old_waiter_and_cancellation_retires_restart() {
    let mut registry = TaskRegistry::new();
    let old = registry.register_task(task("1"), true).unwrap();
    assert_eq!(registry.activate("1", &old, true), SlotStep::Compete);
    assert!(registry.stop_task("1", false, 2));
    let (_, restart) = registry.request_resume("1", 3).unwrap();
    assert!(registry.request_resume("1", 3).is_none());
    assert_eq!(registry.activate("1", &restart, false), SlotStep::Wait);
    assert_eq!(registry.activate("1", &old, false), SlotStep::Withdrawn);
    assert!(registry.stop_task("1", true, 4));
    assert_eq!(registry.activate("1", &restart, false), SlotStep::Withdrawn);
    assert_eq!(registry.task_state("1"), Some(TaskState::Cancelled));
    let (_, retry) = registry.request_resume("1", 5).unwrap();
    assert_eq!(registry.activate("1", &retry, true), SlotStep::Compete);
    assert!(registry.slot_limit("1", &retry, 1).is_some());
}

#[test]
fn resume_all_uses_deferred_owner_and_cancel_all_withdraws_restart() {
    let mut registry = TaskRegistry::new();
    let request = registry.register_task(task("fixture"), true).unwrap();
    assert_eq!(registry.activate("fixture", &request, true), SlotStep::Compete);
    update(&mut registry, "fixture", |task| task.state = TaskState::Running);
    assert!(registry.stop_task("fixture", false, 3));
    assert_eq!(resume_all(&registry), ["fixture"]);
    let (_, restart) = registry.request_resume("fixture", 4).unwrap();
    assert!(registry.request_resume("fixture", 4).is_none());
    assert_eq!(registry.task_state("fixture"), Some(TaskState::Paused));
    assert!(registry.register_task(task("fixture"), false).is_none());
    assert_eq!(registry.activate("fixture", &restart, true), SlotStep::Compete);
    assert_eq!(registry.task_state("fixture"), Some(TaskState::Queued));
    update(&mut registry, "fixture", |task| task.state = TaskState::Running);
    assert_eq!(registry.stop_all(false, 5), 0);
    let (_, again) = registry.request_resume("fixture", 6).unwrap();
    assert_eq!(registry.stop_all(true, 7), 0);
    assert_eq!(registry.activate("fixture", &again, true), SlotStep::Withdrawn);
    assert_eq!(registry.task_state("fixture"), Some(TaskState::Cancelled));
    assert!(registry.take_daily_cancel());
}

#[test]
fn pending_failed_retry_survives_clear_and_stale_scheduler_publication() {
    let mut registry = TaskRegistry::new();
    let old = registry.register_task(task("1"), true).unwrap();
    update(&mut registry, "1", |task| task.state = TaskState::Failed);
    let (_, restart) = registry.request_resume("1", 3).unwrap();
    assert_eq!(registry.clear_failed_tasks(), 0);
    assert!(!registry.drop_task("1"));
    let mut stale = registry.task("1").unwrap();
    stale.state = TaskState::Cancelled;
    registry.update_request(&old, stale, 4);
    assert_eq!(registry.task_state("1"), Some(TaskState::Failed));
    assert_eq!(registry.activate("1", &restart, true), SlotStep::Compete);
    assert_eq!(registry.task_state("1"), Some(TaskState::Queued));
    assert!(registry.stop_task("1", false, 5));
    let replacement = registry.register_task(TaskInfo::new("1", "other", 6), true).unwrap();
    assert_eq!(registry.activate("1", &restart, true), SlotStep::Withdrawn);
    assert_eq!(registry.activate("1", &replacement, true), SlotStep::Compete);
}

#[test]
fn copy_state_and_running_count_match_registry() {
    let mut registry = TaskRegistry::new();
    assert!(registry.register_task(task("1"), true).is_some());
    assert!(registry.register_task(task("2"), true).is_some());
    update(&mut registry, "1", |task| task.state = TaskState::Running);
    assert_eq!(
        registry.task_state("1"),
        registry.task("1").map(|task| task.state)
    );
    assert_eq!(registry.task_state("missing"), None);
    assert_eq!(registry.running_task_count(), 1);
    update(&mut registry, "1", |task| task.state = TaskState::Paused);
    assert_eq!(registry.running_task_count(), 0);
}

#[test]
fn daily_cancel_flag_is_one_shot() {
    let mut registry = TaskRegistry::new();
    assert!(!registry.take_daily_cancel());
    registry.request_daily_cancel();
    assert!(registry.take_daily_cancel());
    assert!(!registry.take_daily_cancel());
}

#[test]
fn terminal_commit_stop_routes_return_honest_existing_error_envelope() {
    let mut registry = TaskRegistry::new();
    let mut info = task("fixture");
    info.state = TaskState::Running;
    assert!(registry.register_task(info, true).is_some());
    assert!(registry.begin_terminal_commit("fixture"));
    let mut errors = vec![
        pause_task(&mut registry, "fixture", 2).unwrap_err(),
        cancel_task(&mut registry, "fixture", 2).unwrap_err(),
    ];
    let refused = registry.stop_all(false, 2);
    errors.push(stop_all_answer(refused).unwrap_err());
    let refused = registry.stop_all(true, 2);
    errors.push(stop_all_answer(refused).unwrap_err());
    for error in errors {
        assert_eq!(error.status, 400);
        assert!(error.message.contains("finalizing"));
        assert!(error.message.contains("rejected"));
    }
    assert_eq!(registry.task_state("fixture"), Some(TaskState::Running));
    registry.end_terminal_commit("fixture");
    assert!(pause_task(&mut registry, "fixture", 3).is_ok());
}

#[test]
fn stops_before_terminal_commit_win_over_success_and_failure() {
    for cancel in [false, true] {
        let mut registry = TaskRegistry::new();
        let mut info = task("1");
        info.state = TaskState::Running;
        registry.register_task(info, true);
        assert!(registry.stop_task("1", cancel, 2));
        assert!(!registry.begin_terminal_commit("1"));
    }
}

#[test]
fn a_shutdown_stops_everything() {
    let mut registry = TaskRegistry::new();
    let waiting = registry.register_task(task("1"), true).unwrap();
    registry.begin_shutdown();
    assert!(registry.register_task(task("2"), true).is_none());
    assert_eq!(registry.slot_limit("1", &waiting, 4), None);
    assert!(registry.request_resume("1", 2).is_none());
}

#[test]
fn tasks_are_listed_latest_first() {
    let mut registry = TaskRegistry::new();
    for (id, now) in [("a", 3), ("b", 5), ("c", 4)] {
        registry.register_task(TaskInfo::new(id, "u", now), true);
    }
    let ids: Vec<String> = registry.tasks().into_iter().map(|t| t.id).collect();
    assert_eq!(ids, ["b", "c", "a"]);
    let mut done = registry.task("b").unwrap();
    done.state = TaskState::Completed;
    registry.update_task(done, 6);
    let ids: Vec<String> = registry.visible_tasks().into_iter().map(|t| t.id).collect();
    assert_eq!(ids, ["c", "a"]);
    registry.prune_history(6);
    assert!(registry.task("b").is_none());
    assert!(registry.task("a").is_some());
}

#[test]
fn dismissed_tasks_are_finished() {
    let mut registry = TaskRegistry::new();
    registry.register_task(task("1"), true);
    assert_eq!(dismiss_task(&mut registry, "2").unwrap_err().status, 404);
    assert_eq!(dismiss_task(&mut registry, "1").unwrap_err().status, 400);
    assert!(in_progress(&registry, "1"));
    assert!(cancel_task(&mut registry, "1", 2).is_ok());
    assert!(!in_progress(&registry, "1"));
    let (card, _) = resume_task(&mut registry, "1", 3).unwrap();
    assert_eq!((card.id.as_str(), card.url.as_str(), card.rank), ("1", "u", None));
    let refused = resume_task(&mut registry, "1", 3).unwrap_err();
    assert_eq!((refused.status, refused.message.as_str()), (400, "task cannot be resumed"));
    assert!(cancel_task(&mut registry, "1", 4).is_ok());
    assert!(dismiss_task(&mut registry, "1").is_ok());
    assert!(registry.task("1").is_none());
    assert_eq!(pause_task(&mut registry, "1", 2).unwrap_err().message, "no such task");
}

fn submission(id: Option<&str>, url: Option<&str>) -> Submission {
    Submission {
        id: id.map(str::to_string),
        url: url.map(str::to_string),
        title: Some("Title".into()),
        rank: None,
    }
}

#[test]
fn submissions_name_one_video() {
    let cfg = Config::default();
    let url = "https://missav.ai/cn/abp-123";
    assert_eq!(
        resolve_target(&cfg, &submission(Some("abp-123"), None)).unwrap(),
        ("abp-123".into(), url.into())
    );
    assert_eq!(
        resolve_target(&cfg, &submission(None, Some(url))).unwrap().0,
        "abp-123"
    );
    assert!(resolve_target(&cfg, &submission(Some("abp-124"), Some(url))).is_err());
    assert!(resolve_target(&cfg, &submission(None, Some("https://missav.ai/vip"))).is_err());
    assert_eq!(
        resolve_target(&cfg, &submission(None, None)).unwrap_err().message,
        "id or url is required"
    );
    let mut registry = TaskRegistry::new();
    let s = submission(Some("abp-123"), Some(url));
    let send = |registry: &mut TaskRegistry, completed: bool, closed: bool| {
        submit(registry, &s, "abp-123".into(), url.into(), completed, true, closed, 1)
    };
    assert!(matches!(
        send(&mut registry, true, false),
        Ok(Submitted::AlreadyDownloaded(_))
    ));
    assert!(send(&mut registry, false, true).is_err());
    match send(&mut registry, false, false) {
        Ok(Submitted::Started(card, _)) => assert_eq!(card.title, "Title"),
        other => panic!("unexpected: {other:?}"),
    }
    assert!(matches!(
        send(&mut registry, false, false),
        Ok(Submitted::AlreadyRunning(_))
    ));
}

#[test]
fn listings_are_sorted_by_their_address() {
    assert_eq!(
        with_sort("https://missav.ai/dm597/cn/fc2?sort=weekly_views&a=1", "today_views").unwrap(),
        "https://missav.ai/dm597/cn/fc2?a=1&sort=today_views"
    );
    assert_eq!(
        with_sort("https://missav.ai/dm597/cn/fc2?sort=weekly_views", "").unwrap(),
        "https://missav.ai/dm597/cn/fc2"
    );
    assert_eq!(
        with_sort("https://missav.ai/", "random").unwrap_err().message,
        "unknown listing sort"
    );
    let cfg = Config::default();
    assert_eq!(listing_config(&cfg, 7, &None).unwrap_err().message, "unknown ranking link");
    let sorted = listing_config(&cfg, 0, &Some("today_views".into())).unwrap();
    assert!(sorted.popular_path.ends_with("?sort=today_views"));
    assert_eq!(default_page(), 1);
}

#[test]
fn tokens_are_left_for_submissions() {
    let mut registry = TaskRegistry::new();
    assert!(registry.can_issue());
    assert!(registry.register_task(task("1"), true).is_some());
    assert!(registry.can_issue());
}

#[test]
fn settings_out_of_bounds_are_refused() {
    assert!(check_config(&Config::default(), true).is_ok());
    let message = |cfg: Config| check_config(&cfg, true).unwrap_err().message;
    let unlike = |cfg: Config| check_config(&cfg, false).unwrap_err().message;
    assert_eq!(
        unlike(Config { max_pages: 0, ..Config::default() }),
        "max_pages must be 1..=20"
    );
    assert_eq!(
        unlike(Config { segment_concurrency: 0, ..Config::default() }),
        "min_duration_secs must be nonnegative"
    );
    assert_eq!(
        message(Config { segment_concurrency: 0, ..Config::default() }),
        "segment_concurrency must be 1..=32"
    );
    assert_eq!(
        message(Config { top_n: 0, ..Config::default() }),
        "top_n must be 1..=100"
    );
    let bad = Config {
        title_filter: "[".into(),
        title_filter_regex: true,
        ..Config::default()
    };
    assert!(message(bad).starts_with("invalid title filter regex: regex parse error:"));
    let elsewhere = Config {
        links: vec![ListingLink { url: "https://[".into(), daily_quota: 5 }],
        ..Config::default()
    };
    assert_eq!(message(elsewhere), "invalid ranking link: invalid IPv6 address");
    let change = settings_change(
        &Config { cookie: "new".into(), ..Config::default() },
        &Config::default(),
    );
    assert!(change.credentials);
    assert!(!change.browser);
}

fn card(id: &str) -> VideoCard {
    VideoCard {
        id: id.into(),
        url: format!("https://missav.ai/cn/{id}"),
        title: id.into(),
        image_url: String::new(),
        duration_secs: None,
        rank: None,
    }
}

fn daily(quota: usize, workers: usize) -> Daily {
    Daily::new(&Config {
        links: vec![ListingLink { url: "/dm1/cn/a".into(), daily_quota: quota }],
        concurrent_videos: workers,
        ..Config::default()
    })
}

fn ended(index: usize, waiting: &Waiting, end: WorkerEnd) -> DailyEvent {
    DailyEvent::Ended(Ended { index, id: waiting.card.id.clone(), request: waiting.request, end })
}

fn looked(completed: bool) -> DailyEvent {
    DailyEvent::Looked { completed, idle: true }
}

#[test]
fn the_daily_job_fills_its_quota_and_no_more() {
    let mut registry = TaskRegistry::new();
    let mut run = daily(2, 2);
    let step = run.step(&mut registry, DailyEvent::Begun, 1);
    assert!(matches!(step, DailyStep::Fetch(0, 1)));
    let cards = vec![card("abp-1"), card("abp-2"), card("abp-2"), card("abp-3"), card("abp-4")];
    let step = run.step(&mut registry, DailyEvent::Listed(cards), 1);
    assert!(matches!(step, DailyStep::Consider(0)));
    assert_eq!(run.links[0].candidate.as_ref().unwrap().id, "abp-1");
    assert!(matches!(run.step(&mut registry, looked(true), 1), DailyStep::Consider(0)));
    assert_eq!(run.links[0].report.skipped, 1);
    assert!(matches!(run.step(&mut registry, looked(false), 1), DailyStep::Consider(0)));
    assert_eq!(run.links[0].candidate.as_ref().unwrap().id, "abp-3");
    let DailyStep::Start(0, first) = run.step(&mut registry, looked(false), 1) else {
        panic!("nothing was started");
    };
    let DailyStep::Start(0, second) = run.step(&mut registry, DailyEvent::Started, 1) else {
        panic!("nothing was started");
    };
    assert_eq!((first.card.id.as_str(), second.card.id.as_str()), ("abp-2", "abp-3"));
    assert!(matches!(run.step(&mut registry, DailyEvent::Started, 1), DailyStep::Wait));
    let end = ended(0, &first, WorkerEnd::Returned { completed: true });
    assert!(matches!(run.step(&mut registry, end, 2), DailyStep::Wait));
    let end = ended(0, &second, WorkerEnd::Crashed("panic".into()));
    assert!(matches!(run.step(&mut registry, end, 3), DailyStep::Consider(0)));
    assert_eq!(registry.task("abp-3").unwrap().message, "download worker failed: panic");
    assert_eq!(run.links[0].candidate.as_ref().unwrap().id, "abp-4");
    let DailyStep::Start(0, third) = run.step(&mut registry, looked(false), 3) else {
        panic!("nothing was started");
    };
    assert!(matches!(run.step(&mut registry, DailyEvent::Started, 3), DailyStep::Wait));
    let end = ended(0, &third, WorkerEnd::Returned { completed: true });
    assert!(matches!(run.step(&mut registry, end, 4), DailyStep::Done));
    let (report, target) = run.totals();
    assert_eq!((report.completed, report.failed, target), (2, 1, 2));
    assert!(fulfilled(&report, target));
    assert_eq!(
        run.summary("manual", &report, target),
        "manual: 2/2 completed, 3 attempted, 1 failed, 1 skipped; /dm1/cn/a: 2/2 completed"
    );
    assert_eq!(link_summary(&run.links[0], false), "/dm1/cn/a: 2/2 completed");
}

#[test]
fn listings_that_fail_are_reported() {
    let mut registry = TaskRegistry::new();
    let mut run = daily(1, 1);
    run.step(&mut registry, DailyEvent::Begun, 1);
    let step = run.step(&mut registry, DailyEvent::Unlisted("HTTP 500".into()), 1);
    assert!(matches!(step, DailyStep::Done));
    assert_eq!(run.links[0].error.as_deref(), Some("HTTP 500"));
    assert_eq!(
        link_summary(&run.links[0], false),
        "/dm1/cn/a: 0/1 completed; listing failed: HTTP 500"
    );
}

#[test]
fn exhausted_listings_end_a_run() {
    let mut registry = TaskRegistry::new();
    let mut run = daily(1, 1);
    run.step(&mut registry, DailyEvent::Begun, 1);
    let step = run.step(&mut registry, DailyEvent::Listed(Vec::new()), 1);
    assert!(matches!(step, DailyStep::Fetch(0, 2)));
    let step = run.step(&mut registry, DailyEvent::Listed(Vec::new()), 1);
    assert!(matches!(step, DailyStep::Done));
    assert_eq!(
        link_summary(&run.links[0], false),
        "/dm1/cn/a: 0/1 completed; not enough eligible videos within 2 listing page(s)"
    );
}

#[test]
fn stopped_runs_start_nothing_and_leave_nothing_waiting() {
    let mut registry = TaskRegistry::new();
    let mut run = daily(2, 1);
    run.step(&mut registry, DailyEvent::Begun, 1);
    run.step(&mut registry, DailyEvent::Listed(vec![card("abp-1"), card("abp-2")]), 1);
    run.step(&mut registry, looked(false), 1);
    let DailyStep::Start(0, first) = run.step(&mut registry, looked(false), 1) else {
        panic!("nothing was started");
    };
    assert!(matches!(run.step(&mut registry, DailyEvent::Started, 1), DailyStep::Wait));
    assert!(registry.stop_task("abp-1", false, 2));
    let end = ended(0, &first, WorkerEnd::Returned { completed: false });
    assert!(matches!(run.step(&mut registry, end, 2), DailyStep::Done));
    assert!(run.stopped);
    assert_eq!(registry.task_state("abp-2"), Some(TaskState::Queued));
    run.put_back(&mut registry, 3);
    let left = registry.task("abp-2").unwrap();
    assert_eq!((left.state, left.updated_at), (TaskState::Paused, 3));
    assert_eq!(left.message, "daily run stopped; resume to download");
    let (report, target) = run.totals();
    assert_eq!(report.failed, 0);
    assert_eq!(
        run.summary("manual", &report, target),
        "manual: 0/2 completed, 1 attempted, 0 failed, 0 skipped; /dm1/cn/a: 0/2 completed; \
         stopped by user"
    );
}

#[test]
fn a_requested_stop_is_taken_once() {
    let mut registry = TaskRegistry::new();
    registry.request_daily_cancel();
    let mut run = daily(1, 1);
    assert!(matches!(run.step(&mut registry, DailyEvent::Begun, 1), DailyStep::Fetch(0, 1)));
    registry.request_daily_cancel();
    let step = run.step(&mut registry, DailyEvent::Listed(vec![card("abp-1")]), 1);
    assert!(matches!(step, DailyStep::Done));
    assert!(run.stopped);
    assert!(!registry.take_daily_cancel());
    let mut next = daily(1, 1);
    assert!(matches!(next.step(&mut registry, DailyEvent::Begun, 1), DailyStep::Fetch(0, 1)));
    assert!(matches!(next.step(&mut registry, DailyEvent::Interrupted, 1), DailyStep::Done));
}

#[test]
fn a_video_stopped_while_it_waits_stops_the_run() {
    let mut registry = TaskRegistry::new();
    let mut run = daily(2, 1);
    run.step(&mut registry, DailyEvent::Begun, 1);
    run.step(&mut registry, DailyEvent::Listed(vec![card("abp-1"), card("abp-2")]), 1);
    run.step(&mut registry, looked(false), 1);
    assert!(registry.stop_task("abp-1", true, 1));
    assert!(matches!(run.step(&mut registry, looked(false), 1), DailyStep::Done));
    assert!(run.stopped);
    assert_eq!(run.links[0].queued.len(), 1);
}

#[test]
fn tasks_left_over_by_a_stopped_run_can_be_resumed() {
    let waiting = task("1");
    let paused = left_over(&waiting);
    assert_eq!(paused.state, TaskState::Paused);
    let lost = crashed(&waiting, "panic");
    assert_eq!(lost.message, "download worker failed: panic");
    assert_eq!(left_over(&lost).state, TaskState::Failed);
    assert_eq!(resumed_card(&paused).id, "1");
}

#[test]
fn listings_tell_what_is_known_of_their_videos() {
    let mut registry = TaskRegistry::new();
    registry.register_task(task("abp-2"), true);
    let mut downloaded: Table<bool> = Table::new();
    downloaded.insert("abp-1", true);
    let entries = list_videos(&vec![card("abp-1"), card("abp-2")], &downloaded, &registry);
    assert!(entries[0].downloaded && !entries[0].in_progress);
    assert!(!entries[1].downloaded && entries[1].in_progress);
    assert!(check_access(false, true).is_ok());
    assert_eq!(check_access(false, false).unwrap_err().status, 400);
    assert!(refresh_cookie(false).unwrap_err().message.contains("minting is disabled"));
    assert_eq!(ApiError::internal("x").status, 500);
}

#[test]
fn settings_live_under_the_common_ones() {
    let common = AppConfig {
        jav_download_path: "/out".into(),
        temp_path: "/tmp/p".into(),
        ..AppConfig::default()
    };
    let cfg = config_with_paths(&Config::default(), &common);
    assert_eq!((cfg.save_path.as_str(), cfg.temp_path.as_str()), ("/out", "/tmp/p"));
    assert_eq!(cfg.popular_path, Config::default().popular_path);
    assert!(update_config(&cfg, &Config::default(), true).is_err());
    let change = update_config(&cfg, &Config::default(), false).unwrap();
    assert!(!change.browser && !change.credentials);
}
