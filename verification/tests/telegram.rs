use media_downloader::configuration::telegram::{ChatConfig, Config};
use media_downloader::storage::telegram::{
    cutoff, retention_ms, to_signed, to_unsigned, AppData, ChatData,
};
use media_downloader::table::Table;
use media_downloader::telegram::auth::{begin, step, AuthAction, AuthEvent, AuthPhase};
use media_downloader::telegram::flood::flood_wait_secs;
use media_downloader::telegram::login::{Login, LoginInput, SubmitError};
use media_downloader::telegram::scan::{
    after_chat, breaks_off, chat_ref, is_wanted, listing_pause, media_matches_config, passes_filter,
    scan_of, scan_step, subscribe_chat, ChatRef, MediaKind,
    ChatScan, CycleStep, DownloadEnd, MessageInfo, MessageStep, ScanAction, ScanEvent, ScanPhase,
    Value,
};
use media_downloader::telegram::setup::{
    configured, credentials_question, read_credentials, replaces_credentials, retry_message,
};
use media_downloader::telegram::worker::{
    already_subscribed, check_message, dialog_chat, found_message, move_cursor, request_begins, request_ended,
    ChatRequest, ChatTarget, FoundMessage, Phase, RequestEnd, Worker, WorkerAction, WorkerEvent,
};

#[test]
fn flood_wait_parses_grammers_value_form() {
    // The exact format grammers emitted in the wild.
    let err = "request error: rpc error 420: FLOOD_WAIT caused by \
               auth.sendCode (value: 225)";
    assert_eq!(flood_wait_secs(err), Some(225));
}

#[test]
fn flood_wait_parses_raw_error_type() {
    assert_eq!(flood_wait_secs("rpc error 420: FLOOD_WAIT_90"), Some(90));
}

#[test]
fn flood_wait_non_flood_error_is_none() {
    assert_eq!(
        flood_wait_secs("rpc error 401: AUTH_KEY_UNREGISTERED"),
        None
    );
}

#[test]
fn flood_wait_unreadable_defaults_to_60() {
    assert_eq!(flood_wait_secs("FLOOD_WAIT (no number given)"), Some(60));
}

#[test]
fn listings_pause_for_a_flood_or_a_second() {
    assert_eq!(listing_pause("FLOOD_WAIT_17"), 17);
    assert_eq!(listing_pause("connection reset"), 1);
}

fn input(id: u64, value: &str) -> LoginInput {
    LoginInput { id, value: value.into(), api_hash: String::new() }
}

#[test]
fn answers_belong_to_the_question_that_is_asked() {
    let mut login = Login::default();
    assert_eq!(login.snapshot.step, "working");
    assert_eq!(login.submit(&input(0, "x"), true), Err(SubmitError::Processing));
    login.login_prompt("phone", "Your number?");
    assert_eq!(login.snapshot.id, 1);
    assert_eq!(login.submit(&input(1, ""), true), Err(SubmitError::Invalid));
    assert_eq!(
        login.submit(&input(1, &"x".repeat(1025)), true),
        Err(SubmitError::Invalid)
    );
    assert_eq!(
        login.submit(&input(1, &"あ".repeat(342)), true),
        Err(SubmitError::Invalid),
        "lengths are in bytes"
    );
    assert_eq!(login.submit(&input(0, "x"), true), Err(SubmitError::Changed));
    assert_eq!(login.submit(&input(1, "x"), true), Ok(()));
    assert_eq!(login.snapshot.step, "working");
    assert_eq!(login.snapshot.message, "Connecting to Telegram…");
    assert_eq!(login.submit(&input(1, "x"), true), Err(SubmitError::Processing));
    login.login_prompt("code", "The code?");
    assert_eq!(login.submit(&input(2, "x"), false), Err(SubmitError::Gone));
    login.login_prompt("code", "The code?");
    login.login_status("ready", "Connected to Telegram");
    assert_eq!(login.submit(&input(3, "x"), true), Err(SubmitError::Processing));
    assert_eq!(SubmitError::Invalid.status(), 400);
    assert_eq!(SubmitError::Changed.status(), 409);
    assert_eq!(SubmitError::Gone.message(), "Login is no longer waiting");
}

#[test]
fn signing_in_asks_for_number_code_and_password() {
    let (phase, action) = begin();
    assert!(matches!(action, AuthAction::Prompt("phone", _)));
    let (phase, action) = step(phase, AuthEvent::Input(" +49 1 ".into()));
    assert_eq!(action, AuthAction::RequestCode("+49 1".into()));
    let (phase, action) = step(phase, AuthEvent::Failed("FLOOD_WAIT_7".into()));
    assert_eq!(
        action,
        AuthAction::Pause(
            "Telegram asks you to wait 7 seconds before trying again.".into(),
            7
        )
    );
    let (phase, action) = step(phase, AuthEvent::Paused);
    assert_eq!(
        action,
        AuthAction::Prompt("phone", "You can now request a new login code.")
    );
    let (phase, _) = step(phase, AuthEvent::Input("+49 1".into()));
    let (phase, action) = step(phase, AuthEvent::CodeSent);
    assert!(matches!(action, AuthAction::Prompt("code", _)));
    let (phase, action) = step(phase, AuthEvent::Input(" 12 ".into()));
    assert_eq!(action, AuthAction::SignIn("12".into()));
    let (phase, action) = step(phase, AuthEvent::InvalidCode);
    assert!(matches!(action, AuthAction::Prompt("code", _)));
    let (phase, _) = step(phase, AuthEvent::Input("13".into()));
    let (phase, _) = step(phase, AuthEvent::PasswordRequired);
    let (phase, action) = step(phase, AuthEvent::Input(" secret ".into()));
    assert_eq!(action, AuthAction::CheckPassword(" secret ".into()));
    let (phase, _) = step(phase, AuthEvent::InvalidPassword);
    assert_eq!(phase, AuthPhase::Password);
    let (phase, _) = step(phase, AuthEvent::Input("other".into()));
    let (phase, action) = step(phase, AuthEvent::SignedIn);
    assert_eq!((phase, action), (AuthPhase::Over, AuthAction::Done));
    let (phase, action) = step(AuthPhase::Sending, AuthEvent::Failed("no network".into()));
    assert_eq!(phase, AuthPhase::Over);
    assert_eq!(action, AuthAction::Fail("no network".into()));
}

#[test]
fn credentials_are_a_positive_number_and_a_hash() {
    let hash = "0123456789abcdefABCDEF0123456789";
    let (id, stored) = read_credentials(" 42 ", &format!(" {hash}\n")).unwrap();
    assert_eq!((id, stored.as_str()), (42, hash));
    assert!(configured(id, &stored));
    assert!(read_credentials("0", hash).is_none());
    assert!(read_credentials("-1", hash).is_none());
    assert!(read_credentials("2147483648", hash).is_none());
    assert!(read_credentials("1", "0123").is_none());
    assert!(!configured(1, "0123456789abcdefABCDEF012345678g"));
    assert!(!configured(0, hash));
    assert_ne!(credentials_question(false), credentials_question(true));
    assert_eq!(retry_message(None), "Telegram stopped. Retry to reconnect.");
    assert_eq!(
        retry_message(Some("boom")),
        "Telegram could not continue: boom. Retry or update your API credentials."
    );
    assert!(replaces_credentials(Some("credentials")));
    assert!(!replaces_credentials(Some("retry")));
    assert!(!replaces_credentials(None));
}

#[test]
fn scans_stop_at_what_was_seen_unless_something_is_to_be_retried() {
    let mut scan = ChatScan::new(100, &vec![90, 95]);
    assert_eq!(scan.message(103, true), MessageStep::Download);
    assert_eq!(scan.message(102, false), MessageStep::Skip);
    assert_eq!(scan.message(100, true), MessageStep::Skip, "two ids are left to retry");
    assert_eq!(scan.message(95, true), MessageStep::Download);
    assert_eq!(scan.message(94, true), MessageStep::Skip);
    assert_eq!(scan.message(90, true), MessageStep::Download);
    assert_eq!(scan.message(89, true), MessageStep::Stop);
    assert_eq!(scan.stats.scanned, 7);
    scan.finished(103, DownloadEnd::Failed, false);
    scan.finished(95, DownloadEnd::Downloaded, false);
    scan.finished(90, DownloadEnd::Skipped, false);
    assert_eq!(scan.retries(), [103]);
    assert_eq!(
        (scan.stats.downloaded, scan.stats.skipped, scan.stats.failed),
        (1, 1, 1)
    );
    let done = scan.conclude(false, false);
    assert!(done.completed);
    assert_eq!(done.last_id, 103);
    let interrupted = scan.conclude(true, false);
    assert!(!interrupted.completed);
    assert_eq!(interrupted.last_id, 100);
    assert_eq!(scan.conclude(true, true).last_id, 103);
}

#[test]
fn a_shutdown_keeps_what_was_to_be_retried() {
    let mut scan = ChatScan::new(10, &vec![5]);
    scan.finished(5, DownloadEnd::Failed, true);
    scan.finished(11, DownloadEnd::Failed, true);
    assert_eq!(scan.retries(), [5]);
    assert_eq!(scan.stats.failed, 0);
    assert!(breaks_off(true, false));
    assert!(!breaks_off(true, true));
}

#[test]
fn the_loop_of_a_scan_waits_downloads_and_drains() {
    let mut scan = ChatScan::new(10, &vec![]);
    let (phase, action) = scan_step(&mut scan, ScanPhase::Gate, ScanEvent::Gate(true));
    assert_eq!(action, ScanAction::NextMessage);
    let (phase, action) =
        scan_step(&mut scan, phase, ScanEvent::ListingFailed("FLOOD_WAIT_3".into()));
    assert_eq!(action, ScanAction::Sleep(3));
    let (phase, action) = scan_step(&mut scan, phase, ScanEvent::Slept(false));
    assert_eq!(action, ScanAction::Gate);
    let (phase, _) = scan_step(&mut scan, phase, ScanEvent::Gate(true));
    let (phase, action) = scan_step(&mut scan, phase, ScanEvent::Message(12, true));
    assert_eq!(action, ScanAction::Acquire);
    let (phase, action) = scan_step(&mut scan, phase, ScanEvent::Acquired(true));
    assert_eq!((phase, action), (ScanPhase::Gate, ScanAction::Download(12)));
    let (phase, _) = scan_step(&mut scan, phase, ScanEvent::Gate(true));
    let (phase, action) = scan_step(&mut scan, phase, ScanEvent::Message(10, true));
    assert_eq!((phase, action), (ScanPhase::Draining, ScanAction::Drain));
    let (_, action) = scan_step(&mut scan, ScanPhase::Gate, ScanEvent::Gate(false));
    assert_eq!(action, ScanAction::Drain);
}

#[test]
fn cursors_and_retries_are_remembered_together() {
    let mut chats: Table<ChatData> = Table::new();
    let mut scan = scan_of(&chats, "news");
    assert_eq!(scan.message(7, true), MessageStep::Download);
    scan.finished(7, DownloadEnd::Failed, false);
    let outcome = scan.conclude(false, false);
    let step = after_chat(&mut chats, "news", &scan, Some(outcome), false, false);
    assert_eq!(step, CycleStep::Persist);
    let data = chats.get("news").unwrap();
    assert_eq!((data.last_read_message_id, data.ids_to_retry.as_slice()), (7, &[7][..]));
    let mut again = scan_of(&chats, "news");
    assert_eq!(again.message(7, true), MessageStep::Download, "the failure is retried");
    again.finished(7, DownloadEnd::Downloaded, false);
    let outcome = again.conclude(true, false);
    let step = after_chat(&mut chats, "news", &again, Some(outcome), true, false);
    assert_eq!(step, CycleStep::Interrupted);
    assert!(chats.get("news").unwrap().ids_to_retry.is_empty());
    let step = after_chat(&mut chats, "news", &again, None, false, false);
    assert_eq!(step, CycleStep::Next);
    assert_eq!(
        after_chat(&mut chats, "news", &again, None, true, false),
        CycleStep::Interrupted
    );
    move_cursor(&mut chats, "news", 3);
    assert_eq!(chats.get("news").unwrap().last_read_message_id, 3);
    move_cursor(&mut chats, "new chat", 9);
    assert_eq!(chats.get("new chat").unwrap().last_read_message_id, 9);
}

#[test]
fn chats_are_found_by_number_or_name() {
    assert_eq!(chat_ref("-100123"), ChatRef::Dialog(-100_123));
    assert_eq!(chat_ref("news"), ChatRef::Username("news".into()));
    let id = dialog_chat(&ChatTarget::DialogId(-100_123)).unwrap();
    assert_eq!(id, "-100123");
    assert_eq!(chat_ref(&id), ChatRef::Dialog(-100_123));
    assert_eq!(dialog_chat(&ChatTarget::Invite("https://t.me/+x".into())), None);
}

#[test]
fn chats_are_subscribed_once() {
    let mut chats: Vec<ChatConfig> = Vec::new();
    assert!(subscribe_chat(&mut chats, "news"));
    assert!(!subscribe_chat(&mut chats, "news"));
    assert!(subscribe_chat(&mut chats, "-100"));
    assert_eq!(chats.len(), 2);
    assert_eq!(chats[0].download_filter, None);
    let by_name = ChatTarget::Username("news".into());
    assert_eq!(already_subscribed(&chats, &by_name).as_deref(), Some("news"));
    assert_eq!(already_subscribed(&chats, &ChatTarget::Username("other".into())), None);
    assert_eq!(already_subscribed(&chats, &ChatTarget::DialogId(-100)), None);
}

#[test]
fn messages_have_variables() {
    let message = MessageInfo {
        id: 5,
        date: 1_700_000_000,
        text: "caption".into(),
        sender_name: None,
        reply_to: Some(3),
        media_type: "video".into(),
        file_extension: "mp4".into(),
        file_name: "a.mp4".into(),
        file_size: 10,
        duration: 20,
        width: 1280,
        height: 720,
    };
    assert_eq!(message.get_var("id"), Some(Value::Int(5)));
    assert_eq!(message.get_var("message_date"), Some(Value::DateTime(1_700_000_000)));
    assert_eq!(message.get_var("caption"), Some(Value::Str("caption".into())));
    assert_eq!(message.get_var("sender_name"), Some(Value::Str(String::new())));
    assert_eq!(message.get_var("topic_id"), Some(Value::Int(0)));
    assert_eq!(message.get_var("reply_to_message_id"), Some(Value::Int(3)));
    assert_eq!(message.get_var("media_height"), Some(Value::Int(720)));
    assert_eq!(message.get_var("unknown"), None);
    assert!(passes_filter(&Ok(Value::Bool(true))));
    assert!(!passes_filter(&Ok(Value::Int(1))));
    assert!(!passes_filter(&Err("unexpected token".into())));
}

#[test]
fn single_messages_are_checked() {
    assert_eq!(check_message(7, FoundMessage::Ready), Ok(()));
    assert_eq!(
        check_message(7, FoundMessage::Missing),
        Err("message 7 was not found".into())
    );
    assert_eq!(
        check_message(7, FoundMessage::WithoutMedia),
        Err("message 7 has no media".into())
    );
    assert_eq!(
        check_message(-7, FoundMessage::Disabled),
        Err("message -7 media type is disabled by config".into())
    );
}

#[test]
fn the_engine_scans_when_a_scan_is_due() {
    let (mut worker, action) = Worker::start();
    assert_eq!(action, WorkerAction::CheckCancelling(false));
    let go_on = || WorkerEvent::PauseOver { running: true, shutdown: false, cancelling: false };
    assert_eq!(worker.step(WorkerEvent::Cancelling(false)), WorkerAction::WaitWhilePaused);
    assert_eq!(worker.step(go_on()), WorkerAction::Reload);
    assert_eq!(worker.step(WorkerEvent::Reloaded), WorkerAction::Select(false));
    assert_eq!(worker.step(WorkerEvent::Tick(true)), WorkerAction::CheckCancelling(true));
    worker.step(WorkerEvent::Cancelling(false));
    worker.step(go_on());
    assert_eq!(worker.step(WorkerEvent::Reloaded), WorkerAction::Scan(1));
    assert!(!worker.scan_due);
    assert_eq!(
        worker.step(WorkerEvent::ScanDone {
            completed: true,
            shutdown: false,
            work_cancelled: false
        }),
        WorkerAction::Select(true)
    );
    let request = ChatRequest::Once(ChatTarget::Username("news".into()), 4);
    assert_eq!(
        worker.step(WorkerEvent::Requested(Some(request.clone()))),
        WorkerAction::Handle(request)
    );
    assert_eq!(worker.step(WorkerEvent::Handled), WorkerAction::CheckCancelling(true));
    assert_eq!(worker.step(WorkerEvent::Cancelling(true)), WorkerAction::Discard);
    assert_eq!(worker.step(WorkerEvent::Discarded), WorkerAction::WaitWhilePaused);
    assert_eq!(
        worker.step(WorkerEvent::PauseOver {
            running: false,
            shutdown: false,
            cancelling: false
        }),
        WorkerAction::WaitForResume
    );
    assert_eq!(worker.step(WorkerEvent::Resumed { shutdown: true }), WorkerAction::Stop);
    assert_eq!(worker.phase, Phase::Over);
}

#[test]
fn requests_are_reported() {
    let once = ChatRequest::Once(ChatTarget::Username("news".into()), 4);
    assert_eq!(request_begins(&once, "@news"), "Opening message 4 from @news");
    assert_eq!(
        request_ended(&RequestEnd::Downloaded("-1".into()), 4, "@news"),
        "Finished downloading message 4 from @news as -1"
    );
    assert_eq!(
        request_ended(&RequestEnd::NotDownloaded("gone".into()), 4, "@news"),
        "Could not download message 4 from @news: gone"
    );
    assert_eq!(
        request_ended(&RequestEnd::AlreadySubscribed, 0, "@news"),
        "Already subscribed to @news"
    );
    assert_eq!(
        request_ended(&RequestEnd::Subscribed("-1".into()), 0, "@news"),
        "Subscribed to @news as -1"
    );
    assert_eq!(
        request_ended(&RequestEnd::NotSubscribed("gone".into()), 0, "@news"),
        "Could not subscribe to @news: gone"
    );
}

#[test]
fn history_is_kept_for_its_retention() {
    assert_eq!(retention_ms(1), 86_400_000);
    assert_eq!(cutoff(86_400_001, 1), Some(1));
    assert_eq!(cutoff(5, 1), Some(0));
    assert_eq!(cutoff(u64::MAX, 0), None);
    assert_eq!(to_signed(i64::MAX as u64), Some(i64::MAX));
    assert_eq!(to_signed(i64::MAX as u64 + 1), None);
    assert_eq!(to_unsigned(-1), None);
    assert_eq!(to_signed(17).and_then(to_unsigned), Some(17));
    assert!(AppData::default().chat.is_empty());
    assert_eq!(ChatData::default().last_read_message_id, 0);
}

#[test]
fn only_configured_media_are_wanted() {
    let mut cfg = Config {
        media_types: vec!["photo".into(), "video".into()],
        ..Config::default()
    };
    cfg.file_formats.video = vec!["mp4".into()];
    let media = |kind: &str, extension: &str| {
        Some(MediaKind { kind: kind.into(), extension: extension.into() })
    };
    assert!(is_wanted(&cfg, &media("photo", "jpg"), &None));
    assert!(is_wanted(&cfg, &media("video", "mp4"), &None));
    assert!(!is_wanted(&cfg, &media("video", "mkv"), &None));
    assert!(!is_wanted(&cfg, &media("voice", "ogg"), &None));
    assert!(!is_wanted(&cfg, &None, &None));
    assert!(is_wanted(&cfg, &media("photo", ""), &Some(Ok(Value::Bool(true)))));
    assert!(!is_wanted(&cfg, &media("photo", ""), &Some(Ok(Value::Bool(false)))));
    assert!(!is_wanted(&cfg, &media("photo", ""), &Some(Err("unknown variable".into()))));
    cfg.file_formats.video = vec!["all".into()];
    assert!(media_matches_config(&cfg, "video", "mkv"));
    assert_eq!(found_message(&cfg, false, &None), FoundMessage::Missing);
    assert_eq!(found_message(&cfg, true, &None), FoundMessage::WithoutMedia);
    assert_eq!(found_message(&cfg, true, &media("voice", "ogg")), FoundMessage::Disabled);
    assert_eq!(found_message(&cfg, true, &media("video", "mkv")), FoundMessage::Ready);
}
