use media_downloader::configuration::app::Config;
use media_downloader::configuration::patch::Json;
use media_downloader::logging::{request_level, Level, LogBuffer, CAPACITY};
use media_downloader::migration::chats::{
    cursor_marker, cursor_paths, data_paths, history_numbers, history_paths, import_chats,
    import_files, import_history, merge_chat,
};
use media_downloader::migration::config::{
    discover_config, identify, DiscoverError, Engine, Found, Source,
};
use media_downloader::migration::progress::{
    relocate_partial, relocates, resume_offset, sidecar_path,
};
use media_downloader::migration::records::{
    holds_state, import, import_last_run, record_numbers, state_paths,
};
use media_downloader::migration::settings::{adopt_jav, adopt_telegram};
use media_downloader::storage::completed_record;
use media_downloader::storage::telegram::checkpoints::{
    clear_progress, delete, load as load_progress, paths, write_progress,
};
use media_downloader::storage::telegram::cursors::{
    apply, load as load_cursors, queue, Cursors,
};
use media_downloader::storage::telegram::history::{
    delete_expired, insert, load as load_history,
};
use media_downloader::storage::telegram::repository::{load as load_data, save, Store};
use media_downloader::storage::telegram::{
    AppData, ChatData, CompletedDownload, TooLarge, DAY_MS,
};
use media_downloader::table::Table;

fn text(t: &str) -> Json {
    Json::Text(t.to_string())
}

fn object(members: Vec<(&str, Json)>) -> Json {
    Json::Object(members.into_iter().map(|(k, v)| (k.to_string(), v)).collect())
}

#[test]
fn settings_are_taken_over_from_one_file() {
    let chat = object(vec![("api_id", Json::Null)]);
    let video = object(vec![("top_n", Json::Null)]);
    let both = object(vec![("api_id", Json::Null), ("top_n", Json::Null)]);
    assert_eq!(identify(&chat), Some(Engine::Telegram));
    assert_eq!(identify(&video), Some(Engine::Jav));
    assert_eq!(identify(&both), None);
    assert_eq!(identify(&Json::Null), None);
    let with = |destination, root, nested, flat| Found { destination, root, nested, flat };
    assert_eq!(
        discover_config(Engine::Jav, &with(true, true, true, Some(&both))),
        Ok(None)
    );
    assert_eq!(
        discover_config(Engine::Jav, &with(false, true, true, Some(&both))),
        Ok(Some(Source::Root))
    );
    assert_eq!(
        discover_config(Engine::Jav, &with(false, false, true, Some(&chat))),
        Ok(Some(Source::Nested))
    );
    assert_eq!(
        discover_config(Engine::Telegram, &with(false, false, false, Some(&chat))),
        Ok(Some(Source::Flat))
    );
    assert_eq!(
        discover_config(Engine::Telegram, &with(false, false, true, Some(&chat))),
        Err(DiscoverError::Several)
    );
    assert_eq!(
        discover_config(Engine::Telegram, &with(false, false, true, Some(&both))),
        Err(DiscoverError::Unidentified)
    );
    assert_eq!(
        discover_config(Engine::Telegram, &with(false, false, false, None)),
        Ok(None)
    );
    assert_eq!(Source::Root.path(Engine::Jav), "jav.yaml");
    assert_eq!(Source::Nested.path(Engine::Telegram), "config/telegram/config.yaml");
    assert_eq!(
        DiscoverError::Several.message(Engine::Jav, "config/jav.yaml"),
        "multiple legacy jav configs found; keep one or provide config/jav.yaml"
    );
}

fn chat(id: &str, cursor: i32, retries: &[i32]) -> ChatData {
    ChatData {
        chat_id: id.into(),
        ids_to_retry: retries.to_vec(),
        last_read_message_id: cursor,
    }
}

#[test]
fn taking_chats_over_loses_nothing() {
    let mut chats: Table<ChatData> = Table::new();
    merge_chat(&mut chats, chat("a", 5, &[1]));
    merge_chat(&mut chats, chat("a", 3, &[2]));
    merge_chat(&mut chats, chat("b", -4, &[]));
    let a = chats.get("a").unwrap();
    assert_eq!(a.last_read_message_id, 5);
    assert_eq!(a.ids_to_retry, [1, 2]);
    assert_eq!(a.chat_id, "a");
    assert_eq!(chats.get("b").unwrap().last_read_message_id, 0);
}

#[test]
fn files_and_days_that_are_known_are_kept() {
    let mut store = Store {
        files: vec![("x".into(), 5)],
        chats: Table::new(),
        retries: Vec::new(),
    };
    let ids: Vec<String> = vec!["y".into(), "x".into(), "y".into()];
    for now in [90, 91] {
        import_files(&mut store, &ids, now);
        assert_eq!(store.files, [("x".to_string(), 5), ("y".to_string(), 90)]);
    }
    let mut row = None;
    import_last_run(&mut row, None);
    assert_eq!(row, Some(None));
    import_last_run(&mut row, Some("2024-01-02".into()));
    assert_eq!(row, Some(None));
    let mut row = None;
    import_last_run(&mut row, Some("2024-01-02".into()));
    import_last_run(&mut row, Some("2024-03-04".into()));
    assert_eq!(row, Some(Some("2024-01-02".into())));
}

#[test]
fn files_are_read_in_order_and_once() {
    assert_eq!(
        cursor_paths(Some("telegram.yaml"), false),
        ["telegram.yaml", "config/telegram.yaml", "telegram.yaml"]
    );
    assert_eq!(cursor_paths(Some("telegram.yaml"), true), ["config/telegram.yaml"]);
    assert_eq!(
        cursor_paths(Some("config/config.yaml"), true),
        ["config/config.yaml", "config/telegram.yaml"]
    );
    assert_eq!(cursor_marker("data.yaml"), "cursor:data.yaml");
    assert_eq!(data_paths(false).len(), 5);
    assert_eq!(data_paths(true)[0], "data.yaml");
    assert_eq!(history_paths().len(), 3);
    assert_eq!(state_paths()[0], "jav-state.json");
    assert!(!holds_state(" \n"));
    assert!(holds_state(" {} "));
}

#[test]
fn numbers_must_fit_the_database() {
    let mut item = CompletedDownload {
        msg_id: 1,
        file_name: "a".into(),
        path: "p".into(),
        bytes: 10,
        completed_at: 20,
    };
    assert_eq!(history_numbers(&item), Some((10, 20)));
    item.bytes = u64::MAX;
    assert_eq!(history_numbers(&item), None);
    assert_eq!(record_numbers(Some(3), 9), Some((Some(3), 9)));
    assert_eq!(record_numbers(None, 9), Some((None, 9)));
    assert_eq!(record_numbers(Some(3), u64::MAX), None);
    assert_eq!(record_numbers(Some(usize::MAX), 1), None);
}

#[test]
fn downloads_resume_at_their_checkpoint() {
    let resumed = |sidecar: Option<&[u8]>| resume_offset(&mut Table::new(), "a", sidecar);
    assert_eq!(resumed(Some(b" 42\n")), Ok(42));
    assert_eq!(resumed(Some(b"\xff42")), Ok(0));
    assert_eq!(resumed(Some(b"18446744073709551616")), Ok(0));
    assert_eq!(resumed(Some(b"18446744073709551615")), Err(TooLarge));
    assert_eq!(resumed(None), Ok(0));
    let mut progress = Table::new();
    assert_eq!(resume_offset(&mut progress, "a", Some(b"42")), Ok(42));
    assert_eq!(load_progress(&progress, "a"), Some(42));
    assert_eq!(resume_offset(&mut progress, "a", Some(b"7")), Ok(42));
    clear_progress(&mut progress, "a");
    assert_eq!(
        resume_offset(&mut progress, "a", Some(b"99")),
        Ok(0),
        "cleared progress stays cleared"
    );
    assert_eq!(write_progress(&mut progress, "a", 8), Ok(()));
    assert_eq!(write_progress(&mut progress, "a", u64::MAX), Err(TooLarge));
    assert_eq!(load_progress(&progress, "a"), Some(8));
    assert_eq!(sidecar_path("a.part"), "a.part.progress");
    assert!(relocates(false, false, true));
    assert!(!relocates(false, true, true));
    assert!(!relocates(true, false, true));
    assert!(!relocates(false, false, false));
    assert_eq!(relocate_partial(&mut progress, "a", "b", None), Ok(8));
    assert_eq!(load_progress(&progress, "a"), None);
    assert_eq!(resume_offset(&mut progress, "b", Some(b"1")), Ok(8));
    assert_eq!(paths(&progress), ["b"]);
    delete(&mut progress, "b");
    assert!(paths(&progress).is_empty());
}

#[test]
fn cursor_edits_win_until_they_are_consumed() {
    let mut cursors = Cursors { chats: Table::new(), overrides: Table::new() };
    cursors.chats.insert("1", 10);
    cursors.chats.insert("2", 20);
    queue(&mut cursors, &vec![("1".into(), 3), ("3".into(), 4), ("1".into(), 5)]);
    let all = load_cursors(&cursors);
    assert_eq!((all.get("1"), all.get("2"), all.get("3")), (Some(&5), Some(&20), Some(&4)));
    let consumed = apply(&mut cursors);
    assert_eq!((consumed.get("1"), consumed.get("2")), (Some(&5), None));
    assert_eq!((cursors.chats.get("1"), cursors.chats.get("3")), (Some(&5), Some(&4)));
    assert!(!apply(&mut cursors).has("1"));
    assert_eq!(load_cursors(&cursors).get("1"), Some(&5));
}

fn download(msg_id: i32, completed_at: u64) -> CompletedDownload {
    CompletedDownload {
        msg_id,
        file_name: "a".into(),
        path: "p".into(),
        bytes: 10,
        completed_at,
    }
}

#[test]
fn recorded_history_is_ordered_and_expires() {
    let mut history = Vec::new();
    for (id, time) in [(1, 9), (2, 5), (3, 9), (4, 2)] {
        assert_eq!(insert(&mut history, download(id, DAY_MS + time)), Ok(()));
    }
    assert_eq!(insert(&mut history, download(5, u64::MAX)), Err(TooLarge));
    let ids = |list: &Vec<CompletedDownload>| list.iter().map(|d| d.msg_id).collect::<Vec<_>>();
    let list = load_history(&mut history, 2 * DAY_MS + 2, 1).unwrap();
    assert_eq!(ids(&list), [2, 1, 3]);
    assert_eq!(ids(&history), [1, 2, 3]);
    assert_eq!(delete_expired(&mut history, 2 * DAY_MS + 5, 1), Ok(()));
    assert_eq!(ids(&history), [1, 3]);
    assert_eq!(delete_expired(&mut history, u64::MAX, 0), Err(TooLarge));
    assert_eq!(history.len(), 2);
}

#[test]
fn what_is_known_is_kept_when_more_is_taken_over() {
    let mut chats = Table::new();
    let chat = |id: &str, cursor: i32, ids: Vec<i32>| ChatData {
        chat_id: id.into(),
        ids_to_retry: ids,
        last_read_message_id: cursor,
    };
    merge_chat(&mut chats, chat("1", 7, vec![1, 2]));
    merge_chat(&mut chats, chat("2", 8, vec![2, 2]));
    let mut cursors = Table::new();
    cursors.insert("1", 90);
    let mut retries = vec![("1".to_string(), 2)];
    for _ in 0..2 {
        import_chats(&mut cursors, &mut retries, &chats);
        assert_eq!((cursors.get("1"), cursors.get("2")), (Some(&90), Some(&8)));
        assert_eq!(
            retries,
            [("1".to_string(), 2), ("1".to_string(), 1), ("2".to_string(), 2)]
        );
    }
    let mut history = vec![download(1, 5)];
    for _ in 0..2 {
        let items = vec![download(1, 5), download(1, 6), download(2, 5)];
        assert_eq!(import_history(&mut history, &items), Ok(()));
        assert_eq!(history.len(), 3);
    }
    let items = vec![download(9, 9), download(9, u64::MAX)];
    assert_eq!(import_history(&mut history, &items), Err(TooLarge));
    assert_eq!(history.len(), 3);
    let record = |id: &str, title: &str| completed_record(id, "u", title, Some(1), "p", 3, 4);
    let mut records = Table::new();
    records.insert("a", record("a", "known"));
    let items = vec![record("a", "new"), record("b", "first"), record("b", "second")];
    assert_eq!(import(&mut records, items), Ok(()));
    assert_eq!(records.get("a").unwrap().title, "known");
    assert_eq!(records.get("b").unwrap().title, "first");
    let mut large = record("c", "large");
    large.size = u64::MAX;
    assert_eq!(import(&mut records, vec![record("d", "d"), large]), Err(TooLarge));
    assert!(!records.has("d"));
}

#[test]
fn common_settings_are_taken_over_where_they_are_not_set() {
    let legacy = object(vec![
        ("save_path", text("/old/jav")),
        ("temp_path", text("/old/temp")),
        ("daily_enabled", Json::Bool(false)),
        ("daily_time", text("04:00")),
        ("run_on_start", Json::Bool(true)),
        ("check_interval_secs", Json::Number("120".into())),
    ]);
    let mut cfg = Config::default();
    adopt_jav(&mut cfg, &Json::Null, &legacy);
    assert_eq!(cfg.jav_download_path, "/old/jav");
    assert_eq!(cfg.temp_path, "/old/temp");
    assert!(!cfg.schedules.jav.enabled);
    assert_eq!(cfg.schedules.jav.daily_time, "04:00");
    assert!(cfg.schedules.jav.run_on_start);
    adopt_telegram(&mut cfg, &Json::Null, &legacy);
    assert_eq!(cfg.telegram_download_path, "/old/jav");
    assert_eq!(cfg.schedules.telegram.interval_secs, 120);

    let set = object(vec![
        ("jav_download_path", text("/new")),
        ("temp_path", text("/new/temp")),
        ("telegram_download_path", text("/new")),
        (
            "schedules",
            object(vec![("jav", Json::Null), ("telegram", Json::Null)]),
        ),
    ]);
    let mut kept = Config::default();
    adopt_jav(&mut kept, &set, &legacy);
    adopt_telegram(&mut kept, &set, &legacy);
    let fresh = Config::default();
    assert_eq!(kept.jav_download_path, fresh.jav_download_path);
    assert_eq!(kept.temp_path, fresh.temp_path);
    assert_eq!(kept.schedules.jav, fresh.schedules.jav);
    assert_eq!(kept.schedules.telegram, fresh.schedules.telegram);
}

fn record(log: &mut LogBuffer, message: &str) {
    log.record("now".into(), "INFO".into(), "target".into(), message.into());
}

#[test]
fn followers_of_the_log_miss_nothing() {
    let mut log = LogBuffer::new();
    let first = log.snapshot(None, None, "run");
    assert!(first.reset);
    assert_eq!((first.cursor, first.oldest_id, first.rows.len()), (0, 1, 0));
    assert!(log.can_record());
    record(&mut log, "a");
    record(&mut log, "b");
    let seen = log.snapshot(Some(1), Some("run"), "run");
    assert!(!seen.reset);
    assert_eq!(seen.rows.len(), 1);
    assert_eq!(seen.rows[0].message, "b");
    assert_eq!(seen.rows[0].id, 2);
    assert_eq!(seen.cursor, 2);
    let waiting = log.snapshot(Some(2), Some("run"), "run");
    assert!(!waiting.reset);
    assert!(waiting.rows.is_empty());
    assert!(log.snapshot(Some(2), Some("earlier"), "run").reset);
    assert!(log.snapshot(Some(3), Some("run"), "run").reset);
}

#[test]
fn the_log_keeps_the_latest_entries() {
    let mut log = LogBuffer::new();
    for i in 0..CAPACITY + 5 {
        record(&mut log, &i.to_string());
    }
    let all = log.snapshot(None, None, "run");
    assert_eq!(all.rows.len(), CAPACITY);
    assert_eq!(all.oldest_id, 6);
    assert!(log.snapshot(Some(4), Some("run"), "run").reset);
    let kept = log.snapshot(Some(5), Some("run"), "run");
    assert!(!kept.reset);
    assert_eq!(kept.rows.len(), CAPACITY);
}

#[test]
fn reading_the_log_leaves_no_trace() {
    assert_eq!(request_level(200, "/api/logs"), None);
    assert_eq!(request_level(404, "/api/logs"), Some(Level::Warn));
    assert_eq!(request_level(503, "/api/x"), Some(Level::Error));
    assert_eq!(request_level(200, "/api/x"), Some(Level::Debug));
}

#[test]
fn what_is_saved_is_loaded() {
    let mut store = Store { files: Vec::new(), chats: Table::new(), retries: Vec::new() };
    store.chats.insert("0", 4);
    store.retries.push(("0".into(), 1));
    let chat = |id: &str, cursor: i32, ids: Vec<i32>| ChatData {
        chat_id: id.into(),
        ids_to_retry: ids,
        last_read_message_id: cursor,
    };
    let data = AppData {
        chat: vec![chat("1", 7, vec![3, 1]), chat("2", 8, Vec::new())],
        downloaded_file_ids: vec![("f".into(), 5)],
    };
    save(&mut store, &data);
    let loaded = load_data(&store);
    assert_eq!(loaded.downloaded_file_ids, [("f".to_string(), 5)]);
    assert_eq!(loaded.chat.len(), 3);
    for (id, cursor, ids) in [("0", 4, vec![]), ("1", 7, vec![3, 1]), ("2", 8, vec![])] {
        let found = loaded.chat.iter().find(|c| c.chat_id == id).unwrap();
        assert_eq!((found.last_read_message_id, &found.ids_to_retry), (cursor, &ids));
    }
}
