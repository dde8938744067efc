use media_downloader::configuration::app::{Config as AppConfig, ConfigError, DownloadModule};
use media_downloader::configuration::jav::Config;
use media_downloader::configuration::listing::{page_suffix, title_matcher, LinkError, ListingLink};
use media_downloader::configuration::p91::Config as P91Config;
use media_downloader::configuration::patch::{merge_json, Json};
use media_downloader::configuration::schedule::{
    parse_daily_time, seconds_until, Mode, Schedule, ScheduleError,
};
use media_downloader::configuration::telegram::Config as TelegramConfig;

fn number(n: u64) -> Json {
    Json::Number(n.to_string())
}

fn text(t: &str) -> Json {
    Json::Text(t.to_string())
}

fn object(members: Vec<(&str, Json)>) -> Json {
    Json::Object(members.into_iter().map(|(k, v)| (k.to_string(), v)).collect())
}

/// The value with the members of its objects in the order of their names.
fn sorted(value: &Json) -> Json {
    match value {
        Json::Array(items) => Json::Array(items.iter().map(sorted).collect()),
        Json::Object(members) => {
            let mut members: Vec<(String, Json)> =
                members.iter().map(|(k, v)| (k.clone(), sorted(v))).collect();
            members.sort_by(|a, b| a.0.cmp(&b.0));
            Json::Object(members)
        }
        other => other.copy(),
    }
}

#[test]
fn popular_url_builds_pagination() {
    let cfg = Config::default();
    assert_eq!(
        cfg.popular_url(1),
        "https://missav.ai/dm597/cn/fc2?sort=weekly_views"
    );
    assert_eq!(
        cfg.popular_url(3),
        "https://missav.ai/dm597/cn/fc2?sort=weekly_views&page=3",
        "paged listings keep the sort query"
    );
}

#[test]
fn popular_url_without_query_still_pages() {
    let cfg = Config {
        popular_path: "/dm597/cn/fc2".into(),
        ..Config::default()
    };
    assert_eq!(cfg.popular_url(1), "https://missav.ai/dm597/cn/fc2");
    assert_eq!(cfg.popular_url(2), "https://missav.ai/dm597/cn/fc2?page=2");
}

#[test]
fn video_url_uses_the_listing_language() {
    let cfg = Config::default();
    assert_eq!(
        cfg.video_url("fc2-ppv-4968310"),
        "https://missav.ai/cn/fc2-ppv-4968310"
    );
}

#[test]
fn video_url_omits_language_when_the_listing_has_none() {
    let cfg = Config {
        popular_path: "/dm597/fc2".into(),
        ..Config::default()
    };
    assert_eq!(
        cfg.video_url("fc2-ppv-4968310"),
        "https://missav.ai/fc2-ppv-4968310"
    );
}

#[test]
fn language_filter_reads_the_subtree() {
    let cfg = Config::default();
    assert_eq!(cfg.language_filter().as_deref(), Some("cn"));

    let en = Config {
        popular_path: "/dm597/en/fc2?sort=weekly_views".into(),
        ..Config::default()
    };
    assert_eq!(en.language_filter().as_deref(), Some("en"));

    let none = Config {
        popular_path: "/dm597/fc2".into(),
        ..Config::default()
    };
    assert_eq!(none.language_filter(), None);
}

#[test]
fn title_matcher_preserves_whitespace_literal_and_regex_policy() {
    assert!(title_matcher(" \t", true).unwrap().is_none());
    let literal = title_matcher(" A.b ", false).unwrap().unwrap();
    assert!(literal.is_match("prefix a.B suffix"));
    assert!(!literal.is_match("a.b"));
    assert!(!literal.is_match(" Axb "));
    let regex = title_matcher("^A.b$", true).unwrap().unwrap();
    assert!(regex.is_match("Axb"));
    assert!(!regex.is_match("axb"));
    assert_eq!(
        title_matcher("[", true).unwrap_err().message(),
        "invalid title filter regex"
    );
    let detail = title_matcher("[", true).unwrap_err().detail();
    assert!(detail.starts_with("invalid title filter regex: regex parse error:"));
    assert!(detail.ends_with("error: unclosed character class"));
}

#[test]
fn page_suffix_replaces_all_pages_and_strips_fragments() {
    let path = "https://example.test/list?sort=top&page=9&tag=a%20b&page=2&tag=c#part";
    assert_eq!(
        page_suffix(path, 1),
        "https://example.test/list?sort=top&tag=a+b&tag=c"
    );
    assert_eq!(
        page_suffix(path, 3),
        "https://example.test/list?sort=top&tag=a+b&tag=c&page=3"
    );
    assert_eq!(
        page_suffix("https://example.test/list?page=8#part", 0),
        "https://example.test/list"
    );
}

#[test]
fn page_suffix_keeps_unparsed_path_fallback() {
    assert_eq!(page_suffix("/list?sort=top#part", 1), "/list?sort=top#part");
    assert_eq!(page_suffix("/list?sort=top", 2), "/list?sort=top&page=2");
    assert_eq!(page_suffix("/list", 2), "/list?page=2");
}

#[test]
fn p91_popular_url_builds_pagination() {
    let cfg = P91Config::default();
    assert_eq!(
        cfg.popular_url(1),
        "https://www.91porn.com/v.php?category=top&viewtype=basic"
    );
    assert_eq!(
        cfg.popular_url(2),
        "https://www.91porn.com/v.php?category=top&viewtype=basic&page=2"
    );
}

#[test]
fn video_urls_use_the_configured_site() {
    let cfg = P91Config::default();
    assert_eq!(
        cfg.video_url("1950234389"),
        "https://www.91porn.com/view_video.php?viewkey=1950234389"
    );
    assert_eq!(
        cfg.hd_url("1950234389"),
        "https://www.91porn.com/view_video_hd.php?viewkey=1950234389"
    );
}

#[test]
fn request_cookie_preserves_imported_values() {
    let cfg = P91Config {
        cookie: "PHPSESSID=abc".into(),
        ..P91Config::default()
    };
    assert_eq!(cfg.request_cookie().as_deref(), Some("PHPSESSID=abc"));
    let real_level = P91Config {
        cookie: "CLIPSHARE=abc; level=opaque".into(),
        ..P91Config::default()
    };
    assert_eq!(
        real_level.request_cookie().as_deref(),
        Some("CLIPSHARE=abc; level=opaque"),
        "an account's own level must not be overwritten"
    );
    let guest = P91Config {
        cookie: String::new(),
        ..P91Config::default()
    };
    assert_eq!(guest.request_cookie(), None);
}

#[test]
fn merge_json_replaces_arrays_and_cross_type_values() {
    let patch = || {
        object(vec![
            ("links", Json::Array(vec![number(3)])),
            ("object", Json::Bool(false)),
            ("scalar", object(vec![("new", Json::Null)])),
        ])
    };
    let mut base = object(vec![
        ("links", Json::Array(vec![number(1), number(2)])),
        ("object", object(vec![("old", Json::Bool(true))])),
        ("scalar", number(4)),
    ]);
    merge_json(&mut base, patch());
    assert_eq!(sorted(&base), patch());
    merge_json(&mut base, Json::Null);
    assert_eq!(base, Json::Null);
    let nested = || object(vec![("nested", object(vec![("new", number(1))]))]);
    merge_json(&mut base, nested());
    assert_eq!(base, nested());
}

#[test]
fn merge_overlays_nested_objects() {
    let mut base = object(vec![
        ("a", number(1)),
        ("nested", object(vec![("x", number(1)), ("y", number(2))])),
    ]);
    merge_json(
        &mut base,
        object(vec![("nested", object(vec![("y", number(9))])), ("b", number(2))]),
    );
    assert_eq!(
        sorted(&base),
        object(vec![
            ("a", number(1)),
            ("b", number(2)),
            ("nested", object(vec![("x", number(1)), ("y", number(9))])),
        ])
    );
}

#[test]
fn mod_merge_overlays_nested_objects() {
    let mut base = object(vec![
        ("a", number(1)),
        ("nested", object(vec![("x", number(1)), ("y", number(2))])),
    ]);
    merge_json(
        &mut base,
        object(vec![("nested", object(vec![("y", number(9))])), ("b", number(2))]),
    );
    assert_eq!(
        sorted(&base),
        object(vec![
            ("a", number(1)),
            ("b", number(2)),
            ("nested", object(vec![("x", number(1)), ("y", number(9))])),
        ])
    );
}

#[test]
fn merge_allows_clearing_optionals_with_null() {
    let mut base = object(vec![("proxy", text("http://x:1"))]);
    merge_json(&mut base, object(vec![("proxy", Json::Null)]));
    assert_eq!(base, object(vec![("proxy", Json::Null)]));
}

#[test]
fn mod_merge_allows_clearing_optionals_with_null() {
    let mut base = object(vec![("cookie", text("x"))]);
    merge_json(&mut base, object(vec![("cookie", Json::Null)]));
    assert_eq!(base, object(vec![("cookie", Json::Null)]));
}

#[test]
fn merging_leaves_unnamed_members_alone() {
    let mut base = object(vec![("a", number(1)), ("b", text("kept"))]);
    merge_json(&mut base, object(vec![("a", number(2))]));
    assert_eq!(base.get("b"), Some(&text("kept")));
    assert_eq!(base.count("a"), Some(2));
    assert_eq!(base.text("b").as_deref(), Some("kept"));
    assert_eq!(base.text("a"), None);
    assert_eq!(base.flag("a"), None);
    assert_eq!(base.get("c"), None);
    assert_eq!(text("a").get("a"), None);
}

#[test]
fn parses_valid_times() {
    assert_eq!(parse_daily_time("03:30"), (3, 30));
    assert_eq!(parse_daily_time(" 23:59 "), (23, 59));
    assert_eq!(parse_daily_time("0:05"), (0, 5));
}

#[test]
fn falls_back_on_garbage() {
    assert_eq!(parse_daily_time("tomorrow"), (3, 30));
    assert_eq!(parse_daily_time("25:00"), (3, 30));
    assert_eq!(parse_daily_time("12:99"), (3, 30));
}

#[test]
fn next_occurrence_is_in_the_future() {
    let (hour, minute) = parse_daily_time("03:30");
    let wait = seconds_until(3600, hour, minute);
    assert_eq!(wait, 2 * 3600 + 30 * 60);
    assert!(3600 + wait < 86_400, "the same day");
    assert!(wait > 0);
}

#[test]
fn next_occurrence_rolls_to_tomorrow_when_passed() {
    let (hour, minute) = parse_daily_time("03:30");
    let wait = seconds_until(5 * 3600, hour, minute);
    assert_eq!(wait, 22 * 3600 + 30 * 60);
    assert!(5 * 3600 + wait >= 86_400, "the next day");
}

#[test]
fn a_run_that_is_due_now_waits_a_day() {
    assert_eq!(seconds_until(3 * 3600 + 1800, 3, 30), 86_400);
    assert_eq!(seconds_until(3 * 3600 + 1799, 3, 30), 1);
}

#[test]
fn schedules_are_validated() {
    let schedule = |interval_secs: u64, daily_time: &str| Schedule {
        enabled: true,
        mode: Mode::Daily,
        interval_secs,
        daily_time: daily_time.into(),
        run_on_start: false,
    };
    assert_eq!(schedule(60, "03:30").validate(), Ok(()));
    assert_eq!(schedule(0, "03:30").validate(), Err(ScheduleError::Interval));
    assert_eq!(schedule(604_801, "03:30").validate(), Err(ScheduleError::Interval));
    assert_eq!(schedule(60, "24:00").validate(), Err(ScheduleError::DailyTime));
    assert_eq!(schedule(60, "nonsense").validate(), Err(ScheduleError::DailyTime));
}

#[test]
fn common_settings_are_validated() {
    let good = AppConfig::default();
    assert_eq!(good.validate(), Ok(()));
    let resolution = AppConfig { min_video_resolution: 16_385, ..AppConfig::default() };
    assert_eq!(resolution.validate(), Err(ConfigError::Resolution));
    let retention = AppConfig { history_retention_days: 0, ..AppConfig::default() };
    assert_eq!(retention.validate(), Err(ConfigError::Retention));
    let listener = AppConfig { port: 0, ..AppConfig::default() };
    assert_eq!(listener.validate(), Err(ConfigError::Listener));
    let directory = AppConfig { temp_path: String::new(), ..AppConfig::default() };
    assert_eq!(directory.validate(), Err(ConfigError::Directory));
    let mut schedule = AppConfig::default();
    schedule.schedules.jav.daily_time = "soon".into();
    assert_eq!(
        schedule.validate(),
        Err(ConfigError::Schedule(ScheduleError::DailyTime))
    );
}

#[test]
fn resolutions_are_inherited_unless_set() {
    let cfg = AppConfig {
        min_video_resolution: 720,
        jav_min_video_resolution: Some(0),
        p91_min_video_resolution: Some(480),
        ..AppConfig::default()
    };
    assert_eq!(cfg.minimum_video_resolution(DownloadModule::Telegram), 720);
    assert_eq!(cfg.minimum_video_resolution(DownloadModule::Jav), 0);
    assert_eq!(cfg.minimum_video_resolution(DownloadModule::P91), 480);
}

#[test]
fn links_are_validated() {
    let with = |url: &str, daily_quota: usize| Config {
        links: vec![ListingLink { url: url.into(), daily_quota }],
        ..Config::default()
    };
    assert_eq!(with("https://missav.ai/dm1/cn/x", 5).validate_links(), Ok(()));
    assert_eq!(
        with("https://missav.ai/dm1/cn/x", 0).validate_links(),
        Err(LinkError::Quota)
    );
    assert_eq!(with("  ", 5).validate_links(), Err(LinkError::Empty));
    assert_eq!(
        with("https://elsewhere.example/x", 5).validate_links(),
        Err(LinkError::OtherOrigin)
    );
    assert_eq!(
        with("https://[", 5).validate_links(),
        Err(LinkError::InvalidLink("invalid IPv6 address".into()))
    );
    let homeless = Config { site_base: "nowhere".into(), ..with("https://a.example/x", 5) };
    assert_eq!(
        homeless.validate_links(),
        Err(LinkError::InvalidBase("relative URL without a base".into()))
    );
}

#[test]
fn settings_for_a_link_are_settings_with_one_link() {
    let cfg = Config {
        links: vec![
            ListingLink { url: "/a".into(), daily_quota: 3 },
            ListingLink { url: "/b".into(), daily_quota: 4 },
        ],
        ..Config::default()
    };
    let links = cfg.listing_links();
    assert_eq!(links.len(), 2);
    let second = cfg.for_link(&links[1]);
    assert_eq!(second.popular_path, "/b");
    assert_eq!(second.top_n, 4);
    assert_eq!(second.listing_links().len(), 1);
    assert_eq!(Config::default().listing_links().len(), 1);
}

#[test]
fn chat_settings_have_defaults() {
    let cfg = TelegramConfig::default();
    assert!(cfg.chat.is_empty());
    assert!(cfg.max_download_task > 0);
}

#[test]
fn patches_are_idempotent() {
    let object = |members: Vec<(&str, Json)>| {
        Json::Object(members.into_iter().map(|(k, v)| (k.to_string(), v)).collect())
    };
    let patch = || {
        object(vec![
            ("nested", object(vec![("y", Json::Bool(true)), ("z", Json::Null)])),
            ("list", Json::Array(vec![Json::Null])),
            ("new", Json::Text("t".into())),
        ])
    };
    let mut base = object(vec![
        ("kept", Json::Bool(false)),
        ("nested", object(vec![("x", Json::Null), ("y", Json::Bool(false))])),
    ]);
    merge_json(&mut base, patch());
    let once = base.copy();
    merge_json(&mut base, patch());
    assert_eq!(base, once);
    assert_eq!(base.flag("kept"), Some(false));
    assert_eq!(base.get("nested").unwrap().flag("y"), Some(true));
}
