use media_downloader::configuration::jav::Config;
use media_downloader::configuration::listing::title_matcher;
use media_downloader::jav::source::browser::{
    build_browser, clearance_value, crash_dir, describe, is_registration_noise, launch_args, launch_step,
    mint_step, BrowserMinter, BrowserOptions, LaunchStep, MintStart, MintStep, PageCookie,
};
use media_downloader::jav::source::cf::{
    is_challenge_error, is_cloudflare_challenge, CookieSource, CookieStore, Credentials,
    MintAttempt, MintedCookie, RefreshStep, DEFAULT_USER_AGENT, SECOND,
};
use media_downloader::jav::source::http::{
    after_failure, apply_cf_headers_scoped, media_request, media_response, normalize_cf_clearance,
    referer_for, refresh_failed, request, same_site, text_once, validate_media_body,
    ChallengeSignal, FetchError, Header, MediaFailure, MediaHead, TextStep,
};
use media_downloader::jav::source::scraper::{
    fetch_popular, filter_titles, is_video_slug, language_of, parse_duration, parse_list,
    parse_list_for_language, site_referer, video_id_from_url,
};
use media_downloader::text::to_chars;

#[test]
fn options_default_to_auto_detection() {
    let opts = BrowserOptions::new("data/browser", "https://supjav.com/popular", "ua/1");
    assert!(opts.executable.is_empty());
    assert_eq!(opts.user_agent, "ua/1");
    assert!(
        opts.nav_timeout_secs >= 60,
        "the challenge occasionally takes far longer than a page load"
    );
}

#[test]
fn browser_options_default_to_auto_detection() {
    let opts = BrowserOptions::new("data/browser", "https://supjav.com/popular", "ua/1");
    assert!(opts.executable.is_empty());
    assert_eq!(opts.user_agent, "ua/1");
    assert!(
        opts.nav_timeout_secs >= 60,
        "the challenge occasionally takes far longer than a page load"
    );
    assert_eq!(opts.target_url, "https://supjav.com/popular");
    assert_eq!(opts.user_data_dir, "data/browser");
}

#[test]
fn minter_reports_not_running_before_launch() {
    let minter = BrowserMinter::new(BrowserOptions::new("data/browser", "https://x/", "ua"));
    assert!(!minter.is_running());
}

#[test]
fn browser_minter_reports_not_running_before_launch() {
    let mut minter = BrowserMinter::new(BrowserOptions::new("data/browser", "https://x/", "ua"));
    assert!(!minter.is_running());
    assert_eq!(minter.begin(false, false), MintStart::Launch);
    minter.launched();
    assert!(minter.is_running());
    assert_eq!(minter.begin(false, true), MintStart::Reuse);
    minter.shutdown();
    assert!(!minter.is_running());
    assert_eq!(minter.begin(true, true), MintStart::Cancelled);
}

#[test]
fn describe_mentions_autodetection_when_no_path_is_set() {
    let opts = BrowserOptions::new("p", "https://x/", "ua");
    assert_eq!(describe(&opts), "auto-detected Chrome");

    let mut explicit = opts.clone();
    explicit.executable = "/usr/bin/chromium".into();
    assert_eq!(describe(&explicit), "/usr/bin/chromium");
}

#[test]
fn browser_describe_mentions_autodetection_when_no_path_is_set() {
    let opts = BrowserOptions::new("p", "https://x/", "ua");
    assert_eq!(describe(&opts), "auto-detected Chrome");

    let mut explicit = opts.clone();
    explicit.executable = "/usr/bin/chromium".into();
    assert_eq!(describe(&explicit), "/usr/bin/chromium");
}

#[test]
fn browsers_are_launched_under_the_agent_of_the_requests() {
    let opts = BrowserOptions::new("data/browser", "https://x/", "ua");
    let args = launch_args(&opts, "Chrome/149", &vec!["--headless".into()], "/tmp/profile");
    assert!(args.iter().any(|a| a == "--user-agent=Chrome/149"));
    assert!(!crash_dir(&opts).is_empty());
}

#[test]
fn launching_waits_for_an_address() {
    assert_eq!(launch_step(&None, &None, false), LaunchStep::Wait);
    assert_eq!(
        launch_step(&None, &Some("9222\n/devtools/browser/x".into()), false),
        LaunchStep::Ready("ws://127.0.0.1:9222/devtools/browser/x".into())
    );
    assert_eq!(launch_step(&None, &Some("9222".into()), false), LaunchStep::Wait);
    assert!(matches!(launch_step(&None, &None, true), LaunchStep::Fail(_)));
    assert_eq!(
        launch_step(&None, &Some("99999\n/x".into()), false),
        LaunchStep::Fail("invalid Chromium endpoint: invalid port number".into())
    );
    assert!(matches!(
        launch_step(&Some("exit status: 1".into()), &None, false),
        LaunchStep::Fail(_)
    ));
}

#[test]
fn clearance_is_read_from_the_cookies_of_the_page() {
    let cookie = |name: &str, value: &str| PageCookie { name: name.into(), value: value.into() };
    assert_eq!(clearance_value(&vec![cookie("a", "1")]), None);
    assert_eq!(clearance_value(&vec![cookie("cf_clearance", "")]), None);
    let cookies = vec![cookie("a", "1"), cookie("cf_clearance", "v")];
    assert_eq!(clearance_value(&cookies).as_deref(), Some("v"));
    let opts = BrowserOptions::new("p", "https://x/", "ua");
    assert_eq!(
        mint_step(&opts, "agent", false, &cookies, false, ""),
        MintStep::Minted(MintedCookie { cookie: "v".into(), user_agent: "agent".into() })
    );
    assert_eq!(mint_step(&opts, "agent", false, &vec![], false, ""), MintStep::Wait);
    assert!(matches!(
        mint_step(&opts, "agent", true, &cookies, false, ""),
        MintStep::Fail(_)
    ));
    assert_eq!(
        mint_step(&opts, "agent", false, &vec![], true, "Just a \"moment\""),
        MintStep::Fail(
            "timed out after 150s waiting for the Cloudflare challenge to clear (last page title: \"Just a \\\"moment\\\"\")"
                .into()
        )
    );
    assert!(!is_registration_noise("something else went wrong"));
}

#[test]
fn detects_managed_challenge() {
    assert!(is_cloudflare_challenge(
        "<title>Just a moment...</title><script src=\"/cdn-cgi/challenge-platform/h/g/orchestrate/chl_page/v1?ray=x\">"
    ));
    assert!(is_cloudflare_challenge("window._cf_chl_opt = {}"));
    assert!(!is_cloudflare_challenge("<title>Popular</title>"));
}

#[test]
fn recognises_challenge_errors() {
    assert!(is_challenge_error("HTTP 403 for https://x"));
    assert!(is_challenge_error("blocked by Cloudflare (challenge page)"));
    assert!(!is_challenge_error("connection reset by peer"));
}

#[test]
fn manual_cookie_is_visible_immediately() {
    let store = CookieStore::new("abc", "ua/1", false);
    assert_eq!(store.cookie(), "abc");
    assert_eq!(store.user_agent(), "ua/1");
    let snap = store.snapshot(0);
    assert!(snap.configured);
    assert_eq!(snap.source, CookieSource::Manual);
    assert!(snap.age_secs.is_none());
}

#[test]
fn manual_update_replaces_value_and_marks_manual() {
    let mut store = CookieStore::new("old", "ua", false);
    store.set_manual("new", None);
    assert_eq!(store.cookie(), "new");
    assert_eq!(store.user_agent(), "ua", "ua is untouched without a hint");
    store.set_manual("other", Some("ua2".into()));
    assert_eq!(store.user_agent(), "ua2");
}

#[test]
fn restored_credentials_claim_no_new_age() {
    let mut store = CookieStore::new("old", "ua", true);
    store.restore("kept".into(), "Kept/1".into());
    assert_eq!((store.cookie().as_str(), store.user_agent().as_str()), ("kept", "Kept/1"));
    let snap = store.snapshot(7_000_000_000);
    assert_eq!(snap.source, CookieSource::Browser);
    assert!(snap.age_secs.is_none());
}

#[test]
fn empty_user_agent_falls_back_to_the_profile_default() {
    let mut store = CookieStore::new("abc", "", false);
    assert_eq!(store.user_agent(), DEFAULT_USER_AGENT);
    // An explicit override wins.
    store.set_user_agent("Custom/1.0");
    assert_eq!(store.user_agent(), "Custom/1.0");
    // And setting it back to blank restores the fallback.
    store.set_user_agent("   ");
    assert_eq!(store.user_agent(), DEFAULT_USER_AGENT);
}

#[test]
fn refresh_without_a_minter_is_an_error() {
    let mut store = CookieStore::new("abc", "ua", false);
    assert!(!store.can_mint());
    let observed = store.generation;
    match store.begin_refresh(true, &None, observed, 0) {
        RefreshStep::Done(Some(err)) => {
            assert!(err.contains("browser"), "unexpected error: {err}")
        }
        other => panic!("unexpected step: {other:?}"),
    }
}

fn minted() -> MintAttempt {
    MintAttempt::Minted(MintedCookie {
        cookie: "fresh".into(),
        user_agent: "Chrome/149".into(),
    })
}

#[test]
fn refresh_installs_the_minted_cookie() {
    let mut store = CookieStore::new("stale", "Chrome/120", true);
    assert!(store.can_mint());
    let observed = store.generation;
    assert_eq!(
        store.begin_refresh(true, &None, observed, 0),
        RefreshStep::Mint("Chrome/120".into())
    );
    assert!(store.snapshot(0).refreshing);
    assert_eq!(store.finish_refresh(minted(), 5 * SECOND), None);
    assert_eq!(store.cookie(), "fresh");
    assert_eq!(store.user_agent(), "Chrome/149");
    let snap = store.snapshot(7 * SECOND);
    assert_eq!(snap.source, CookieSource::Browser);
    assert_eq!(snap.age_secs, Some(2));
}

/// A burst of concurrent failures must collapse into one browser run: the
/// losers adopt the cookie the winner minted rather than launching again.
#[test]
fn concurrent_refreshes_mint_only_once() {
    let mut store = CookieStore::new("stale", "ua", true);
    let observed = store.generation;
    assert!(matches!(
        store.begin_refresh(false, &None, observed, 0),
        RefreshStep::Mint(_)
    ));
    assert_eq!(store.finish_refresh(minted(), 1), None);
    for _ in 0..2 {
        assert_eq!(
            store.begin_refresh(false, &None, observed, 2),
            RefreshStep::Done(None),
            "all refresh waiters should succeed"
        );
    }
    assert_eq!(store.cookie(), "fresh");
}

#[test]
fn cooldown_preserves_failure_until_forced_retry() {
    let mut store = CookieStore::new("stale", "ua", true);
    let failed = || MintAttempt::Failed("challenge failed".into());
    let observed = store.generation;
    assert!(matches!(
        store.begin_refresh(false, &None, observed, 0),
        RefreshStep::Mint(_)
    ));
    assert_eq!(store.finish_refresh(failed(), 0).as_deref(), Some("challenge failed"));
    // A failed attempt backs off without hiding the original error.
    let observed = store.generation;
    assert_eq!(
        store.begin_refresh(false, &None, observed, SECOND),
        RefreshStep::Done(Some("challenge failed".into()))
    );
    // A forced refresh ignores the cooldown (used by the UI button).
    assert!(matches!(
        store.begin_refresh(true, &None, observed, 2 * SECOND),
        RefreshStep::Mint(_)
    ));
    assert_eq!(
        store.finish_refresh(failed(), 2 * SECOND).as_deref(),
        Some("challenge failed")
    );
    let observed = store.generation;
    assert!(matches!(
        store.begin_refresh(false, &None, observed, 60 * SECOND),
        RefreshStep::Mint(_)
    ));
    assert!(store.finish_refresh(MintAttempt::TimedOut, 60 * SECOND).is_some());
}

#[test]
fn rejections_of_replaced_credentials_are_ignored() {
    let mut store = CookieStore::new("new", "ua", true);
    let stale = Some(Credentials { cookie: "old".into(), user_agent: "ua".into() });
    let observed = store.generation;
    assert_eq!(
        store.begin_refresh(false, &stale, observed, 0),
        RefreshStep::Done(None)
    );
    let current = Some(store.credentials());
    assert!(matches!(
        store.begin_refresh(false, &current, observed, 0),
        RefreshStep::Mint(_)
    ));
    store.abandon_refresh();
    assert!(!store.snapshot(0).refreshing);
}

#[test]
fn normalizes_raw_value() {
    assert_eq!(normalize_cf_clearance("  abc123  "), "abc123");
}

#[test]
fn normalizes_full_cookie_string() {
    assert_eq!(
        normalize_cf_clearance("cf_clearance=abc123; other=1"),
        "abc123"
    );
    assert_eq!(
        normalize_cf_clearance("_cfuvid=x; cf_clearance=abc.def-1; z=2"),
        "abc.def-1"
    );
}

#[test]
fn pasted_values_are_one() {
    for v in ["abc123", "abc.def-1==", "x"] {
        assert_eq!(normalize_cf_clearance(v), v);
        assert_eq!(normalize_cf_clearance(&format!(" \t{v}\n")), v);
        assert_eq!(normalize_cf_clearance(&format!("\"{v}\"")), v);
        assert_eq!(normalize_cf_clearance(&format!("cf_clearance={v}")), v);
        assert_eq!(
            normalize_cf_clearance(&format!("Cookie: a=1; cf_clearance={v}; z=2")),
            v
        );
    }
}

#[test]
fn strips_quotes() {
    assert_eq!(normalize_cf_clearance("\"abc==\""), "abc==");
}

#[test]
fn same_site_matches_subdomains_only() {
    assert!(same_site("https://missav.ai/a", "https://missav.ai/b"));
    assert!(same_site("https://img.missav.ai/a", "https://missav.ai/b"));
    assert!(!same_site("https://evil.com/a", "https://missav.ai/b"));
}

#[test]
fn referer_uses_origin() {
    assert_eq!(
        referer_for("https://supjav.com/457980.html").as_deref(),
        Some("https://supjav.com/")
    );
}

#[test]
fn detects_challenge_page() {
    assert!(is_cloudflare_challenge("<title>Just a moment...</title>"));
    assert!(!is_cloudflare_challenge("<title>Popular</title>"));
}

#[test]
fn challenge_signal_survives_the_error_chain() {
    let sig = ChallengeSignal::status("https://supjav.com/popular");
    let err = FetchError::Challenge(sig).context("wrapped");
    let found = ChallengeSignal::from_error(&err).expect("signal should be found");
    assert!(found.reason.contains("403"));
}

#[test]
fn plain_errors_are_not_challenge_signals() {
    let err = FetchError::Other("connection reset by peer".into());
    assert!(ChallengeSignal::from_error(&err).is_none());
}

/// The fallback user agent names the browser that the handshake imitates.
#[test]
fn default_user_agent_agrees_with_the_tls_profile() {
    assert!(DEFAULT_USER_AGENT.contains("Chrome/149."));
    assert!(
        !DEFAULT_USER_AGENT.contains("Firefox"),
        "a Firefox UA over a Chrome TLS handshake is a bot tell"
    );
}

fn header<'a>(headers: &'a [Header], name: &str) -> Option<&'a str> {
    headers
        .iter()
        .find(|h| h.name.eq_ignore_ascii_case(name))
        .map(|h| h.value.as_str())
}

#[test]
fn challenge_cookie_is_only_sent_to_the_issuing_site() {
    let mut scoped: Vec<Header> = Vec::new();
    apply_cf_headers_scoped(
        &mut scoped,
        "https://cdn.example/x",
        "https://supjav.com/p",
        "cookie-value",
        "ua",
    );
    assert!(
        header(&scoped, "cookie").is_none(),
        "the clearance cookie must not leak to a third-party CDN"
    );
    let mut own: Vec<Header> = Vec::new();
    apply_cf_headers_scoped(
        &mut own,
        "https://supjav.com/x",
        "https://supjav.com/p",
        "cookie-value",
        "ua",
    );
    assert_eq!(header(&own, "cookie"), Some("cf_clearance=cookie-value"));
}

#[test]
fn requests_carry_their_range_and_agent() {
    let credentials = Credentials { cookie: "c".into(), user_agent: "ua".into() };
    let headers = media_request(
        "https://cdn.example/x.ts",
        "https://supjav.com/p",
        "https://supjav.com/",
        &credentials,
        Some((10, 5)),
    );
    assert_eq!(header(&headers, "range"), Some("bytes=10-14"));
    assert_eq!(header(&headers, "cookie"), None);
    let page = request(
        "https://supjav.com/p",
        &Some("https://supjav.com/".into()),
        "https://supjav.com/",
        &credentials,
    );
    assert_eq!(header(&page, "referer"), Some("https://supjav.com/"));
    assert_eq!(header(&page, "cookie"), Some("cf_clearance=c"));
}

#[test]
fn responses_that_are_no_media_are_rejected() {
    let head = |status: u16, content_type: Option<&str>, mitigated: Option<&str>| MediaHead {
        status,
        status_line: status.to_string(),
        uri: "https://cdn.example/x.ts".into(),
        cf_mitigated: mitigated.map(str::to_string),
        content_type: content_type.map(str::to_string),
        cf_ray: None,
    };
    assert_eq!(media_response(&head(200, Some("video/mp2t"), None)), Ok(()));
    assert!(matches!(
        media_response(&head(200, Some("text/html"), None)),
        Err(MediaFailure::Rejected(_))
    ));
    assert!(matches!(
        media_response(&head(403, None, Some("challenge"))),
        Err(MediaFailure::Rejected(_))
    ));
    assert!(matches!(
        media_response(&head(503, None, None)),
        Err(MediaFailure::Failed(_))
    ));
    assert!(validate_media_body("u", b"").is_err());
    assert!(validate_media_body("u", b"<!DOCTYPE html><html></html>").is_err());
    assert!(validate_media_body("u", &[0x47, 0, 1]).is_ok());
}

#[test]
fn challenged_pages_are_fetched_again_after_a_refresh() {
    let url = "https://supjav.com/popular";
    assert!(text_once(url, 200, "200 OK", "<title>Popular</title>").is_ok());
    let challenged = text_once(url, 403, "403 Forbidden", "denied").unwrap_err();
    assert!(matches!(
        after_failure(url, "https://supjav.com/", challenged),
        TextStep::Refresh(_, _)
    ));
    let plain = text_once(url, 500, "500 Internal Server Error", "oops").unwrap_err();
    assert!(matches!(
        after_failure(url, "https://supjav.com/", plain),
        TextStep::Fail(_)
    ));
    let wrapped = refresh_failed(FetchError::Other("blocked".into()), "no browser");
    assert!(wrapped.message().contains("no browser"));
}

const LIST: &str = r#"
    <div class="grid">
      <div>
        <div class="thumbnail group">
          <a href="https://missav.ai/cn/fc2-ppv-4968310" alt="fc2-ppv-4968310">
            <img class="w-full" data-src="https://fourhoi.com/fc2-ppv-4968310/cover-t.jpg" alt="FC2-PPV-4968310 full title">
          </a>
          <a href="https://missav.ai/cn/fc2-ppv-4968310"><span class="badge">1:16:54</span></a>
          <div class="my-2 truncate"><a href="https://missav.ai/cn/fc2-ppv-4968310">FC2-PPV-4968310 full title</a></div>
        </div>
      </div>
      <div>
        <div class="thumbnail group">
          <a href="https://missav.ai/cn/abp-123" alt="abp-123">
            <img data-src="https://fourhoi.com/abp-123/cover-t.jpg" alt="ABP-123 other">
          </a>
          <a href="https://missav.ai/cn/abp-123"><span class="badge">45:00</span></a>
          <div class="my-2 truncate"><a href="https://missav.ai/cn/abp-123">ABP-123 other</a></div>
        </div>
      </div>
      <div><a href="https://missav.ai/cn/actresses">Actresses</a></div>
    </div>"#;

#[test]
fn parses_synthetic_cards() {
    let cards = parse_list(LIST);
    assert_eq!(cards.len(), 2, "section links must not become cards");
    assert_eq!(cards[0].id, "fc2-ppv-4968310");
    assert_eq!(cards[0].title, "FC2-PPV-4968310 full title");
    assert_eq!(cards[0].duration_secs, Some(3600 + 16 * 60 + 54));
    assert_eq!(cards[0].rank, Some(1));
    assert_eq!(cards[1].rank, Some(2));
    assert_eq!(cards[1].id, "abp-123");
    assert_eq!(cards[1].duration_secs, Some(45 * 60));
}

#[test]
fn deduplicates_repeated_links_within_a_card() {
    let duplicated = format!("{LIST}{LIST}");
    assert_eq!(parse_list(&duplicated).len(), 2);
}

#[test]
fn language_filter_excludes_other_subtrees() {
    let mixed = r#"
        <div class="thumbnail group">
          <a href="https://missav.ai/en/fc2-ppv-1" alt="x"><img data-src="a.jpg" alt="A"></a>
          <div><a href="https://missav.ai/en/fc2-ppv-1">A</a></div>
        </div>
        <div class="thumbnail group">
          <a href="https://missav.ai/cn/fc2-ppv-2" alt="y"><img data-src="b.jpg" alt="B"></a>
          <div><a href="https://missav.ai/cn/fc2-ppv-2">B</a></div>
        </div>"#;
    let only_cn = parse_list_for_language(mixed, Some("cn"));
    assert_eq!(only_cn.len(), 1);
    assert_eq!(only_cn[0].id, "fc2-ppv-2");
    assert_eq!(parse_list_for_language(mixed, None).len(), 2);
}

#[test]
fn cards_carry_their_cover_and_address() {
    let cards = parse_list(LIST);
    assert_eq!(cards[0].url, "https://missav.ai/cn/fc2-ppv-4968310");
    assert_eq!(
        cards[0].image_url,
        "https://fourhoi.com/fc2-ppv-4968310/cover-t.jpg"
    );
    let matcher = title_matcher("other", false).unwrap();
    let kept = filter_titles(&cards, &matcher);
    assert_eq!(kept.len(), 1);
    assert_eq!(kept[0].id, "abp-123");
}

#[test]
fn duration_parsing_variants() {
    assert_eq!(parse_duration("1:16:54"), Some(4614));
    assert_eq!(parse_duration("45:00"), Some(2700));
    assert_eq!(parse_duration("2:03"), Some(123));
    assert_eq!(parse_duration("4614"), None, "bare seconds are not a badge");
    assert_eq!(parse_duration(""), None);
    assert_eq!(parse_duration("abc"), None);
}

#[test]
fn video_id_extraction() {
    assert_eq!(
        video_id_from_url("https://missav.ai/cn/fc2-ppv-4968310").as_deref(),
        Some("fc2-ppv-4968310")
    );
    assert_eq!(
        video_id_from_url("https://missav.ai/fc2-ppv-4968310").as_deref(),
        Some("fc2-ppv-4968310")
    );
    assert_eq!(
        video_id_from_url("https://missav.ai/en/abp-123?x=1").as_deref(),
        Some("abp-123")
    );
    // Section pages are not videos.
    assert_eq!(video_id_from_url("https://missav.ai/cn/actresses"), None);
    assert_eq!(video_id_from_url("https://missav.ai/cn/vip"), None);
    assert_eq!(video_id_from_url("https://missav.ai/dm597/cn/fc2"), None);
    // Other hosts are ignored even if the path looks right.
    assert_eq!(video_id_from_url("https://example.com/cn/abp-123"), None);
    assert!(is_video_slug(&to_chars("abp-123")));
    assert!(!is_video_slug(&to_chars("vip")));
    assert!(is_video_slug(&to_chars("091326_001")));
    assert!(!is_video_slug(&to_chars("ABP-123")), "slugs are lowercase");
}

#[test]
fn language_is_read_from_the_path() {
    assert_eq!(
        language_of("https://missav.ai/cn/fc2-ppv-1").as_deref(),
        Some("cn")
    );
    assert_eq!(language_of("https://missav.ai/fc2-ppv-1"), None);
}

#[test]
fn listings_without_cards_are_errors() {
    let cfg = Config::default();
    assert_eq!(
        fetch_popular(&cfg, 2, "<html></html>").unwrap_err(),
        "no videos parsed from https://missav.ai/dm597/cn/fc2?sort=weekly_views&page=2 — the markup may have changed"
    );
    assert_eq!(fetch_popular(&cfg, 1, LIST).unwrap().len(), 2);
    let filtered = Config { title_filter: "OTHER".into(), ..Config::default() };
    assert_eq!(fetch_popular(&filtered, 1, LIST).unwrap()[0].id, "abp-123");
    let none = Config { title_filter: "nothing".into(), ..Config::default() };
    assert!(fetch_popular(&none, 1, LIST).unwrap().is_empty());
    let broken = Config {
        title_filter: "[".into(),
        title_filter_regex: true,
        ..Config::default()
    };
    let error = fetch_popular(&broken, 1, LIST).unwrap_err();
    assert!(error.starts_with("invalid title filter regex: regex parse error:"));
    assert!(error.ends_with("error: unclosed character class"));
    assert_eq!(site_referer(&cfg), "https://missav.ai/");
}

#[test]
fn browsers_are_built_from_settings() {
    let cfg = Config { user_agent: " ".into(), ..Config::default() };
    let opts = build_browser(&cfg, "/usr/bin/chromium").unwrap();
    assert_eq!(opts.executable, "/usr/bin/chromium");
    assert_eq!(opts.user_agent, DEFAULT_USER_AGENT);
    assert_eq!(opts.target_url, cfg.popular_url(1));
    let own = Config { browser_path: "/opt/chrome".into(), ..Config::default() };
    assert_eq!(build_browser(&own, "/usr/bin/chromium").unwrap().executable, "/opt/chrome");
    let off = Config { browser_enabled: false, ..Config::default() };
    assert!(build_browser(&off, "").is_none());
}

#[test]
fn parts_of_a_length_add_up() {
    let t = parse_duration("1:02 ").unwrap();
    assert_eq!(parse_duration("1:02 :03"), Some(60 * t + 3));
    assert_eq!(parse_duration("1:02:18446744073709551615"), None);
    assert_eq!(parse_duration("0:18446744073709551615"), Some(u64::MAX));
    assert_eq!(parse_duration("0:18446744073709551615:0"), None);
}
