//! Headless-browser cookie minting: how the browser is started, and when a mint
//! is over.
//!
//! A managed challenge runs a JavaScript VM and a pile of browser fingerprint
//! checks, so a real browser loads the page, and the cookie is lifted out of it.
//! The browser must not send its default headless agent string, which gives it
//! away.
use vstd::prelude::*;
use crate::jav::source::cf::MintedCookie;
use crate::configuration::jav::Config;
use crate::configuration::listing::listing_of;
use crate::jav::source::cf::DEFAULT_USER_AGENT;
use crate::outside::std_text::{debug_text, quoted};
use crate::outside::url::{parse, url_text};
use crate::paths::{join_path, path_in};
use crate::text::{
    begins, char_views, contains, copy_range, decimal, decimal_chars, ends, ends_with, from_chars,
    has, join2, join3, line_list, lines, same_str, starts_with, to_chars, trim, trim_end,
    trim_end_chars, trim_str, views,
};

verus! {

/// Tunables for the minting browser.
#[derive(Debug, Clone)]
pub struct BrowserOptions {
    /// Explicit browser binary. Empty means that one is detected.
    pub executable: String,
    /// Parent directory for process-owned profiles.
    pub user_data_dir: String,
    /// Page the challenge is solved against.
    pub target_url: String,
    /// How many seconds to wait for the interstitial to clear.
    pub nav_timeout_secs: u64,
    /// User agent for both the browser and the HTTP client.
    pub user_agent: String,
}

/// How long a challenge may take, in seconds.
pub const NAV_TIMEOUT_SECS: u64 = 150;

impl BrowserOptions {
    /// Options with a browser that is detected.
    pub fn new(user_data_dir: &str, target_url: &str, user_agent: &str) -> (r: Self)
        ensures
            r.executable@ == Seq::<char>::empty(),
            r.user_data_dir@ == user_data_dir@,
            r.target_url@ == target_url@,
            r.nav_timeout_secs == NAV_TIMEOUT_SECS,
            r.user_agent@ == user_agent@,
    {
        BrowserOptions {
            executable: String::new(),
            user_data_dir: user_data_dir.to_owned(),
            target_url: target_url.to_owned(),
            nav_timeout_secs: NAV_TIMEOUT_SECS,
            user_agent: user_agent.to_owned(),
        }
    }
}

/// A writable directory for the browser's crash dumps, beside the profile.
pub fn crash_dir(opts: &BrowserOptions) -> (r: String)
    ensures
        r@ == path_in(opts.user_data_dir@, "crash-dumps"@),
{
    join_path(opts.user_data_dir.as_str(), "crash-dumps")
}

/// What the browser is called in a message.
pub open spec fn browser_name(executable: Seq<char>) -> Seq<char> {
    if executable.len() == 0 {
        "auto-detected Chrome"@
    } else {
        executable
    }
}

/// What the browser is called in a message.
pub fn describe(opts: &BrowserOptions) -> (r: String)
    ensures
        r@ == browser_name(opts.executable@),
{
    if to_chars(opts.executable.as_str()).len() == 0 {
        "auto-detected Chrome".to_owned()
    } else {
        opts.executable.clone()
    }
}

// ── The command line ─────────────────────────────────────────────────────

/// Whether a default argument of the browser library is left out: those that
/// disable features are merged into one, and idle throttling is restored.
pub open spec fn left_out(arg: Seq<char>) -> bool {
    ||| starts_with(arg, "--disable-features="@)
    ||| arg == "--disable-dev-shm-usage"@
    ||| arg == "--disable-background-timer-throttling"@
    ||| arg == "--disable-backgrounding-occluded-windows"@
    ||| arg == "--disable-renderer-backgrounding"@
}

/// The default arguments that are kept.
pub open spec fn kept_defaults(args: Seq<Seq<char>>) -> Seq<Seq<char>>
    decreases args.len(),
{
    if args.len() == 0 {
        Seq::empty()
    } else {
        let head = kept_defaults(args.drop_last());
        if left_out(args.last()) {
            head
        } else {
            head.push(args.last())
        }
    }
}

/// The features that the default arguments disable, each followed by a comma.
pub open spec fn default_features(args: Seq<Seq<char>>) -> Seq<char>
    decreases args.len(),
{
    if args.len() == 0 {
        Seq::empty()
    } else {
        let head = default_features(args.drop_last());
        if starts_with(args.last(), "--disable-features="@) {
            head + args.last().skip(19) + ","@
        } else {
            head
        }
    }
}

/// The one argument that disables features: repeated ones would overwrite each
/// other.
pub open spec fn features_arg(defaults: Seq<Seq<char>>) -> Seq<char> {
    "--disable-features="@ + default_features(defaults)
        + "MediaRouter,OptimizationHints,SpareRendererForSitePerProcess"@
}

/// The arguments of this engine.
pub open spec fn own_args(crash: Seq<char>, user_agent: Seq<char>) -> Seq<Seq<char>> {
    let fixed = seq![
        "--disable-gpu"@,
        "--no-first-run"@,
        "--no-startup-window"@,
        "--no-default-browser-check"@,
        "--disable-background-networking"@,
        "--disable-component-update"@,
        "--disable-domain-reliability"@,
        "--disable-notifications"@,
        "--disable-blink-features=AutomationControlled"@,
        "--disable-breakpad"@,
        "--disable-crash-reporter"@,
        "--no-crashpad"@,
        "--crash-dumps-dir="@ + crash,
    ];
    if trim(user_agent).len() == 0 {
        fixed
    } else {
        fixed.push("--user-agent="@ + trim(user_agent))
    }
}

/// The arguments that every launch ends with.
pub open spec fn last_args(profile: Seq<char>) -> Seq<Seq<char>> {
    seq![
        "--headless=new"@,
        "--no-sandbox"@,
        "--window-size=1280,900"@,
        "--remote-debugging-port=0"@,
        "--user-data-dir="@ + profile,
    ]
}

/// The arguments of a launch.
pub open spec fn all_args(
    defaults: Seq<Seq<char>>,
    crash: Seq<char>,
    user_agent: Seq<char>,
    profile: Seq<char>,
) -> Seq<Seq<char>> {
    kept_defaults(defaults) + own_args(crash, user_agent).push(features_arg(defaults)) + last_args(
        profile,
    )
}

fn is_left_out(arg: &str) -> (r: bool)
    ensures
        r == left_out(arg@),
{
    begins(to_chars(arg).as_slice(), to_chars("--disable-features=").as_slice()) || same_str(
        arg,
        "--disable-dev-shm-usage",
    ) || same_str(arg, "--disable-background-timer-throttling") || same_str(
        arg,
        "--disable-backgrounding-occluded-windows",
    ) || same_str(arg, "--disable-renderer-backgrounding")
}

fn push_arg(v: &mut Vec<String>, arg: &str)
    ensures
        views(final(v)@) == views(old(v)@).push(arg@),
{
    let ghost before = views(v@);
    v.push(arg.to_owned());
    assert(views(v@) =~= before.push(arg@));
}

fn keep_defaults(defaults: &Vec<String>) -> (r: (Vec<String>, String))
    ensures
        views(r.0@) == kept_defaults(views(defaults@)),
        r.1@ == default_features(views(defaults@)),
{
    let ghost all = views(defaults@);
    let mut kept: Vec<String> = Vec::new();
    let mut features: Vec<char> = Vec::new();
    let prefix = to_chars("--disable-features=");
    proof {
        reveal_strlit("--disable-features=");
    }
    let mut i: usize = 0;
    assert(views(kept@) =~= kept_defaults(all.take(0)));
    assert(features@ =~= default_features(all.take(0)));
    while i < defaults.len()
        invariant
            i <= defaults@.len(),
            all == views(defaults@),
            prefix@ == "--disable-features="@,
            prefix@.len() == 19,
            views(kept@) == kept_defaults(all.take(i as int)),
            features@ == default_features(all.take(i as int)),
        decreases defaults@.len() - i,
    {
        assert(all.take(i + 1).drop_last() =~= all.take(i as int));
        assert(all.take(i + 1).last() == defaults@[i as int]@);
        let arg = to_chars(defaults[i].as_str());
        if begins(arg.as_slice(), prefix.as_slice()) {
            let names = copy_range(arg.as_slice(), 19, arg.len());
            assert(names@ =~= arg@.skip(19));
            let ghost before = features@;
            crate::text::push_all(&mut features, names.as_slice());
            crate::text::push_all(&mut features, to_chars(",").as_slice());
        }
        if !is_left_out(defaults[i].as_str()) {
            push_arg(&mut kept, defaults[i].as_str());
        }
        i += 1;
    }
    assert(all.take(all.len() as int) =~= all);
    (kept, from_chars(features.as_slice()))
}

fn add_quiet_args(v: &mut Vec<String>)
    ensures
        views(final(v)@) == views(old(v)@) + seq![
            "--disable-gpu"@,
            "--no-first-run"@,
            "--no-startup-window"@,
            "--no-default-browser-check"@,
            "--disable-background-networking"@,
            "--disable-component-update"@,
        ],
{
    let ghost before = views(v@);
    push_arg(v, "--disable-gpu");
    push_arg(v, "--no-first-run");
    push_arg(v, "--no-startup-window");
    push_arg(v, "--no-default-browser-check");
    push_arg(v, "--disable-background-networking");
    push_arg(v, "--disable-component-update");
    assert(views(v@) =~= before + seq![
        "--disable-gpu"@,
        "--no-first-run"@,
        "--no-startup-window"@,
        "--no-default-browser-check"@,
        "--disable-background-networking"@,
        "--disable-component-update"@,
    ]);
}

fn add_crash_args(v: &mut Vec<String>, crash: &str)
    ensures
        views(final(v)@) == views(old(v)@) + seq![
            "--disable-domain-reliability"@,
            "--disable-notifications"@,
            "--disable-blink-features=AutomationControlled"@,
            "--disable-breakpad"@,
            "--disable-crash-reporter"@,
            "--no-crashpad"@,
            "--crash-dumps-dir="@ + crash@,
        ],
{
    let ghost before = views(v@);
    push_arg(v, "--disable-domain-reliability");
    push_arg(v, "--disable-notifications");
    push_arg(v, "--disable-blink-features=AutomationControlled");
    push_arg(v, "--disable-breakpad");
    push_arg(v, "--disable-crash-reporter");
    push_arg(v, "--no-crashpad");
    let dir = join2("--crash-dumps-dir=", crash);
    push_arg(v, dir.as_str());
    assert(views(v@) =~= before + seq![
        "--disable-domain-reliability"@,
        "--disable-notifications"@,
        "--disable-blink-features=AutomationControlled"@,
        "--disable-breakpad"@,
        "--disable-crash-reporter"@,
        "--no-crashpad"@,
        "--crash-dumps-dir="@ + crash@,
    ]);
}

fn add_last_args(v: &mut Vec<String>, profile: &str)
    ensures
        views(final(v)@) == views(old(v)@) + last_args(profile@),
{
    let ghost before = views(v@);
    push_arg(v, "--headless=new");
    push_arg(v, "--no-sandbox");
    push_arg(v, "--window-size=1280,900");
    push_arg(v, "--remote-debugging-port=0");
    let dir = join2("--user-data-dir=", profile);
    push_arg(v, dir.as_str());
    assert(views(v@) =~= before + last_args(profile@));
}

/// The arguments to launch the browser with: the defaults of the browser library
/// that are kept, those of this engine, and the profile.
pub fn launch_args(
    opts: &BrowserOptions,
    user_agent: &str,
    defaults: &Vec<String>,
    profile: &str,
) -> (r: Vec<String>)
    ensures
        views(r@) == all_args(
            views(defaults@),
            path_in(opts.user_data_dir@, "crash-dumps"@),
            user_agent@,
            profile@,
        ),
{
    let (kept, features) = keep_defaults(defaults);
    let mut v = kept;
    let ghost one = views(v@);
    let crash = crash_dir(opts);
    add_quiet_args(&mut v);
    add_crash_args(&mut v, crash.as_str());
    let ua = trim_str(user_agent);
    if to_chars(ua.as_str()).len() > 0 {
        let arg = join2("--user-agent=", ua.as_str());
        push_arg(&mut v, arg.as_str());
    }
    assert(views(v@) =~= one + own_args(crash@, user_agent@));
    let disabled = join3(
        "--disable-features=",
        features.as_str(),
        "MediaRouter,OptimizationHints,SpareRendererForSitePerProcess",
    );
    push_arg(&mut v, disabled.as_str());
    assert(views(v@) =~= one + own_args(crash@, user_agent@).push(features_arg(views(defaults@))));
    add_last_args(&mut v, profile);
    v
}

/// The browser never gives itself away: whatever user agent is asked for, the
/// agent string it sends is set, unless that is blank.
pub proof fn law_agent_is_overridden(crash: Seq<char>, user_agent: Seq<char>)
    requires
        trim(user_agent).len() > 0,
    ensures
        own_args(crash, user_agent).last() == "--user-agent="@ + trim(user_agent),
{
}

// ── Launching ────────────────────────────────────────────────────────────

/// What a launch has to do next.
#[derive(Debug, Clone, PartialEq, Eq)]
pub enum LaunchStep {
    /// The browser can be reached there.
    Ready(String),
    Fail(String),
    /// Look again after a while.
    Wait,
}

/// The address that the browser has written down: the port on one line, the path
/// on the next.
pub open spec fn endpoint_of(text: Seq<char>) -> Option<Seq<char>> {
    let ls = lines(text);
    if ls.len() < 2 {
        None
    } else {
        Some("ws://127.0.0.1:"@ + ls[0] + ls[1])
    }
}

/// What a launch has to do next: a browser that has exited is not waited for; one
/// that has written its address down is ready; and the wait ends at a deadline.
pub fn launch_step(exited: &Option<String>, endpoint: &Option<String>, late: bool) -> (r:
    LaunchStep)
    ensures
        match *exited {
            Some(status) => r matches LaunchStep::Fail(m) && m@
                == "Chromium exited before opening DevTools: "@ + status@,
            None => {
                let address = match *endpoint {
                    Some(t) => endpoint_of(t@),
                    None => None,
                };
                match address {
                    Some(a) => match url_text(a) {
                        Ok(u) => r matches LaunchStep::Ready(x) && x@ == u,
                        Err(e) => r matches LaunchStep::Fail(m) && m@
                            == "invalid Chromium endpoint: "@ + e,
                    },
                    None => if late {
                        r matches LaunchStep::Fail(m) && m@
                            == "Chromium did not open DevTools within 30s"@
                    } else {
                        r == LaunchStep::Wait
                    },
                }
            },
        },
{
    if let Some(status) = exited {
        return LaunchStep::Fail(
            join2("Chromium exited before opening DevTools: ", status.as_str()),
        );
    }
    if let Some(text) = endpoint {
        let ls = line_list(to_chars(text.as_str()).as_slice());
        let ghost all = lines(text@);
        assert(all == char_views(ls@));
        if ls.len() >= 2 {
            assert(all[0] == ls@[0]@ && all[1] == ls@[1]@);
            let address = join3(
                "ws://127.0.0.1:",
                from_chars(ls[0].as_slice()).as_str(),
                from_chars(ls[1].as_slice()).as_str(),
            );
            return match parse(address.as_str()) {
                Ok(u) => LaunchStep::Ready(u),
                Err(e) => LaunchStep::Fail(join2("invalid Chromium endpoint: ", e.as_str())),
            };
        }
    }
    if late {
        return LaunchStep::Fail("Chromium did not open DevTools within 30s".to_owned());
    }
    LaunchStep::Wait
}

/// Whether a line of the browser's diagnostics is about a messaging registration
/// that this engine does not use.
pub open spec fn is_noise(line: Seq<char>) -> bool {
    contains(line, "google_apis/gcm/engine/registration_request.cc:"@) && (ends_with(
        trim_end(line),
        "Registration response error message: DEPRECATED_ENDPOINT"@,
    ) || ends_with(
        trim_end(line),
        "Registration response error message: PHONE_REGISTRATION_ERROR"@,
    ))
}

/// Whether a line of the browser's diagnostics is about a messaging registration
/// that this engine does not use.
pub fn is_registration_noise(line: &str) -> (r: bool)
    ensures
        r == is_noise(line@),
{
    let v = to_chars(line);
    let t = trim_end_chars(v.as_slice());
    has(v.as_slice(), to_chars("google_apis/gcm/engine/registration_request.cc:").as_slice()) && (
    ends(
        t.as_slice(),
        to_chars("Registration response error message: DEPRECATED_ENDPOINT").as_slice(),
    ) || ends(
        t.as_slice(),
        to_chars("Registration response error message: PHONE_REGISTRATION_ERROR").as_slice(),
    ))
}

// ── Minting ──────────────────────────────────────────────────────────────

/// A cookie of the page.
#[derive(Debug, Clone)]
pub struct PageCookie {
    pub name: String,
    pub value: String,
}

/// What a mint has to do next.
#[derive(Debug, PartialEq, Eq)]
pub enum MintStep {
    Minted(MintedCookie),
    Fail(String),
    /// Look again after a while.
    Wait,
}

/// The first clearance cookie that is not blank from `i` on; the number of
/// cookies where there is none.
pub open spec fn clearance_at(cookies: Seq<PageCookie>, i: int) -> int
    decreases cookies.len() - i,
{
    if i < 0 || i >= cookies.len() {
        cookies.len() as int
    } else if cookies[i].name@ == "cf_clearance"@ && trim(cookies[i].value@).len() > 0 {
        i
    } else {
        clearance_at(cookies, i + 1)
    }
}

/// The value of the first clearance cookie that is not blank.
pub fn clearance_value(cookies: &Vec<PageCookie>) -> (r: Option<String>)
    ensures
        ({
            let i = clearance_at(cookies@, 0);
            if i < cookies@.len() {
                r matches Some(v) && v@ == cookies@[i].value@
            } else {
                r is None
            }
        }),
{
    let mut i: usize = 0;
    while i < cookies.len()
        invariant
            i <= cookies@.len(),
            clearance_at(cookies@, 0) == clearance_at(cookies@, i as int),
        decreases cookies@.len() - i,
    {
        if same_str(cookies[i].name.as_str(), "cf_clearance") && to_chars(
            trim_str(cookies[i].value.as_str()).as_str(),
        ).len() > 0 {
            return Some(cookies[i].value.clone());
        }
        i += 1;
    }
    None
}

/// What a mint has to do next: one that was cancelled is over; a clearance cookie
/// is taken with the user agent that earned it; and the wait ends at a deadline.
/// `title` is the page's title.
pub fn mint_step(
    opts: &BrowserOptions,
    user_agent: &str,
    cancelled: bool,
    cookies: &Vec<PageCookie>,
    late: bool,
    title: &str,
) -> (r: MintStep)
    ensures
        ({
            let i = clearance_at(cookies@, 0);
            if cancelled {
                r matches MintStep::Fail(m) && m@ == "cookie mint cancelled"@
            } else if i < cookies@.len() {
                r matches MintStep::Minted(c) && c.cookie@ == cookies@[i].value@ && c.user_agent@
                    == user_agent@
            } else if late {
                r matches MintStep::Fail(m) && m@ == "timed out after "@ + decimal(
                    opts.nav_timeout_secs as nat,
                ) + "s waiting for the Cloudflare challenge to clear (last page title: "@ + debug_text(
                    title@,
                ) + ")"@
            } else {
                r == MintStep::Wait
            }
        }),
{
    if cancelled {
        return MintStep::Fail("cookie mint cancelled".to_owned());
    }
    if let Some(cookie) = clearance_value(cookies) {
        return MintStep::Minted(MintedCookie { cookie, user_agent: user_agent.to_owned() });
    }
    if late {
        let secs = from_chars(decimal_chars(opts.nav_timeout_secs).as_slice());
        let head = join3(
            "timed out after ",
            secs.as_str(),
            "s waiting for the Cloudflare challenge to clear (last page title: ",
        );
        return MintStep::Fail(join3(head.as_str(), quoted(title).as_str(), ")"));
    }
    MintStep::Wait
}

/// Which browser mints, and whether it is loaded.
#[derive(Debug)]
pub struct BrowserMinter {
    pub opts: BrowserOptions,
    pub running: bool,
    pub stopped: bool,
}

/// How a mint starts.
#[derive(Debug, Clone, Copy, PartialEq, Eq, Structural)]
pub enum MintStart {
    Cancelled,
    /// The browser that is loaded is used again.
    Reuse,
    /// What is left of an earlier browser is dropped, and one is launched.
    Launch,
}

impl BrowserMinter {
    /// No browser is loaded.
    pub fn new(opts: BrowserOptions) -> (r: Self)
        ensures
            r.opts == opts,
            !r.running,
            !r.stopped,
    {
        BrowserMinter { opts, running: false, stopped: false }
    }

    /// True when a browser is currently loaded.
    pub fn is_running(&self) -> (r: bool)
        ensures
            r == self.running,
    {
        self.running
    }

    /// How a mint starts; `reachable` says whether a browser that is loaded can
    /// be reached.
    pub fn begin(&mut self, cancelled: bool, reachable: bool) -> (r: MintStart)
        ensures
            final(self).opts == old(self).opts,
            final(self).stopped == old(self).stopped,
            if cancelled || old(self).stopped {
                r == MintStart::Cancelled && final(self).running == old(self).running
            } else if old(self).running && reachable {
                r == MintStart::Reuse && final(self).running
            } else {
                r == MintStart::Launch && !final(self).running
            },
    {
        if cancelled || self.stopped {
            return MintStart::Cancelled;
        }
        if self.running && reachable {
            return MintStart::Reuse;
        }
        self.running = false;
        MintStart::Launch
    }

    /// A browser has been launched.
    pub fn launched(&mut self)
        ensures
            final(self).running,
            final(self).opts == old(self).opts,
            final(self).stopped == old(self).stopped,
    {
        self.running = true;
    }

    /// The browser is unloaded for good: no mint starts any more.
    pub fn shutdown(&mut self)
        ensures
            !final(self).running,
            final(self).stopped,
            final(self).opts == old(self).opts,
    {
        self.stopped = true;
        self.running = false;
    }

    /// The user agent of a mint: the one asked for, or the configured one where
    /// that is blank.
    pub fn agent(&self, hint: &str) -> (r: String)
        ensures
            r@ == (if trim(hint@).len() == 0 {
                self.opts.user_agent@
            } else {
                hint@
            }),
    {
        if to_chars(trim_str(hint).as_str()).len() == 0 {
            self.opts.user_agent.clone()
        } else {
            hint.to_owned()
        }
    }
}

/// The browser that mints under some settings, where minting is switched on: the
/// challenge is that of the first listing, an unset user agent stands for the
/// default one, and an unset binary for that of `chrome_path`.
pub fn build_browser(cfg: &Config, chrome_path: &str) -> (r: Option<BrowserOptions>)
    ensures
        if !cfg.browser_enabled {
            r is None
        } else {
            r matches Some(o) && o.executable@ == (if cfg.browser_path@.len() == 0 {
                chrome_path@
            } else {
                cfg.browser_path@
            }) && o.user_data_dir@ == cfg.browser_profile_dir@ && o.target_url@ == listing_of(
                cfg.site_base@,
                cfg.all_links()[0].0,
                "popular"@,
                1,
            ) && o.nav_timeout_secs == NAV_TIMEOUT_SECS && o.user_agent@ == (if trim(
                cfg.user_agent@,
            ).len() == 0 {
                DEFAULT_USER_AGENT@
            } else {
                cfg.user_agent@
            })
        },
{
    if !cfg.browser_enabled {
        return None;
    }
    let agent = if to_chars(trim_str(cfg.user_agent.as_str()).as_str()).len() == 0 {
        DEFAULT_USER_AGENT.to_owned()
    } else {
        cfg.user_agent.as_str().to_owned()
    };
    let links = cfg.listing_links();
    assert(cfg.all_links().len() > 0);
    let first = cfg.for_link(&links[0]);
    let mut opts = BrowserOptions::new(
        cfg.browser_profile_dir.as_str(),
        first.popular_url(1).as_str(),
        agent.as_str(),
    );
    opts.executable = if to_chars(cfg.browser_path.as_str()).len() == 0 {
        chrome_path.to_owned()
    } else {
        cfg.browser_path.as_str().to_owned()
    };
    Some(opts)
}

} // verus!
