//! Cloudflare clearance-cookie state.
//!
//! A managed challenge cannot be answered by an HTTP client: a real browser has
//! to produce the `cf_clearance` cookie, and this module holds the result. The
//! cookie is bound to the user agent that earned it, so the two are replaced
//! together, and every request picks up the current pair.
//!
//! Times are nanoseconds on any monotonic clock.
use vstd::prelude::*;
use crate::text::{
    ascii_lower, clone_opt, contains, has, lower_chars, opt_view, same_str, to_chars,
    trim, trim_str,
};

verus! {

/// Whether a page is the interstitial rather than the real page.
pub open spec fn spec_challenge_page(body: Seq<char>) -> bool {
    ||| contains(body, "Just a moment..."@)
    ||| contains(body, "cf-challenge"@)
    ||| contains(body, "cf_chl_opt"@)
    ||| contains(body, "challenge-platform"@)
    ||| contains(body, "_cf_chl_"@)
    ||| (contains(body, "cloudflare"@) && contains(body, "checking your browser"@))
}

/// True when the body is Cloudflare's interstitial rather than the real page.
pub fn is_cloudflare_challenge(body: &str) -> (r: bool)
    ensures
        r == spec_challenge_page(body@),
{
    let b = to_chars(body);
    has(b.as_slice(), to_chars("Just a moment...").as_slice()) || has(
        b.as_slice(),
        to_chars("cf-challenge").as_slice(),
    ) || has(b.as_slice(), to_chars("cf_chl_opt").as_slice()) || has(
        b.as_slice(),
        to_chars("challenge-platform").as_slice(),
    ) || has(b.as_slice(), to_chars("_cf_chl_").as_slice()) || (has(
        b.as_slice(),
        to_chars("cloudflare").as_slice(),
    ) && has(b.as_slice(), to_chars("checking your browser").as_slice()))
}

/// Whether an error message, in any case, looks like a Cloudflare rejection.
pub open spec fn spec_challenge_error(err: Seq<char>) -> bool {
    let l = ascii_lower(err);
    ||| contains(l, "cloudflare"@)
    ||| contains(l, "403"@)
    ||| contains(l, "cf_chl"@)
    ||| contains(l, "just a moment"@)
    ||| contains(l, "cf-mitigated"@)
}

/// True when an error message looks like a Cloudflare rejection.
pub fn is_challenge_error(err: &str) -> (r: bool)
    ensures
        r == spec_challenge_error(err@),
{
    let e = to_chars(err);
    let l = lower_chars(e.as_slice());
    has(l.as_slice(), to_chars("cloudflare").as_slice()) || has(
        l.as_slice(),
        to_chars("403").as_slice(),
    ) || has(l.as_slice(), to_chars("cf_chl").as_slice()) || has(
        l.as_slice(),
        to_chars("just a moment").as_slice(),
    ) || has(l.as_slice(), to_chars("cf-mitigated").as_slice())
}

// ── The store ────────────────────────────────────────────────────────────

/// User agent used when the configuration does not name one. It names the same
/// browser as the TLS fingerprint that requests are made with.
pub const DEFAULT_USER_AGENT: &'static str = "Mozilla/5.0 (Macintosh; Intel Mac OS X 10_15_7) AppleWebKit/537.36 (KHTML, like Gecko) Chrome/149.0.0.0 Safari/537.36";

/// How long a single mint attempt may take before it is abandoned, in seconds.
pub const MINT_TIMEOUT_SECS: u64 = 180;

/// Minimum spacing after a failed attempt, in nanoseconds.
pub const COOLDOWN: u64 = 30_000_000_000;

/// Nanoseconds in a second.
pub const SECOND: u64 = 1_000_000_000;

/// A freshly minted clearance cookie plus the user agent that earned it.
#[derive(Debug, Clone, PartialEq, Eq)]
pub struct MintedCookie {
    /// Bare `cf_clearance` value.
    pub cookie: String,
    /// The browser's own user agent. For the cookie to stay valid the HTTP
    /// client must send exactly this value.
    pub user_agent: String,
}

/// How a cookie came to be.
#[derive(Debug, Clone, Copy, PartialEq, Eq, Structural)]
pub enum CookieSource {
    /// Pasted by the user, or read from the configuration.
    Manual,
    /// Minted by the headless browser without user involvement.
    Browser,
}

impl CookieSource {
    /// What the source is called.
    pub fn as_str(self) -> (r: &'static str)
        ensures
            r@ == (match self {
                CookieSource::Manual => "manual"@,
                CookieSource::Browser => "browser"@,
            }),
    {
        match self {
            CookieSource::Manual => "manual",
            CookieSource::Browser => "browser",
        }
    }
}

/// A point-in-time view of the store, for status reporting.
#[derive(Debug, Clone)]
pub struct CookieSnapshot {
    pub configured: bool,
    pub source: CookieSource,
    /// Seconds since the current cookie was minted, when known.
    pub age_secs: Option<u64>,
    pub refreshing: bool,
    pub last_error: Option<String>,
}

/// The live cookie and what is known of it.
#[derive(Debug, Clone)]
pub struct CookieState {
    pub value: String,
    pub user_agent: String,
    pub source: CookieSource,
    pub minted_at: Option<u64>,
    pub refreshing: bool,
    pub last_error: Option<String>,
}

impl CookieState {
    /// No cookie.
    pub fn empty() -> (r: Self)
        ensures
            r.value@ == Seq::<char>::empty(),
            r.user_agent@ == Seq::<char>::empty(),
            r.source == CookieSource::Manual,
            r.minted_at is None,
            !r.refreshing,
            r.last_error is None,
    {
        CookieState {
            value: String::new(),
            user_agent: String::new(),
            source: CookieSource::Manual,
            minted_at: None,
            refreshing: false,
            last_error: None,
        }
    }
}

/// Holds the live `cf_clearance` cookie and decides when it is minted anew.
///
/// The caller serialises refreshes: between `begin_refresh` and `finish_refresh`
/// no other refresh begins.
#[derive(Debug, Clone)]
pub struct CookieStore {
    pub state: CookieState,
    /// When the last attempt to mint ended.
    pub last_attempt: Option<u64>,
    /// The error of the last attempt, where it failed.
    pub failure: Option<String>,
    /// Counts the attempts and reconfigurations.
    pub generation: u64,
    /// Whether automatic minting is possible at all.
    pub minter: bool,
}

/// What a refresh has to do.
#[derive(Debug, Clone, PartialEq, Eq)]
pub enum RefreshStep {
    /// The refresh is over; `None` means that it succeeded.
    Done(Option<String>),
    /// Run the browser under this user agent, then call `finish_refresh`.
    Mint(String),
}

/// How an attempt to mint ended.
#[derive(Debug, Clone, PartialEq, Eq)]
pub enum MintAttempt {
    Minted(MintedCookie),
    Failed(String),
    TimedOut,
}

/// The credentials that a rejected request carried.
#[derive(Debug, Clone, PartialEq, Eq)]
pub struct Credentials {
    pub cookie: String,
    pub user_agent: String,
}

/// What is said where minting is not possible.
pub open spec fn no_minter_text() -> Seq<char> {
    "automatic browser cookie minting is disabled; enable it or paste a cookie in Settings"@
}

/// What is said where the browser brought no cookie.
pub open spec fn empty_cookie_text() -> Seq<char> {
    "the browser returned an empty clearance cookie"@
}

/// What is said where the browser took too long.
pub open spec fn timed_out_text() -> Seq<char> {
    "cookie refresh timed out after 180s"@
}

/// The user agent that goes with a stored one: itself, or the default one where
/// it is empty.
pub open spec fn agent_or_default(stored: Seq<char>) -> Seq<char> {
    if stored.len() == 0 {
        DEFAULT_USER_AGENT@
    } else {
        stored
    }
}

/// Whether a failed attempt is so recent that it is not repeated.
pub open spec fn cooling(s: CookieStore, now: u64) -> bool {
    s.failure is Some && (s.last_attempt matches Some(t) && now - t < COOLDOWN)
}

/// Whether a refresh has nothing left to do, and what it then returns: the
/// credentials that were rejected are no longer in use, or an attempt that was
/// not seen before has ended, or the last failure is recent, or nothing can be
/// minted.
pub open spec fn refresh_answer(
    s: CookieStore,
    force: bool,
    rejected: Option<(Seq<char>, Seq<char>)>,
    observed: u64,
    now: u64,
) -> Option<Option<Seq<char>>> {
    let current = (s.state.value@, agent_or_default(s.state.user_agent@));
    if rejected is Some && rejected != Some(current) {
        Some(None)
    } else if s.generation != observed {
        Some(opt_view(s.failure))
    } else if !force && cooling(s, now) {
        Some(opt_view(s.failure))
    } else if !s.minter {
        Some(Some(no_minter_text()))
    } else {
        None
    }
}

/// The error that an attempt leaves behind, where it leaves one.
pub open spec fn attempt_error(attempt: MintAttempt) -> Option<Seq<char>> {
    match attempt {
        MintAttempt::Minted(m) => if trim(m.cookie@).len() == 0 {
            Some(empty_cookie_text())
        } else {
            None
        },
        MintAttempt::Failed(e) => Some(e@),
        MintAttempt::TimedOut => Some(timed_out_text()),
    }
}

fn is_empty(s: &str) -> (r: bool)
    ensures
        r == (s@.len() == 0),
{
    to_chars(s).len() == 0
}

/// What an attempt that ended at time `now` makes of a store.
pub open spec fn ends_refresh(a: CookieStore, attempt: MintAttempt, now: u64, b: CookieStore) -> bool {
    &&& opt_view(b.failure) == attempt_error(attempt)
    &&& opt_view(b.state.last_error) == attempt_error(attempt)
    &&& b.last_attempt == Some(now)
    &&& b.generation == (if a.generation == u64::MAX {
        0u64
    } else {
        (a.generation + 1) as u64
    })
    &&& b.minter == a.minter
    &&& !b.state.refreshing
    &&& attempt_error(attempt) is Some ==> {
        &&& b.state.value == a.state.value
        &&& b.state.user_agent == a.state.user_agent
        &&& b.state.source == a.state.source
        &&& b.state.minted_at == a.state.minted_at
    }
    &&& attempt_error(attempt) is None ==> (attempt matches MintAttempt::Minted(m) && {
        &&& b.state.value@ == trim(m.cookie@)
        &&& b.state.user_agent@ == (if trim(m.user_agent@).len() == 0 {
            a.state.user_agent@
        } else {
            trim(m.user_agent@)
        })
        &&& b.state.source == CookieSource::Browser
        &&& b.state.minted_at == Some(now)
    })
}

impl CookieStore {
    /// A store seeded with a cookie the user pasted in.
    pub fn new(initial: &str, user_agent: &str, minter: bool) -> (r: Self)
        ensures
            r.state.value@ == trim(initial@),
            r.state.user_agent@ == trim(user_agent@),
            r.state.source == CookieSource::Manual,
            r.state.minted_at is None,
            !r.state.refreshing,
            r.state.last_error is None,
            r.last_attempt is None,
            r.failure is None,
            r.generation == 0,
            r.minter == minter,
    {
        let mut state = CookieState::empty();
        state.value = trim_str(initial);
        state.user_agent = trim_str(user_agent);
        CookieStore { state, last_attempt: None, failure: None, generation: 0, minter }
    }

    /// The current cookie value; empty when none is configured.
    pub fn cookie(&self) -> (r: String)
        ensures
            r@ == self.state.value@,
    {
        self.state.value.clone()
    }

    /// The user agent that matches the current cookie. A blank stored value
    /// means that it is not overridden.
    pub fn user_agent(&self) -> (r: String)
        ensures
            r@ == (if trim(self.state.user_agent@).len() == 0 {
                DEFAULT_USER_AGENT@
            } else {
                self.state.user_agent@
            }),
    {
        if is_empty(trim_str(self.state.user_agent.as_str()).as_str()) {
            DEFAULT_USER_AGENT.to_owned()
        } else {
            self.state.user_agent.clone()
        }
    }

    /// What the store holds at time `now`.
    pub fn snapshot(&self, now: u64) -> (r: CookieSnapshot)
        ensures
            r.configured == (self.state.value@.len() > 0),
            r.source == self.state.source,
            match self.state.minted_at {
                None => r.age_secs is None,
                Some(t) => r.age_secs == Some(
                    (if now > t {
                        (now - t) / SECOND as int
                    } else {
                        0
                    }) as u64,
                ),
            },
            r.refreshing == self.state.refreshing,
            opt_view(r.last_error) == opt_view(self.state.last_error),
    {
        let age_secs = match self.state.minted_at {
            Some(t) => Some(now.saturating_sub(t) / SECOND),
            None => None,
        };
        CookieSnapshot {
            configured: !is_empty(self.state.value.as_str()),
            source: self.state.source,
            age_secs,
            refreshing: self.state.refreshing,
            last_error: clone_opt(&self.state.last_error),
        }
    }

    /// True when automatic minting is possible at all.
    pub fn can_mint(&self) -> (r: bool)
        ensures
            r == self.minter,
    {
        self.minter
    }

    /// Replace the cookie by hand. The user agent is left alone unless one that
    /// is not blank is supplied.
    pub fn set_manual(&mut self, cookie: &str, user_agent: Option<String>)
        ensures
            final(self).state.value@ == trim(cookie@),
            final(self).state.source == CookieSource::Manual,
            final(self).state.minted_at is None,
            final(self).state.user_agent@ == (match user_agent {
                Some(ua) => if trim(ua@).len() == 0 {
                    old(self).state.user_agent@
                } else {
                    trim(ua@)
                },
                None => old(self).state.user_agent@,
            }),
            final(self).state.refreshing == old(self).state.refreshing,
            final(self).state.last_error == old(self).state.last_error,
            final(self).last_attempt == old(self).last_attempt,
            final(self).failure == old(self).failure,
            final(self).generation == old(self).generation,
            final(self).minter == old(self).minter,
    {
        self.state.value = trim_str(cookie);
        self.state.source = CookieSource::Manual;
        self.state.minted_at = None;
        if let Some(ua) = user_agent {
            let ua = trim_str(ua.as_str());
            if !is_empty(ua.as_str()) {
                self.state.user_agent = ua;
            }
        }
    }

    /// Set the user agent override; a blank value clears it.
    pub fn set_user_agent(&mut self, user_agent: &str)
        ensures
            final(self).state == (CookieState {
                user_agent: final(self).state.user_agent,
                ..old(self).state
            }),
            final(self).state.user_agent@ == trim(user_agent@),
            final(self).last_attempt == old(self).last_attempt,
            final(self).failure == old(self).failure,
            final(self).generation == old(self).generation,
            final(self).minter == old(self).minter,
    {
        self.state.user_agent = trim_str(user_agent);
    }

    /// Take over a cookie that the browser minted at time `now`. A blank cookie
    /// or user agent leaves the one in use.
    pub fn install_minted(&mut self, minted: MintedCookie, now: u64)
        ensures
            final(self).state.value@ == (if trim(minted.cookie@).len() == 0 {
                old(self).state.value@
            } else {
                trim(minted.cookie@)
            }),
            final(self).state.user_agent@ == (if trim(minted.user_agent@).len() == 0 {
                old(self).state.user_agent@
            } else {
                trim(minted.user_agent@)
            }),
            final(self).state.source == CookieSource::Browser,
            final(self).state.minted_at == Some(now),
            final(self).state.refreshing == old(self).state.refreshing,
            final(self).state.last_error == old(self).state.last_error,
            final(self).last_attempt == old(self).last_attempt,
            final(self).failure == old(self).failure,
            final(self).generation == old(self).generation,
            final(self).minter == old(self).minter,
    {
        let cookie = trim_str(minted.cookie.as_str());
        if !is_empty(cookie.as_str()) {
            self.state.value = cookie;
        }
        let ua = trim_str(minted.user_agent.as_str());
        if !is_empty(ua.as_str()) {
            self.state.user_agent = ua;
        }
        self.state.source = CookieSource::Browser;
        self.state.minted_at = Some(now);
    }

    /// Restore persisted browser credentials without claiming a new mint time.
    pub fn restore(&mut self, cookie: String, user_agent: String)
        ensures
            final(self).state == (CookieState {
                value: cookie,
                user_agent,
                source: CookieSource::Browser,
                minted_at: None,
                ..old(self).state
            }),
            final(self).last_attempt == old(self).last_attempt,
            final(self).failure == old(self).failure,
            final(self).generation == old(self).generation,
            final(self).minter == old(self).minter,
    {
        self.state.value = cookie;
        self.state.user_agent = user_agent;
        self.state.source = CookieSource::Browser;
        self.state.minted_at = None;
    }

    /// The cookie and its matching user agent.
    pub fn credentials(&self) -> (r: Credentials)
        ensures
            r.cookie@ == self.state.value@,
            r.user_agent@ == agent_or_default(self.state.user_agent@),
    {
        let user_agent = if is_empty(self.state.user_agent.as_str()) {
            DEFAULT_USER_AGENT.to_owned()
        } else {
            self.state.user_agent.clone()
        };
        Credentials { cookie: self.state.value.clone(), user_agent }
    }

    /// Decide what a refresh has to do, once no other refresh is in progress.
    ///
    /// `force` bypasses the failure backoff. `observed` is the generation when
    /// the refresh was asked for: where another one ended meanwhile, its result
    /// is adopted. `rejected` holds the credentials that were rejected: where
    /// they are no longer in use there is nothing to do.
    pub fn begin_refresh(
        &mut self,
        force: bool,
        rejected: &Option<Credentials>,
        observed: u64,
        now: u64,
    ) -> (r: RefreshStep)
        ensures
            ({
                let gone = match *rejected {
                    Some(c) => Some((c.cookie@, c.user_agent@)),
                    None => None,
                };
                match refresh_answer(*old(self), force, gone, observed, now) {
                    Some(answer) => {
                        &&& r matches RefreshStep::Done(e) && opt_view(e) == answer
                        &&& *final(self) == *old(self)
                    },
                    None => {
                        &&& r matches RefreshStep::Mint(ua) && ua@ == (if trim(
                            old(self).state.user_agent@,
                        ).len() == 0 {
                            DEFAULT_USER_AGENT@
                        } else {
                            old(self).state.user_agent@
                        })
                        &&& *final(self) == (CookieStore {
                            state: CookieState {
                                refreshing: true,
                                last_error: None,
                                ..old(self).state
                            },
                            ..*old(self)
                        })
                    },
                }
            }),
    {
        if let Some(c) = rejected {
            let current = self.credentials();
            if !same_str(c.cookie.as_str(), current.cookie.as_str()) || !same_str(
                c.user_agent.as_str(),
                current.user_agent.as_str(),
            ) {
                return RefreshStep::Done(None);
            }
        }
        if self.generation != observed {
            return RefreshStep::Done(clone_opt(&self.failure));
        }
        let recent = match self.last_attempt {
            Some(t) => now < t || now - t < COOLDOWN,
            None => false,
        };
        if !force && self.failure.is_some() && recent {
            return RefreshStep::Done(clone_opt(&self.failure));
        }
        if !self.minter {
            return RefreshStep::Done(
                Some(
                    "automatic browser cookie minting is disabled; enable it or paste a cookie in Settings".to_owned(),
                ),
            );
        }
        self.state.refreshing = true;
        self.state.last_error = None;
        RefreshStep::Mint(self.user_agent())
    }

    /// Record how the attempt ended at time `now`, and return its error where it
    /// failed.
    pub fn finish_refresh(&mut self, attempt: MintAttempt, now: u64) -> (r: Option<String>)
        ensures
            opt_view(r) == attempt_error(attempt),
            ends_refresh(*old(self), attempt, now, *final(self)),
    {
        self.last_attempt = Some(now);
        let error: Option<String> = match attempt {
            MintAttempt::Minted(m) => {
                if is_empty(trim_str(m.cookie.as_str()).as_str()) {
                    Some("the browser returned an empty clearance cookie".to_owned())
                } else {
                    self.install_minted(m, now);
                    None
                }
            },
            MintAttempt::Failed(e) => Some(e),
            MintAttempt::TimedOut => Some("cookie refresh timed out after 180s".to_owned()),
        };
        self.state.last_error = clone_opt(&error);
        self.failure = clone_opt(&error);
        self.generation = self.generation.wrapping_add(1);
        self.state.refreshing = false;
        error
    }

    /// Clear the in-progress status of an attempt that was abandoned.
    pub fn abandon_refresh(&mut self)
        ensures
            *final(self) == (CookieStore {
                state: CookieState { refreshing: false, ..old(self).state },
                ..*old(self)
            }),
    {
        self.state.refreshing = false;
    }

    /// Apply new settings, once no refresh is in progress: past failures are
    /// forgotten, and new credentials count as pasted.
    pub fn reconfigure(&mut self, minter: bool, credentials: &Option<Credentials>)
        ensures
            final(self).minter == minter,
            final(self).last_attempt is None,
            final(self).failure is None,
            final(self).state.last_error is None,
            final(self).generation == (if old(self).generation == u64::MAX {
                0u64
            } else {
                (old(self).generation + 1) as u64
            }),
            final(self).state.refreshing == old(self).state.refreshing,
            match *credentials {
                Some(c) => {
                    &&& final(self).state.value@ == trim(c.cookie@)
                    &&& final(self).state.user_agent@ == trim(c.user_agent@)
                    &&& final(self).state.source == CookieSource::Manual
                    &&& final(self).state.minted_at is None
                },
                None => {
                    &&& final(self).state.value == old(self).state.value
                    &&& final(self).state.user_agent == old(self).state.user_agent
                    &&& final(self).state.source == old(self).state.source
                    &&& final(self).state.minted_at == old(self).state.minted_at
                },
            },
    {
        self.minter = minter;
        if let Some(c) = credentials {
            self.state.value = trim_str(c.cookie.as_str());
            self.state.user_agent = trim_str(c.user_agent.as_str());
            self.state.source = CookieSource::Manual;
            self.state.minted_at = None;
        }
        self.last_attempt = None;
        self.failure = None;
        self.generation = self.generation.wrapping_add(1);
        self.state.last_error = None;
    }
}

/// A burst of refreshes mints once: whoever asked before an attempt ended, and
/// gets its turn afterwards, adopts the result of that attempt.
pub proof fn law_waiters_adopt_the_result(
    before: CookieStore,
    after: CookieStore,
    force: bool,
    now: u64,
)
    requires
        after.generation == (if before.generation == u64::MAX {
            0u64
        } else {
            (before.generation + 1) as u64
        }),
    ensures
        refresh_answer(after, force, None, before.generation, now) == Some(opt_view(after.failure)),
{
}

/// A failure is reported again, as it was, until the cooldown is over or a
/// refresh is forced; then the browser runs again.
pub proof fn law_failure_backs_off(s: CookieStore, now: u64)
    requires
        s.failure is Some,
        s.minter,
        s.last_attempt is Some,
    ensures
        now - s.last_attempt->0 < COOLDOWN ==> refresh_answer(s, false, None, s.generation, now)
            == Some(opt_view(s.failure)),
        now - s.last_attempt->0 >= COOLDOWN ==> refresh_answer(s, false, None, s.generation, now)
            is None,
        refresh_answer(s, true, None, s.generation, now) is None,
{
}

/// A cookie that the browser brings is used from then on, together with the agent that
/// earned it; whoever waited for it succeeds, and a request that the old pair was
/// rejected for asks for no other. An attempt that brings none leaves the pair in use,
/// and whoever waited is told why.
pub proof fn law_minted_cookies_are_used(
    a: CookieStore,
    attempt: MintAttempt,
    now: u64,
    b: CookieStore,
    force: bool,
    later: u64,
)
    requires
        ends_refresh(a, attempt, now, b),
    ensures
        attempt matches MintAttempt::Minted(m) ==> trim(m.cookie@).len() > 0 ==> {
            &&& b.state.value@ == trim(m.cookie@) && b.failure is None && b.state.source
                == CookieSource::Browser
            &&& trim(m.user_agent@).len() > 0 ==> b.state.user_agent@ == trim(m.user_agent@)
            &&& refresh_answer(b, force, None, a.generation, later) == Some(None::<Seq<char>>)
            &&& a.state.value@ != trim(m.cookie@) ==> refresh_answer(
                b,
                force,
                Some((a.state.value@, agent_or_default(a.state.user_agent@))),
                b.generation,
                later,
            ) == Some(None::<Seq<char>>)
        },
        attempt is Failed || attempt is TimedOut || (attempt matches MintAttempt::Minted(m) && trim(
            m.cookie@,
        ).len() == 0) ==> {
            &&& b.state.value == a.state.value && b.state.user_agent == a.state.user_agent
            &&& b.failure is Some && refresh_answer(b, force, None, a.generation, later) == Some(
                opt_view(b.failure),
            )
            &&& attempt matches MintAttempt::Failed(e) ==> opt_view(b.failure) == Some(e@)
        },
        !b.state.refreshing,
{
}

/// The browser runs where the pair in use was rejected, or a refresh is forced, unless
/// there is no browser or it failed a moment ago.
pub proof fn law_rejected_cookies_are_renewed(s: CookieStore, now: u64)
    requires
        s.minter,
        s.failure is None,
    ensures
        refresh_answer(
            s,
            false,
            Some((s.state.value@, agent_or_default(s.state.user_agent@))),
            s.generation,
            now,
        ) is None,
        refresh_answer(s, true, None, s.generation, now) is None,
        refresh_answer(CookieStore { minter: false, ..s }, true, None, s.generation, now)
            matches Some(Some(_)),
{
}

/// A request that was rejected with credentials that have since been replaced
/// does not start the browser.
pub proof fn law_stale_rejection_is_ignored(
    s: CookieStore,
    force: bool,
    rejected: (Seq<char>, Seq<char>),
    observed: u64,
    now: u64,
)
    requires
        rejected != (s.state.value@, agent_or_default(s.state.user_agent@)),
    ensures
        refresh_answer(s, force, Some(rejected), observed, now) == Some(None::<Seq<char>>),
{
}

} // verus!
