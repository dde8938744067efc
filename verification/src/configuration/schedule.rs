//! When an engine runs.
use vstd::prelude::*;
use crate::text::{char_views, parse_unsigned, split, split_char, to_chars, unsigned_at_most};

verus! {

/// Whether an engine runs at intervals or once a day.
#[derive(Debug, Clone, Copy, PartialEq, Eq, Structural)]
pub enum Mode {
    Periodic,
    Daily,
}

/// When one engine runs.
#[derive(Debug, Clone, PartialEq, Eq)]
pub struct Schedule {
    pub enabled: bool,
    pub mode: Mode,
    pub interval_secs: u64,
    pub daily_time: String,
    pub run_on_start: bool,
}

/// Why a schedule is refused.
#[derive(Debug, Clone, Copy, PartialEq, Eq, Structural)]
pub enum ScheduleError {
    Interval,
    DailyTime,
}

impl ScheduleError {
    /// What the error is called in a message.
    pub fn message(self) -> (r: &'static str)
        ensures
            r@ == (match self {
                ScheduleError::Interval => "Interval must be between 1 and 604800 seconds"@,
                ScheduleError::DailyTime => "Daily time must use HH:MM"@,
            }),
    {
        match self {
            ScheduleError::Interval => "Interval must be between 1 and 604800 seconds",
            ScheduleError::DailyTime => "Daily time must use HH:MM",
        }
    }
}

/// The longest interval: a week.
pub const MAX_INTERVAL_SECS: u64 = 604800;

/// Whether `s` writes a number below `limit`.
pub open spec fn number_below(s: Seq<char>, limit: nat) -> bool {
    parse_unsigned(s, u32::MAX as nat) matches Some(n) && n < limit
}

/// Whether `s` is a time of day written `HH:MM`.
pub open spec fn is_clock_time(s: Seq<char>) -> bool {
    let parts = split(s, ':');
    &&& parts.len() == 2
    &&& parts[0].len() == 2
    &&& parts[1].len() == 2
    &&& number_below(parts[0], 24)
    &&& number_below(parts[1], 60)
}

/// Why a schedule is refused, where it is.
pub open spec fn schedule_error(interval: u64, daily_time: Seq<char>) -> Option<ScheduleError> {
    if !(1 <= interval <= MAX_INTERVAL_SECS) {
        Some(ScheduleError::Interval)
    } else if !is_clock_time(daily_time) {
        Some(ScheduleError::DailyTime)
    } else {
        None
    }
}

fn below(v: &[char], limit: u64) -> (r: bool)
    ensures
        r == number_below(v@, limit as nat),
{
    match unsigned_at_most(v, u32::MAX as u64) {
        Some(n) => n < limit,
        None => false,
    }
}

fn clock_time(s: &str) -> (r: bool)
    ensures
        r == is_clock_time(s@),
{
    let parts = split_char(to_chars(s).as_slice(), ':');
    let ghost pieces = split(s@, ':');
    assert(pieces == char_views(parts@));
    if parts.len() != 2 {
        return false;
    }
    assert(pieces[0] == parts@[0]@ && pieces[1] == parts@[1]@);
    parts[0].len() == 2 && parts[1].len() == 2 && below(parts[0].as_slice(), 24) && below(
        parts[1].as_slice(),
        60,
    )
}

impl Default for Schedule {
    fn default() -> (r: Self)
        ensures
            r.enabled,
            r.mode == Mode::Periodic,
            r.interval_secs == 900,
            r.daily_time@ == "03:30"@,
            !r.run_on_start,
    {
        Schedule {
            enabled: true,
            mode: Mode::Periodic,
            interval_secs: 900,
            daily_time: "03:30".to_owned(),
            run_on_start: false,
        }
    }
}

impl Schedule {
    /// Whether the interval and the time of day can be used.
    pub fn validate(&self) -> (r: Result<(), ScheduleError>)
        ensures
            match schedule_error(self.interval_secs, self.daily_time@) {
                Some(e) => r == Err::<(), ScheduleError>(e),
                None => r is Ok,
            },
    {
        if !(1 <= self.interval_secs && self.interval_secs <= MAX_INTERVAL_SECS) {
            return Err(ScheduleError::Interval);
        }
        if !clock_time(self.daily_time.as_str()) {
            return Err(ScheduleError::DailyTime);
        }
        Ok(())
    }
}

/// The schedules of all engines.
#[derive(Debug, Clone)]
pub struct Schedules {
    pub telegram: Schedule,
    pub jav: Schedule,
    pub p91: Schedule,
}

impl Default for Schedules {
    fn default() -> (r: Self)
        ensures
            r.telegram.enabled && r.jav.enabled && r.p91.enabled,
            r.telegram.mode == Mode::Periodic,
            r.jav.mode == Mode::Daily,
            r.p91.mode == Mode::Daily,
            r.telegram.run_on_start && !r.jav.run_on_start && !r.p91.run_on_start,
            r.telegram.interval_secs == 900 && r.jav.interval_secs == 900 && r.p91.interval_secs
                == 900,
            r.telegram.daily_time@ == "03:30"@ && r.jav.daily_time@ == "03:30"@
                && r.p91.daily_time@ == "03:30"@,
    {
        let mut telegram = Schedule::default();
        telegram.run_on_start = true;
        let mut jav = Schedule::default();
        jav.mode = Mode::Daily;
        let mut p91 = Schedule::default();
        p91.mode = Mode::Daily;
        Schedules { telegram, jav, p91 }
    }
}

/// The time of day that is used where none can be read.
pub const FALLBACK_TIME: (u32, u32) = (3, 30);

/// The hour and the minute that a text writes, where it writes a time of day.
pub open spec fn daily_time_of(text: Seq<char>) -> Option<(u32, u32)> {
    let parts = split(crate::text::trim(text), ':');
    if parts.len() != 2 {
        None
    } else {
        match (
            parse_unsigned(parts[0], u32::MAX as nat),
            parse_unsigned(parts[1], u32::MAX as nat),
        ) {
            (Some(h), Some(m)) => if h < 24 && m < 60 {
                Some((h as u32, m as u32))
            } else {
                None
            },
            _ => None,
        }
    }
}

/// The hour and the minute of a daily time; half past three in the morning
/// where the text is not a time of day.
pub fn parse_daily_time(text: &str) -> (r: (u32, u32))
    ensures
        match daily_time_of(text@) {
            Some(t) => r == t,
            None => r.0 == 3 && r.1 == 30,
        },
        r.0 < 24 && r.1 < 60,
{
    let trimmed = crate::text::trim_chars(to_chars(text).as_slice());
    let parts = split_char(trimmed.as_slice(), ':');
    let ghost pieces = split(crate::text::trim(text@), ':');
    assert(pieces == char_views(parts@));
    if parts.len() == 2 {
        assert(pieces[0] == parts@[0]@ && pieces[1] == parts@[1]@);
        match (
            unsigned_at_most(parts[0].as_slice(), u32::MAX as u64),
            unsigned_at_most(parts[1].as_slice(), u32::MAX as u64),
        ) {
            (Some(h), Some(m)) => {
                if h < 24 && m < 60 {
                    return (h as u32, m as u32);
                }
            },
            _ => {},
        }
    }
    FALLBACK_TIME
}

/// Seconds in a day.
pub const DAY_SECS: u32 = 86400;

/// The number of seconds from a second of the day to the next time the clock
/// shows `hour:minute`: at least one, at most a day.
pub fn seconds_until(now_secs: u32, hour: u32, minute: u32) -> (r: u32)
    requires
        now_secs < DAY_SECS,
        hour < 24,
        minute < 60,
    ensures
        1 <= r <= DAY_SECS,
        (now_secs + r) % DAY_SECS as int == hour * 3600 + minute * 60,
{
    let target: u32 = hour * 3600 + minute * 60;
    if target > now_secs {
        target - now_secs
    } else {
        assert((DAY_SECS + target) % DAY_SECS as int == target);
        DAY_SECS - now_secs + target
    }
}

/// Every time of day that a schedule accepts, without white space around it, is
/// read as what it says.
pub proof fn law_accepted_times_are_read(time: Seq<char>)
    requires
        is_clock_time(time),
        crate::text::trim(time) == time,
    ensures
        ({
            let parts = split(time, ':');
            &&& daily_time_of(time) matches Some(t) && Some(t.0 as nat) == parse_unsigned(
                parts[0],
                u32::MAX as nat,
            ) && Some(t.1 as nat) == parse_unsigned(parts[1], u32::MAX as nat)
        }),
{
}

} // verus!
