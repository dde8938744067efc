//! Shared listener settings. Provider files contain only provider settings.
//! The download limits, fractions of a megabyte, are checked where they are read.
use vstd::prelude::*;
use crate::configuration::schedule::{is_clock_time, schedule_error, Mode, ScheduleError, Schedules};
use crate::text::{to_chars, trim, trim_str};

verus! {

/// The settings that all engines share.
#[derive(Debug, Clone)]
pub struct Config {
    pub host: String,
    /// Minimum shorter-side video dimension in pixels; 0 disables filtering.
    pub min_video_resolution: u32,
    /// `None` inherits the global minimum; `Some(0)` explicitly disables filtering.
    pub telegram_min_video_resolution: Option<u32>,
    pub jav_min_video_resolution: Option<u32>,
    pub p91_min_video_resolution: Option<u32>,
    pub history_retention_days: u32,
    pub telegram_download_path: String,
    pub jav_download_path: String,
    pub p91_download_path: String,
    pub temp_path: String,
    pub port: u16,
    pub schedules: Schedules,
}

/// An engine.
#[derive(Debug, Clone, Copy, PartialEq, Eq, Structural)]
pub enum DownloadModule {
    Telegram,
    Jav,
    P91,
}

/// Why the settings are refused.
#[derive(Debug, Clone, Copy, PartialEq, Eq, Structural)]
pub enum ConfigError {
    Resolution,
    Retention,
    Listener,
    Directory,
    Schedule(ScheduleError),
}

/// The largest minimum resolution, in pixels.
pub const MAX_RESOLUTION: u32 = 16384;

/// The longest retention, in days.
pub const MAX_RETENTION_DAYS: u32 = 36500;

/// Whether a minimum resolution, where it is set, is within the limit.
pub open spec fn resolution_ok(minimum: Option<u32>) -> bool {
    minimum matches Some(m) ==> m <= MAX_RESOLUTION
}

/// The error of the first schedule that has one.
pub open spec fn schedules_error(s: Schedules) -> Option<ScheduleError> {
    match schedule_error(s.telegram.interval_secs, s.telegram.daily_time@) {
        Some(e) => Some(e),
        None => match schedule_error(s.jav.interval_secs, s.jav.daily_time@) {
            Some(e) => Some(e),
            None => schedule_error(s.p91.interval_secs, s.p91.daily_time@),
        },
    }
}

/// Why settings are refused, where they are.
pub open spec fn config_error(c: Config) -> Option<ConfigError> {
    if !(c.min_video_resolution <= MAX_RESOLUTION && resolution_ok(c.telegram_min_video_resolution)
        && resolution_ok(c.jav_min_video_resolution) && resolution_ok(c.p91_min_video_resolution)) {
        Some(ConfigError::Resolution)
    } else if !(1 <= c.history_retention_days <= MAX_RETENTION_DAYS) {
        Some(ConfigError::Retention)
    } else if trim(c.host@).len() == 0 || c.port == 0 {
        Some(ConfigError::Listener)
    } else if c.telegram_download_path@.len() == 0 || c.jav_download_path@.len() == 0
        || c.p91_download_path@.len() == 0 || c.temp_path@.len() == 0 {
        Some(ConfigError::Directory)
    } else {
        match schedules_error(c.schedules) {
            Some(e) => Some(ConfigError::Schedule(e)),
            None => None,
        }
    }
}

impl ConfigError {
    /// What the error is called in a message.
    pub fn message(self) -> (r: &'static str)
        ensures
            match self {
                ConfigError::Resolution => r@
                    == "Minimum video resolution must be between 0 and 16384 pixels"@,
                ConfigError::Retention => r@
                    == "History retention must be between 1 and 36500 days"@,
                ConfigError::Listener => r@ == "Host and port must be valid"@,
                ConfigError::Directory => r@ == "Directories must not be empty"@,
                ConfigError::Schedule(ScheduleError::Interval) => r@
                    == "Interval must be between 1 and 604800 seconds"@,
                ConfigError::Schedule(ScheduleError::DailyTime) => r@
                    == "Daily time must use HH:MM"@,
            },
    {
        match self {
            ConfigError::Resolution =>
                "Minimum video resolution must be between 0 and 16384 pixels",
            ConfigError::Retention => "History retention must be between 1 and 36500 days",
            ConfigError::Listener => "Host and port must be valid",
            ConfigError::Directory => "Directories must not be empty",
            ConfigError::Schedule(e) => e.message(),
        }
    }
}

fn within(minimum: Option<u32>) -> (r: bool)
    ensures
        r == resolution_ok(minimum),
{
    match minimum {
        Some(m) => m <= MAX_RESOLUTION,
        None => true,
    }
}

fn is_blank(s: &str) -> (r: bool)
    ensures
        r == (trim(s@).len() == 0),
{
    to_chars(trim_str(s).as_str()).len() == 0
}

fn is_empty(s: &str) -> (r: bool)
    ensures
        r == (s@.len() == 0),
{
    to_chars(s).len() == 0
}

impl Default for Config {
    fn default() -> (r: Self)
        ensures
            r.host@ == "127.0.0.1"@,
            r.min_video_resolution == 0,
            r.telegram_min_video_resolution is None,
            r.jav_min_video_resolution is None,
            r.p91_min_video_resolution is None,
            r.history_retention_days == 30,
            r.telegram_download_path@ == "downloads/telegram"@,
            r.jav_download_path@ == "downloads/jav"@,
            r.p91_download_path@ == "downloads/p91"@,
            r.temp_path@ == "temp"@,
            r.port == 8080,
            r.schedules.telegram.enabled && r.schedules.jav.enabled && r.schedules.p91.enabled,
            r.schedules.telegram.mode == Mode::Periodic,
            r.schedules.jav.mode == Mode::Daily,
            r.schedules.p91.mode == Mode::Daily,
            r.schedules.telegram.run_on_start,
            !r.schedules.jav.run_on_start && !r.schedules.p91.run_on_start,
            r.schedules.telegram.interval_secs == 900,
            r.schedules.jav.interval_secs == 900,
            r.schedules.p91.interval_secs == 900,
            r.schedules.telegram.daily_time@ == "03:30"@,
            r.schedules.jav.daily_time@ == "03:30"@,
            r.schedules.p91.daily_time@ == "03:30"@,
    {
        Config {
            host: "127.0.0.1".to_owned(),
            min_video_resolution: 0,
            telegram_min_video_resolution: None,
            jav_min_video_resolution: None,
            p91_min_video_resolution: None,
            history_retention_days: 30,
            telegram_download_path: "downloads/telegram".to_owned(),
            jav_download_path: "downloads/jav".to_owned(),
            p91_download_path: "downloads/p91".to_owned(),
            temp_path: "temp".to_owned(),
            port: 8080,
            schedules: Schedules::default(),
        }
    }
}

impl Config {
    /// The minimum resolution of an engine: its own, or the global one.
    pub open spec fn minimum_for(&self, module: DownloadModule) -> u32 {
        let own = match module {
            DownloadModule::Telegram => self.telegram_min_video_resolution,
            DownloadModule::Jav => self.jav_min_video_resolution,
            DownloadModule::P91 => self.p91_min_video_resolution,
        };
        match own {
            Some(m) => m,
            None => self.min_video_resolution,
        }
    }

    /// The minimum resolution of an engine: its own, or the global one.
    pub fn minimum_video_resolution(&self, module: DownloadModule) -> (r: u32)
        ensures
            r == self.minimum_for(module),
    {
        let own = match module {
            DownloadModule::Telegram => self.telegram_min_video_resolution,
            DownloadModule::Jav => self.jav_min_video_resolution,
            DownloadModule::P91 => self.p91_min_video_resolution,
        };
        match own {
            Some(m) => m,
            None => self.min_video_resolution,
        }
    }

    /// Whether the settings can be used.
    pub fn validate(&self) -> (r: Result<(), ConfigError>)
        ensures
            match config_error(*self) {
                Some(e) => r == Err::<(), ConfigError>(e),
                None => r is Ok,
            },
    {
        if !(self.min_video_resolution <= MAX_RESOLUTION && within(
            self.telegram_min_video_resolution,
        ) && within(self.jav_min_video_resolution) && within(self.p91_min_video_resolution)) {
            return Err(ConfigError::Resolution);
        }
        if !(1 <= self.history_retention_days && self.history_retention_days
            <= MAX_RETENTION_DAYS) {
            return Err(ConfigError::Retention);
        }
        if is_blank(self.host.as_str()) || self.port == 0 {
            return Err(ConfigError::Listener);
        }
        if is_empty(self.telegram_download_path.as_str()) || is_empty(
            self.jav_download_path.as_str(),
        ) || is_empty(self.p91_download_path.as_str()) || is_empty(self.temp_path.as_str()) {
            return Err(ConfigError::Directory);
        }
        if let Err(e) = self.schedules.telegram.validate() {
            return Err(ConfigError::Schedule(e));
        }
        if let Err(e) = self.schedules.jav.validate() {
            return Err(ConfigError::Schedule(e));
        }
        if let Err(e) = self.schedules.p91.validate() {
            return Err(ConfigError::Schedule(e));
        }
        Ok(())
    }
}

/// Settings are accepted exactly where every one of them is within its bounds, the
/// schedules of all engines included.
pub proof fn law_accepted_settings_are_bounded(c: Config)
    ensures
        config_error(c) is None <==> {
            &&& c.min_video_resolution <= 16384
            &&& c.telegram_min_video_resolution matches Some(m) ==> m <= 16384
            &&& c.jav_min_video_resolution matches Some(m) ==> m <= 16384
            &&& c.p91_min_video_resolution matches Some(m) ==> m <= 16384
            &&& 1 <= c.history_retention_days <= 36500
            &&& trim(c.host@).len() > 0 && c.port != 0
            &&& c.telegram_download_path@.len() > 0 && c.jav_download_path@.len() > 0
            &&& c.p91_download_path@.len() > 0 && c.temp_path@.len() > 0
            &&& 1 <= c.schedules.telegram.interval_secs <= 604800
            &&& 1 <= c.schedules.jav.interval_secs <= 604800
            &&& 1 <= c.schedules.p91.interval_secs <= 604800
            &&& is_clock_time(c.schedules.telegram.daily_time@)
            &&& is_clock_time(c.schedules.jav.daily_time@)
            &&& is_clock_time(c.schedules.p91.daily_time@)
        },
{
}

/// An engine goes by its own least resolution where it has one, and by the common one
/// where it has none; the settings of another engine do not matter.
pub proof fn law_engines_have_their_own_minimum(c: Config)
    ensures
        c.telegram_min_video_resolution matches Some(m) ==> c.minimum_for(DownloadModule::Telegram) == m,
        c.jav_min_video_resolution matches Some(m) ==> c.minimum_for(DownloadModule::Jav) == m,
        c.p91_min_video_resolution matches Some(m) ==> c.minimum_for(DownloadModule::P91) == m,
        c.telegram_min_video_resolution is None ==> c.minimum_for(DownloadModule::Telegram)
            == c.min_video_resolution,
        c.jav_min_video_resolution is None ==> c.minimum_for(DownloadModule::Jav)
            == c.min_video_resolution,
        c.p91_min_video_resolution is None ==> c.minimum_for(DownloadModule::P91)
            == c.min_video_resolution,
{
}

} // verus!
