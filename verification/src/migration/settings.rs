//! Settings that used to belong to one engine and now belong to all.
use vstd::prelude::*;
use crate::configuration::app::Config;
use crate::configuration::patch::{count_of, flag_of, named, text_of, Json, JsonView};
use crate::configuration::schedule::Schedule;

verus! {

/// Whether the schedule of an engine is set.
pub open spec fn schedule_set(original: JsonView, engine: Seq<char>) -> bool {
    named(original, "schedules"@) matches Some(s) && named(s, engine) is Some
}

/// A text, or the one that takes its place.
pub open spec fn text_or(found: Option<Seq<char>>, current: Seq<char>) -> Seq<char> {
    match found {
        Some(t) => t,
        None => current,
    }
}

/// What takes the place of a text, unless that is set.
pub open spec fn adopted(set: bool, legacy: JsonView, key: Seq<char>, current: Seq<char>) -> Seq<
    char,
> {
    if set {
        current
    } else {
        text_or(text_of(legacy, key), current)
    }
}

/// What the chat engine's old settings make of the common ones.
pub open spec fn telegram_adopted(before: Config, original: JsonView, legacy: JsonView, after: Config) -> bool {
    &&& after.telegram_download_path@ == adopted(
        named(original, "telegram_download_path"@) is Some,
        legacy,
        "save_path"@,
        before.telegram_download_path@,
    )
    &&& after.schedules.telegram.interval_secs == (if schedule_set(original, "telegram"@) {
        before.schedules.telegram.interval_secs as nat
    } else {
        match count_of(legacy, "check_interval_secs"@) {
            Some(n) => n,
            None => before.schedules.telegram.interval_secs as nat,
        }
    })
    &&& after == (Config {
        telegram_download_path: after.telegram_download_path,
        schedules: crate::configuration::schedule::Schedules {
            telegram: Schedule {
                interval_secs: after.schedules.telegram.interval_secs,
                ..before.schedules.telegram
            },
            ..before.schedules
        },
        ..before
    })
}

/// What the video engine's old settings make of the common ones.
pub open spec fn jav_adopted(before: Config, original: JsonView, legacy: JsonView, after: Config) -> bool {
    let set = schedule_set(original, "jav"@);
    let was = before.schedules.jav;
    let is = after.schedules.jav;
    &&& after.jav_download_path@ == adopted(
        named(original, "jav_download_path"@) is Some,
        legacy,
        "save_path"@,
        before.jav_download_path@,
    )
    &&& after.temp_path@ == adopted(
        named(original, "temp_path"@) is Some,
        legacy,
        "temp_path"@,
        before.temp_path@,
    )
    &&& is.daily_time@ == adopted(set, legacy, "daily_time"@, was.daily_time@)
    &&& is.enabled == (match flag_of(legacy, "daily_enabled"@) {
        Some(b) => if set {
            was.enabled
        } else {
            b
        },
        None => was.enabled,
    })
    &&& is.run_on_start == (match flag_of(legacy, "run_on_start"@) {
        Some(b) => if set {
            was.run_on_start
        } else {
            b
        },
        None => was.run_on_start,
    })
    &&& after == (Config {
        jav_download_path: after.jav_download_path,
        temp_path: after.temp_path,
        schedules: crate::configuration::schedule::Schedules {
            jav: Schedule {
                daily_time: is.daily_time,
                enabled: is.enabled,
                run_on_start: is.run_on_start,
                ..was
            },
            ..before.schedules
        },
        ..before
    })
}

fn schedule_is_set(original: &Json, engine: &str) -> (r: bool)
    ensures
        r == schedule_set(original@, engine@),
{
    match original.get("schedules") {
        Some(s) => s.get(engine).is_some(),
        None => false,
    }
}

/// Take over what the chat engine's old settings say and the common ones, as
/// they are written down in `original`, do not.
pub fn adopt_telegram(common: &mut Config, original: &Json, legacy: &Json)
    ensures
        telegram_adopted(*old(common), original@, legacy@, *final(common)),
{
    if original.get("telegram_download_path").is_none() {
        if let Some(path) = legacy.text("save_path") {
            common.telegram_download_path = path;
        }
    }
    let set = schedule_is_set(original, "telegram");
    if !set {
        if let Some(interval) = legacy.count("check_interval_secs") {
            common.schedules.telegram.interval_secs = interval;
        }
    }
}

/// Take over what the video engine's old settings say and the common ones, as
/// they are written down in `original`, do not.
pub fn adopt_jav(common: &mut Config, original: &Json, legacy: &Json)
    ensures
        jav_adopted(*old(common), original@, legacy@, *final(common)),
{
    if original.get("jav_download_path").is_none() {
        if let Some(path) = legacy.text("save_path") {
            common.jav_download_path = path;
        }
    }
    if original.get("temp_path").is_none() {
        if let Some(path) = legacy.text("temp_path") {
            common.temp_path = path;
        }
    }
    let set = schedule_is_set(original, "jav");
    if !set {
        if let Some(enabled) = legacy.flag("daily_enabled") {
            common.schedules.jav.enabled = enabled;
        }
        if let Some(time) = legacy.text("daily_time") {
            common.schedules.jav.daily_time = time;
        }
        if let Some(start) = legacy.flag("run_on_start") {
            common.schedules.jav.run_on_start = start;
        }
    }
}

/// What is set in the common settings is never overruled.
pub proof fn law_common_settings_win(
    before: Config,
    original: JsonView,
    legacy: JsonView,
    after: Config,
)
    requires
        named(original, "jav_download_path"@) is Some,
        named(original, "temp_path"@) is Some,
        schedule_set(original, "jav"@),
        jav_adopted(before, original, legacy, after),
    ensures
        after.jav_download_path@ == before.jav_download_path@,
        after.temp_path@ == before.temp_path@,
        after.schedules.jav.enabled == before.schedules.jav.enabled,
        after.schedules.jav.daily_time@ == before.schedules.jav.daily_time@,
        after.schedules.jav.run_on_start == before.schedules.jav.run_on_start,
        after.schedules.telegram == before.schedules.telegram,
{
}

} // verus!
