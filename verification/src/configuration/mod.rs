//! Settings: what may be configured, what is refused, and what follows from it.
pub mod app;
pub mod jav;
pub mod listing;
pub mod p91;
pub mod patch;
pub mod schedule;
pub mod telegram;

use vstd::prelude::*;

verus! {

/// Where the settings are.
pub const DIRECTORY: &'static str = "config";

pub const TELEGRAM_FILE: &'static str = "config/telegram.yaml";

pub const JAV_FILE: &'static str = "config/jav.yaml";

} // verus!
