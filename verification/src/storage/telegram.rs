//! What the chat engine remembers between runs.
pub mod checkpoints;
pub mod cursors;
pub mod history;
pub mod repository;

use vstd::prelude::*;

verus! {

/// Everything that is remembered.
#[derive(Debug, Clone)]
pub struct AppData {
    pub chat: Vec<ChatData>,
    pub downloaded_file_ids: Vec<(String, u64)>,
}

/// What is remembered of one chat.
#[derive(Debug, Clone)]
pub struct ChatData {
    pub chat_id: String,
    pub ids_to_retry: Vec<i32>,
    pub last_read_message_id: i32,
}

impl Default for AppData {
    fn default() -> (r: Self)
        ensures
            r.chat@.len() == 0,
            r.downloaded_file_ids@.len() == 0,
    {
        AppData { chat: Vec::new(), downloaded_file_ids: Vec::new() }
    }
}

impl Default for ChatData {
    fn default() -> (r: Self)
        ensures
            r.chat_id@ == Seq::<char>::empty(),
            r.ids_to_retry@.len() == 0,
            r.last_read_message_id == 0,
    {
        ChatData { chat_id: String::new(), ids_to_retry: Vec::new(), last_read_message_id: 0 }
    }
}

/// A download that completed. Times are milliseconds since the epoch.
#[derive(Debug, Clone, PartialEq, Eq)]
pub struct CompletedDownload {
    pub msg_id: i32,
    pub file_name: String,
    pub path: String,
    pub bytes: u64,
    pub completed_at: u64,
}

/// Milliseconds in a day.
pub const DAY_MS: u64 = 86_400_000;

/// A retention in milliseconds.
pub fn retention_ms(days: u32) -> (r: u64)
    ensures
        r == days * DAY_MS,
{
    assert(days * DAY_MS <= u32::MAX * 86_400_000) by (nonlinear_arith)
        requires
            days <= u32::MAX,
            DAY_MS == 86_400_000,
    ;
    days as u64 * DAY_MS
}

/// The time up to which history is forgotten.
pub open spec fn cutoff_of(now: u64, days: u32) -> int {
    if now >= days * DAY_MS {
        now - days * DAY_MS
    } else {
        0
    }
}

/// The time up to which history is forgotten, as the database holds times; `None`
/// where it cannot hold it.
pub fn cutoff(now: u64, days: u32) -> (r: Option<i64>)
    ensures
        r == (if cutoff_of(now, days) <= i64::MAX {
            Some(cutoff_of(now, days) as i64)
        } else {
            None
        }),
{
    to_signed(now.saturating_sub(retention_ms(days)))
}

/// A number that the database cannot hold.
#[derive(Debug, Clone, Copy, PartialEq, Eq, Structural)]
pub struct TooLarge;

/// A number as the database holds it, where it can hold it.
pub open spec fn signed_of(n: u64) -> Option<i64> {
    if n <= i64::MAX {
        Some(n as i64)
    } else {
        None
    }
}

/// A number that the database holds, where it is not negative.
pub open spec fn unsigned_of(n: i64) -> Option<u64> {
    if n >= 0 {
        Some(n as u64)
    } else {
        None
    }
}

/// A number as the database holds it; `None` where it cannot hold it.
pub fn to_signed(n: u64) -> (r: Option<i64>)
    ensures
        r == signed_of(n),
{
    if n <= i64::MAX as u64 {
        Some(n as i64)
    } else {
        None
    }
}

/// A number that the database holds; `None` where it is negative.
pub fn to_unsigned(n: i64) -> (r: Option<u64>)
    ensures
        r == unsigned_of(n),
{
    if n >= 0 {
        Some(n as u64)
    } else {
        None
    }
}

/// A number that the database can hold is read back as it was.
pub proof fn law_stored_numbers_are_read_back(n: u64)
    ensures
        signed_of(n) matches Some(stored) ==> unsigned_of(stored) == Some(n),
{
}

/// A download is kept for the retention: one that has just completed is never
/// forgotten at once.
pub proof fn law_fresh_history_is_kept(now: u64, days: u32)
    requires
        days >= 1,
        now > 0,
    ensures
        now > cutoff_of(now, days),
{
    assert(days * DAY_MS >= DAY_MS) by (nonlinear_arith)
        requires
            days >= 1,
            DAY_MS == 86_400_000,
    ;
}

} // verus!
