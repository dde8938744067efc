//! What the engines remember of finished downloads.
pub mod telegram;

use vstd::prelude::*;
use crate::text::opt_view;

verus! {

/// How a download ended. Times are seconds since the epoch.
#[derive(Debug, Clone, PartialEq, Eq)]
pub struct Record {
    pub id: String,
    pub url: String,
    pub title: String,
    pub rank: Option<usize>,
    pub status: String,
    pub path: String,
    pub size: u64,
    pub finished_at: u64,
    pub error: Option<String>,
}

/// What a record holds.
pub struct RecordView {
    pub id: Seq<char>,
    pub url: Seq<char>,
    pub title: Seq<char>,
    pub rank: Option<usize>,
    pub status: Seq<char>,
    pub path: Seq<char>,
    pub size: u64,
    pub finished_at: u64,
    pub error: Option<Seq<char>>,
}

impl View for Record {
    type V = RecordView;

    open spec fn view(&self) -> RecordView {
        RecordView {
            id: self.id@,
            url: self.url@,
            title: self.title@,
            rank: self.rank,
            status: self.status@,
            path: self.path@,
            size: self.size,
            finished_at: self.finished_at,
            error: opt_view(self.error),
        }
    }
}

/// The record of a download that completed.
pub fn completed_record(
    id: &str,
    url: &str,
    title: &str,
    rank: Option<usize>,
    path: &str,
    size: u64,
    now: u64,
) -> (r: Record)
    ensures
        r@ == (RecordView {
            id: id@,
            url: url@,
            title: title@,
            rank,
            status: "completed"@,
            path: path@,
            size,
            finished_at: now,
            error: None,
        }),
{
    Record {
        id: id.to_owned(),
        url: url.to_owned(),
        title: title.to_owned(),
        rank,
        status: "completed".to_owned(),
        path: path.to_owned(),
        size,
        finished_at: now,
        error: None,
    }
}

/// The record of a download that failed.
pub fn failed_record(
    id: &str,
    url: &str,
    title: &str,
    rank: Option<usize>,
    message: &str,
    now: u64,
) -> (r: Record)
    ensures
        r@ == (RecordView {
            id: id@,
            url: url@,
            title: title@,
            rank,
            status: "failed"@,
            path: Seq::empty(),
            size: 0,
            finished_at: now,
            error: Some(message@),
        }),
{
    Record {
        id: id.to_owned(),
        url: url.to_owned(),
        title: title.to_owned(),
        rank,
        status: "failed".to_owned(),
        path: String::new(),
        size: 0,
        finished_at: now,
        error: Some(message.to_owned()),
    }
}

} // verus!
