//! Recent log entries, kept for clients that follow them.
use std::collections::VecDeque;
use vstd::prelude::*;
use crate::text::same_str;

verus! {

/// How many entries are kept.
pub const CAPACITY: usize = 1_000;

/// A log entry.
#[derive(Debug, Clone)]
pub struct Entry {
    pub id: u64,
    pub timestamp: String,
    pub level: String,
    pub target: String,
    pub message: String,
}

/// What an entry is.
pub struct EntryView {
    pub id: u64,
    pub timestamp: Seq<char>,
    pub level: Seq<char>,
    pub target: Seq<char>,
    pub message: Seq<char>,
}

impl View for Entry {
    type V = EntryView;

    open spec fn view(&self) -> EntryView {
        EntryView {
            id: self.id,
            timestamp: self.timestamp@,
            level: self.level@,
            target: self.target@,
            message: self.message@,
        }
    }
}

/// What entries are.
pub open spec fn entry_views(v: Seq<Entry>) -> Seq<EntryView> {
    Seq::new(v.len(), |i: int| v[i]@)
}

/// The recent entries. The oldest leaves when there are too many.
pub struct LogBuffer {
    entries: VecDeque<Entry>,
}

/// Whether ids count up from entry to entry.
pub open spec fn consecutive(v: Seq<EntryView>) -> bool {
    &&& forall|i: int| 0 <= i < v.len() ==> (#[trigger] v[i]).id == v[0].id + i
    &&& v.len() > 0 ==> v[0].id >= 1
}

/// The id of the last entry; 0 where there is none.
pub open spec fn last_id(v: Seq<EntryView>) -> u64 {
    if v.len() == 0 {
        0
    } else {
        v.last().id
    }
}

/// The id of the first entry that is kept; 1 where there is none.
pub open spec fn first_id(v: Seq<EntryView>) -> u64 {
    if v.len() == 0 {
        1
    } else {
        v[0].id
    }
}

/// Entries with one more.
pub open spec fn recorded(v: Seq<EntryView>, e: EntryView) -> Seq<EntryView> {
    if v.len() == CAPACITY {
        v.skip(1).push(e)
    } else {
        v.push(e)
    }
}

/// The entries behind an id.
pub open spec fn behind(v: Seq<EntryView>, id: u64) -> Seq<EntryView> {
    v.filter(|e: EntryView| e.id > id)
}

/// Whether a client has to start over: it follows another run of the service, or
/// something that it has not seen is gone.
pub open spec fn starts_over(v: Seq<EntryView>, after: Option<u64>, same_session: bool) -> bool {
    !same_session || match after {
        None => true,
        Some(id) => id > last_id(v) || id + 1 < first_id(v),
    }
}

/// What a client is told.
pub struct LogSnapshot {
    pub reset: bool,
    pub cursor: u64,
    pub oldest_id: u64,
    pub rows: Vec<Entry>,
}

fn clone_entry(e: &Entry) -> (r: Entry)
    ensures
        r@ == e@,
{
    Entry {
        id: e.id,
        timestamp: e.timestamp.clone(),
        level: e.level.clone(),
        target: e.target.clone(),
        message: e.message.clone(),
    }
}

impl LogBuffer {
    /// The entries that are kept.
    pub closed spec fn view(&self) -> Seq<EntryView> {
        entry_views(self.entries@)
    }

    /// No more entries than the capacity, with ids that count up.
    pub open spec fn wf(&self) -> bool {
        self.view().len() <= CAPACITY && consecutive(self.view())
    }

    /// Without entries.
    pub fn new() -> (r: Self)
        ensures
            r.wf(),
            r.view() == Seq::<EntryView>::empty(),
    {
        let r = LogBuffer { entries: VecDeque::new() };
        assert(r.view() =~= Seq::<EntryView>::empty());
        r
    }

    /// Whether there is an id left for another entry.
    pub fn can_record(&self) -> (r: bool)
        ensures
            r == (last_id(self.view()) < u64::MAX),
    {
        let n = self.entries.len();
        if n == 0 {
            return true;
        }
        assert(self.view().last() == self.entries@.last()@);
        self.entries[n - 1].id < u64::MAX
    }

    /// Keep an entry.
    pub fn record(&mut self, timestamp: String, level: String, target: String, message: String)
        requires
            old(self).wf(),
            last_id(old(self).view()) < u64::MAX,
        ensures
            final(self).wf(),
            final(self).view() == recorded(
                old(self).view(),
                EntryView {
                    id: (last_id(old(self).view()) + 1) as u64,
                    timestamp: timestamp@,
                    level: level@,
                    target: target@,
                    message: message@,
                },
            ),
    {
        let ghost before = self.view();
        let n = self.entries.len();
        let id: u64 = if n == 0 {
            1
        } else {
            assert(before.last() == self.entries@.last()@);
            self.entries[n - 1].id + 1
        };
        if n == CAPACITY {
            let _ = self.entries.pop_front();
            assert(self.view() =~= before.skip(1));
        }
        let ghost kept = self.view();
        self.entries.push_back(Entry { id, timestamp, level, target, message });
        proof {
            let e = EntryView {
                id,
                timestamp: timestamp@,
                level: level@,
                target: target@,
                message: message@,
            };
            assert(self.view() =~= kept.push(e));
            assert(self.view() == recorded(before, e));
            let now = self.view();
            assert forall|i: int| 0 <= i < now.len() implies (#[trigger] now[i]).id == now[0].id
                + i by {
                if n == CAPACITY {
                    assert(before[0].id + 1 == before[1].id);
                    if i < kept.len() {
                        assert(now[i] == before[i + 1]);
                    } else {
                        assert(before.last() == before[before.len() - 1]);
                    }
                    assert(now[0] == before[1]);
                } else if n > 0 {
                    assert(now[0] == before[0]);
                    if i < kept.len() {
                        assert(now[i] == before[i]);
                    } else {
                        assert(before.last() == before[before.len() - 1]);
                    }
                }
            }
        }
    }

    /// What a client is told that has seen the entries up to `after_id`, of the
    /// run that it calls `session`: what came since, or everything where it has
    /// to start over.
    pub fn snapshot(&self, after_id: Option<u64>, session: Option<&str>, current: &str) -> (r:
        LogSnapshot)
        requires
            self.wf(),
        ensures
            r.reset == starts_over(
                self.view(),
                after_id,
                session matches Some(s) && s@ == current@,
            ),
            r.cursor == last_id(self.view()),
            r.oldest_id == first_id(self.view()),
            entry_views(r.rows@) == (if r.reset || after_id is None {
                self.view()
            } else {
                behind(self.view(), after_id->0)
            }),
    {
        let ghost all = self.view();
        let n = self.entries.len();
        let cursor: u64 = if n == 0 {
            0
        } else {
            assert(all.last() == self.entries@[n - 1]@);
            self.entries[n - 1].id
        };
        let oldest_id: u64 = if n == 0 {
            1
        } else {
            assert(all[0] == self.entries@[0]@);
            self.entries[0].id
        };
        let same_session = match session {
            Some(s) => same_str(s, current),
            None => false,
        };
        let reset = !same_session || match after_id {
            None => true,
            Some(id) => id > cursor || id < oldest_id - 1,
        };
        let from: u64 = match after_id {
            Some(id) => if reset {
                0
            } else {
                id
            },
            None => 0,
        };
        let mut rows: Vec<Entry> = Vec::new();
        let mut i: usize = 0;
        assert(behind(all.take(0), from) =~= Seq::empty()) by {
            reveal(Seq::filter);
        }
        while i < self.entries.len()
            invariant
                all == entry_views(self.entries@),
                i <= self.entries@.len(),
                entry_views(rows@) == behind(all.take(i as int), from),
            decreases self.entries@.len() - i,
        {
            let ghost kept = rows@;
            if self.entries[i].id > from {
                rows.push(clone_entry(&self.entries[i]));
            }
            proof {
                let e = all[i as int];
                assert(all.take(i + 1).drop_last() =~= all.take(i as int));
                assert(all.take(i + 1).last() == e);
                reveal(Seq::filter);
                if e.id > from {
                    assert(entry_views(rows@) =~= entry_views(kept).push(e));
                }
            }
            i += 1;
        }
        proof {
            assert(all.take(i as int) =~= all);
            if from == 0 {
                lemma_all_behind(all, 0);
            }
        }
        LogSnapshot { reset, cursor, oldest_id, rows }
    }
}

proof fn lemma_all_behind(v: Seq<EntryView>, id: u64)
    requires
        forall|i: int| 0 <= i < v.len() ==> (#[trigger] v[i]).id > id,
    ensures
        behind(v, id) == v,
    decreases v.len(),
{
    reveal(Seq::filter);
    if v.len() > 0 {
        lemma_all_behind(v.drop_last(), id);
        assert(v.drop_last().push(v.last()) =~= v);
        assert(v[v.len() - 1].id > id);
    } else {
        assert(behind(v, id) =~= v);
    }
}

proof fn lemma_none_behind(v: Seq<EntryView>, id: u64)
    requires
        forall|i: int| 0 <= i < v.len() ==> (#[trigger] v[i]).id <= id,
    ensures
        behind(v, id) == Seq::<EntryView>::empty(),
    decreases v.len(),
{
    reveal(Seq::filter);
    if v.len() > 0 {
        lemma_none_behind(v.drop_last(), id);
        assert(v[v.len() - 1].id <= id);
    } else {
        assert(behind(v, id) =~= Seq::<EntryView>::empty());
    }
}

/// A client that follows the log misses nothing: told of an entry, with the
/// cursor of the moment before, it is told of that entry alone and need not start
/// over.
pub proof fn law_followers_miss_nothing(v: Seq<EntryView>, e: EntryView)
    requires
        v.len() <= CAPACITY,
        consecutive(v),
        last_id(v) < u64::MAX,
        e.id == last_id(v) + 1,
    ensures
        ({
            let now = recorded(v, e);
            &&& !starts_over(now, Some(last_id(v)), true)
            &&& behind(now, last_id(v)) == seq![e]
        }),
{
    let now = recorded(v, e);
    let kept = now.drop_last();
    assert forall|i: int| 0 <= i < kept.len() implies (#[trigger] kept[i]).id <= last_id(v) by {
        if v.len() == CAPACITY {
            assert(kept[i] == v[i + 1]);
        } else {
            assert(kept[i] == v[i]);
        }
        assert(v.last() == v[v.len() - 1]);
    }
    lemma_none_behind(kept, last_id(v));
    reveal(Seq::filter);
    assert(now.last() == e);
    assert(behind(now, last_id(v)) =~= seq![e]);
    if v.len() > 0 {
        assert(v.last() == v[v.len() - 1]);
        if v.len() == CAPACITY {
            assert(now[0] == v[1]);
        } else {
            assert(now[0] == v[0]);
        }
    }
}

/// A client that is up to date is told of nothing, and need not start over.
pub proof fn law_followers_wait(v: Seq<EntryView>)
    requires
        consecutive(v),
    ensures
        !starts_over(v, Some(last_id(v)), true),
        behind(v, last_id(v)) == Seq::<EntryView>::empty(),
{
    assert forall|i: int| 0 <= i < v.len() implies (#[trigger] v[i]).id <= last_id(v) by {
        assert(v.last() == v[v.len() - 1]);
    }
    lemma_none_behind(v, last_id(v));
    if v.len() > 0 {
        assert(v.last() == v[v.len() - 1]);
    }
}

// ── Requests ─────────────────────────────────────────────────────────────

/// How much a log entry matters.
#[derive(Debug, Clone, Copy, PartialEq, Eq, Structural)]
pub enum Level {
    Error,
    Warn,
    Debug,
}

/// How the answer to a request is logged, by its status and its route; `None`
/// where it is not. Reading the log leaves no trace in it, unless it fails.
pub fn request_level(status: u16, route: &str) -> (r: Option<Level>)
    ensures
        r == (if 500 <= status < 600 {
            Some(Level::Error)
        } else if 400 <= status < 500 {
            Some(Level::Warn)
        } else if route@ == "/api/logs"@ {
            None
        } else {
            Some(Level::Debug)
        }),
{
    if 500 <= status && status < 600 {
        Some(Level::Error)
    } else if 400 <= status && status < 500 {
        Some(Level::Warn)
    } else if same_str(route, "/api/logs") {
        None
    } else {
        Some(Level::Debug)
    }
}

} // verus!
