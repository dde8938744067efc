//! Taking over what was remembered of videos.
use vstd::prelude::*;
use crate::storage::telegram::{to_signed, TooLarge};
use crate::storage::Record;
use crate::table::Table;
use crate::text::{opt_view, trim, trim_str, views};

verus! {

/// The files with the state of the video engine.
pub fn state_paths() -> (r: Vec<String>)
    ensures
        views(r@) == seq![
            "jav-state.json"@,
            "config/jav-state.json"@,
            "config/state.json"@,
            "config/jav/state.json"@,
        ],
{
    let mut r: Vec<String> = Vec::new();
    r.push("jav-state.json".to_owned());
    r.push("config/jav-state.json".to_owned());
    r.push("config/state.json".to_owned());
    r.push("config/jav/state.json".to_owned());
    assert(views(r@) =~= seq![
        "jav-state.json"@,
        "config/jav-state.json"@,
        "config/state.json"@,
        "config/jav/state.json"@,
    ]);
    r
}

/// Whether a file of state holds anything.
pub fn holds_state(text: &str) -> (r: bool)
    ensures
        r == (trim(text@).len() > 0),
{
    let t = trim_str(text);
    t.as_str().unicode_len() > 0
}

/// The numbers in a record of a video as the database holds them: the rank and
/// the size. `None` where it cannot hold one of them.
pub fn record_numbers(rank: Option<usize>, size: u64) -> (r: Option<(Option<i64>, i64)>)
    ensures
        r == (if size <= i64::MAX && (rank is None || rank->0 <= i64::MAX) {
            Some(
                (
                    match rank {
                        Some(n) => Some(n as i64),
                        None => None,
                    },
                    size as i64,
                ),
            )
        } else {
            None
        }),
{
    let rank = match rank {
        None => None,
        Some(n) => match to_signed(n as u64) {
            Some(n) => Some(n),
            None => return None,
        },
    };
    match to_signed(size) {
        Some(s) => Some((rank, s)),
        None => None,
    }
}

/// Records with some taken over, each unless there is one of the same video.
pub open spec fn records_with(records: Map<Seq<char>, Record>, items: Seq<Record>) -> Map<
    Seq<char>,
    Record,
>
    decreases items.len(),
{
    if items.len() == 0 {
        records
    } else {
        let before = records_with(records, items.drop_last());
        let last = items.last();
        if before.contains_key(last.id@) {
            before
        } else {
            before.insert(last.id@, last)
        }
    }
}

/// Whether the database can hold a record.
pub open spec fn record_fits(r: Record) -> bool {
    r.size <= i64::MAX && (r.rank is None || r.rank->0 <= i64::MAX)
}

/// Take over the records of videos. Where the database cannot hold one of them,
/// none is taken over.
pub fn import(records: &mut Table<Record>, items: Vec<Record>) -> (r: Result<(), TooLarge>)
    requires
        old(records).wf(),
    ensures
        final(records).wf(),
        if forall|i: int| 0 <= i < items@.len() ==> record_fits(#[trigger] items@[i]) {
            r is Ok && final(records).view() == records_with(old(records).view(), items@)
        } else {
            r == Err::<(), TooLarge>(TooLarge) && final(records).view() == old(records).view()
        },
{
    let ghost all = items@;
    let mut i: usize = 0;
    while i < items.len()
        invariant
            i <= items@.len(),
            all == items@,
            records.wf(),
            records.view() == old(records).view(),
            forall|k: int| 0 <= k < i ==> record_fits(#[trigger] items@[k]),
        decreases items@.len() - i,
    {
        if record_numbers(items[i].rank, items[i].size).is_none() {
            assert(!record_fits(items@[i as int]));
            return Err(TooLarge);
        }
        i += 1;
    }
    let ghost start = records.view();
    let mut rest: Vec<Record> = Vec::new();
    let mut items = items;
    assert(rest@ =~= Seq::new(0, |k: int| all[all.len() - 1 - k]));
    while items.len() > 0
        invariant
            items@.len() <= all.len(),
            items@ == all.take(items@.len() as int),
            rest@ == Seq::new((all.len() - items@.len()) as nat, |k: int| all[all.len() - 1 - k]),
        decreases items@.len(),
    {
        let ghost m = items@.len() - 1;
        if let Some(item) = items.pop() {
            assert(item == all[m]);
            assert(items@ =~= all.take(m));
            rest.push(item);
            assert(rest@ =~= Seq::new((all.len() - m) as nat, |k: int| all[all.len() - 1 - k]));
        }
    }
    assert(all.take(0) =~= Seq::empty());
    while rest.len() > 0
        invariant
            rest@.len() <= all.len(),
            rest@ == Seq::new(rest@.len(), |k: int| all[all.len() - 1 - k]),
            records.wf(),
            records.view() == records_with(start, all.take(all.len() - rest@.len())),
        decreases rest@.len(),
    {
        let ghost m = rest@.len() - 1;
        let ghost n = all.len() - 1 - m;
        if let Some(item) = rest.pop() {
            proof {
                assert(item == all[n]);
                assert(rest@ =~= Seq::new(m as nat, |k: int| all[all.len() - 1 - k]));
                assert(all.take(n + 1).drop_last() =~= all.take(n));
                assert(all.take(n + 1).last() == item);
            }
            if !records.has(item.id.as_str()) {
                let id = item.id.as_str().to_owned();
                records.insert(id.as_str(), item);
            }
        }
    }
    assert(all.take(all.len() as int) =~= all);
    Ok(())
}

/// Taking records over replaces none that is there, and brings one of every
/// video.
pub proof fn law_known_records_are_kept(
    records: Map<Seq<char>, Record>,
    items: Seq<Record>,
    id: Seq<char>,
)
    ensures
        records.contains_key(id) ==> records_with(records, items).contains_key(id) && records_with(
            records,
            items,
        )[id] == records[id],
        (exists|i: int| 0 <= i < items.len() && (#[trigger] items[i]).id@ == id) ==> records_with(
            records,
            items,
        ).contains_key(id),
    decreases items.len(),
{
    if items.len() > 0 {
        let t = items.drop_last();
        law_known_records_are_kept(records, t, id);
        if exists|i: int| 0 <= i < items.len() && (#[trigger] items[i]).id@ == id {
            let i = choose|i: int| 0 <= i < items.len() && (#[trigger] items[i]).id@ == id;
            if i < t.len() {
                assert(t[i].id@ == id);
            }
        }
    }
}

/// The day of the last daily job, as it is remembered: nothing was ever noted, or a
/// day, or that there was none.
pub open spec fn noted(row: Option<Option<String>>) -> Option<Option<Seq<char>>> {
    match row {
        Some(day) => Some(opt_view(day)),
        None => None,
    }
}

/// Take over the day of the last daily job, unless something was noted of it.
pub fn import_last_run(row: &mut Option<Option<String>>, last: Option<String>)
    ensures
        noted(*final(row)) == (match noted(*old(row)) {
            Some(day) => Some(day),
            None => Some(opt_view(last)),
        }),
{
    if row.is_none() {
        *row = Some(last);
    }
}

} // verus!
