//! The history of downloads, in the order in which they were recorded.
use vstd::prelude::*;
use super::{cutoff, cutoff_of, to_signed, CompletedDownload, TooLarge};

verus! {

/// Whether the database can hold a download.
pub open spec fn fits(item: CompletedDownload) -> bool {
    item.bytes <= i64::MAX && item.completed_at <= i64::MAX
}

/// Record a download.
pub fn insert(history: &mut Vec<CompletedDownload>, item: CompletedDownload) -> (r: Result<
    (),
    TooLarge,
>)
    ensures
        if fits(item) {
            r is Ok && final(history)@ == old(history)@.push(item)
        } else {
            r == Err::<(), TooLarge>(TooLarge) && final(history)@ == old(history)@
        },
{
    if to_signed(item.bytes).is_none() || to_signed(item.completed_at).is_none() {
        return Err(TooLarge);
    }
    history.push(item);
    Ok(())
}

/// The downloads that completed after a time, in their order.
pub open spec fn later(history: Seq<CompletedDownload>, time: int) -> Seq<CompletedDownload> {
    history.filter(|d: CompletedDownload| d.completed_at > time)
}

/// Forget the downloads whose retention is over.
pub fn delete_expired(history: &mut Vec<CompletedDownload>, now: u64, days: u32) -> (r: Result<
    (),
    TooLarge,
>)
    ensures
        if cutoff_of(now, days) <= i64::MAX {
            r is Ok && final(history)@ == later(old(history)@, cutoff_of(now, days))
        } else {
            r == Err::<(), TooLarge>(TooLarge) && final(history)@ == old(history)@
        },
{
    let limit: u64 = match cutoff(now, days) {
        Some(n) => n as u64,
        None => {
            return Err(TooLarge);
        },
    };
    let ghost all = history@;
    let ghost keep = |d: CompletedDownload| d.completed_at > limit as int;
    let mut kept: Vec<CompletedDownload> = Vec::new();
    let mut rest: Vec<CompletedDownload> = Vec::new();
    std::mem::swap(history, &mut rest);
    let ghost n = all.len() as int;
    assert(all.skip(n) =~= Seq::empty());
    assert(rest@ =~= all.take(n));
    assert(rev(all.skip(n).filter(keep)) =~= Seq::empty()) by {
        reveal(Seq::filter);
    }
    while rest.len() > 0
        invariant
            rest@.len() <= all.len(),
            rest@ == all.take(rest@.len() as int),
            keep == (|d: CompletedDownload| d.completed_at > limit as int),
            kept@ == rev(all.skip(rest@.len() as int).filter(keep)),
        decreases rest@.len(),
    {
        let ghost m = rest@.len() - 1;
        if let Some(item) = rest.pop() {
            proof {
                assert(item == all[m]);
                assert(rest@ =~= all.take(m));
                all.skip(m + 1).lemma_filter_prepend(item, keep);
                assert(all.skip(m) =~= seq![item] + all.skip(m + 1));
            }
            if item.completed_at > limit {
                kept.push(item);
                assert(kept@ =~= rev(all.skip(m).filter(keep)));
            }
        }
    }
    let ghost found = all.filter(keep);
    assert(all.skip(0) =~= all);
    let ghost total = kept@.len() as int;
    assert(history@ =~= found.take(0));
    while kept.len() > 0
        invariant
            kept@.len() <= total,
            total == found.len(),
            kept@ == rev(found).take(kept@.len() as int),
            history@ == found.take(total - kept@.len()),
        decreases kept@.len(),
    {
        let ghost m = kept@.len() - 1;
        let ghost before = history@;
        if let Some(item) = kept.pop() {
            proof {
                assert(item == rev(found)[m]);
                assert(kept@ =~= rev(found).take(m));
            }
            history.push(item);
            assert(history@ =~= found.take(total - m));
        }
    }
    assert(found.take(total) =~= found);
    Ok(())
}

/// The same from the last to the first.
spec fn rev(s: Seq<CompletedDownload>) -> Seq<CompletedDownload> {
    Seq::new(s.len(), |i: int| s[s.len() - 1 - i])
}

/// Downloads are forgotten when their retention is over, and no sooner.
pub proof fn law_history_is_kept_for_its_retention(
    history: Seq<CompletedDownload>,
    d: CompletedDownload,
    now: u64,
    days: u32,
)
    ensures
        later(history, cutoff_of(now, days)).contains(d) <==> history.contains(d) && d.completed_at
            > cutoff_of(now, days),
{
    let keep = |d: CompletedDownload| d.completed_at > cutoff_of(now, days);
    let kept = history.filter(keep);
    if history.contains(d) && keep(d) {
        let i = choose|i: int| 0 <= i < history.len() && history[i] == d;
        history.lemma_filter_contains(keep, i);
    }
    if kept.contains(d) {
        history.lemma_filter_contains_rev(keep, d);
        let i = choose|i: int| 0 <= i < kept.len() && kept[i] == d;
        history.lemma_filter_pred(keep, i);
    }
}

/// What a download is.
pub struct DownloadView {
    pub msg_id: i32,
    pub file_name: Seq<char>,
    pub path: Seq<char>,
    pub bytes: u64,
    pub completed_at: u64,
}

impl View for CompletedDownload {
    type V = DownloadView;

    open spec fn view(&self) -> DownloadView {
        DownloadView {
            msg_id: self.msg_id,
            file_name: self.file_name@,
            path: self.path@,
            bytes: self.bytes,
            completed_at: self.completed_at,
        }
    }
}

impl CompletedDownload {
    /// The same download.
    pub fn copy(&self) -> (r: Self)
        ensures
            r@ == self@,
    {
        CompletedDownload {
            msg_id: self.msg_id,
            file_name: self.file_name.as_str().to_owned(),
            path: self.path.as_str().to_owned(),
            bytes: self.bytes,
            completed_at: self.completed_at,
        }
    }
}

/// What some downloads are.
pub open spec fn download_views(history: Seq<CompletedDownload>) -> Seq<DownloadView> {
    Seq::new(history.len(), |i: int| history[i]@)
}

/// Whether downloads are in the order of their times.
pub open spec fn in_order(history: Seq<DownloadView>) -> bool {
    forall|i: int, j: int|
        0 <= i < j < history.len() ==> (#[trigger] history[i]).completed_at <= (
        #[trigger] history[j]).completed_at
}

/// The downloads of one time, in their order.
pub open spec fn at(history: Seq<DownloadView>, time: u64) -> Seq<DownloadView> {
    history.filter(|d: DownloadView| d.completed_at == time)
}

/// Whether one list holds the downloads of another by their times, and those of
/// one time in their order.
pub open spec fn ordered(history: Seq<DownloadView>, r: Seq<DownloadView>) -> bool {
    &&& in_order(r)
    &&& forall|time: u64| #[trigger] at(r, time) == at(history, time)
}

proof fn lemma_none_at(s: Seq<DownloadView>, time: u64)
    requires
        forall|i: int| 0 <= i < s.len() ==> (#[trigger] s[i]).completed_at != time,
    ensures
        at(s, time) == Seq::<DownloadView>::empty(),
    decreases s.len(),
{
    reveal(Seq::filter);
    if s.len() > 0 {
        lemma_none_at(s.drop_last(), time);
        assert(s.last() == s[s.len() - 1]);
    }
    assert(at(s, time) =~= Seq::<DownloadView>::empty());
}

proof fn lemma_inserted(s: Seq<DownloadView>, p: int, d: DownloadView, time: u64)
    requires
        0 <= p <= s.len(),
        forall|i: int| p <= i < s.len() ==> (#[trigger] s[i]).completed_at > d.completed_at,
    ensures
        at(s.insert(p, d), time) == at(s.push(d), time),
{
    let head = s.take(p);
    let tail = s.skip(p);
    let keep = |d: DownloadView| d.completed_at == time;
    assert(s =~= head + tail);
    assert(s.insert(p, d) =~= head + (seq![d] + tail));
    assert(s.push(d) =~= head + (tail + seq![d]));
    Seq::filter_distributes_over_add(head, seq![d] + tail, keep);
    Seq::filter_distributes_over_add(head, tail + seq![d], keep);
    Seq::filter_distributes_over_add(seq![d], tail, keep);
    Seq::filter_distributes_over_add(tail, seq![d], keep);
    let one = seq![d].filter(keep);
    if d.completed_at == time {
        lemma_none_at(tail, time);
        assert(at(tail, time) =~= Seq::empty());
        assert(one + at(tail, time) =~= at(tail, time) + one);
    } else {
        lemma_none_at(seq![d], time);
        assert(at(seq![d], time) =~= Seq::empty());
        assert(one + at(tail, time) =~= at(tail, time) + one);
    }
}

/// The downloads whose retention is not over, by their times; the others are
/// forgotten.
pub fn load(history: &mut Vec<CompletedDownload>, now: u64, days: u32) -> (r: Result<
    Vec<CompletedDownload>,
    TooLarge,
>)
    ensures
        if cutoff_of(now, days) <= i64::MAX {
            &&& final(history)@ == later(old(history)@, cutoff_of(now, days))
            &&& r matches Ok(list) && ordered(download_views(final(history)@), download_views(list@))
        } else {
            r == Err::<Vec<CompletedDownload>, TooLarge>(TooLarge) && final(history)@
                == old(history)@
        },
{
    if delete_expired(history, now, days).is_err() {
        return Err(TooLarge);
    }
    let ghost all = download_views(history@);
    let mut r: Vec<CompletedDownload> = Vec::new();
    let mut i: usize = 0;
    proof {
        assert(all.take(0) =~= Seq::empty());
        assert(download_views(r@) =~= all.take(0));
    }
    while i < history.len()
        invariant
            i <= history@.len(),
            all == download_views(history@),
            ordered(all.take(i as int), download_views(r@)),
        decreases history@.len() - i,
    {
        let item = history[i].copy();
        let ghost d = item@;
        let ghost before = download_views(r@);
        let mut p: usize = r.len();
        while p > 0 && r[p - 1].completed_at > item.completed_at
            invariant
                p <= r@.len(),
                before == download_views(r@),
                d == item@,
                forall|k: int| p <= k < before.len() ==> (#[trigger] before[k]).completed_at
                    > d.completed_at,
            decreases p,
        {
            assert(before[p - 1] == r@[p - 1]@);
            p -= 1;
        }
        proof {
            if p > 0 {
                assert(before[p - 1] == r@[p - 1]@);
            }
        }
        r.insert(p, item);
        proof {
            let after = download_views(r@);
            assert(after =~= before.insert(p as int, d));
            assert(all.take(i + 1) =~= all.take(i as int).push(d));
            assert forall|a: int, b: int| 0 <= a < b < after.len() implies (
            #[trigger] after[a]).completed_at <= (#[trigger] after[b]).completed_at by {
                let x = if a < p {
                    a
                } else {
                    a - 1
                };
                let y = if b < p {
                    b
                } else {
                    b - 1
                };
                if a == p {
                    assert(after[b] == before[y]);
                } else if b == p {
                    assert(after[a] == before[x]);
                    if x < p - 1 {
                        assert(before[x].completed_at <= before[p - 1].completed_at);
                    }
                } else {
                    assert(after[a] == before[x] && after[b] == before[y]);
                }
            }
            assert forall|time: u64| #[trigger] at(after, time) == at(all.take(i + 1), time) by {
                let keep = |d: DownloadView| d.completed_at == time;
                lemma_inserted(before, p as int, d, time);
                assert(before.push(d) =~= before + seq![d]);
                assert(all.take(i as int).push(d) =~= all.take(i as int) + seq![d]);
                Seq::filter_distributes_over_add(before, seq![d], keep);
                Seq::filter_distributes_over_add(all.take(i as int), seq![d], keep);
                assert(at(before, time) == at(all.take(i as int), time));
            }
        }
        i += 1;
    }
    assert(all.take(i as int) =~= all);
    Ok(r)
}

} // verus!
