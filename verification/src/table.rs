//! A table keyed by text.
use vstd::prelude::*;
use crate::text::same_str;

verus! {

/// Rows in the order in which their keys came, no two with the same key.
pub struct Table<V> {
    rows: Vec<(String, V)>,
}

/// Whether no two rows have the same key.
pub open spec fn distinct<V>(rows: Seq<(String, V)>) -> bool {
    forall|i: int, j: int|
        0 <= i < j < rows.len() ==> (#[trigger] rows[i]).0@ != (#[trigger] rows[j]).0@
}

/// Whether row `i` has that key.
pub open spec fn row_has<V>(rows: Seq<(String, V)>, key: Seq<char>, i: int) -> bool {
    0 <= i < rows.len() && rows[i].0@ == key
}

/// The row with that key.
pub open spec fn row_of<V>(rows: Seq<(String, V)>, key: Seq<char>) -> int {
    choose|i: int| row_has(rows, key, i)
}

/// What some rows hold.
pub open spec fn rows_map<V>(rows: Seq<(String, V)>) -> Map<Seq<char>, V> {
    Map::new(
        |k: Seq<char>| exists|i: int| row_has(rows, k, i),
        |k: Seq<char>| rows[row_of(rows, k)].1,
    )
}

proof fn lemma_row<V>(rows: Seq<(String, V)>, i: int)
    requires
        distinct(rows),
        0 <= i < rows.len(),
    ensures
        rows_map(rows).contains_key(rows[i].0@),
        rows_map(rows)[rows[i].0@] == rows[i].1,
{
    let k = rows[i].0@;
    assert(row_has(rows, k, i));
    let j = row_of(rows, k);
    assert(row_has(rows, k, j));
    if i < j {
        assert(rows[i].0@ != rows[j].0@);
    } else if j < i {
        assert(rows[j].0@ != rows[i].0@);
    }
}

/// Whether a key is among the first `n` of a list.
pub open spec fn listed(keys: Seq<String>, key: Seq<char>, n: int) -> bool {
    exists|i: int| 0 <= i < n && (#[trigger] keys[i])@ == key
}

impl<V> Table<V> {
    /// What the table holds.
    pub closed spec fn view(&self) -> Map<Seq<char>, V> {
        rows_map(self.rows@)
    }

    /// No two rows have the same key.
    pub closed spec fn wf(&self) -> bool {
        distinct(self.rows@)
    }

    /// A table without rows.
    pub fn new() -> (r: Self)
        ensures
            r.wf(),
            r.view() == Map::<Seq<char>, V>::empty(),
    {
        let r = Table { rows: Vec::new() };
        assert(rows_map(r.rows@) =~= Map::<Seq<char>, V>::empty());
        r
    }

    fn find(&self, key: &str) -> (r: Option<usize>)
        requires
            self.wf(),
        ensures
            match r {
                Some(i) => row_has(self.rows@, key@, i as int) && self.view().contains_key(key@)
                    && self.view()[key@] == self.rows@[i as int].1,
                None => !self.view().contains_key(key@) && forall|i: int|
                    !row_has(self.rows@, key@, i),
            },
    {
        let mut i: usize = 0;
        while i < self.rows.len()
            invariant
                i <= self.rows@.len(),
                self.wf(),
                forall|j: int| 0 <= j < i ==> !row_has(self.rows@, key@, j),
            decreases self.rows@.len() - i,
        {
            if same_str(self.rows[i].0.as_str(), key) {
                proof {
                    lemma_row(self.rows@, i as int);
                }
                return Some(i);
            }
            i += 1;
        }
        None
    }

    /// What the table holds for a key.
    pub fn get(&self, key: &str) -> (r: Option<&V>)
        requires
            self.wf(),
        ensures
            match r {
                Some(v) => self.view().contains_key(key@) && self.view()[key@] == *v,
                None => !self.view().contains_key(key@),
            },
    {
        match self.find(key) {
            Some(i) => Some(&self.rows[i].1),
            None => None,
        }
    }

    /// Whether the table holds something for a key.
    pub fn has(&self, key: &str) -> (r: bool)
        requires
            self.wf(),
        ensures
            r == self.view().contains_key(key@),
    {
        self.find(key).is_some()
    }

    /// Hold `value` for `key`, in place of what was held for it.
    pub fn insert(&mut self, key: &str, value: V)
        requires
            old(self).wf(),
        ensures
            final(self).wf(),
            final(self).view() == old(self).view().insert(key@, value),
    {
        let ghost before = self.rows@;
        match self.find(key) {
            Some(i) => {
                let name = self.rows[i].0.clone();
                let _ = self.rows.remove(i);
                self.rows.insert(i, (name, value));
                proof {
                    let after = self.rows@;
                    assert(after =~= before.update(i as int, (name, value)));
                    assert forall|a: int, b: int| 0 <= a < b < after.len() implies (
                    #[trigger] after[a]).0@ != (#[trigger] after[b]).0@ by {
                        assert(before[a].0@ != before[b].0@);
                    }
                    lemma_update(before, after, key@, i as int, value);
                }
            },
            None => {
                let name = crate::text::from_chars(crate::text::to_chars(key).as_slice());
                self.rows.push((name, value));
                proof {
                    let after = self.rows@;
                    assert forall|a: int, b: int| 0 <= a < b < after.len() implies (
                    #[trigger] after[a]).0@ != (#[trigger] after[b]).0@ by {
                        if b == before.len() {
                            assert(!row_has(before, key@, a));
                        } else {
                            assert(before[a].0@ != before[b].0@);
                        }
                    }
                    lemma_push(before, after, key@, value);
                }
            },
        }
    }

    /// Forget what is held for a key.
    pub fn remove(&mut self, key: &str) -> (r: Option<V>)
        requires
            old(self).wf(),
        ensures
            final(self).wf(),
            final(self).view() == old(self).view().remove(key@),
            match r {
                Some(v) => old(self).view().contains_key(key@) && old(self).view()[key@] == v,
                None => !old(self).view().contains_key(key@),
            },
    {
        let ghost before = self.rows@;
        match self.find(key) {
            Some(i) => {
                let (_, value) = self.rows.remove(i);
                proof {
                    let after = self.rows@;
                    assert forall|a: int, b: int| 0 <= a < b < after.len() implies (
                    #[trigger] after[a]).0@ != (#[trigger] after[b]).0@ by {
                        let x = if a < i {
                            a
                        } else {
                            a + 1
                        };
                        let y = if b < i {
                            b
                        } else {
                            b + 1
                        };
                        assert(after[a] == before[x] && after[b] == before[y]);
                        assert(before[x].0@ != before[y].0@);
                    }
                    lemma_remove(before, after, key@, i as int);
                }
                Some(value)
            },
            None => {
                assert(self.view() =~= self.view().remove(key@));
                None
            },
        }
    }

    /// The keys of the table, each once.
    pub fn keys(&self) -> (r: Vec<String>)
        requires
            self.wf(),
        ensures
            forall|k: Seq<char>|
                #[trigger] self.view().contains_key(k) <==> listed(r@, k, r@.len() as int),
            forall|i: int, j: int| 0 <= i < j < r@.len() ==> (#[trigger] r@[i])@ != (#[trigger] r@[j])@,
    {
        let mut r: Vec<String> = Vec::new();
        let mut i: usize = 0;
        while i < self.rows.len()
            invariant
                i <= self.rows@.len(),
                self.wf(),
                r@.len() == i,
                forall|j: int| 0 <= j < i ==> (#[trigger] r@[j])@ == self.rows@[j].0@,
            decreases self.rows@.len() - i,
        {
            r.push(self.rows[i].0.clone());
            i += 1;
        }
        proof {
            assert forall|k: Seq<char>| #[trigger] self.view().contains_key(k) <==> listed(
                r@,
                k,
                r@.len() as int,
            ) by {
                if self.view().contains_key(k) {
                    let j = choose|j: int| row_has(self.rows@, k, j);
                    assert(r@[j]@ == k);
                }
                if listed(r@, k, r@.len() as int) {
                    let j = choose|i: int| 0 <= i < r@.len() && (#[trigger] r@[i])@ == k;
                    assert(row_has(self.rows@, k, j));
                }
            }
            assert forall|i: int, j: int| 0 <= i < j < r@.len() implies (#[trigger] r@[i])@ != (
            #[trigger] r@[j])@ by {
                assert(self.rows@[i].0@ != self.rows@[j].0@);
            }
        }
        r
    }
}

proof fn lemma_update<V>(
    before: Seq<(String, V)>,
    after: Seq<(String, V)>,
    key: Seq<char>,
    i: int,
    value: V,
)
    requires
        distinct(before),
        distinct(after),
        0 <= i < before.len(),
        before[i].0@ == key,
        after.len() == before.len(),
        after[i].0@ == key,
        after[i].1 == value,
        forall|j: int| 0 <= j < before.len() && j != i ==> after[j] == before[j],
    ensures
        rows_map(after) == rows_map(before).insert(key, value),
{
    let m = rows_map(before).insert(key, value);
    assert forall|k: Seq<char>| rows_map(after).contains_key(k) == m.contains_key(k) by {
        if rows_map(after).contains_key(k) {
            let j = choose|j: int| row_has(after, k, j);
            assert(row_has(before, k, j));
        }
        if rows_map(before).contains_key(k) {
            let j = choose|j: int| row_has(before, k, j);
            assert(row_has(after, k, j));
        }
        assert(row_has(after, key, i));
    }
    assert forall|k: Seq<char>| rows_map(after).contains_key(k) implies rows_map(after)[k]
        == m[k] by {
        let j = choose|j: int| row_has(after, k, j);
        assert(row_has(after, k, j));
        lemma_row(after, j);
        if k == key {
            lemma_row(after, i);
        } else {
            assert(j != i);
            assert(row_has(before, k, j));
            lemma_row(before, j);
        }
    }
    assert(rows_map(after) =~= m);
}

proof fn lemma_push<V>(
    before: Seq<(String, V)>,
    after: Seq<(String, V)>,
    key: Seq<char>,
    value: V,
)
    requires
        distinct(before),
        distinct(after),
        after.len() == before.len() + 1,
        after[before.len() as int].0@ == key,
        after[before.len() as int].1 == value,
        forall|j: int| 0 <= j < before.len() ==> after[j] == before[j],
        forall|j: int| !row_has(before, key, j),
    ensures
        rows_map(after) == rows_map(before).insert(key, value),
{
    let m = rows_map(before).insert(key, value);
    let n = before.len() as int;
    assert forall|k: Seq<char>| rows_map(after).contains_key(k) == m.contains_key(k) by {
        if rows_map(after).contains_key(k) {
            let j = choose|j: int| row_has(after, k, j);
            if j < n {
                assert(row_has(before, k, j));
            }
        }
        if rows_map(before).contains_key(k) {
            let j = choose|j: int| row_has(before, k, j);
            assert(row_has(after, k, j));
        }
        assert(row_has(after, key, n));
    }
    assert forall|k: Seq<char>| rows_map(after).contains_key(k) implies rows_map(after)[k]
        == m[k] by {
        let j = choose|j: int| row_has(after, k, j);
        assert(row_has(after, k, j));
        lemma_row(after, j);
        if k == key {
            lemma_row(after, n);
        } else {
            assert(row_has(before, k, j));
            lemma_row(before, j);
        }
    }
    assert(rows_map(after) =~= m);
}

proof fn lemma_remove<V>(
    before: Seq<(String, V)>,
    after: Seq<(String, V)>,
    key: Seq<char>,
    i: int,
)
    requires
        distinct(before),
        distinct(after),
        0 <= i < before.len(),
        before[i].0@ == key,
        after == before.remove(i),
    ensures
        rows_map(after) == rows_map(before).remove(key),
{
    let m = rows_map(before).remove(key);
    assert forall|k: Seq<char>| rows_map(after).contains_key(k) == m.contains_key(k) by {
        if rows_map(after).contains_key(k) {
            let j = choose|j: int| row_has(after, k, j);
            let x = if j < i {
                j
            } else {
                j + 1
            };
            assert(after[j] == before[x]);
            assert(row_has(before, k, x));
            if k == key {
                if x < i {
                    assert(before[x].0@ != before[i].0@);
                } else {
                    assert(before[i].0@ != before[x].0@);
                }
            }
        }
        if m.contains_key(k) {
            let x = choose|x: int| row_has(before, k, x);
            let j = if x < i {
                x
            } else {
                x - 1
            };
            assert(x != i);
            assert(after[j] == before[x]);
            assert(row_has(after, k, j));
        }
    }
    assert forall|k: Seq<char>| rows_map(after).contains_key(k) implies rows_map(after)[k]
        == m[k] by {
        let j = choose|j: int| row_has(after, k, j);
        assert(row_has(after, k, j));
        lemma_row(after, j);
        let x = if j < i {
            j
        } else {
            j + 1
        };
        assert(after[j] == before[x]);
        assert(row_has(before, k, x));
        lemma_row(before, x);
    }
    assert(rows_map(after) =~= m);
}

/// A list that names every member of a set, each once, is as long as the set.
pub proof fn lemma_listed_set(ids: Seq<String>, set: Set<Seq<char>>)
    requires
        forall|k: Seq<char>| #[trigger] listed(ids, k, ids.len() as int) <==> set.contains(k),
        forall|a: int, b: int| 0 <= a < b < ids.len() ==> (#[trigger] ids[a])@ != (#[trigger] ids[b])@,
    ensures
        set.finite(),
        set.len() == ids.len(),
        set == Set::new(|k: Seq<char>| listed(ids, k, ids.len() as int)),
{
    let names = Seq::new(ids.len(), |i: int| ids[i]@);
    assert(names.no_duplicates()) by {
        assert forall|a: int, b: int| 0 <= a < names.len() && 0 <= b < names.len() && a
            != b implies names[a] != names[b] by {
            if a < b {
                assert(ids[a]@ != ids[b]@);
            } else {
                assert(ids[b]@ != ids[a]@);
            }
        }
    }
    names.unique_seq_to_set();
    assert forall|k: Seq<char>| names.to_set().contains(k) == set.contains(k) by {
        if names.to_set().contains(k) {
            let i = choose|i: int| 0 <= i < names.len() && names[i] == k;
            assert(ids[i]@ == k);
            assert(listed(ids, k, ids.len() as int));
        }
        if set.contains(k) {
            assert(listed(ids, k, ids.len() as int));
            let i = choose|i: int| 0 <= i < ids.len() && (#[trigger] ids[i])@ == k;
            assert(names[i] == k);
        }
    }
    assert(names.to_set() =~= set);
    assert(set =~= Set::new(|k: Seq<char>| listed(ids, k, ids.len() as int)));
}

} // verus!
