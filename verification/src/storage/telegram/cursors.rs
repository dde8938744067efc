//! Explicit cursor edits survive restarts and are consumed between scans.
use vstd::prelude::*;
use crate::table::{listed, Table};

verus! {

/// The cursors of the chats, and the edits that have not been consumed.
pub struct Cursors {
    pub chats: Table<i32>,
    pub overrides: Table<i32>,
}

/// What the cursors are.
pub struct CursorsView {
    pub chats: Map<Seq<char>, i32>,
    pub overrides: Map<Seq<char>, i32>,
}

impl View for Cursors {
    type V = CursorsView;

    open spec fn view(&self) -> CursorsView {
        CursorsView { chats: self.chats.view(), overrides: self.overrides.view() }
    }
}

impl CursorsView {
    /// The cursors in force: those of the chats, but for edits.
    pub open spec fn in_force(self) -> Map<Seq<char>, i32> {
        self.chats.union_prefer_right(self.overrides)
    }

    /// An edit of some cursors, one after the other.
    pub open spec fn queued(self, updates: Seq<(String, i32)>) -> CursorsView
        decreases updates.len(),
    {
        if updates.len() == 0 {
            self
        } else {
            let before = self.queued(updates.drop_last());
            CursorsView {
                overrides: before.overrides.insert(updates.last().0@, updates.last().1),
                ..before
            }
        }
    }

    /// The edits are consumed: they are the cursors of their chats.
    pub open spec fn applied(self) -> CursorsView {
        CursorsView { chats: self.in_force(), overrides: Map::empty() }
    }
}

/// Copy the rows of one table over those of another.
fn copy_over(from: &Table<i32>, to: &mut Table<i32>)
    requires
        from.wf(),
        old(to).wf(),
    ensures
        final(to).wf(),
        final(to).view() == old(to).view().union_prefer_right(from.view()),
{
    let ghost before = to.view();
    let keys = from.keys();
    let mut i: usize = 0;
    while i < keys.len()
        invariant
            i <= keys@.len(),
            from.wf(),
            to.wf(),
            forall|k: Seq<char>|
                #[trigger] from.view().contains_key(k) <==> listed(keys@, k, keys@.len() as int),
            forall|k: Seq<char>| #[trigger]
                to.view().contains_key(k) <==> before.contains_key(k) || listed(
                    keys@,
                    k,
                    i as int,
                ),
            forall|k: Seq<char>| #[trigger]
                to.view().contains_key(k) ==> to.view()[k] == (if listed(keys@, k, i as int) {
                    from.view()[k]
                } else {
                    before[k]
                }),
        decreases keys@.len() - i,
    {
        let ghost there = to.view();
        let key = keys[i].as_str();
        proof {
            assert(keys@[i as int]@ == key@);
            assert(listed(keys@, key@, keys@.len() as int));
        }
        if let Some(value) = from.get(key) {
            let value: i32 = *value;
            to.insert(key, value);
        }
        proof {
            assert forall|k: Seq<char>| #[trigger] to.view().contains_key(k) implies {
                &&& before.contains_key(k) || listed(keys@, k, i + 1)
                &&& to.view()[k] == (if listed(keys@, k, i + 1) {
                    from.view()[k]
                } else {
                    before[k]
                })
            } by {
                if k == key@ {
                    assert(keys@[i as int]@ == k);
                    assert(listed(keys@, k, i + 1));
                } else {
                    assert(there.contains_key(k));
                    if listed(keys@, k, i + 1) {
                        let j = choose|j: int| 0 <= j < i + 1 && (#[trigger] keys@[j])@ == k;
                        assert(j < i);
                        assert(listed(keys@, k, i as int));
                    }
                    if listed(keys@, k, i as int) {
                        let j = choose|j: int| 0 <= j < i && (#[trigger] keys@[j])@ == k;
                        assert(keys@[j]@ == k);
                        assert(listed(keys@, k, i + 1));
                    }
                }
            }
            assert forall|k: Seq<char>| before.contains_key(k) || listed(
                keys@,
                k,
                i + 1,
            ) implies #[trigger] to.view().contains_key(k) by {
                if k != key@ && !before.contains_key(k) {
                    let j = choose|j: int| 0 <= j < i + 1 && (#[trigger] keys@[j])@ == k;
                    assert(j < i);
                    assert(listed(keys@, k, i as int));
                    assert(there.contains_key(k));
                } else if k != key@ {
                    assert(there.contains_key(k));
                }
            }
        }
        i += 1;
    }
    assert(to.view() =~= before.union_prefer_right(from.view())) by {
        assert forall|k: Seq<char>| to.view().contains_key(k) implies to.view()[k]
            == #[trigger] before.union_prefer_right(from.view())[k] by {}
    }
}

impl Cursors {
    /// The tables are tables.
    pub open spec fn wf(&self) -> bool {
        self.chats.wf() && self.overrides.wf()
    }
}

/// The cursors in force.
pub fn load(cursors: &Cursors) -> (r: Table<i32>)
    requires
        cursors.wf(),
    ensures
        r.wf(),
        r.view() == cursors@.in_force(),
{
    let mut r: Table<i32> = Table::new();
    copy_over(&cursors.chats, &mut r);
    copy_over(&cursors.overrides, &mut r);
    assert(r.view() =~= cursors@.in_force());
    r
}

/// Edit some cursors, one after the other.
pub fn queue(cursors: &mut Cursors, updates: &Vec<(String, i32)>)
    requires
        old(cursors).wf(),
    ensures
        final(cursors).wf(),
        final(cursors)@ == old(cursors)@.queued(updates@),
{
    let ghost start = cursors@;
    let mut i: usize = 0;
    assert(updates@.take(0) =~= Seq::empty());
    while i < updates.len()
        invariant
            i <= updates@.len(),
            cursors.wf(),
            cursors@ == start.queued(updates@.take(i as int)),
        decreases updates@.len() - i,
    {
        let update = &updates[i];
        cursors.overrides.insert(update.0.as_str(), update.1);
        assert(updates@.take(i + 1).drop_last() =~= updates@.take(i as int));
        assert(updates@.take(i + 1).last() == updates@[i as int]);
        i += 1;
    }
    assert(updates@.take(i as int) =~= updates@);
}

/// Consume the edits: they become the cursors of their chats, and are returned.
pub fn apply(cursors: &mut Cursors) -> (r: Table<i32>)
    requires
        old(cursors).wf(),
    ensures
        final(cursors).wf(),
        final(cursors)@ == old(cursors)@.applied(),
        r.wf(),
        r.view() == old(cursors)@.overrides,
{
    let mut taken: Table<i32> = Table::new();
    std::mem::swap(&mut taken, &mut cursors.overrides);
    copy_over(&taken, &mut cursors.chats);
    taken
}

/// Consuming the edits changes no cursor in force, and consumes each once.
pub proof fn law_edits_are_consumed_once(c: CursorsView)
    ensures
        c.applied().in_force() == c.in_force(),
        c.applied().overrides == Map::<Seq<char>, i32>::empty(),
        c.applied().applied() == c.applied(),
{
    assert(c.applied().in_force() =~= c.in_force());
}

/// An edit is in force at once, whatever was read before, and stays so when it
/// is consumed.
pub proof fn law_edits_win(c: CursorsView, updates: Seq<(String, i32)>)
    requires
        updates.len() > 0,
    ensures
        ({
            let after = c.queued(updates);
            let (chat, cursor) = updates.last();
            &&& after.in_force().contains_key(chat@) && after.in_force()[chat@] == cursor
            &&& after.applied().chats.contains_key(chat@) && after.applied().chats[chat@] == cursor
        }),
{
}

} // verus!
