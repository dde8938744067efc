//! Sets of message ids, as the `rustc_hash` crate hashes them.
use vstd::prelude::*;

verus! {

/// The hasher of `rustc_hash`.
#[verifier::external_type_specification]
#[verifier::external_body]
pub struct ExFxBuildHasher(rustc_hash::FxBuildHasher);

/// `FxHashSet::default`: a set without ids.
#[verifier::external_body]
pub(crate) fn empty_ids() -> (r: rustc_hash::FxHashSet<i32>)
    ensures
        r@ == Set::<i32>::empty(),
{
    rustc_hash::FxHashSet::default()
}

/// `HashSet::insert` on a set of ids.
#[verifier::external_body]
pub(crate) fn insert_id(ids: &mut rustc_hash::FxHashSet<i32>, id: i32) -> (r: bool)
    ensures
        final(ids)@ == old(ids)@.insert(id),
        r == !old(ids)@.contains(id),
{
    ids.insert(id)
}

/// `HashSet::remove` on a set of ids: whether the id was there.
#[verifier::external_body]
pub(crate) fn remove_id(ids: &mut rustc_hash::FxHashSet<i32>, id: i32) -> (r: bool)
    ensures
        final(ids)@ == old(ids)@.remove(id),
        r == old(ids)@.contains(id),
{
    ids.remove(&id)
}

/// `HashSet::is_empty` on a set of ids.
#[verifier::external_body]
pub(crate) fn no_ids(ids: &rustc_hash::FxHashSet<i32>) -> (r: bool)
    ensures
        r == (ids@ == Set::<i32>::empty()),
{
    ids.is_empty()
}

/// `HashSet::iter` on a set of ids: every id once, in no particular order.
#[verifier::external_body]
pub(crate) fn list_ids(ids: &rustc_hash::FxHashSet<i32>) -> (r: Vec<i32>)
    ensures
        r@.no_duplicates(),
        r@.to_set() == ids@,
{
    ids.iter().copied().collect()
}

} // verus!
