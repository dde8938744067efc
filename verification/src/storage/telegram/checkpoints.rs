//! Durable byte offsets for preallocated partial downloads, by the path of the
//! partial file.
use vstd::prelude::*;
use super::{to_signed, TooLarge};
use crate::table::{listed, Table};

verus! {

/// The partial files with a checkpoint, each once.
pub fn paths(progress: &Table<u64>) -> (r: Vec<String>)
    requires
        progress.wf(),
    ensures
        forall|k: Seq<char>|
            #[trigger] progress.view().contains_key(k) <==> listed(r@, k, r@.len() as int),
        forall|i: int, j: int| 0 <= i < j < r@.len() ==> (#[trigger] r@[i])@ != (#[trigger] r@[j])@,
{
    progress.keys()
}

/// Forget the checkpoint of a partial file.
pub fn delete(progress: &mut Table<u64>, path: &str)
    requires
        old(progress).wf(),
    ensures
        final(progress).wf(),
        final(progress).view() == old(progress).view().remove(path@),
{
    let _ = progress.remove(path);
}

/// The checkpoint of a partial file.
pub open spec fn checkpoint(progress: Map<Seq<char>, u64>, path: Seq<char>) -> Option<u64> {
    if progress.contains_key(path) {
        Some(progress[path])
    } else {
        None
    }
}

/// The checkpoint of a partial file.
pub fn load(progress: &Table<u64>, path: &str) -> (r: Option<u64>)
    requires
        progress.wf(),
    ensures
        r == checkpoint(progress.view(), path@),
{
    match progress.get(path) {
        Some(n) => Some(*n),
        None => None,
    }
}

/// Move a checkpoint. The data up to it must be on disk already.
pub fn write_progress(progress: &mut Table<u64>, path: &str, n: u64) -> (r: Result<(), TooLarge>)
    requires
        old(progress).wf(),
    ensures
        final(progress).wf(),
        if n <= i64::MAX {
            r is Ok && final(progress).view() == old(progress).view().insert(path@, n)
        } else {
            r == Err::<(), TooLarge>(TooLarge) && final(progress).view() == old(progress).view()
        },
{
    if to_signed(n).is_none() {
        return Err(TooLarge);
    }
    progress.insert(path, n);
    Ok(())
}

/// Forget how far a partial file has got. A checkpoint at the start is kept, so
/// that a file beside it that says otherwise is not believed.
pub fn clear_progress(progress: &mut Table<u64>, path: &str)
    requires
        old(progress).wf(),
    ensures
        final(progress).wf(),
        final(progress).view() == old(progress).view().insert(path@, 0),
{
    progress.insert(path, 0);
}

} // verus!
