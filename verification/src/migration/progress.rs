//! Taking over partial downloads.
use vstd::prelude::*;
use crate::outside::std_text::{from_utf8_lossy, text_of};
use crate::storage::telegram::checkpoints::{checkpoint, delete, load, write_progress};
use crate::storage::telegram::TooLarge;
use crate::table::Table;
use crate::text::{join2, parse_unsigned, to_chars, trim, trim_chars, unsigned_at_most};

verus! {

/// How far a partial download has got, by the text of the file beside it: nothing
/// where that is no number.
pub open spec fn offset_in(text: Seq<char>) -> nat {
    match parse_unsigned(trim(text), u64::MAX as nat) {
        Some(n) => n,
        None => 0,
    }
}

/// How far a partial download has got, by the text of the file beside it.
pub fn offset_of(text: &str) -> (r: u64)
    ensures
        r == offset_in(text@),
{
    let v = trim_chars(to_chars(text).as_slice());
    match unsigned_at_most(v.as_slice(), u64::MAX) {
        Some(n) => n,
        None => 0,
    }
}

/// What is in the file beside a partial download, `None` where there is none,
/// says how far it has got.
pub open spec fn beside(sidecar: Option<Seq<u8>>) -> nat {
    match sidecar {
        Some(bytes) => offset_in(text_of(bytes)),
        None => 0,
    }
}

/// Where a download resumes: at its checkpoint, else where the file beside it
/// says.
pub open spec fn resumed(progress: Map<Seq<char>, u64>, path: Seq<char>, sidecar: Option<Seq<u8>>) -> nat {
    match checkpoint(progress, path) {
        Some(n) => n as nat,
        None => beside(sidecar),
    }
}

/// The contents of a file, where there is one.
pub open spec fn contents(bytes: Option<&[u8]>) -> Option<Seq<u8>> {
    match bytes {
        Some(b) => Some(b@),
        None => None,
    }
}

/// Where a download resumes: at its checkpoint, else where the file beside it
/// says, which then is its checkpoint. `sidecar` is what is in that file, `None`
/// where there is none.
pub fn resume_offset(progress: &mut Table<u64>, path: &str, sidecar: Option<&[u8]>) -> (r: Result<
    u64,
    TooLarge,
>)
    requires
        old(progress).wf(),
    ensures
        final(progress).wf(),
        ({
            let before = old(progress).view();
            let n = resumed(before, path@, contents(sidecar));
            if checkpoint(before, path@) is Some {
                r == Ok::<u64, TooLarge>(n as u64) && final(progress).view() == before
            } else if n <= i64::MAX {
                &&& r == Ok::<u64, TooLarge>(n as u64)
                &&& final(progress).view() == before.insert(path@, n as u64)
            } else {
                r == Err::<u64, TooLarge>(TooLarge) && final(progress).view() == before
            }
        }),
{
    if let Some(n) = load(progress, path) {
        return Ok(n);
    }
    let n: u64 = match sidecar {
        Some(bytes) => {
            let text = from_utf8_lossy(bytes);
            offset_of(text.as_str())
        },
        None => 0,
    };
    match write_progress(progress, path, n) {
        Ok(()) => Ok(n),
        Err(e) => Err(e),
    }
}

/// Once its progress is cleared, a download starts anew, whatever the file beside
/// it says.
pub proof fn law_cleared_progress_stays_cleared(
    progress: Map<Seq<char>, u64>,
    path: Seq<char>,
    sidecar: Option<Seq<u8>>,
)
    ensures
        resumed(progress.insert(path, 0), path, sidecar) == 0,
{
}

/// The file beside a partial download that says how far it has got.
pub fn sidecar_path(temp_path: &str) -> (r: String)
    ensures
        r@ == temp_path@ + ".progress"@,
{
    join2(temp_path, ".progress")
}

/// Whether a partial download beside its output moves into the shared directory:
/// it is there, it is not the same file, and nothing is in its way.
pub fn relocates(same_file: bool, target_exists: bool, source_exists: bool) -> (r: bool)
    ensures
        r == (!same_file && !target_exists && source_exists),
{
    !same_file && !target_exists && source_exists
}

/// A partial download has moved from `from` to `to`: its checkpoint moves with it.
pub fn relocate_partial(
    progress: &mut Table<u64>,
    from: &str,
    to: &str,
    sidecar: Option<&[u8]>,
) -> (r: Result<u64, TooLarge>)
    requires
        old(progress).wf(),
        forall|k: Seq<char>| #[trigger]
            old(progress).view().contains_key(k) ==> old(progress).view()[k] <= i64::MAX,
    ensures
        final(progress).wf(),
        ({
            let before = old(progress).view();
            let n = resumed(before, from@, contents(sidecar));
            if n <= i64::MAX {
                &&& r == Ok::<u64, TooLarge>(n as u64)
                &&& final(progress).view() == before.insert(to@, n as u64).remove(from@)
            } else {
                r == Err::<u64, TooLarge>(TooLarge) && final(progress).view() == before
            }
        }),
{
    let ghost before = progress.view();
    let n: u64 = match resume_offset(progress, from, sidecar) {
        Ok(n) => n,
        Err(e) => {
            return Err(e);
        },
    };
    let written = write_progress(progress, to, n);
    delete(progress, from);
    assert(progress.view() =~= before.insert(to@, n).remove(from@));
    match written {
        Ok(()) => Ok(n),
        Err(e) => Err(e),
    }
}

/// A partial download resumes where it was, however often it moves.
pub proof fn law_moves_lose_no_progress(
    progress: Map<Seq<char>, u64>,
    from: Seq<char>,
    to: Seq<char>,
    sidecar: Option<Seq<u8>>,
    other: Option<Seq<u8>>,
)
    requires
        from != to,
        resumed(progress, from, sidecar) <= u64::MAX,
    ensures
        ({
            let n = resumed(progress, from, sidecar);
            let after = progress.insert(to, n as u64).remove(from);
            resumed(after, to, other) == n
        }),
{
}

} // verus!
