//! Videos that are too small are not downloaded.
use vstd::prelude::*;
use crate::text::{decimal, decimal_chars, from_chars, join3};

verus! {

/// The shorter side of a picture.
pub open spec fn shorter(resolution: (u64, u64)) -> u64 {
    if resolution.0 < resolution.1 {
        resolution.0
    } else {
        resolution.1
    }
}

/// Whether a video is too small: its shorter side has fewer pixels than the
/// minimum. A minimum of 0 refuses nothing, and neither is a video refused whose
/// resolution is not known.
pub open spec fn too_small(minimum: u32, resolution: Option<(u64, u64)>) -> bool {
    minimum > 0 && resolution is Some && shorter(resolution->0) < minimum
}

/// Whether a video is too small.
pub fn rejected(minimum: u32, resolution: Option<(u64, u64)>) -> (r: bool)
    ensures
        r == too_small(minimum, resolution),
{
    match resolution {
        Some((w, h)) => {
            let side: u64 = if w < h {
                w
            } else {
                h
            };
            minimum > 0 && side < minimum as u64
        },
        None => false,
    }
}

/// What is said of a video that is too small.
pub open spec fn rejection_text(minimum: u32, resolution: (u64, u64)) -> Seq<char> {
    "video resolution "@ + decimal(resolution.0 as nat) + "x"@ + decimal(resolution.1 as nat)
        + " is below the minimum of "@ + decimal(minimum as nat) + " pixels"@
}

/// Why a video is not downloaded; `None` where it is large enough.
pub fn rejection(minimum: u32, resolution: Option<(u64, u64)>) -> (r: Option<String>)
    ensures
        if too_small(minimum, resolution) {
            r matches Some(m) && m@ == rejection_text(minimum, resolution->0)
        } else {
            r is None
        },
{
    if !rejected(minimum, resolution) {
        return None;
    }
    match resolution {
        Some((w, h)) => {
            let width = from_chars(decimal_chars(w).as_slice());
            let height = from_chars(decimal_chars(h).as_slice());
            let least = from_chars(decimal_chars(minimum as u64).as_slice());
            let size = join3("video resolution ", width.as_str(), "x");
            let head = join3(size.as_str(), height.as_str(), " is below the minimum of ");
            Some(join3(head.as_str(), least.as_str(), " pixels"))
        },
        None => None,
    }
}

} // verus!
