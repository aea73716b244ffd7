//! Numbering of the tracks on a tape

use vstd::prelude::*;

verus! {

/// Place of a track on its tape
#[derive(Clone, Copy, Debug, PartialEq, Eq, Structural)]
pub struct TrackNumber(pub u64);

/// Whether a track is in a list
pub fn is_among(track: TrackNumber, tracks: &[TrackNumber]) -> (found: bool)
    ensures
        found == tracks@.contains(track),
{
    let mut i: usize = 0;
    while i < tracks.len()
        invariant
            i <= tracks@.len(),
            forall|k: int| 0 <= k < i ==> tracks@[k] != track,
        decreases tracks.len() - i,
    {
        if tracks[i] == track {
            return true;
        }
        i = i + 1;
    }
    false
}

/// Track numbers in order
pub open spec fn in_order(tracks: Seq<TrackNumber>) -> bool {
    forall|i: int, j: int|
        0 <= i < j < tracks.len() ==> (#[trigger] tracks[i]).0 <= (#[trigger] tracks[j]).0
}

/// Track numbers strictly ascending
pub open spec fn ascending(tracks: Seq<TrackNumber>) -> bool {
    forall|i: int, j: int|
        0 <= i < j < tracks.len() ==> (#[trigger] tracks[i]).0 < (#[trigger] tracks[j]).0
}

/// Whether two tracks that may be missing are the same
pub fn same(a: Option<TrackNumber>, b: Option<TrackNumber>) -> (equal: bool)
    ensures
        equal == (a == b),
{
    match (a, b) {
        (Some(a), Some(b)) => a == b,
        (None, None) => true,
        _ => false,
    }
}

} // verus!
