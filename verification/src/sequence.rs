//! Iterating the map: an ordered sequence of frames, each derived from its
//! predecessor.

use crate::baker::spec_transform;
use crate::baker::transform;
use crate::baker::Variant;
use crate::frame::Frame;
use vstd::prelude::*;

verus! {

/// Produce the `nsteps`-frame sequence that starts with `initial` and applies
/// the chosen variant once per later frame.
///
/// The first frame is the initial frame itself, unchanged; every later frame
/// is exactly one transform of its predecessor; `nsteps == 0` gives an empty
/// sequence.
pub fn generate(initial: Frame, nsteps: usize, v: Variant) -> (frames: Vec<Frame>)
    requires
        initial.wf(),
    ensures
        frames@.len() == nsteps,
        forall|i: int| 0 <= i < nsteps ==> (#[trigger] frames@[i]).wf(),
        nsteps >= 1 ==> frames@[0] == initial,
        forall|i: int|
            1 <= i < nsteps ==> (#[trigger] frames@[i])@ == spec_transform(frames@[i - 1]@, v),
{
    let mut frames: Vec<Frame> = Vec::new();
    if nsteps == 0 {
        return frames;
    }
    frames.push(initial);
    let mut i: usize = 1;
    while i < nsteps
        invariant
            1 <= i <= nsteps,
            frames@.len() == i,
            frames@[0] == initial,
            forall|j: int| 0 <= j < i ==> (#[trigger] frames@[j]).wf(),
            forall|j: int| 1 <= j < i ==> (#[trigger] frames@[j])@ == spec_transform(frames@[j - 1]@, v),
        decreases nsteps - i,
    {
        let next = transform(&frames[i - 1], v);
        frames.push(next);
        i = i + 1;
    }
    frames
}

} // verus!
