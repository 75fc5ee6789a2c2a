//! The rate-converter worker's per-iteration decision.
//!
//! The worker bridges the capture ring to the playback ring: each iteration
//! it asks the resampling filter how many input frames it needs next (a
//! value that varies call to call by design of asynchronous resampling),
//! and must not feed the filter a short chunk — a jittered chunk would
//! corrupt the filter's continuity state and cause an audible glitch. So
//! while the capture ring holds fewer frames than the filter needs, the
//! worker yields the processor and tries again, deliberately never blocking
//! on a kernel primitive that could be deprioritized for arbitrarily long;
//! once enough frames are there it pops exactly that many, resamples them,
//! and pushes the whole output chunk into the playback ring, where any
//! excess is dropped per the ring's standard overrun policy.

use vstd::prelude::*;

verus! {

/// What the worker does next with the capture ring's current fill level.
#[derive(Clone, Copy, PartialEq, Eq, Structural, Debug)]
pub enum ConverterAction {
    /// Not enough input buffered: yield and poll again; never feed a short
    /// chunk to the filter.
    Wait,
    /// Enough input buffered: pop exactly this many frames and resample
    /// them as one chunk.
    Resample { frames: usize },
}

/// The decision of one worker iteration, from the frames the filter needs
/// next and the frames the capture ring holds right now.
pub fn converter_step(needed_frames: usize, available_frames: usize) -> (r: ConverterAction)
    ensures
        r == spec_converter_step(needed_frames as nat, available_frames as nat),
        r is Resample <==> available_frames >= needed_frames,
        r matches ConverterAction::Resample { frames } ==> frames == needed_frames,
{
    if available_frames < needed_frames {
        ConverterAction::Wait
    } else {
        ConverterAction::Resample { frames: needed_frames }
    }
}

pub open spec fn spec_converter_step(needed: nat, available: nat) -> ConverterAction {
    if available < needed {
        ConverterAction::Wait
    } else {
        ConverterAction::Resample { frames: needed as usize }
    }
}

} // verus!
