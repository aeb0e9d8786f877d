//! The pace of the frames: how long to wait for the next one.

use vstd::prelude::*;

verus! {

/// What to do before the next frame.
#[derive(Clone, Copy, Debug, PartialEq, Eq, Structural)]
pub enum Pace {
    /// Sleep for this many nanoseconds, to keep to the frame limit.
    Sleep(u128),
    /// The frames have fallen behind the limit, or there is none: go on at
    /// once and measure anew from now.
    Reset,
}

/// How to keep to the frame limit.  `elapsed` is the time in nanoseconds
/// since the start of the measurement, `ideal_frametime` the time that a
/// frame should take, and `frames` the number of frames since the start.  As
/// long as the frames are ahead of the limit, the rest of the time is slept.
pub fn pace(elapsed: u128, ideal_frametime: u128, frames: u32) -> (r: Pace)
    requires
        ideal_frametime * frames <= u128::MAX,
    ensures
        r == (if elapsed < ideal_frametime * frames {
            Pace::Sleep((ideal_frametime * frames - elapsed) as u128)
        } else {
            Pace::Reset
        }),
{
    let target = ideal_frametime * (frames as u128);
    if elapsed < target {
        Pace::Sleep(target - elapsed)
    } else {
        Pace::Reset
    }
}

} // verus!
