//! The thresholds that decide whether a floating-point stage acts: the
//! attitude filter's use of the accelerometer and magnetometer, the
//! pass-through of the signal filters, and the navigation filter's updates.

use crate::float::{at_most, is_nan, less, F32Bits, ZERO_BITS};
use vstd::prelude::*;

verus! {

/// Acceleration above which the attitude is taken from gravity at start-up,
/// `0.5` g.
pub const SNAP_MIN_BITS: u32 = 0x3F00_0000;

/// Vector length above which a direction means something, `1.0e-6`.
pub const DIRECTION_MIN_BITS: u32 = 0x3586_37BD;

/// Horizontal uncertainty below which the position has converged, `5.0` m.
pub const CONVERGED_BITS: u32 = 0x40A0_0000;

/// What the attitude filter does with an accelerometer reading.
#[derive(Clone, Copy, PartialEq, Eq, Structural)]
pub struct AccelUse {
    /// Take roll and pitch from it outright.
    pub snap: bool,
    /// Correct the attitude with it.
    pub correct: bool,
}

/// Whether a vector of this length has a direction.
pub open spec fn has_direction(norm: F32Bits) -> bool {
    less(F32Bits(DIRECTION_MIN_BITS), norm)
}

/// The use of a reading of this length, `initialized` telling whether the
/// attitude was taken from gravity before.
pub open spec fn accel_use(initialized: bool, norm: F32Bits) -> AccelUse {
    AccelUse {
        snap: !initialized && less(F32Bits(SNAP_MIN_BITS), norm),
        correct: has_direction(norm),
    }
}

/// Remembers whether the attitude was taken from gravity.
pub struct AccelGate {
    initialized: bool,
}

impl View for AccelGate {
    type V = bool;

    closed spec fn view(&self) -> bool {
        self.initialized
    }
}

impl AccelGate {
    pub fn new() -> (r: Self)
        ensures
            !r@,
    {
        AccelGate { initialized: false }
    }

    /// What to do with a reading of length `norm` (g).
    pub fn weigh(&mut self, norm: F32Bits) -> (r: AccelUse)
        ensures
            r == accel_use(old(self)@, norm),
            final(self)@ == (old(self)@ || r.snap),
            final(self)@ == settled_after(old(self)@, norm),
    {
        let snap: bool = !self.initialized && F32Bits(SNAP_MIN_BITS).lt(norm);
        if snap {
            self.initialized = true;
        }
        AccelUse { snap, correct: direction_usable(norm) }
    }
}

/// The attitude is taken from gravity at most once, and a reading that does so
/// also corrects it.
pub proof fn law_snap_once(initialized: bool, first: F32Bits, second: F32Bits)
    ensures
        accel_use(initialized, first).snap ==> !accel_use(true, second).snap,
        accel_use(initialized, first).snap ==> accel_use(initialized, first).correct,
{
}

/// Whether a vector of this length has a direction.
pub fn direction_usable(norm: F32Bits) -> (r: bool)
    ensures
        r == has_direction(norm),
{
    F32Bits(DIRECTION_MIN_BITS).lt(norm)
}

/// Whether a low-pass filter with this corner is a pass-through: a corner that
/// is not positive, or not below half the sample rate.
pub fn lowpass_disabled(cutoff: F32Bits, nyquist: F32Bits) -> (r: bool)
    ensures
        r == (at_most(cutoff, F32Bits(ZERO_BITS)) || at_most(nyquist, cutoff)),
        !r && !is_nan(cutoff) ==> above(cutoff, 0),
        !r && !is_nan(cutoff) && !is_nan(nyquist) ==> less(cutoff, nyquist),
        above(cutoff, 0) && less(cutoff, nyquist) ==> !r,
{
    cutoff.le(F32Bits(ZERO_BITS)) || nyquist.le(cutoff)
}

/// Whether a notch filter is a pass-through.
pub fn notch_disabled(notch: F32Bits, bandwidth: F32Bits, nyquist: F32Bits) -> (r: bool)
    ensures
        r == (at_most(notch, F32Bits(ZERO_BITS)) || at_most(bandwidth, F32Bits(ZERO_BITS))
            || at_most(nyquist, notch)),
        !r && !is_nan(notch) ==> above(notch, 0),
        !r && !is_nan(bandwidth) ==> above(bandwidth, 0),
        !r && !is_nan(notch) && !is_nan(nyquist) ==> less(notch, nyquist),
        above(notch, 0) && above(bandwidth, 0) && less(notch, nyquist) ==> !r,
{
    notch.le(F32Bits(ZERO_BITS)) || bandwidth.le(F32Bits(ZERO_BITS)) || nyquist.le(notch)
}

/// Whether a measurement with this innovation variance is left out.
pub fn innovation_rejected(variance: F32Bits) -> (r: bool)
    ensures
        r == at_most(variance, F32Bits(ZERO_BITS)),
        !is_nan(variance) ==> (!r <==> above(variance, 0)),
        is_nan(variance) ==> !r,
{
    variance.le(F32Bits(ZERO_BITS))
}

/// Whether the horizontal position has converged: anchored, and certain to
/// within a few metres.
pub fn position_converged(origin_set: bool, pos_std: F32Bits) -> (r: bool)
    ensures
        r == (origin_set && less(pos_std, F32Bits(CONVERGED_BITS))),
        r ==> origin_set && !above(pos_std, 0x409F_FFFF),
        origin_set && pos_std.0 < 0x40A0_0000 ==> r,
{
    origin_set && pos_std.lt(F32Bits(CONVERGED_BITS))
}

/// A positive number greater than the one with this pattern.
pub open spec fn above(norm: F32Bits, bits: int) -> bool {
    bits < norm.0 <= 0x7F80_0000
}

/// The attitude is taken from gravity by the first reading above 0.5 g and by no
/// later one; it is corrected by every reading above a millionth of a g. What is
/// no number does neither.
pub proof fn law_gravity_used(initialized: bool, norm: F32Bits)
    ensures
        accel_use(initialized, norm).snap <==> !initialized && above(norm, 0x3F00_0000),
        accel_use(initialized, norm).correct <==> above(norm, 0x3586_37BD),
        has_direction(norm) <==> above(norm, 0x3586_37BD),
{
}

/// Whether the attitude was taken from gravity, after a reading of this length.
pub open spec fn settled_after(initialized: bool, norm: F32Bits) -> bool {
    initialized || accel_use(initialized, norm).snap
}

/// The first reading above 0.5 g settles it for good; weaker readings before it
/// leave the matter open.
pub proof fn law_settled_once(initialized: bool, norm: F32Bits, next: F32Bits)
    ensures
        settled_after(initialized, norm) <==> initialized || above(norm, 0x3F00_0000),
        above(norm, 0x3F00_0000) ==> !accel_use(settled_after(initialized, norm), next).snap,
        !initialized && !above(norm, 0x3F00_0000) ==> (accel_use(
            settled_after(initialized, norm),
            next,
        ).snap <==> above(next, 0x3F00_0000)),
{
}

} // verus!
