//! Flow and lidar navigation: when the lidar height and the optical flow are
//! used, and what is held when they are not.
//!
//! Optical flow is an angular rate of ground motion; it becomes a velocity once
//! it is scaled by the height, and a position once it is integrated. That
//! arithmetic is the caller's; the rules are here.

use crate::float::{at_most, F32Bits, ZERO_BITS};
use crate::mtf01::Mtf01Data;
use vstd::prelude::*;

verus! {

/// Flow below this quality (0..255) is rejected.
pub const FLOW_MIN_QUALITY: u8 = 30;

/// Lidar working range: `0.05` to `8.0` metres.
pub const HEIGHT_MIN_BITS: u32 = 0x3D4C_CCCD;

pub const HEIGHT_MAX_BITS: u32 = 0x4100_0000;

/// Flow and lidar navigation state, earth frame (x north, y east).
#[derive(Clone, Copy, PartialEq, Eq, Structural)]
pub struct NavState {
    /// Height above ground, metres. Valid only when `height_valid`.
    pub height_m: F32Bits,
    pub height_valid: bool,
    /// Horizontal velocity, m/s.
    pub vx: F32Bits,
    pub vy: F32Bits,
    /// Integrated horizontal position, m, relative to power-on.
    pub px: F32Bits,
    pub py: F32Bits,
    /// Last optical-flow quality seen.
    pub flow_quality: u8,
}

/// At power-on.
pub open spec fn at_origin() -> NavState {
    let z = F32Bits(ZERO_BITS);
    NavState { height_m: z, height_valid: false, vx: z, vy: z, px: z, py: z, flow_quality: 0 }
}

impl Default for NavState {
    fn default() -> (r: Self)
        ensures
            r == at_origin(),
    {
        let z: F32Bits = F32Bits(ZERO_BITS);
        NavState { height_m: z, height_valid: false, vx: z, vy: z, px: z, py: z, flow_quality: 0 }
    }
}

/// Velocity and position after one step with usable flow.
#[derive(Clone, Copy, PartialEq, Eq, Structural)]
pub struct FlowStep {
    pub vx: F32Bits,
    pub vy: F32Bits,
    pub px: F32Bits,
    pub py: F32Bits,
}

/// Within the working range of the lidar.
pub open spec fn height_in_range(h: F32Bits) -> bool {
    at_most(F32Bits(HEIGHT_MIN_BITS), h) && at_most(h, F32Bits(HEIGHT_MAX_BITS))
}

/// The state once the sensor's height and quality are taken in: `h` is the
/// slant range projected onto the vertical.
pub open spec fn with_height(s: NavState, sensor: Mtf01Data, h: F32Bits) -> NavState {
    if sensor.dist_valid && height_in_range(h) {
        NavState { height_m: h, height_valid: true, flow_quality: sensor.flow_quality, ..s }
    } else {
        NavState { height_valid: false, flow_quality: sensor.flow_quality, ..s }
    }
}

/// Whether the flow is usable: valid, of sufficient quality, over a known
/// height.
pub open spec fn flow_usable(s: NavState, sensor: Mtf01Data) -> bool {
    sensor.flow_valid && sensor.flow_quality >= FLOW_MIN_QUALITY && s.height_valid
}

/// The state after a step with usable flow.
pub open spec fn moved(s: NavState, f: FlowStep) -> NavState {
    NavState { vx: f.vx, vy: f.vy, px: f.px, py: f.py, ..s }
}

/// The state after a step without: the position is held, the velocity zero.
pub open spec fn held(s: NavState) -> NavState {
    NavState { vx: F32Bits(ZERO_BITS), vy: F32Bits(ZERO_BITS), ..s }
}

/// Flow and lidar dead-reckoning integrator.
pub struct Nav {
    state: NavState,
}

impl View for Nav {
    type V = NavState;

    closed spec fn view(&self) -> NavState {
        self.state
    }
}

impl Default for Nav {
    fn default() -> (r: Self)
        ensures
            r@ == at_origin(),
    {
        Nav { state: NavState::default() }
    }
}

impl Nav {
    pub fn new() -> (r: Self)
        ensures
            r@ == at_origin(),
    {
        Nav { state: NavState::default() }
    }

    pub fn state(&self) -> (r: NavState)
        ensures
            r == self@,
    {
        self.state
    }

    /// One navigation step. `height` is the lidar range projected onto the
    /// vertical, in metres. `advance` turns the flow into a velocity and moves
    /// the position on; it is asked only when the flow is usable, and sees the
    /// state with the new height.
    pub fn update<M: Fn(NavState) -> FlowStep>(
        &mut self,
        sensor: &Mtf01Data,
        height: F32Bits,
        advance: &M,
    )
        requires
            forall|s: NavState| #[trigger] call_requires(*advance, (s,)),
        ensures
            ({
                let s = with_height(old(self)@, *sensor, height);
                if flow_usable(s, *sensor) {
                    exists|f: FlowStep| #[trigger]
                        call_ensures(*advance, (s,), f) && final(self)@ == moved(s, f)
                } else {
                    final(self)@ == held(s)
                }
            }),
            is_step(*advance, old(self)@, *sensor, height, final(self)@),
    {
        if sensor.dist_valid && F32Bits(HEIGHT_MIN_BITS).le(height) && height.le(
            F32Bits(HEIGHT_MAX_BITS),
        ) {
            self.state.height_m = height;
            self.state.height_valid = true;
        } else {
            self.state.height_valid = false;
        }
        self.state.flow_quality = sensor.flow_quality;
        assert(self.state == with_height(old(self)@, *sensor, height));
        if sensor.flow_valid && sensor.flow_quality >= FLOW_MIN_QUALITY
            && self.state.height_valid {
            let f: FlowStep = advance(self.state);
            self.state.vx = f.vx;
            self.state.vy = f.vy;
            self.state.px = f.px;
            self.state.py = f.py;
        } else {
            self.state.vx = F32Bits(ZERO_BITS);
            self.state.vy = F32Bits(ZERO_BITS);
        }
    }
}

/// A height that is marked valid is in the working range.
pub open spec fn height_sound(s: NavState) -> bool {
    s.height_valid ==> height_in_range(s.height_m)
}

/// No step makes an out-of-range height valid, and a step without usable flow
/// holds the position and stops.
pub proof fn law_nav_step(s: NavState, sensor: Mtf01Data, h: F32Bits, f: FlowStep)
    requires
        height_sound(s),
    ensures
        ({
            let t = with_height(s, sensor, h);
            &&& height_sound(moved(t, f))
            &&& height_sound(held(t))
            &&& held(t).px == s.px
            &&& held(t).py == s.py
            &&& held(t).vx == F32Bits(ZERO_BITS)
            &&& held(t).vy == F32Bits(ZERO_BITS)
            &&& (!sensor.dist_valid ==> !flow_usable(t, sensor))
        }),
{
}

/// Whether a step with this sensor reading and projected height may lead from
/// `s` to `t`.
pub open spec fn is_step<M: Fn(NavState) -> FlowStep>(
    advance: M,
    s: NavState,
    sensor: Mtf01Data,
    h: F32Bits,
    t: NavState,
) -> bool {
    let w = with_height(s, sensor, h);
    if flow_usable(w, sensor) {
        exists|f: FlowStep| #[trigger] call_ensures(advance, (w,), f) && t == moved(w, f)
    } else {
        t == held(w)
    }
}

/// A number from 0.05 to 8.0: its pattern lies between theirs.
pub open spec fn in_range(h: F32Bits) -> bool {
    0x3D4C_CCCD <= h.0 <= 0x4100_0000
}

/// A valid distance whose projected height is from 0.05 to 8 m is the height from
/// now on, exactly and whatever it was before, up or down.
pub proof fn law_height_taken<M: Fn(NavState) -> FlowStep>(
    advance: M,
    s: NavState,
    sensor: Mtf01Data,
    h: F32Bits,
    t: NavState,
)
    requires
        is_step(advance, s, sensor, h, t),
    ensures
        sensor.dist_valid && in_range(h) ==> t.height_valid && t.height_m == h,
        !(sensor.dist_valid && in_range(h)) ==> !t.height_valid && t.height_m == s.height_m,
        t.flow_quality == sensor.flow_quality,
{
}

/// Flow that is valid and of quality 30 or better, over a height that was just
/// taken, moves the craft: the caller is asked with the new height and the
/// velocity and position before, and its answer is taken over as it is. In any
/// other case the craft is taken to stand where it was.
pub proof fn law_flow_moves<M: Fn(NavState) -> FlowStep>(
    advance: M,
    s: NavState,
    sensor: Mtf01Data,
    h: F32Bits,
    t: NavState,
)
    requires
        is_step(advance, s, sensor, h, t),
    ensures
        ({
            let usable = sensor.flow_valid && sensor.flow_quality >= 30 && sensor.dist_valid
                && in_range(h);
            let asked = NavState {
                height_m: h,
                height_valid: true,
                vx: s.vx,
                vy: s.vy,
                px: s.px,
                py: s.py,
                flow_quality: sensor.flow_quality,
            };
            &&& usable ==> exists|f: FlowStep| #[trigger]
                call_ensures(advance, (asked,), f) && t.vx == f.vx && t.vy == f.vy && t.px == f.px
                    && t.py == f.py
            &&& !usable ==> t.vx.0 == 0 && t.vy.0 == 0 && t.px == s.px && t.py == s.py
        }),
{
    let w = with_height(s, sensor, h);
    if flow_usable(w, sensor) {
        let f = choose|f: FlowStep| #[trigger]
            call_ensures(advance, (w,), f) && t == moved(w, f);
        let asked = NavState {
            height_m: h,
            height_valid: true,
            vx: s.vx,
            vy: s.vy,
            px: s.px,
            py: s.py,
            flow_quality: sensor.flow_quality,
        };
        assert(w == asked);
        assert(call_ensures(advance, (asked,), f));
    }
}

/// At power-on the craft stands at the origin, at no known height.
pub proof fn law_power_on()
    ensures
        !at_origin().height_valid,
        at_origin().height_m.0 == 0,
        at_origin().vx.0 == 0,
        at_origin().vy.0 == 0,
        at_origin().px.0 == 0,
        at_origin().py.0 == 0,
        at_origin().flow_quality == 0,
{
}

} // verus!
