//! Sensor-fusion front end: mount rotations, and which of the two IMUs feed
//! the attitude filter.

use crate::compass::{mag_rotated, observed, thrice, CalState, MagCal, MagRotation};
use crate::float::{less, negated, rank, F32Bits, ONE_BITS, ZERO_BITS};
use crate::imu::{zero3, ImuOut};
use vstd::prelude::*;

verus! {

/// Mount rotation of an IMU relative to the body frame.
#[derive(Clone, Copy, PartialEq, Eq, Structural)]
pub enum Rotation {
    /// Half a turn about X.
    Roll180,
    /// Half a turn about Y.
    Pitch180,
}

/// A vector in the body frame.
pub open spec fn rotated(r: Rotation, v: Seq<F32Bits>) -> Seq<F32Bits> {
    match r {
        Rotation::Roll180 => seq![v[0], negated(v[1]), negated(v[2])],
        Rotation::Pitch180 => seq![negated(v[0]), v[1], negated(v[2])],
    }
}

impl Rotation {
    pub fn apply(self, v: [F32Bits; 3]) -> (r: [F32Bits; 3])
        ensures
            r@ == rotated(self, v@),
    {
        let r: [F32Bits; 3] = match self {
            Rotation::Roll180 => [v[0], v[1].neg(), v[2].neg()],
            Rotation::Pitch180 => [v[0].neg(), v[1], v[2].neg()],
        };
        assert(r@ =~= rotated(self, v@));
        r
    }
}

/// Either rotation undoes itself.
pub proof fn law_rotation_involution(r: Rotation, v: Seq<F32Bits>)
    requires
        v.len() == 3,
    ensures
        rotated(r, rotated(r, v)) == v,
{
    assert(rotated(r, rotated(r, v)) =~= v);
}

/// Angular rate and acceleration in the body frame.
#[derive(Clone, Copy)]
pub struct Motion {
    pub gyro: [F32Bits; 3],
    pub accel: [F32Bits; 3],
}

/// What the attitude filter is fed.
#[derive(Clone, Copy)]
pub enum Combined {
    /// Both IMUs are healthy: the mean of the two.
    Mean(Motion, Motion),
    /// One reading, as it is.
    Single(Motion),
}

/// The readings of an IMU in the body frame.
pub open spec fn is_body_frame(m: Motion, r: Rotation, imu: ImuOut) -> bool {
    m.gyro@ == rotated(r, imu.gyro@) && m.accel@ == rotated(r, imu.accel@)
}

fn body_frame(rot: Rotation, imu: &ImuOut) -> (r: Motion)
    ensures
        is_body_frame(r, rot, *imu),
{
    Motion { gyro: rot.apply(imu.gyro), accel: rot.apply(imu.accel) }
}

/// What two IMUs combine to: the mean of two healthy ones, or the one that is
/// alive. With none, no rotation and one g along Z, which holds the attitude
/// level.
pub open spec fn is_combination(
    r: Combined,
    rot1: Rotation,
    rot2: Rotation,
    imu1: ImuOut,
    imu2: ImuOut,
) -> bool {
    match r {
        Combined::Mean(m1, m2) => {
            &&& imu1.health is Healthy
            &&& imu2.health is Healthy
            &&& is_body_frame(m1, rot1, imu1)
            &&& is_body_frame(m2, rot2, imu2)
        },
        Combined::Single(m) => if imu1.health is Healthy {
            !(imu2.health is Healthy) && is_body_frame(m, rot1, imu1)
        } else if imu2.health is Healthy {
            is_body_frame(m, rot2, imu2)
        } else {
            m.gyro@ == zero3() && m.accel@ == zero3().update(2, F32Bits(ONE_BITS))
        },
    }
}

/// Combines the readings of two IMUs with these mount rotations.
pub fn combine(rot1: Rotation, rot2: Rotation, imu1: &ImuOut, imu2: &ImuOut) -> (r: Combined)
    ensures
        is_combination(r, rot1, rot2, *imu1, *imu2),
{
    match (imu1.health.is_ok(), imu2.health.is_ok()) {
        (true, true) => Combined::Mean(body_frame(rot1, imu1), body_frame(rot2, imu2)),
        (true, false) => Combined::Single(body_frame(rot1, imu1)),
        (false, true) => Combined::Single(body_frame(rot2, imu2)),
        (false, false) => {
            let z: F32Bits = F32Bits(ZERO_BITS);
            let m = Motion { gyro: [z, z, z], accel: [z, z, F32Bits(ONE_BITS)] };
            assert(m.gyro@ =~= zero3());
            assert(m.accel@ =~= zero3().update(2, F32Bits(ONE_BITS)));
            Combined::Single(m)
        },
    }
}

/// Two outputs of one IMU that differ, if at all, in the data of a faulty one.
pub open spec fn same_if_healthy(a: ImuOut, b: ImuOut) -> bool {
    &&& a.health == b.health
    &&& (a.health is Healthy ==> a.gyro@ == b.gyro@ && a.accel@ == b.accel@)
}

/// The data of a faulty IMU are never used: outputs that differ in them alone
/// have the same combination, and there is only one.
pub proof fn law_faulty_imu_unused(
    r: Combined,
    q: Combined,
    rot1: Rotation,
    rot2: Rotation,
    a1: ImuOut,
    a2: ImuOut,
    b1: ImuOut,
    b2: ImuOut,
)
    requires
        same_if_healthy(a1, b1),
        same_if_healthy(a2, b2),
    ensures
        is_combination(r, rot1, rot2, a1, a2) <==> is_combination(r, rot1, rot2, b1, b2),
        is_combination(r, rot1, rot2, a1, a2) && is_combination(q, rot1, rot2, b1, b2) ==> r == q,
{
    if is_combination(r, rot1, rot2, a1, a2) && is_combination(q, rot1, rot2, b1, b2) {
        match (r, q) {
            (Combined::Mean(m1, m2), Combined::Mean(n1, n2)) => {
                assert(m1.gyro =~= n1.gyro && m1.accel =~= n1.accel);
                assert(m2.gyro =~= n2.gyro && m2.accel =~= n2.accel);
            },
            (Combined::Single(m), Combined::Single(n)) => {
                assert(m.gyro =~= n.gyro && m.accel =~= n.accel);
            },
            _ => {},
        }
    }
}

/// Input of one attitude-filter step.
#[derive(Clone, Copy)]
pub struct FilterInput {
    pub motion: Combined,
    /// Calibrated magnetic field in the body frame, when there is a compass.
    pub mag: Option<[F32Bits; 3]>,
}

/// What an [`Estimator`] holds.
#[verifier::ext_equal]
pub struct EstimatorState {
    pub rot1: Rotation,
    pub rot2: Rotation,
    pub magcal: CalState,
    pub declination_deg: F32Bits,
}

/// Whether a step over these inputs may lead from state `s` to state `t` and
/// give `r`: the IMUs are combined; a raw field feeds the collector and comes
/// out corrected, then rotated.
pub open spec fn is_update<C: Fn([F32Bits; 3], [F32Bits; 3], [F32Bits; 3]) -> [F32Bits; 3]>(
    correct: C,
    s: EstimatorState,
    imu1: ImuOut,
    imu2: ImuOut,
    mag_raw: Option<[F32Bits; 3]>,
    t: EstimatorState,
    r: FilterInput,
) -> bool {
    &&& is_combination(r.motion, s.rot1, s.rot2, imu1, imu2)
    &&& match mag_raw {
        None => r.mag is None && t == s,
        Some(raw) => {
            &&& r.mag is Some
            &&& t == (EstimatorState { magcal: observed(s.magcal, raw@), ..s })
            &&& exists|offset: [F32Bits; 3], scale: [F32Bits; 3], c: [F32Bits; 3]|
                offset@ == s.magcal.offset && scale@ == s.magcal.scale && #[trigger]
                    call_ensures(correct, (raw, offset, scale), c) && r.mag->Some_0@
                    == mag_rotated(s.magcal.rotation, c@)
        },
    }
}

/// The front end of the attitude filter.
pub struct Estimator {
    rot1: Rotation,
    rot2: Rotation,
    magcal: MagCal,
    declination_deg: F32Bits,
}

impl View for Estimator {
    type V = EstimatorState;

    closed spec fn view(&self) -> EstimatorState {
        EstimatorState {
            rot1: self.rot1,
            rot2: self.rot2,
            magcal: self.magcal@,
            declination_deg: self.declination_deg,
        }
    }
}

impl Estimator {
    /// A front end for two IMUs with these mount rotations, an uncalibrated
    /// compass and no declination.
    pub fn new(rot1: Rotation, rot2: Rotation) -> (r: Self)
        ensures
            r@ == (EstimatorState {
                rot1,
                rot2,
                magcal: identity_cal(),
                declination_deg: F32Bits(ZERO_BITS),
            }),
    {
        Estimator { rot1, rot2, magcal: MagCal::identity(), declination_deg: F32Bits(ZERO_BITS) }
    }

    /// Installs a compass calibration.
    pub fn set_mag_cal(&mut self, cal: MagCal)
        ensures
            final(self)@ == (EstimatorState { magcal: cal@, ..old(self)@ }),
    {
        self.magcal = cal;
    }

    /// Sets the magnetic declination (deg, east-positive).
    pub fn set_declination(&mut self, deg: F32Bits)
        ensures
            final(self)@ == (EstimatorState { declination_deg: deg, ..old(self)@ }),
    {
        self.declination_deg = deg;
    }

    /// The compass calibration, to drive its collector.
    pub fn mag_cal_mut(&mut self) -> (r: &mut MagCal)
        ensures
            (*r)@ == old(self)@.magcal,
            final(self)@ == (EstimatorState { magcal: final(r)@, ..old(self)@ }),
    {
        &mut self.magcal
    }

    /// The declination to apply, in degrees; none when it is zero.
    pub fn declination(&self) -> (r: Option<F32Bits>)
        ensures
            r == if rank(self@.declination_deg) == 0 {
                None
            } else {
                Some(self@.declination_deg)
            },
            r == declination_of(self@),
    {
        let d: u32 = self.declination_deg.0;
        if d == 0 || d == 0x8000_0000 {
            None
        } else {
            Some(self.declination_deg)
        }
    }

    /// Prepares one filter step: combines the IMUs, and calibrates the raw
    /// magnetic field (Gauss) if there is one; see [`MagCal::apply`] for
    /// `correct`.
    pub fn update<C: Fn([F32Bits; 3], [F32Bits; 3], [F32Bits; 3]) -> [F32Bits; 3]>(
        &mut self,
        imu1: &ImuOut,
        imu2: &ImuOut,
        mag_raw: Option<[F32Bits; 3]>,
        correct: &C,
    ) -> (r: FilterInput)
        requires
            forall|a: [F32Bits; 3], b: [F32Bits; 3], c: [F32Bits; 3]| #[trigger]
                call_requires(*correct, (a, b, c)),
        ensures
            is_update(*correct, old(self)@, *imu1, *imu2, mag_raw, final(self)@, r),
    {
        let motion: Combined = combine(self.rot1, self.rot2, imu1, imu2);
        let mag: Option<[F32Bits; 3]> = match mag_raw {
            Some(raw) => Some(self.magcal.apply(raw, correct)),
            None => None,
        };
        FilterInput { motion, mag }
    }
}

/// The calibration that changes nothing.
pub open spec fn identity_cal() -> CalState {
    CalState {
        rotation: MagRotation::Unrotated,
        offset: thrice(ZERO_BITS),
        scale: thrice(ONE_BITS),
        collecting: false,
        min: thrice(ZERO_BITS),
        max: thrice(ZERO_BITS),
    }
}

/// Two steps from one state that differ in the data of a faulty IMU alone lead
/// to the same state and give the same motion and, if the correction is a
/// function of its arguments, the same magnetic field.
pub proof fn law_update_ignores_faulty_imu<
    C: Fn([F32Bits; 3], [F32Bits; 3], [F32Bits; 3]) -> [F32Bits; 3],
>(
    correct: C,
    s: EstimatorState,
    a1: ImuOut,
    a2: ImuOut,
    b1: ImuOut,
    b2: ImuOut,
    mag_raw: Option<[F32Bits; 3]>,
    t: EstimatorState,
    r: FilterInput,
    u: EstimatorState,
    q: FilterInput,
)
    requires
        same_if_healthy(a1, b1),
        same_if_healthy(a2, b2),
        is_update(correct, s, a1, a2, mag_raw, t, r),
        is_update(correct, s, b1, b2, mag_raw, u, q),
    ensures
        t == u,
        r.motion == q.motion,
        r.mag is Some <==> q.mag is Some,
        (forall|x: [F32Bits; 3], y: [F32Bits; 3], z: [F32Bits; 3], c: [F32Bits; 3], d: [F32Bits; 3]|
            #[trigger] call_ensures(correct, (x, y, z), c) && #[trigger] call_ensures(
                correct,
                (x, y, z),
                d,
            ) ==> c == d) ==> r.mag == q.mag,
{
    law_faulty_imu_unused(r.motion, q.motion, s.rot1, s.rot2, a1, a2, b1, b2);
    if let Some(raw) = mag_raw {
        let (o1, s1, c1) = choose|o: [F32Bits; 3], k: [F32Bits; 3], c: [F32Bits; 3]|
            o@ == s.magcal.offset && k@ == s.magcal.scale && #[trigger] call_ensures(
                correct,
                (raw, o, k),
                c,
            ) && r.mag->Some_0@ == mag_rotated(s.magcal.rotation, c@);
        let (o2, s2, c2) = choose|o: [F32Bits; 3], k: [F32Bits; 3], c: [F32Bits; 3]|
            o@ == s.magcal.offset && k@ == s.magcal.scale && #[trigger] call_ensures(
                correct,
                (raw, o, k),
                c,
            ) && q.mag->Some_0@ == mag_rotated(s.magcal.rotation, c@);
        assert(o1 =~= o2 && s1 =~= s2);
        if c1 == c2 {
            assert(r.mag->Some_0 =~= q.mag->Some_0);
        }
    }
}

/// A pattern with the sign turned.
pub open spec fn sign_turned(a: F32Bits, b: F32Bits) -> bool {
    a.0 - b.0 == 0x8000_0000 || b.0 - a.0 == 0x8000_0000
}

/// `w` is `v` after the half turn: about x, y and z change sign; about y, x and
/// z do.
pub open spec fn half_turned(r: Rotation, v: Seq<F32Bits>, w: Seq<F32Bits>) -> bool {
    &&& w.len() == 3
    &&& sign_turned(w[2], v[2])
    &&& r == Rotation::Roll180 ==> w[0] == v[0] && sign_turned(w[1], v[1])
    &&& r == Rotation::Pitch180 ==> w[1] == v[1] && sign_turned(w[0], v[0])
}

/// The mount rotations, axis by axis.
pub proof fn law_rotation_axes(r: Rotation, v: Seq<F32Bits>)
    ensures
        half_turned(r, v, rotated(r, v)),
{
}

/// What the filter is fed, by the health of the two IMUs: both readings, each
/// turned by its own mount, when both are healthy; the healthy one's alone when
/// one is; and without any no rotation and one g along z.
pub proof fn law_fed_by_health(
    r: Combined,
    rot1: Rotation,
    rot2: Rotation,
    imu1: ImuOut,
    imu2: ImuOut,
)
    requires
        is_combination(r, rot1, rot2, imu1, imu2),
    ensures
        ({
            let ok1 = imu1.health is Healthy;
            let ok2 = imu2.health is Healthy;
            &&& ok1 && ok2 ==> (r matches Combined::Mean(m1, m2) && half_turned(
                rot1,
                imu1.gyro@,
                m1.gyro@,
            ) && half_turned(rot1, imu1.accel@, m1.accel@) && half_turned(
                rot2,
                imu2.gyro@,
                m2.gyro@,
            ) && half_turned(rot2, imu2.accel@, m2.accel@))
            &&& ok1 && !ok2 ==> (r matches Combined::Single(m) && half_turned(
                rot1,
                imu1.gyro@,
                m.gyro@,
            ) && half_turned(rot1, imu1.accel@, m.accel@))
            &&& !ok1 && ok2 ==> (r matches Combined::Single(m) && half_turned(
                rot2,
                imu2.gyro@,
                m.gyro@,
            ) && half_turned(rot2, imu2.accel@, m.accel@))
            &&& !ok1 && !ok2 ==> (r matches Combined::Single(m) && m.gyro@ == seq![
                F32Bits(0),
                F32Bits(0),
                F32Bits(0),
            ] && m.accel@ == seq![F32Bits(0), F32Bits(0), F32Bits(0x3F80_0000)])
        }),
{
    if !(imu1.health is Healthy) && !(imu2.health is Healthy) {
        assert(zero3().update(2, F32Bits(ONE_BITS)) =~= seq![
            F32Bits(0),
            F32Bits(0),
            F32Bits(0x3F80_0000),
        ]);
    }
}

/// A step leaves the mounts, the declination and the calibration as they are, and
/// the collector too when there is no compass; a field comes out exactly when one
/// went in.
pub proof fn law_update_keeps_settings<
    C: Fn([F32Bits; 3], [F32Bits; 3], [F32Bits; 3]) -> [F32Bits; 3],
>(
    correct: C,
    s: EstimatorState,
    imu1: ImuOut,
    imu2: ImuOut,
    mag_raw: Option<[F32Bits; 3]>,
    t: EstimatorState,
    r: FilterInput,
)
    requires
        is_update(correct, s, imu1, imu2, mag_raw, t, r),
    ensures
        t.rot1 == s.rot1,
        t.rot2 == s.rot2,
        t.declination_deg == s.declination_deg,
        t.magcal.rotation == s.magcal.rotation,
        t.magcal.offset == s.magcal.offset,
        t.magcal.scale == s.magcal.scale,
        t.magcal.collecting == s.magcal.collecting,
        mag_raw is None || !s.magcal.collecting ==> t.magcal == s.magcal,
        r.mag is Some <==> mag_raw is Some,
{
}

/// What [`Estimator::declination`] gives.
pub open spec fn declination_of(s: EstimatorState) -> Option<F32Bits> {
    if rank(s.declination_deg) == 0 {
        None
    } else {
        Some(s.declination_deg)
    }
}

/// A declination is applied as it was set, east or west, unless it is zero of
/// either sign.
pub proof fn law_declination(s: EstimatorState)
    ensures
        s.declination_deg.0 == 0 || s.declination_deg.0 == 0x8000_0000 ==> declination_of(s) is None,
        s.declination_deg.0 != 0 && s.declination_deg.0 != 0x8000_0000 ==> declination_of(s) == Some(
            s.declination_deg,
        ),
{
}

/// A field that goes in comes out as the correction gives it for that field and
/// the calibration's offset and scale, in this order, turned by the compass mount:
/// as it is, or by a quarter, a half or three quarters of a turn, or upside-down.
pub proof fn law_field_corrected<
    C: Fn([F32Bits; 3], [F32Bits; 3], [F32Bits; 3]) -> [F32Bits; 3],
>(
    correct: C,
    s: EstimatorState,
    imu1: ImuOut,
    imu2: ImuOut,
    raw: [F32Bits; 3],
    t: EstimatorState,
    r: FilterInput,
)
    requires
        is_update(correct, s, imu1, imu2, Some(raw), t, r),
    ensures
        r.mag is Some,
        exists|offset: [F32Bits; 3], scale: [F32Bits; 3], c: [F32Bits; 3]|
            ({
                let m = r.mag->Some_0@;
                &&& offset@ == s.magcal.offset
                &&& scale@ == s.magcal.scale
                &&& #[trigger] call_ensures(correct, (raw, offset, scale), c)
                &&& match s.magcal.rotation {
                    MagRotation::Unrotated => m == c@,
                    MagRotation::Yaw90 => m[1] == c@[0] && sign_turned(m[0], c@[1]) && m[2] == c@[2],
                    MagRotation::Yaw180 => sign_turned(m[0], c@[0]) && sign_turned(m[1], c@[1])
                        && m[2] == c@[2],
                    MagRotation::Yaw270 => m[0] == c@[1] && sign_turned(m[1], c@[0]) && m[2] == c@[2],
                    MagRotation::Roll180 => m[0] == c@[0] && sign_turned(m[1], c@[1])
                        && sign_turned(m[2], c@[2]),
                }
            }),
{
    let (offset, scale, c) = choose|o: [F32Bits; 3], k: [F32Bits; 3], c: [F32Bits; 3]|
        o@ == s.magcal.offset && k@ == s.magcal.scale && #[trigger] call_ensures(
            correct,
            (raw, o, k),
            c,
        ) && r.mag->Some_0@ == mag_rotated(s.magcal.rotation, c@);
    assert(call_ensures(correct, (raw, offset, scale), c));
}

/// A calibration that changes nothing: no turn, no offset, scale one, and no
/// collection.
pub proof fn law_identity_calibration(i: int)
    requires
        0 <= i < 3,
    ensures
        ({
            let c = identity_cal();
            &&& c.rotation == MagRotation::Unrotated
            &&& c.offset.len() == 3 && c.offset[i].0 == 0
            &&& c.scale.len() == 3 && c.scale[i].0 == 0x3F80_0000
            &&& !c.collecting
        }),
{
}

/// While a collection runs, the raw field itself, before any correction, widens
/// the extremes of each axis.
pub proof fn law_collector_sees_raw<
    C: Fn([F32Bits; 3], [F32Bits; 3], [F32Bits; 3]) -> [F32Bits; 3],
>(
    correct: C,
    s: EstimatorState,
    imu1: ImuOut,
    imu2: ImuOut,
    raw: [F32Bits; 3],
    t: EstimatorState,
    r: FilterInput,
    i: int,
)
    requires
        is_update(correct, s, imu1, imu2, Some(raw), t, r),
        s.magcal.collecting,
        0 <= i < 3,
    ensures
        less(raw@[i], s.magcal.min[i]) ==> t.magcal.min[i] == raw@[i],
        !less(raw@[i], s.magcal.min[i]) ==> t.magcal.min[i] == s.magcal.min[i],
        less(s.magcal.max[i], raw@[i]) ==> t.magcal.max[i] == raw@[i],
        !less(s.magcal.max[i], raw@[i]) ==> t.magcal.max[i] == s.magcal.max[i],
{
}

} // verus!
