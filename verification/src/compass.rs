//! Magnetometer driver for the external compass on the shared I2C bus.
//!
//! Modules carry either a QMC5883L (address 0x0D) or an HMC5883L (0x1E); the
//! driver probes for both and adapts its register map and axis order. The
//! calibration removes the iron distortion in the sensor frame first and then
//! applies the mount rotation:
//! ```text
//!   corrected_body = rotation * ( scale * (raw - offset) )
//! ```

use crate::bus::{reply_view, BusOp};
use crate::float::{
    at_most, is_nan, less, negated, F32Bits, MAX_BITS, MIN_BITS, ONE_BITS, ZERO_BITS,
};
use crate::wire::{i16_of, pattern16, signed16, u16_of};
use vstd::prelude::*;

verus! {

pub const QMC_ADDR: u8 = 0x0D;

pub const HMC_ADDR: u8 = 0x1E;

pub const QMC_REG_DATA: u8 = 0x00;

pub const QMC_REG_CTRL1: u8 = 0x09;

pub const QMC_REG_SETRESET: u8 = 0x0B;

pub const QMC_REG_CHIPID: u8 = 0x0D;

/// Oversampling 512, range 8 G, 200 Hz, continuous.
pub const QMC_CTRL1_CONT: u8 = 0x1D;

/// Counts per Gauss in the 8 G range.
pub const QMC_LSB_PER_GAUSS: u16 = 3000;

pub const HMC_REG_CFG_A: u8 = 0x00;

pub const HMC_REG_CFG_B: u8 = 0x01;

pub const HMC_REG_MODE: u8 = 0x02;

pub const HMC_REG_DATA: u8 = 0x03;

pub const HMC_REG_IDA: u8 = 0x0A;

/// Counts per Gauss in the 1.3 G range.
pub const HMC_LSB_PER_GAUSS: u16 = 1090;

/// Which part was detected.
#[derive(Clone, Copy, PartialEq, Eq, Structural)]
pub enum MagKind {
    Absent,
    Qmc5883l,
    Hmc5883l,
}

impl Default for MagKind {
    fn default() -> (r: Self)
        ensures
            r == MagKind::Absent,
    {
        MagKind::Absent
    }
}

impl MagKind {
    pub fn name(&self) -> (r: &'static str)
        ensures
            r@ == (match *self {
                MagKind::Absent => "none"@,
                MagKind::Qmc5883l => "QMC5883L"@,
                MagKind::Hmc5883l => "HMC5883L"@,
            }),
    {
        match self {
            MagKind::Absent => "none",
            MagKind::Qmc5883l => "QMC5883L",
            MagKind::Hmc5883l => "HMC5883L",
        }
    }
}

/// One magnetometer reading: counts in sensor axes, and what a Gauss counts.
#[derive(Clone, Copy)]
pub struct MagSample {
    pub counts: [i16; 3],
    pub lsb_per_gauss: u16,
    pub kind: MagKind,
    pub healthy: bool,
}

/// Compass mounting orientation relative to the board.
#[derive(Clone, Copy, PartialEq, Eq, Structural)]
pub enum MagRotation {
    Unrotated,
    Yaw90,
    Yaw180,
    Yaw270,
    /// Mounted upside-down.
    Roll180,
}

/// A field vector in the body frame.
pub open spec fn mag_rotated(r: MagRotation, v: Seq<F32Bits>) -> Seq<F32Bits> {
    match r {
        MagRotation::Unrotated => v,
        MagRotation::Yaw90 => seq![negated(v[1]), v[0], v[2]],
        MagRotation::Yaw180 => seq![negated(v[0]), negated(v[1]), v[2]],
        MagRotation::Yaw270 => seq![v[1], negated(v[0]), v[2]],
        MagRotation::Roll180 => seq![v[0], negated(v[1]), negated(v[2])],
    }
}

impl MagRotation {
    /// Rotates a field vector into the body frame.
    pub fn apply(self, v: [F32Bits; 3]) -> (r: [F32Bits; 3])
        ensures
            r@ == mag_rotated(self, v@),
    {
        let r: [F32Bits; 3] = match self {
            MagRotation::Unrotated => v,
            MagRotation::Yaw90 => [v[1].neg(), v[0], v[2]],
            MagRotation::Yaw180 => [v[0].neg(), v[1].neg(), v[2]],
            MagRotation::Yaw270 => [v[1], v[0].neg(), v[2]],
            MagRotation::Roll180 => [v[0], v[1].neg(), v[2].neg()],
        };
        assert(r@ =~= mag_rotated(self, v@));
        r
    }
}

/// The yaw rotations add up as turns do, a full turn and two half turns about
/// X being none.
pub proof fn law_mag_rotations_compose(v: Seq<F32Bits>)
    requires
        v.len() == 3,
    ensures
        mag_rotated(MagRotation::Yaw90, mag_rotated(MagRotation::Yaw90, v)) == mag_rotated(
            MagRotation::Yaw180,
            v,
        ),
        mag_rotated(MagRotation::Yaw90, mag_rotated(MagRotation::Yaw180, v)) == mag_rotated(
            MagRotation::Yaw270,
            v,
        ),
        mag_rotated(MagRotation::Yaw90, mag_rotated(MagRotation::Yaw270, v)) == v,
        mag_rotated(MagRotation::Roll180, mag_rotated(MagRotation::Roll180, v)) == v,
{
    assert(mag_rotated(MagRotation::Yaw90, mag_rotated(MagRotation::Yaw90, v)) =~= mag_rotated(
        MagRotation::Yaw180,
        v,
    ));
    assert(mag_rotated(MagRotation::Yaw90, mag_rotated(MagRotation::Yaw180, v)) =~= mag_rotated(
        MagRotation::Yaw270,
        v,
    ));
    assert(mag_rotated(MagRotation::Yaw90, mag_rotated(MagRotation::Yaw270, v)) =~= v);
    assert(mag_rotated(MagRotation::Roll180, mag_rotated(MagRotation::Roll180, v)) =~= v);
}

/// Compass calibration: mount rotation, hard-iron offset, soft-iron scale, and
/// an online collector of the extremes of each axis.
#[derive(Clone, Copy)]
pub struct MagCal {
    pub rotation: MagRotation,
    /// Hard-iron offset (Gauss), subtracted from the raw field.
    pub offset: [F32Bits; 3],
    /// Soft-iron scale, multiplied after the offset is removed.
    pub scale: [F32Bits; 3],
    collecting: bool,
    min: [F32Bits; 3],
    max: [F32Bits; 3],
}

/// What a [`MagCal`] holds.
#[verifier::ext_equal]
pub struct CalState {
    pub rotation: MagRotation,
    pub offset: Seq<F32Bits>,
    pub scale: Seq<F32Bits>,
    pub collecting: bool,
    pub min: Seq<F32Bits>,
    pub max: Seq<F32Bits>,
}

/// Three times the same number.
pub open spec fn thrice(bits: u32) -> Seq<F32Bits> {
    seq![F32Bits(bits), F32Bits(bits), F32Bits(bits)]
}

/// The lesser of two numbers; `a` when they do not compare.
pub open spec fn lesser(a: F32Bits, b: F32Bits) -> F32Bits {
    if less(b, a) {
        b
    } else {
        a
    }
}

/// The greater of two numbers; `a` when they do not compare.
pub open spec fn greater(a: F32Bits, b: F32Bits) -> F32Bits {
    if less(a, b) {
        b
    } else {
        a
    }
}

/// The calibration after a raw reading: the collector, when it runs, widens
/// the extremes of each axis.
pub open spec fn observed(s: CalState, raw: Seq<F32Bits>) -> CalState {
    if s.collecting {
        CalState {
            min: Seq::new(3, |i: int| lesser(s.min[i], raw[i])),
            max: Seq::new(3, |i: int| greater(s.max[i], raw[i])),
            ..s
        }
    } else {
        s
    }
}

impl View for MagCal {
    type V = CalState;

    closed spec fn view(&self) -> CalState {
        CalState {
            rotation: self.rotation,
            offset: self.offset@,
            scale: self.scale@,
            collecting: self.collecting,
            min: self.min@,
            max: self.max@,
        }
    }
}

fn triple(bits: u32) -> (r: [F32Bits; 3])
    ensures
        r@ == thrice(bits),
{
    let r: [F32Bits; 3] = [F32Bits(bits), F32Bits(bits), F32Bits(bits)];
    assert(r@ =~= thrice(bits));
    r
}

impl MagCal {
    /// No rotation, no offset, unit scale.
    pub fn identity() -> (r: Self)
        ensures
            r@ == (CalState {
                rotation: MagRotation::Unrotated,
                offset: thrice(ZERO_BITS),
                scale: thrice(ONE_BITS),
                collecting: false,
                min: thrice(ZERO_BITS),
                max: thrice(ZERO_BITS),
            }),
    {
        MagCal::new(MagRotation::Unrotated, triple(ZERO_BITS), triple(ONE_BITS))
    }

    pub fn new(rotation: MagRotation, offset: [F32Bits; 3], scale: [F32Bits; 3]) -> (r: Self)
        ensures
            r@ == (CalState {
                rotation,
                offset: offset@,
                scale: scale@,
                collecting: false,
                min: thrice(ZERO_BITS),
                max: thrice(ZERO_BITS),
            }),
    {
        MagCal {
            rotation,
            offset,
            scale,
            collecting: false,
            min: triple(ZERO_BITS),
            max: triple(ZERO_BITS),
        }
    }

    /// The mount rotation.
    pub fn rotation(&self) -> (r: MagRotation)
        ensures
            r == self@.rotation,
    {
        self.rotation
    }

    /// The hard-iron offset (Gauss).
    pub fn offset(&self) -> (r: [F32Bits; 3])
        ensures
            r@ == self@.offset,
    {
        self.offset
    }

    /// The soft-iron scale.
    pub fn scale(&self) -> (r: [F32Bits; 3])
        ensures
            r@ == self@.scale,
    {
        self.scale
    }

    /// The full correction of a raw field (Gauss) to a body-frame vector, which
    /// also feeds the collector when it runs. `correct` removes the offset and
    /// then multiplies by the scale; it sees the raw field, the offset and the
    /// scale, in this order, and what it gives is rotated.
    pub fn apply<C: Fn([F32Bits; 3], [F32Bits; 3], [F32Bits; 3]) -> [F32Bits; 3]>(
        &mut self,
        raw: [F32Bits; 3],
        correct: &C,
    ) -> (r: [F32Bits; 3])
        requires
            forall|a: [F32Bits; 3], b: [F32Bits; 3], c: [F32Bits; 3]| #[trigger]
                call_requires(*correct, (a, b, c)),
        ensures
            final(self)@ == observed(old(self)@, raw@),
            exists|o: [F32Bits; 3], s: [F32Bits; 3], c: [F32Bits; 3]|
                o@ == old(self)@.offset && s@ == old(self)@.scale && #[trigger] call_ensures(
                    *correct,
                    (raw, o, s),
                    c,
                ) && r@ == mag_rotated(old(self)@.rotation, c@),
    {
        self.observe(raw);
        let c: [F32Bits; 3] = correct(raw, self.offset, self.scale);
        self.rotation.apply(c)
    }

    /// Feeds a raw field (Gauss) to the collector, when it runs.
    fn observe(&mut self, raw: [F32Bits; 3])
        ensures
            final(self)@ == observed(old(self)@, raw@),
    {
        if self.collecting {
            let mut i: usize = 0;
            while i < 3
                invariant
                    i <= 3,
                    self.rotation == old(self).rotation,
                    self.offset == old(self).offset,
                    self.scale == old(self).scale,
                    self.collecting == old(self).collecting,
                    forall|j: int|
                        0 <= j < i ==> #[trigger] self.min@[j] == lesser(
                            old(self).min@[j],
                            raw@[j],
                        ),
                    forall|j: int|
                        0 <= j < i ==> #[trigger] self.max@[j] == greater(
                            old(self).max@[j],
                            raw@[j],
                        ),
                    forall|j: int| i <= j < 3 ==> self.min@[j] == old(self).min@[j],
                    forall|j: int| i <= j < 3 ==> self.max@[j] == old(self).max@[j],
                decreases 3 - i,
            {
                if raw[i].lt(self.min[i]) {
                    self.min[i] = raw[i];
                }
                if self.max[i].lt(raw[i]) {
                    self.max[i] = raw[i];
                }
                i = i + 1;
            }
            assert(self@.min =~= observed(old(self)@, raw@).min);
            assert(self@.max =~= observed(old(self)@, raw@).max);
        }
    }

    /// Begins the collection of extremes. Turn the vehicle through all
    /// orientations while it runs, then call [`MagCal::finish_collection`].
    pub fn start_collection(&mut self)
        ensures
            final(self)@ == (CalState {
                collecting: true,
                min: thrice(MAX_BITS),
                max: thrice(MIN_BITS),
                ..old(self)@
            }),
            final(self)@ == collection_started(old(self)@),
    {
        self.collecting = true;
        self.min = triple(MAX_BITS);
        self.max = triple(MIN_BITS);
    }

    /// The least and the greatest reading of each axis.
    pub fn extremes(&self) -> (r: ([F32Bits; 3], [F32Bits; 3]))
        ensures
            r.0@ == self@.min,
            r.1@ == self@.max,
    {
        (self.min, self.max)
    }

    /// Ends the collection. `range` is half the spread of each axis, `offset`
    /// its middle and `scale` what brings its range to the mean range; they are
    /// installed unless an axis has no positive range, which means too little
    /// motion.
    pub fn finish_collection(
        &mut self,
        range: [F32Bits; 3],
        offset: [F32Bits; 3],
        scale: [F32Bits; 3],
    )
        ensures
            final(self)@ == if exists|i: int|
                0 <= i < 3 && #[trigger] at_most(range@[i], F32Bits(ZERO_BITS)) {
                CalState { collecting: false, ..old(self)@ }
            } else {
                CalState { collecting: false, offset: offset@, scale: scale@, ..old(self)@ }
            },
            final(self)@ == collection_finished(old(self)@, range@, offset@, scale@),
    {
        self.collecting = false;
        let zero: F32Bits = F32Bits(ZERO_BITS);
        if range[0].le(zero) || range[1].le(zero) || range[2].le(zero) {
            assert(at_most(range@[0], zero) || at_most(range@[1], zero) || at_most(
                range@[2],
                zero,
            ));
            return;
        }
        self.offset = offset;
        self.scale = scale;
    }
}

/// The calibration after a series of raw readings.
pub open spec fn observed_all(s: CalState, raws: Seq<Seq<F32Bits>>) -> CalState
    decreases raws.len(),
{
    if raws.len() == 0 {
        s
    } else {
        observed(observed_all(s, raws.drop_last()), raws.last())
    }
}

/// After a collection, the extremes of an axis bound every reading of that axis
/// that is a number, and each is a reading or the value before it.
pub proof fn law_extremes_bound_readings(s: CalState, raws: Seq<Seq<F32Bits>>, i: int)
    requires
        s.collecting,
        0 <= i < 3,
        !is_nan(s.min[i]),
        !is_nan(s.max[i]),
    ensures
        ({
            let t = observed_all(s, raws);
            &&& t.collecting
            &&& !is_nan(t.min[i])
            &&& !is_nan(t.max[i])
            &&& forall|k: int|
                0 <= k < raws.len() && !is_nan((#[trigger] raws[k])[i]) ==> at_most(
                    t.min[i],
                    raws[k][i],
                ) && at_most(raws[k][i], t.max[i])
            &&& (t.min[i] == s.min[i] || exists|k: int|
                0 <= k < raws.len() && #[trigger] raws[k][i] == t.min[i])
            &&& (t.max[i] == s.max[i] || exists|k: int|
                0 <= k < raws.len() && #[trigger] raws[k][i] == t.max[i])
        }),
    decreases raws.len(),
{
    if raws.len() > 0 {
        let d = raws.drop_last();
        law_extremes_bound_readings(s, d, i);
        let u = observed_all(s, d);
        let t = observed_all(s, raws);
        let n = d.len() as int;
        assert forall|k: int| 0 <= k < raws.len() && !is_nan((#[trigger] raws[k])[i]) implies at_most(
            t.min[i],
            raws[k][i],
        ) && at_most(raws[k][i], t.max[i]) by {
            if k < n {
                assert(raws[k] == d[k]);
            }
        }
        if t.min[i] != s.min[i] {
            if t.min[i] == u.min[i] {
                let k = choose|k: int| 0 <= k < d.len() && #[trigger] d[k][i] == u.min[i];
                assert(raws[k][i] == t.min[i]);
            } else {
                assert(raws[n][i] == t.min[i]);
            }
        }
        if t.max[i] != s.max[i] {
            if t.max[i] == u.max[i] {
                let k = choose|k: int| 0 <= k < d.len() && #[trigger] d[k][i] == u.max[i];
                assert(raws[k][i] == t.max[i]);
            } else {
                assert(raws[n][i] == t.max[i]);
            }
        }
    }
}

/// What the probe asks for next.
#[derive(Clone, Copy, PartialEq, Eq, Structural)]
pub enum ProbeStep {
    Bus(BusOp),
    /// The probe is over.
    Done(MagKind),
}

/// Where the probe stands.
#[derive(Clone, Copy, PartialEq, Eq, Structural)]
pub enum ProbeStage {
    AskQmc,
    QmcAnswer,
    QmcMode,
    QmcReady,
    HmcAnswer,
    HmcGain,
    HmcMode,
    HmcReady,
}

/// What a [`Compass`] holds.
pub struct CompassState {
    pub stage: ProbeStage,
    pub kind: MagKind,
}

/// Whether a reply identifies a QMC5883L.
pub open spec fn is_qmc(reply: Option<Seq<u8>>) -> bool {
    reply matches Some(b) && b.len() == 1 && b[0] == 0xFF
}

/// Whether a reply identifies an HMC5883L: the letters `H43`.
pub open spec fn is_hmc(reply: Option<Seq<u8>>) -> bool {
    reply matches Some(b) && b.len() == 3 && b[0] == 0x48 && b[1] == 0x34 && b[2] == 0x33
}

/// A register write to the QMC5883L.
pub open spec fn qmc_write(reg: u8, value: u8) -> ProbeStep {
    ProbeStep::Bus(BusOp::Write { addr: QMC_ADDR, reg, value })
}

/// A register write to the HMC5883L.
pub open spec fn hmc_write(reg: u8, value: u8) -> ProbeStep {
    ProbeStep::Bus(BusOp::Write { addr: HMC_ADDR, reg, value })
}

/// The state after one step of the probe, given the reply to the last
/// operation, and what to do next.
pub open spec fn probe_step(s: CompassState, reply: Option<Seq<u8>>) -> (CompassState, ProbeStep) {
    match s.stage {
        ProbeStage::AskQmc => (
            CompassState { stage: ProbeStage::QmcAnswer, ..s },
            ProbeStep::Bus(BusOp::Read { addr: QMC_ADDR, reg: QMC_REG_CHIPID, len: 1 }),
        ),
        ProbeStage::QmcAnswer => if is_qmc(reply) {
            (
                CompassState { stage: ProbeStage::QmcMode, ..s },
                qmc_write(QMC_REG_SETRESET, 0x01),
            )
        } else {
            (
                CompassState { stage: ProbeStage::HmcAnswer, ..s },
                ProbeStep::Bus(BusOp::Read { addr: HMC_ADDR, reg: HMC_REG_IDA, len: 3 }),
            )
        },
        ProbeStage::QmcMode => (
            CompassState { stage: ProbeStage::QmcReady, ..s },
            qmc_write(QMC_REG_CTRL1, QMC_CTRL1_CONT),
        ),
        ProbeStage::QmcReady => (
            CompassState { stage: ProbeStage::AskQmc, kind: MagKind::Qmc5883l },
            ProbeStep::Done(MagKind::Qmc5883l),
        ),
        ProbeStage::HmcAnswer => if is_hmc(reply) {
            (CompassState { stage: ProbeStage::HmcGain, ..s }, hmc_write(HMC_REG_CFG_A, 0x70))
        } else {
            (
                CompassState { stage: ProbeStage::AskQmc, kind: MagKind::Absent },
                ProbeStep::Done(MagKind::Absent),
            )
        },
        ProbeStage::HmcGain => (
            CompassState { stage: ProbeStage::HmcMode, ..s },
            hmc_write(HMC_REG_CFG_B, 0xA0),
        ),
        ProbeStage::HmcMode => (
            CompassState { stage: ProbeStage::HmcReady, ..s },
            hmc_write(HMC_REG_MODE, 0x00),
        ),
        ProbeStage::HmcReady => (
            CompassState { stage: ProbeStage::AskQmc, kind: MagKind::Hmc5883l },
            ProbeStep::Done(MagKind::Hmc5883l),
        ),
    }
}

/// The counts in six data bytes: low byte first in the order X, Y, Z, or high
/// byte first in the order X, Z, Y.
pub open spec fn counts_of(kind: MagKind, b: Seq<u8>) -> Seq<i16> {
    match kind {
        MagKind::Qmc5883l => seq![
            signed16(b[0] + 256 * b[1]) as i16,
            signed16(b[2] + 256 * b[3]) as i16,
            signed16(b[4] + 256 * b[5]) as i16,
        ],
        MagKind::Hmc5883l => seq![
            signed16(256 * b[0] + b[1]) as i16,
            signed16(256 * b[4] + b[5]) as i16,
            signed16(256 * b[2] + b[3]) as i16,
        ],
        MagKind::Absent => seq![0i16, 0, 0],
    }
}

/// What a Gauss counts on each part.
pub open spec fn counts_per_gauss(kind: MagKind) -> u16 {
    match kind {
        MagKind::Qmc5883l => QMC_LSB_PER_GAUSS,
        MagKind::Hmc5883l => HMC_LSB_PER_GAUSS,
        MagKind::Absent => 1,
    }
}

/// Magnetometer state.
pub struct Compass {
    stage: ProbeStage,
    kind: MagKind,
}

impl View for Compass {
    type V = CompassState;

    closed spec fn view(&self) -> CompassState {
        CompassState { stage: self.stage, kind: self.kind }
    }
}

impl Default for Compass {
    fn default() -> (r: Self)
        ensures
            r@ == (CompassState { stage: ProbeStage::AskQmc, kind: MagKind::Absent }),
    {
        Compass { stage: ProbeStage::AskQmc, kind: MagKind::Absent }
    }
}

impl Compass {
    pub fn new() -> (r: Self)
        ensures
            r@ == (CompassState { stage: ProbeStage::AskQmc, kind: MagKind::Absent }),
    {
        Compass { stage: ProbeStage::AskQmc, kind: MagKind::Absent }
    }

    pub fn kind(&self) -> (r: MagKind)
        ensures
            r == self@.kind,
    {
        self.kind
    }

    /// One step of the probe of both addresses and of the configuration of
    /// whichever part answers. `reply` holds the bytes of the last read, `None`
    /// when it failed; after other operations it is not looked at. Call again
    /// after each operation until the probe is over.
    pub fn init(&mut self, reply: Option<&[u8]>) -> (r: ProbeStep)
        ensures
            (final(self)@, r) == probe_step(old(self)@, reply_view(reply)),
    {
        match self.stage {
            ProbeStage::AskQmc => {
                self.stage = ProbeStage::QmcAnswer;
                ProbeStep::Bus(BusOp::Read { addr: QMC_ADDR, reg: QMC_REG_CHIPID, len: 1 })
            },
            ProbeStage::QmcAnswer => {
                let found: bool = match reply {
                    Some(b) => b.len() == 1 && b[0] == 0xFF,
                    None => false,
                };
                if found {
                    self.stage = ProbeStage::QmcMode;
                    ProbeStep::Bus(
                        BusOp::Write { addr: QMC_ADDR, reg: QMC_REG_SETRESET, value: 0x01 },
                    )
                } else {
                    self.stage = ProbeStage::HmcAnswer;
                    ProbeStep::Bus(BusOp::Read { addr: HMC_ADDR, reg: HMC_REG_IDA, len: 3 })
                }
            },
            ProbeStage::QmcMode => {
                self.stage = ProbeStage::QmcReady;
                ProbeStep::Bus(
                    BusOp::Write { addr: QMC_ADDR, reg: QMC_REG_CTRL1, value: QMC_CTRL1_CONT },
                )
            },
            ProbeStage::QmcReady => self.finish(MagKind::Qmc5883l),
            ProbeStage::HmcAnswer => {
                let found: bool = match reply {
                    Some(b) => b.len() == 3 && b[0] == 0x48 && b[1] == 0x34 && b[2] == 0x33,
                    None => false,
                };
                if found {
                    self.stage = ProbeStage::HmcGain;
                    ProbeStep::Bus(
                        BusOp::Write { addr: HMC_ADDR, reg: HMC_REG_CFG_A, value: 0x70 },
                    )
                } else {
                    self.finish(MagKind::Absent)
                }
            },
            ProbeStage::HmcGain => {
                self.stage = ProbeStage::HmcMode;
                ProbeStep::Bus(BusOp::Write { addr: HMC_ADDR, reg: HMC_REG_CFG_B, value: 0xA0 })
            },
            ProbeStage::HmcMode => {
                self.stage = ProbeStage::HmcReady;
                ProbeStep::Bus(BusOp::Write { addr: HMC_ADDR, reg: HMC_REG_MODE, value: 0x00 })
            },
            ProbeStage::HmcReady => self.finish(MagKind::Hmc5883l),
        }
    }

    fn finish(&mut self, kind: MagKind) -> (r: ProbeStep)
        ensures
            final(self)@ == (CompassState { stage: ProbeStage::AskQmc, kind }),
            r == ProbeStep::Done(kind),
    {
        self.stage = ProbeStage::AskQmc;
        self.kind = kind;
        ProbeStep::Done(kind)
    }

    /// The read that fetches one sample; none when there is no part, so that a
    /// missing compass never occupies the bus.
    pub fn read_request(&self) -> (r: Option<BusOp>)
        ensures
            r == (match self@.kind {
                MagKind::Qmc5883l => Some(
                    BusOp::Read { addr: QMC_ADDR, reg: QMC_REG_DATA, len: 6 },
                ),
                MagKind::Hmc5883l => Some(
                    BusOp::Read { addr: HMC_ADDR, reg: HMC_REG_DATA, len: 6 },
                ),
                MagKind::Absent => None,
            }),
            r == sample_request(self@.kind),
    {
        match self.kind {
            MagKind::Qmc5883l => Some(BusOp::Read { addr: QMC_ADDR, reg: QMC_REG_DATA, len: 6 }),
            MagKind::Hmc5883l => Some(BusOp::Read { addr: HMC_ADDR, reg: HMC_REG_DATA, len: 6 }),
            MagKind::Absent => None,
        }
    }

    /// The sample in the reply to [`Compass::read_request`]. Without a part or
    /// after a failed transfer it is unhealthy and all zero.
    pub fn read(&self, reply: Option<[u8; 6]>) -> (r: MagSample)
        ensures
            r.kind == self@.kind,
            r.lsb_per_gauss == counts_per_gauss(self@.kind),
            r.healthy == (reply is Some && self@.kind != MagKind::Absent),
            r.counts@ == (match reply {
                Some(b) => counts_of(self@.kind, b@),
                None => seq![0i16, 0, 0],
            }),
            (r.counts@, r.healthy) == sample_of(
                self@.kind,
                match reply {
                    Some(b) => Some(b@),
                    None => None,
                },
            ),
    {
        let zero: [i16; 3] = [0, 0, 0];
        assert(zero@ =~= seq![0i16, 0, 0]);
        let counts: [i16; 3] = match reply {
            Some(b) => match self.kind {
                MagKind::Qmc5883l => [le16(b[0], b[1]), le16(b[2], b[3]), le16(b[4], b[5])],
                MagKind::Hmc5883l => [be16(b[0], b[1]), be16(b[4], b[5]), be16(b[2], b[3])],
                MagKind::Absent => zero,
            },
            None => zero,
        };
        proof {
            if let Some(b) = reply {
                assert(counts@ =~= counts_of(self@.kind, b@));
            }
        }
        let lsb_per_gauss: u16 = match self.kind {
            MagKind::Qmc5883l => QMC_LSB_PER_GAUSS,
            MagKind::Hmc5883l => HMC_LSB_PER_GAUSS,
            MagKind::Absent => 1,
        };
        MagSample {
            counts,
            lsb_per_gauss,
            kind: self.kind,
            healthy: reply.is_some() && self.kind != MagKind::Absent,
        }
    }
}

fn le16(lo: u8, hi: u8) -> (r: i16)
    ensures
        r == signed16(lo + 256 * hi),
{
    i16_of(u16_of(lo, hi))
}

fn be16(hi: u8, lo: u8) -> (r: i16)
    ensures
        r == signed16(256 * hi + lo),
{
    i16_of(u16_of(lo, hi))
}

/// The whole probe, when the two identity reads get these replies.
pub open spec fn probe_script(qmc: Option<Seq<u8>>, hmc: Option<Seq<u8>>) -> Seq<ProbeStep> {
    let ask_qmc = ProbeStep::Bus(BusOp::Read { addr: QMC_ADDR, reg: QMC_REG_CHIPID, len: 1 });
    let ask_hmc = ProbeStep::Bus(BusOp::Read { addr: HMC_ADDR, reg: HMC_REG_IDA, len: 3 });
    if is_qmc(qmc) {
        seq![
            ask_qmc,
            qmc_write(QMC_REG_SETRESET, 0x01),
            qmc_write(QMC_REG_CTRL1, QMC_CTRL1_CONT),
            ProbeStep::Done(MagKind::Qmc5883l),
        ]
    } else if is_hmc(hmc) {
        seq![
            ask_qmc,
            ask_hmc,
            hmc_write(HMC_REG_CFG_A, 0x70),
            hmc_write(HMC_REG_CFG_B, 0xA0),
            hmc_write(HMC_REG_MODE, 0x00),
            ProbeStep::Done(MagKind::Hmc5883l),
        ]
    } else {
        seq![ask_qmc, ask_hmc, ProbeStep::Done(MagKind::Absent)]
    }
}

/// The steps of a probe that gets these replies, and the state after them.
pub open spec fn probe_run(s: CompassState, replies: Seq<Option<Seq<u8>>>) -> (
    CompassState,
    Seq<ProbeStep>,
)
    decreases replies.len(),
{
    if replies.len() == 0 {
        (s, Seq::empty())
    } else {
        let (t, steps) = probe_run(s, replies.drop_last());
        let (u, step) = probe_step(t, replies.last());
        (u, steps.push(step))
    }
}

/// Driven from the start, the probe performs its script and nothing else, and
/// remembers what it found: the QMC5883L is looked for first, the HMC5883L only
/// when the other did not answer.
pub proof fn law_probe(s: CompassState, replies: Seq<Option<Seq<u8>>>)
    requires
        s.stage == ProbeStage::AskQmc,
        replies.len() >= 3,
        replies.len() == probe_script(replies[1], replies[2]).len(),
    ensures
        probe_run(s, replies).1 == probe_script(replies[1], replies[2]),
        probe_run(s, replies).0.stage == ProbeStage::AskQmc,
        ProbeStep::Done(probe_run(s, replies).0.kind) == probe_script(
            replies[1],
            replies[2],
        ).last(),
{
    reveal_with_fuel(probe_run, 7);
    assert(probe_run(s, replies).1 =~= probe_script(replies[1], replies[2]));
}

/// Low and high byte of the pattern of `v`.
pub open spec fn le_pair(v: i16) -> Seq<u8> {
    let p = pattern16(v as int);
    seq![(p % 256) as u8, (p / 256) as u8]
}

/// High and low byte of the pattern of `v`.
pub open spec fn be_pair(v: i16) -> Seq<u8> {
    let p = pattern16(v as int);
    seq![(p / 256) as u8, (p % 256) as u8]
}

/// A field that either part reports, in its own byte and axis order, is read
/// back as x, y, z.
pub proof fn law_field_round_trip(x: i16, y: i16, z: i16)
    ensures
        counts_of(MagKind::Qmc5883l, le_pair(x) + le_pair(y) + le_pair(z)) == seq![x, y, z],
        counts_of(MagKind::Hmc5883l, be_pair(x) + be_pair(z) + be_pair(y)) == seq![x, y, z],
{
    assert(counts_of(MagKind::Qmc5883l, le_pair(x) + le_pair(y) + le_pair(z)) =~= seq![x, y, z]);
    assert(counts_of(MagKind::Hmc5883l, be_pair(x) + be_pair(z) + be_pair(y)) =~= seq![x, y, z]);
}

/// The mount rotations, axis by axis: a quarter turn brings x to y and y to minus
/// x, a half turn turns both round, three quarters bring y to x and x to minus y,
/// and half a turn about x turns y and z round. None leaves all as it is.
pub proof fn law_mag_rotation_axes(v: Seq<F32Bits>)
    requires
        v.len() == 3,
    ensures
        mag_rotated(MagRotation::Unrotated, v) == v,
        ({
            let q = mag_rotated(MagRotation::Yaw90, v);
            q.len() == 3 && q[1] == v[0] && opposite_sign(q[0], v[1]) && q[2] == v[2]
        }),
        ({
            let q = mag_rotated(MagRotation::Yaw180, v);
            q.len() == 3 && opposite_sign(q[0], v[0]) && opposite_sign(q[1], v[1]) && q[2] == v[2]
        }),
        ({
            let q = mag_rotated(MagRotation::Yaw270, v);
            q.len() == 3 && q[0] == v[1] && opposite_sign(q[1], v[0]) && q[2] == v[2]
        }),
        ({
            let q = mag_rotated(MagRotation::Roll180, v);
            q.len() == 3 && q[0] == v[0] && opposite_sign(q[1], v[1]) && opposite_sign(q[2], v[2])
        }),
{
}

/// Two patterns that differ in the sign alone.
pub open spec fn opposite_sign(a: F32Bits, b: F32Bits) -> bool {
    a.0 - b.0 == 0x8000_0000 || b.0 - a.0 == 0x8000_0000
}

/// A reading widens the extremes of each axis by itself and only while the
/// collector runs: below the least it becomes the least, above the greatest the
/// greatest, and in between, or when it is no number, both stay. Rotation, offset
/// and scale are never touched.
pub proof fn law_reading_observed(s: CalState, raw: Seq<F32Bits>, i: int)
    requires
        0 <= i < 3,
        s.min.len() == 3,
        s.max.len() == 3,
    ensures
        ({
            let t = observed(s, raw);
            &&& t.rotation == s.rotation
            &&& t.offset == s.offset
            &&& t.scale == s.scale
            &&& t.collecting == s.collecting
            &&& t.min.len() == 3
            &&& t.max.len() == 3
            &&& !s.collecting ==> t.min == s.min && t.max == s.max
            &&& s.collecting && less(raw[i], s.min[i]) ==> t.min[i] == raw[i]
            &&& !less(raw[i], s.min[i]) ==> t.min[i] == s.min[i]
            &&& s.collecting && less(s.max[i], raw[i]) ==> t.max[i] == raw[i]
            &&& !less(s.max[i], raw[i]) ==> t.max[i] == s.max[i]
        }),
{
}

/// What [`MagCal::start_collection`] leaves.
pub open spec fn collection_started(s: CalState) -> CalState {
    CalState { collecting: true, min: thrice(MAX_BITS), max: thrice(MIN_BITS), ..s }
}

/// A collection starts afresh: whatever was collected before, the first finite
/// reading is both the least and the greatest. The calibration stays.
pub proof fn law_collection_starts_afresh(s: CalState, raw: Seq<F32Bits>, i: int)
    requires
        0 <= i < 3,
        raw[i].0 < 0x7F7F_FFFF || 0x8000_0000 <= raw[i].0 < 0xFF7F_FFFF,
    ensures
        ({
            let t = collection_started(s);
            let u = observed(t, raw);
            &&& t.collecting
            &&& t.rotation == s.rotation
            &&& t.offset == s.offset
            &&& t.scale == s.scale
            &&& u.min[i] == raw[i]
            &&& u.max[i] == raw[i]
        }),
{
}

/// What [`MagCal::finish_collection`] leaves.
pub open spec fn collection_finished(
    s: CalState,
    range: Seq<F32Bits>,
    offset: Seq<F32Bits>,
    scale: Seq<F32Bits>,
) -> CalState {
    if exists|i: int| 0 <= i < 3 && #[trigger] at_most(range[i], F32Bits(ZERO_BITS)) {
        CalState { collecting: false, ..s }
    } else {
        CalState { collecting: false, offset, scale, ..s }
    }
}

/// The end of a collection installs the new offset and scale when every axis has
/// a positive range, and keeps the old ones when one has none. Either way the
/// collector stops and the rotation stays.
pub proof fn law_collection_finished(
    s: CalState,
    range: Seq<F32Bits>,
    offset: Seq<F32Bits>,
    scale: Seq<F32Bits>,
    i: int,
)
    requires
        0 <= i < 3,
    ensures
        ({
            let t = collection_finished(s, range, offset, scale);
            &&& !t.collecting
            &&& t.rotation == s.rotation
            &&& t.min == s.min
            &&& t.max == s.max
            &&& (forall|j: int| 0 <= j < 3 ==> 0 < (#[trigger] range[j]).0 <= 0x7F80_0000)
                ==> t.offset == offset && t.scale == scale
            &&& range[i].0 == 0 || 0x8000_0000 <= range[i].0 <= 0xFF80_0000 ==> t.offset == s.offset
                && t.scale == s.scale
        }),
{
    let t = collection_finished(s, range, offset, scale);
    if range[i].0 == 0 || 0x8000_0000 <= range[i].0 <= 0xFF80_0000 {
        assert(at_most(range[i], F32Bits(ZERO_BITS)));
    }
    if forall|j: int| 0 <= j < 3 ==> 0 < (#[trigger] range[j]).0 <= 0x7F80_0000 {
        assert forall|j: int| 0 <= j < 3 implies !#[trigger] at_most(
            range[j],
            F32Bits(ZERO_BITS),
        ) by {
            assert(0 < range[j].0 <= 0x7F80_0000);
        }
    }
}

/// The probe on the wire. A QMC5883L answers at address 0x0D, register 0x0D, with
/// 0xFF, and is reset and set to continuous measuring; otherwise an HMC5883L
/// answers at address 0x1E, register 0x0A, with `H43` and gets rate, gain and
/// mode; otherwise there is none.
pub proof fn law_probe_operations(qmc: Option<Seq<u8>>, hmc: Option<Seq<u8>>)
    ensures
        ({
            let ask = ProbeStep::Bus(BusOp::Read { addr: 0x0D, reg: 0x0D, len: 1 });
            let ask2 = ProbeStep::Bus(BusOp::Read { addr: 0x1E, reg: 0x0A, len: 3 });
            let found = qmc == Some(seq![0xFFu8]);
            let found2 = hmc == Some(seq![0x48u8, 0x34, 0x33]);
            &&& found ==> probe_script(qmc, hmc) == seq![
                ask,
                ProbeStep::Bus(BusOp::Write { addr: 0x0D, reg: 0x0B, value: 0x01 }),
                ProbeStep::Bus(BusOp::Write { addr: 0x0D, reg: 0x09, value: 0x1D }),
                ProbeStep::Done(MagKind::Qmc5883l),
            ]
            &&& !found && found2 ==> probe_script(qmc, hmc) == seq![
                ask,
                ask2,
                ProbeStep::Bus(BusOp::Write { addr: 0x1E, reg: 0x00, value: 0x70 }),
                ProbeStep::Bus(BusOp::Write { addr: 0x1E, reg: 0x01, value: 0xA0 }),
                ProbeStep::Bus(BusOp::Write { addr: 0x1E, reg: 0x02, value: 0x00 }),
                ProbeStep::Done(MagKind::Hmc5883l),
            ]
            &&& !found && !found2 ==> probe_script(qmc, hmc) == seq![
                ask,
                ask2,
                ProbeStep::Done(MagKind::Absent),
            ]
        }),
{
    if let Some(b) = qmc {
        if b.len() == 1 && b[0] == 0xFF {
            assert(b =~= seq![0xFFu8]);
        }
    }
    if let Some(b) = hmc {
        if b.len() == 3 && b[0] == 0x48 && b[1] == 0x34 && b[2] == 0x33 {
            assert(b =~= seq![0x48u8, 0x34, 0x33]);
        }
    }
}

/// The signed number of 16 bits with this remainder.
pub open spec fn is_word(v: i16, word: int) -> bool {
    (word - v) % 0x1_0000 == 0
}

/// The counts in six bytes: x, y, z low byte first from a QMC5883L, which counts
/// 3000 to the Gauss; x, z, y high byte first from an HMC5883L, which counts 1090.
/// Without a part they are zero.
pub proof fn law_counts_read(b: Seq<u8>)
    ensures
        ({
            let c = counts_of(MagKind::Qmc5883l, b);
            &&& c.len() == 3
            &&& is_word(c[0], b[0] + 256 * b[1])
            &&& is_word(c[1], b[2] + 256 * b[3])
            &&& is_word(c[2], b[4] + 256 * b[5])
        }),
        ({
            let c = counts_of(MagKind::Hmc5883l, b);
            &&& c.len() == 3
            &&& is_word(c[0], 256 * b[0] + b[1])
            &&& is_word(c[2], 256 * b[2] + b[3])
            &&& is_word(c[1], 256 * b[4] + b[5])
        }),
        counts_of(MagKind::Absent, b) == seq![0i16, 0, 0],
        counts_per_gauss(MagKind::Qmc5883l) == 3000,
        counts_per_gauss(MagKind::Hmc5883l) == 1090,
{
}

/// What is asked for a sample: six bytes from the data registers of the part that
/// was found, and nothing without one.
pub open spec fn sample_request(kind: MagKind) -> Option<BusOp> {
    match kind {
        MagKind::Qmc5883l => Some(BusOp::Read { addr: QMC_ADDR, reg: QMC_REG_DATA, len: 6 }),
        MagKind::Hmc5883l => Some(BusOp::Read { addr: HMC_ADDR, reg: HMC_REG_DATA, len: 6 }),
        MagKind::Absent => None,
    }
}

/// The same on the wire: a missing compass never occupies the bus.
pub proof fn law_sample_request()
    ensures
        sample_request(MagKind::Qmc5883l) == Some(BusOp::Read { addr: 0x0D, reg: 0x00, len: 6 }),
        sample_request(MagKind::Hmc5883l) == Some(BusOp::Read { addr: 0x1E, reg: 0x03, len: 6 }),
        sample_request(MagKind::Absent) is None,
{
}

/// What [`Compass::read`] makes of a reply: the counts and whether they may be
/// used.
pub open spec fn sample_of(kind: MagKind, reply: Option<Seq<u8>>) -> (Seq<i16>, bool) {
    match reply {
        Some(b) => (counts_of(kind, b), kind != MagKind::Absent),
        None => (seq![0i16, 0, 0], false),
    }
}

/// A sample may be used exactly when there is a part and the transfer worked;
/// otherwise it is all zero.
pub proof fn law_sample_health(kind: MagKind, reply: Option<Seq<u8>>)
    ensures
        sample_of(kind, reply).1 <==> reply is Some && (kind == MagKind::Qmc5883l || kind
            == MagKind::Hmc5883l),
        !sample_of(kind, reply).1 ==> sample_of(kind, reply).0 == seq![0i16, 0, 0],
        reply matches Some(b) ==> sample_of(kind, reply).0 == counts_of(kind, b),
{
}

/// While the probe runs the part is still the one that was known before; at its
/// end it is the one that the probe names.
pub proof fn law_kind_at_end(s: CompassState, reply: Option<Seq<u8>>)
    ensures
        ({
            let (t, r) = probe_step(s, reply);
            &&& r matches ProbeStep::Done(k) ==> t.kind == k && t.stage == ProbeStage::AskQmc
            &&& r is Bus ==> t.kind == s.kind
        }),
{
}

} // verus!
