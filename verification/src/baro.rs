//! Goertek SPL06-001 barometer on the shared I2C bus: bring-up, calibration
//! coefficients, raw samples and the ground reference.

use crate::bus::{reply_view, BusOp};
use crate::float::{less, F32Bits, ZERO_BITS};
use vstd::prelude::*;

verus! {

pub const ADDR: u8 = 0x76;

/// Pressure in three bytes, then temperature in three.
pub const REG_PSR: u8 = 0x00;

pub const REG_PRS_CFG: u8 = 0x06;

pub const REG_TMP_CFG: u8 = 0x07;

pub const REG_MEAS_CFG: u8 = 0x08;

pub const REG_CFG: u8 = 0x09;

pub const REG_RESET: u8 = 0x0C;

pub const REG_ID: u8 = 0x0D;

pub const REG_COEF: u8 = 0x10;

pub const PRODUCT_ID: u8 = 0x10;

/// 8 samples per second, 8 times oversampled.
pub const PRS_CFG: u8 = 0x33;

/// The same, from the external sensor that the coefficients match.
pub const TMP_CFG: u8 = 0xB3;

/// Continuous pressure and temperature.
pub const MEAS_CTRL_CONT: u8 = 0x07;

/// Sensor and coefficients ready.
pub const READY_BITS: u8 = 0xC0;

pub const SOFT_RESET: u8 = 0x09;

pub const BOOT_US: u32 = 40_000;

pub const POLL_US: u32 = 2_000;

/// Times that readiness is asked for.
pub const MAX_POLLS: usize = 50;

pub const COEF_LEN: usize = 18;

/// Least pressure that is taken as a ground reference, `30000.0` Pa.
pub const GROUND_MIN_BITS: u32 = 0x46EA_6000;

/// Calibration coefficients of one chip.
#[derive(Clone, Copy, PartialEq, Eq, Structural)]
pub struct Coefficients {
    pub c0: i32,
    pub c1: i32,
    pub c00: i32,
    pub c10: i32,
    pub c01: i32,
    pub c11: i32,
    pub c20: i32,
    pub c21: i32,
    pub c30: i32,
}

/// Two's-complement reading of a field of which half the range is `half`.
pub open spec fn signed_field(v: int, half: int) -> int {
    if v < half {
        v
    } else {
        v - 2 * half
    }
}

/// The coefficients in 18 bytes: two of 12 bits, two of 20 and five of 16, most
/// significant bit first, without gaps.
pub open spec fn coefficients(c: Seq<u8>) -> Coefficients {
    Coefficients {
        c0: signed_field(16 * c[0] + c[1] as int / 16, 0x800) as i32,
        c1: signed_field(256 * (c[1] as int % 16) + c[2], 0x800) as i32,
        c00: signed_field(0x1000 * c[3] + 16 * c[4] + c[5] as int / 16, 0x8_0000) as i32,
        c10: signed_field(0x1_0000 * (c[5] as int % 16) + 256 * c[6] + c[7], 0x8_0000) as i32,
        c01: signed_field(256 * c[8] + c[9], 0x8000) as i32,
        c11: signed_field(256 * c[10] + c[11], 0x8000) as i32,
        c20: signed_field(256 * c[12] + c[13], 0x8000) as i32,
        c21: signed_field(256 * c[14] + c[15], 0x8000) as i32,
        c30: signed_field(256 * c[16] + c[17], 0x8000) as i32,
    }
}

/// All coefficients zero.
pub open spec fn no_coefficients() -> Coefficients {
    Coefficients { c0: 0, c1: 0, c00: 0, c10: 0, c01: 0, c11: 0, c20: 0, c21: 0, c30: 0 }
}

/// Sign-extends a field of which half the range is `half`.
fn sign_extend(v: u32, half: u32) -> (r: i32)
    requires
        v < 2 * half,
        half <= 0x80_0000,
    ensures
        r == signed_field(v as int, half as int),
{
    if v < half {
        v as i32
    } else {
        v as i32 - 2 * half as i32
    }
}

/// One raw reading, sign-extended from 24 bits.
#[derive(Clone, Copy, PartialEq, Eq, Structural)]
pub struct RawSample {
    pub pressure: i32,
    pub temperature: i32,
}

/// The signed 24-bit number in three bytes, most significant first.
pub open spec fn signed24(b2: u8, b1: u8, b0: u8) -> int {
    signed_field(0x1_0000 * b2 + 256 * b1 + b0, 0x80_0000)
}

fn read24(b2: u8, b1: u8, b0: u8) -> (r: i32)
    ensures
        r == signed24(b2, b1, b0),
{
    sign_extend(0x1_0000 * (b2 as u32) + 256 * (b1 as u32) + b0 as u32, 0x80_0000)
}

/// What the bring-up asks for next.
#[derive(Clone, Copy, PartialEq, Eq, Structural)]
pub enum SetupStep {
    Bus(BusOp),
    /// Bring-up is over; whether the sensor was found.
    Done(bool),
}

/// Where the bring-up stands.
#[derive(Clone, Copy, PartialEq, Eq, Structural)]
pub enum SetupStage {
    AskId,
    IdAnswer,
    BootWait,
    /// About to ask for readiness; that many times were in vain.
    Ask(usize),
    /// Readiness was asked for after that many times in vain.
    Answer(usize),
    CoefAnswer,
    TmpCfg,
    Cfg,
    Start,
    Finish,
}

/// What a [`Baro`] holds.
pub struct BaroState {
    pub stage: SetupStage,
    pub present: bool,
    pub coef: Coefficients,
    /// The ground reference pressure, once captured.
    pub ground: Option<F32Bits>,
}

/// A read of `len` bytes.
pub open spec fn read_op(reg: u8, len: usize) -> SetupStep {
    SetupStep::Bus(BusOp::Read { addr: ADDR, reg, len })
}

/// A register write.
pub open spec fn write_op(reg: u8, value: u8) -> SetupStep {
    SetupStep::Bus(BusOp::Write { addr: ADDR, reg, value })
}

/// A pause.
pub open spec fn delay_op(us: u32) -> SetupStep {
    SetupStep::Bus(BusOp::DelayUs(us))
}

/// Whether a reply is the product id.
pub open spec fn id_matches(reply: Option<Seq<u8>>) -> bool {
    reply matches Some(b) && b.len() == 1 && b[0] == PRODUCT_ID
}

/// Whether a reply says that sensor and coefficients are ready: its two top
/// bits are set.
pub open spec fn ready(reply: Option<Seq<u8>>) -> bool {
    reply matches Some(b) && b.len() == 1 && b[0] >= 0xC0
}

/// Whether a reply holds the coefficients.
pub open spec fn coef_read(reply: Option<Seq<u8>>) -> bool {
    reply matches Some(b) && b.len() == COEF_LEN
}

/// The end of a bring-up.
pub open spec fn ended(s: BaroState, present: bool) -> (BaroState, SetupStep) {
    (BaroState { stage: SetupStage::AskId, present, ..s }, SetupStep::Done(present))
}

/// The state after one step of the bring-up, given the reply to the last
/// operation, and what to do next.
pub open spec fn setup_step(s: BaroState, reply: Option<Seq<u8>>) -> (BaroState, SetupStep) {
    match s.stage {
        SetupStage::AskId => (BaroState { stage: SetupStage::IdAnswer, ..s }, read_op(REG_ID, 1)),
        SetupStage::IdAnswer => if id_matches(reply) {
            (BaroState { stage: SetupStage::BootWait, ..s }, write_op(REG_RESET, SOFT_RESET))
        } else {
            ended(s, false)
        },
        SetupStage::BootWait => (
            BaroState { stage: SetupStage::Ask(0), ..s },
            delay_op(BOOT_US),
        ),
        SetupStage::Ask(k) => if k < MAX_POLLS {
            (BaroState { stage: SetupStage::Answer(k), ..s }, read_op(REG_MEAS_CFG, 1))
        } else {
            ended(s, false)
        },
        SetupStage::Answer(k) => if ready(reply) {
            (BaroState { stage: SetupStage::CoefAnswer, ..s }, read_op(REG_COEF, COEF_LEN))
        } else {
            (
                BaroState { stage: SetupStage::Ask((k + 1) as usize), ..s },
                delay_op(POLL_US),
            )
        },
        SetupStage::CoefAnswer => match reply {
            Some(b) => if b.len() == COEF_LEN {
                (
                    BaroState { stage: SetupStage::TmpCfg, coef: coefficients(b), ..s },
                    write_op(REG_PRS_CFG, PRS_CFG),
                )
            } else {
                ended(s, false)
            },
            None => ended(s, false),
        },
        SetupStage::TmpCfg => (
            BaroState { stage: SetupStage::Cfg, ..s },
            write_op(REG_TMP_CFG, TMP_CFG),
        ),
        SetupStage::Cfg => (BaroState { stage: SetupStage::Start, ..s }, write_op(REG_CFG, 0x00)),
        SetupStage::Start => (
            BaroState { stage: SetupStage::Finish, ..s },
            write_op(REG_MEAS_CFG, MEAS_CTRL_CONT),
        ),
        SetupStage::Finish => ended(s, true),
    }
}

/// The ground reference after a compensated pressure: the first one above the
/// threshold is kept for good.
pub open spec fn referenced(ground: Option<F32Bits>, pressure: F32Bits) -> Option<F32Bits> {
    if ground is None && less(F32Bits(GROUND_MIN_BITS), pressure) {
        Some(pressure)
    } else {
        ground
    }
}

/// SPL06 state: bring-up, calibration coefficients and ground reference.
pub struct Baro {
    stage: SetupStage,
    present: bool,
    coef: Coefficients,
    ground_pa: F32Bits,
    ground_set: bool,
}

impl View for Baro {
    type V = BaroState;

    closed spec fn view(&self) -> BaroState {
        BaroState {
            stage: self.stage,
            present: self.present,
            coef: self.coef,
            ground: if self.ground_set {
                Some(self.ground_pa)
            } else {
                None
            },
        }
    }
}

impl Baro {
    /// Every value is in this condition; `new` makes it so and `init` keeps it.
    pub closed spec fn wf(&self) -> bool {
        self.stage matches SetupStage::Answer(k) ==> k < MAX_POLLS
    }

    pub fn new() -> (r: Self)
        ensures
            r.wf(),
            r@ == (BaroState {
                stage: SetupStage::AskId,
                present: false,
                coef: no_coefficients(),
                ground: None,
            }),
    {
        Baro {
            stage: SetupStage::AskId,
            present: false,
            coef: Coefficients {
                c0: 0,
                c1: 0,
                c00: 0,
                c10: 0,
                c01: 0,
                c11: 0,
                c20: 0,
                c21: 0,
                c30: 0,
            },
            ground_pa: F32Bits(ZERO_BITS),
            ground_set: false,
        }
    }

    pub fn present(&self) -> (r: bool)
        ensures
            r == self@.present,
    {
        self.present
    }

    /// The calibration coefficients read at bring-up.
    pub fn coefficients(&self) -> (r: Coefficients)
        ensures
            r == self@.coef,
    {
        self.coef
    }

    /// One step of the bring-up: probe, reset, wait until ready, load the
    /// coefficients and start continuous conversion. `reply` holds the bytes of
    /// the last read, `None` when it failed; after other operations it is not
    /// looked at. Call again after each operation until bring-up is over.
    pub fn init(&mut self, reply: Option<&[u8]>) -> (r: SetupStep)
        requires
            old(self).wf(),
        ensures
            final(self).wf(),
            (final(self)@, r) == setup_step(old(self)@, reply_view(reply)),
    {
        match self.stage {
            SetupStage::AskId => {
                self.stage = SetupStage::IdAnswer;
                SetupStep::Bus(BusOp::Read { addr: ADDR, reg: REG_ID, len: 1 })
            },
            SetupStage::IdAnswer => {
                let found: bool = match reply {
                    Some(b) => b.len() == 1 && b[0] == PRODUCT_ID,
                    None => false,
                };
                if found {
                    self.stage = SetupStage::BootWait;
                    SetupStep::Bus(BusOp::Write { addr: ADDR, reg: REG_RESET, value: SOFT_RESET })
                } else {
                    self.end(false)
                }
            },
            SetupStage::BootWait => {
                self.stage = SetupStage::Ask(0);
                SetupStep::Bus(BusOp::DelayUs(BOOT_US))
            },
            SetupStage::Ask(k) => {
                if k < MAX_POLLS {
                    self.stage = SetupStage::Answer(k);
                    SetupStep::Bus(BusOp::Read { addr: ADDR, reg: REG_MEAS_CFG, len: 1 })
                } else {
                    self.end(false)
                }
            },
            SetupStage::Answer(k) => {
                let ok: bool = match reply {
                    Some(b) => b.len() == 1 && both_ready(b[0]),
                    None => false,
                };
                if ok {
                    self.stage = SetupStage::CoefAnswer;
                    SetupStep::Bus(BusOp::Read { addr: ADDR, reg: REG_COEF, len: COEF_LEN })
                } else {
                    self.stage = SetupStage::Ask(k + 1);
                    SetupStep::Bus(BusOp::DelayUs(POLL_US))
                }
            },
            SetupStage::CoefAnswer => match reply {
                Some(b) => {
                    if b.len() == COEF_LEN {
                        self.unpack_coefficients(b);
                        self.stage = SetupStage::TmpCfg;
                        SetupStep::Bus(
                            BusOp::Write { addr: ADDR, reg: REG_PRS_CFG, value: PRS_CFG },
                        )
                    } else {
                        self.end(false)
                    }
                },
                None => self.end(false),
            },
            SetupStage::TmpCfg => {
                self.stage = SetupStage::Cfg;
                SetupStep::Bus(BusOp::Write { addr: ADDR, reg: REG_TMP_CFG, value: TMP_CFG })
            },
            SetupStage::Cfg => {
                self.stage = SetupStage::Start;
                SetupStep::Bus(BusOp::Write { addr: ADDR, reg: REG_CFG, value: 0x00 })
            },
            SetupStage::Start => {
                self.stage = SetupStage::Finish;
                SetupStep::Bus(
                    BusOp::Write { addr: ADDR, reg: REG_MEAS_CFG, value: MEAS_CTRL_CONT },
                )
            },
            SetupStage::Finish => self.end(true),
        }
    }

    fn end(&mut self, present: bool) -> (r: SetupStep)
        ensures
            final(self).wf(),
            (final(self)@, r) == ended(old(self)@, present),
    {
        self.stage = SetupStage::AskId;
        self.present = present;
        SetupStep::Done(present)
    }

    fn unpack_coefficients(&mut self, c: &[u8])
        requires
            c@.len() == COEF_LEN,
        ensures
            final(self)@ == (BaroState { coef: coefficients(c@), ..old(self)@ }),
    {
        self.coef = Coefficients {
            c0: sign_extend(16 * (c[0] as u32) + c[1] as u32 / 16, 0x800),
            c1: sign_extend(256 * (c[1] as u32 % 16) + c[2] as u32, 0x800),
            c00: sign_extend(
                0x1000 * (c[3] as u32) + 16 * (c[4] as u32) + c[5] as u32 / 16,
                0x8_0000,
            ),
            c10: sign_extend(
                0x1_0000 * (c[5] as u32 % 16) + 256 * (c[6] as u32) + c[7] as u32,
                0x8_0000,
            ),
            c01: sign_extend(256 * (c[8] as u32) + c[9] as u32, 0x8000),
            c11: sign_extend(256 * (c[10] as u32) + c[11] as u32, 0x8000),
            c20: sign_extend(256 * (c[12] as u32) + c[13] as u32, 0x8000),
            c21: sign_extend(256 * (c[14] as u32) + c[15] as u32, 0x8000),
            c30: sign_extend(256 * (c[16] as u32) + c[17] as u32, 0x8000),
        };
    }

    /// The read that fetches one sample; none without a sensor.
    pub fn read_request(&self) -> (r: Option<BusOp>)
        ensures
            r == if self@.present {
                Some(BusOp::Read { addr: ADDR, reg: REG_PSR, len: 6 })
            } else {
                None
            },
            self@.present ==> r == Some(BusOp::Read { addr: 0x76, reg: 0x00, len: 6 }),
            !self@.present ==> r is None,
    {
        if self.present {
            Some(BusOp::Read { addr: ADDR, reg: REG_PSR, len: 6 })
        } else {
            None
        }
    }

    /// The raw sample in the reply to [`Baro::read_request`]; none without a
    /// sensor or after a failed transfer.
    pub fn read(&self, reply: Option<[u8; 6]>) -> (r: Option<RawSample>)
        ensures
            r == (match reply {
                Some(b) => if self@.present {
                    Some(
                        RawSample {
                            pressure: signed24(b@[0], b@[1], b@[2]) as i32,
                            temperature: signed24(b@[3], b@[4], b@[5]) as i32,
                        },
                    )
                } else {
                    None
                },
                None => None,
            }),
            r == sample_of(
                self@.present,
                match reply {
                    Some(b) => Some(b@),
                    None => None,
                },
            ),
    {
        if !self.present {
            return None;
        }
        match reply {
            Some(b) => Some(
                RawSample {
                    pressure: read24(b[0], b[1], b[2]),
                    temperature: read24(b[3], b[4], b[5]),
                },
            ),
            None => None,
        }
    }

    /// The launch reference that applies to a compensated pressure (Pa), which
    /// becomes the reference itself if it is the first valid one.
    pub fn reference(&mut self, pressure: F32Bits) -> (r: Option<F32Bits>)
        requires
            old(self).wf(),
        ensures
            final(self).wf(),
            final(self)@ == (BaroState {
                ground: referenced(old(self)@.ground, pressure),
                ..old(self)@
            }),
            r == final(self)@.ground,
    {
        if !self.ground_set && F32Bits(GROUND_MIN_BITS).lt(pressure) {
            self.ground_pa = pressure;
            self.ground_set = true;
        }
        if self.ground_set {
            Some(self.ground_pa)
        } else {
            None
        }
    }
}

/// Whether the two top bits of a byte are set.
fn both_ready(m: u8) -> (r: bool)
    ensures
        r == (m >= 0xC0),
{
    assert((m & 0xC0 == 0xC0) <==> m >= 0xC0) by (bit_vector);
    m & READY_BITS == READY_BITS
}

/// Once captured, the launch reference never changes.
pub proof fn law_reference_is_kept(ground: Option<F32Bits>, p: F32Bits, q: F32Bits)
    ensures
        ground is Some ==> referenced(ground, p) == ground,
        referenced(ground, p) is Some ==> referenced(referenced(ground, p), q) == referenced(
            ground,
            p,
        ),
        ground is None && referenced(ground, p) is Some ==> referenced(ground, p) == Some(p),
{
}

/// The unsigned pattern of a coefficient in a field of which half the range is
/// `half`.
pub open spec fn field_pattern(v: int, half: int) -> int {
    if v < 0 {
        v + 2 * half
    } else {
        v
    }
}

/// The 18 bytes in which a chip stores its coefficients.
pub open spec fn packed(k: Coefficients) -> Seq<u8> {
    let c0 = field_pattern(k.c0 as int, 0x800);
    let c1 = field_pattern(k.c1 as int, 0x800);
    let c00 = field_pattern(k.c00 as int, 0x8_0000);
    let c10 = field_pattern(k.c10 as int, 0x8_0000);
    let c01 = field_pattern(k.c01 as int, 0x8000);
    let c11 = field_pattern(k.c11 as int, 0x8000);
    let c20 = field_pattern(k.c20 as int, 0x8000);
    let c21 = field_pattern(k.c21 as int, 0x8000);
    let c30 = field_pattern(k.c30 as int, 0x8000);
    seq![
        (c0 / 16) as u8,
        (16 * (c0 % 16) + c1 / 256) as u8,
        (c1 % 256) as u8,
        (c00 / 0x1000) as u8,
        (c00 / 16 % 256) as u8,
        (16 * (c00 % 16) + c10 / 0x1_0000) as u8,
        (c10 / 256 % 256) as u8,
        (c10 % 256) as u8,
        (c01 / 256) as u8,
        (c01 % 256) as u8,
        (c11 / 256) as u8,
        (c11 % 256) as u8,
        (c20 / 256) as u8,
        (c20 % 256) as u8,
        (c21 / 256) as u8,
        (c21 % 256) as u8,
        (c30 / 256) as u8,
        (c30 % 256) as u8,
    ]
}

proof fn lemma_short_fields(a: int, b: int)
    requires
        0 <= a < 0x1000,
        0 <= b < 0x1000,
    ensures
        ({
            let (x, y, z) = ((a / 16) as u8, (16 * (a % 16) + b / 256) as u8, (b % 256) as u8);
            16 * x + y as int / 16 == a && 256 * (y as int % 16) + z == b
        }),
{
}

proof fn lemma_long_fields(a: int, b: int)
    requires
        0 <= a < 0x10_0000,
        0 <= b < 0x10_0000,
    ensures
        ({
            let (x, y) = ((a / 0x1000) as u8, (a / 16 % 256) as u8);
            let z = (16 * (a % 16) + b / 0x1_0000) as u8;
            let (u, v) = ((b / 256 % 256) as u8, (b % 256) as u8);
            0x1000 * x + 16 * y + z as int / 16 == a && 0x1_0000 * (z as int % 16) + 256 * u + v
                == b
        }),
{
}

proof fn lemma_word_field(a: int)
    requires
        0 <= a < 0x1_0000,
    ensures
        256 * ((a / 256) as u8) + (a % 256) as u8 == a,
{
}

/// Coefficients that fit their fields are read back as they were stored.
pub proof fn law_coefficients_round_trip(k: Coefficients)
    requires
        -0x800 <= k.c0 < 0x800,
        -0x800 <= k.c1 < 0x800,
        -0x8_0000 <= k.c00 < 0x8_0000,
        -0x8_0000 <= k.c10 < 0x8_0000,
        -0x8000 <= k.c01 < 0x8000,
        -0x8000 <= k.c11 < 0x8000,
        -0x8000 <= k.c20 < 0x8000,
        -0x8000 <= k.c21 < 0x8000,
        -0x8000 <= k.c30 < 0x8000,
    ensures
        packed(k).len() == COEF_LEN,
        coefficients(packed(k)) == k,
{
    let c0 = field_pattern(k.c0 as int, 0x800);
    let c1 = field_pattern(k.c1 as int, 0x800);
    let c00 = field_pattern(k.c00 as int, 0x8_0000);
    let c10 = field_pattern(k.c10 as int, 0x8_0000);
    lemma_short_fields(c0, c1);
    lemma_long_fields(c00, c10);
    lemma_word_field(field_pattern(k.c01 as int, 0x8000));
    lemma_word_field(field_pattern(k.c11 as int, 0x8000));
    lemma_word_field(field_pattern(k.c20 as int, 0x8000));
    lemma_word_field(field_pattern(k.c21 as int, 0x8000));
    lemma_word_field(field_pattern(k.c30 as int, 0x8000));
}

/// The steps of a bring-up that gets these replies, and the state after them.
pub open spec fn setup_run(s: BaroState, replies: Seq<Option<Seq<u8>>>) -> (
    BaroState,
    Seq<SetupStep>,
)
    decreases replies.len(),
{
    if replies.len() == 0 {
        (s, Seq::empty())
    } else {
        let (t, steps) = setup_run(s, replies.drop_last());
        let (u, step) = setup_step(t, replies.last());
        (u, steps.push(step))
    }
}

/// The first three steps, up to the wait after the reset.
pub open spec fn opening() -> Seq<SetupStep> {
    seq![read_op(REG_ID, 1), write_op(REG_RESET, SOFT_RESET), delay_op(BOOT_US)]
}

/// `k` questions for readiness in vain, each followed by a pause.
pub open spec fn vain_polls(k: nat) -> Seq<SetupStep>
    decreases k,
{
    if k == 0 {
        Seq::empty()
    } else {
        vain_polls((k - 1) as nat) + seq![read_op(REG_MEAS_CFG, 1), delay_op(POLL_US)]
    }
}

proof fn lemma_polls(s: BaroState, replies: Seq<Option<Seq<u8>>>, k: nat)
    requires
        s.stage == SetupStage::AskId,
        k <= MAX_POLLS,
        replies.len() == 3 + 2 * k,
        id_matches(replies[1]),
        forall|j: int| 0 <= j < k ==> !ready(#[trigger] replies[4 + 2 * j]),
    ensures
        setup_run(s, replies).1 == opening() + vain_polls(k),
        setup_run(s, replies).0 == (BaroState { stage: SetupStage::Ask(k as usize), ..s }),
        vain_polls(k).len() == 2 * k,
    decreases k,
{
    if k == 0 {
        reveal_with_fuel(setup_run, 4);
        assert(setup_run(s, replies).1 =~= opening() + vain_polls(0));
    } else {
        let one = replies.drop_last();
        let d = one.drop_last();
        assert(!ready(replies[4 + 2 * (k - 1)]));
        assert forall|j: int| 0 <= j < k - 1 implies !ready(#[trigger] d[4 + 2 * j]) by {
            assert(d[4 + 2 * j] == replies[4 + 2 * j]);
        }
        lemma_polls(s, d, (k - 1) as nat);
        assert(setup_run(s, one) == ({
            let (u, step) = setup_step(setup_run(s, d).0, one.last());
            (u, setup_run(s, d).1.push(step))
        }));
        assert(setup_run(s, replies).1 =~= opening() + vain_polls(k));
    }
}

proof fn lemma_next_step(s: BaroState, replies: Seq<Option<Seq<u8>>>, n: int)
    requires
        0 <= n < replies.len(),
    ensures
        setup_run(s, replies.take(n + 1)).0 == setup_step(
            setup_run(s, replies.take(n)).0,
            replies[n],
        ).0,
        setup_run(s, replies.take(n + 1)).1 == setup_run(s, replies.take(n)).1.push(
            setup_step(setup_run(s, replies.take(n)).0, replies[n]).1,
        ),
{
    assert(replies.take(n + 1).drop_last() =~= replies.take(n));
}

proof fn lemma_run_joined(
    s: BaroState,
    a: Seq<Option<Seq<u8>>>,
    b: Seq<Option<Seq<u8>>>,
)
    ensures
        setup_run(s, a + b).0 == setup_run(setup_run(s, a).0, b).0,
        setup_run(s, a + b).1 == setup_run(s, a).1 + setup_run(setup_run(s, a).0, b).1,
    decreases b.len(),
{
    if b.len() == 0 {
        assert(a + b =~= a);
        assert(setup_run(s, a).1 + Seq::<SetupStep>::empty() =~= setup_run(s, a).1);
    } else {
        let d = b.drop_last();
        lemma_run_joined(s, a, d);
        assert((a + b).drop_last() =~= a + d);
        assert((a + b).last() == b.last());
        let x = setup_run(s, a).1;
        let y = setup_run(setup_run(s, a).0, d).1;
        let z = setup_step(setup_run(setup_run(s, a).0, d).0, b.last()).1;
        assert((x + y).push(z) =~= x + y.push(z));
    }
}

proof fn lemma_asked(s: BaroState, replies: Seq<Option<Seq<u8>>>, k: nat)
    requires
        s.stage == SetupStage::AskId,
        k <= MAX_POLLS,
        replies.len() >= 3 + 2 * k,
        id_matches(replies[1]),
        forall|j: int| 0 <= j < k ==> !ready(#[trigger] replies[4 + 2 * j]),
    ensures
        ({
            let t = BaroState { stage: SetupStage::Ask(k as usize), ..s };
            let rest = replies.skip(3 + 2 * k as int);
            &&& setup_run(s, replies).0 == setup_run(t, rest).0
            &&& setup_run(s, replies).1 == opening() + vain_polls(k) + setup_run(t, rest).1
        }),
{
    let n = 3 + 2 * k as int;
    let r3 = replies.take(n);
    assert forall|j: int| 0 <= j < k implies !ready(#[trigger] r3[4 + 2 * j]) by {
        assert(r3[4 + 2 * j] == replies[4 + 2 * j]);
    }
    lemma_polls(s, r3, k);
    lemma_run_joined(s, r3, replies.skip(n));
    assert(r3 + replies.skip(n) =~= replies);
}

proof fn lemma_coefficients_asked(t: BaroState, rest: Seq<Option<Seq<u8>>>)
    requires
        t.stage matches SetupStage::Ask(k) && k < MAX_POLLS,
        rest.len() == 3,
        ready(rest[1]),
    ensures
        ({
            let (u, steps) = setup_run(t, rest);
            &&& coef_read(rest[2]) ==> u == (BaroState {
                stage: SetupStage::TmpCfg,
                coef: coefficients(rest[2]->Some_0),
                ..t
            })
            &&& coef_read(rest[2]) ==> steps == seq![
                read_op(REG_MEAS_CFG, 1),
                read_op(REG_COEF, COEF_LEN),
                write_op(REG_PRS_CFG, PRS_CFG),
            ]
            &&& !coef_read(rest[2]) ==> u == (BaroState {
                stage: SetupStage::AskId,
                present: false,
                ..t
            })
            &&& !coef_read(rest[2]) ==> steps == seq![
                read_op(REG_MEAS_CFG, 1),
                read_op(REG_COEF, COEF_LEN),
                SetupStep::Done(false),
            ]
        }),
{
    reveal_with_fuel(setup_run, 4);
    let steps = setup_run(t, rest).1;
    if coef_read(rest[2]) {
        assert(steps =~= seq![
            read_op(REG_MEAS_CFG, 1),
            read_op(REG_COEF, COEF_LEN),
            write_op(REG_PRS_CFG, PRS_CFG),
        ]);
    } else {
        assert(steps =~= seq![
            read_op(REG_MEAS_CFG, 1),
            read_op(REG_COEF, COEF_LEN),
            SetupStep::Done(false),
        ]);
    }
}

proof fn lemma_configured(t: BaroState, rest: Seq<Option<Seq<u8>>>)
    requires
        t.stage == SetupStage::TmpCfg,
        rest.len() == 4,
    ensures
        setup_run(t, rest).0 == (BaroState { stage: SetupStage::AskId, present: true, ..t }),
        setup_run(t, rest).1 == seq![
            write_op(REG_TMP_CFG, TMP_CFG),
            write_op(REG_CFG, 0x00),
            write_op(REG_MEAS_CFG, MEAS_CTRL_CONT),
            SetupStep::Done(true),
        ],
{
    lemma_next_step(t, rest, 0);
    lemma_next_step(t, rest, 1);
    lemma_next_step(t, rest, 2);
    lemma_next_step(t, rest, 3);
    assert(rest.take(0) =~= Seq::<Option<Seq<u8>>>::empty());
    assert(rest.take(4) =~= rest);
    assert(setup_run(t, rest).1 =~= seq![
        write_op(REG_TMP_CFG, TMP_CFG),
        write_op(REG_CFG, 0x00),
        write_op(REG_MEAS_CFG, MEAS_CTRL_CONT),
        SetupStep::Done(true),
    ]);
}

/// A sensor that identifies itself, is ready at the answer after `k` in vain
/// (fewer than fifty) and yields its coefficients is brought up: probe, reset,
/// wait, `k` pauses, the coefficients, the four configuration writes. Its
/// coefficients are those that were read.
pub proof fn law_setup_succeeds(s: BaroState, replies: Seq<Option<Seq<u8>>>, k: nat)
    requires
        s.stage == SetupStage::AskId,
        k < MAX_POLLS,
        replies.len() == 10 + 2 * k,
        id_matches(replies[1]),
        forall|j: int| 0 <= j < k ==> !ready(#[trigger] replies[4 + 2 * j]),
        ready(replies[4 + 2 * k as int]),
        coef_read(replies[5 + 2 * k as int]),
    ensures
        setup_run(s, replies).1 == opening() + vain_polls(k) + seq![
            read_op(REG_MEAS_CFG, 1),
            read_op(REG_COEF, COEF_LEN),
            write_op(REG_PRS_CFG, PRS_CFG),
            write_op(REG_TMP_CFG, TMP_CFG),
            write_op(REG_CFG, 0x00),
            write_op(REG_MEAS_CFG, MEAS_CTRL_CONT),
            SetupStep::Done(true),
        ],
        setup_run(s, replies).0 == (BaroState {
            present: true,
            coef: coefficients(replies[5 + 2 * k as int]->Some_0),
            ..s
        }),
{
    let n = 3 + 2 * k as int;
    let t = BaroState { stage: SetupStage::Ask(k as usize), ..s };
    let rest = replies.skip(n);
    let first = rest.take(3);
    let last = rest.skip(3);
    lemma_asked(s, replies, k);
    assert(first[1] == replies[n + 1] && first[2] == replies[n + 2]);
    lemma_coefficients_asked(t, first);
    lemma_configured(setup_run(t, first).0, last);
    lemma_run_joined(t, first, last);
    assert(first + last =~= rest);
    assert(setup_run(s, replies).1 =~= opening() + vain_polls(k) + seq![
        read_op(REG_MEAS_CFG, 1),
        read_op(REG_COEF, COEF_LEN),
        write_op(REG_PRS_CFG, PRS_CFG),
        write_op(REG_TMP_CFG, TMP_CFG),
        write_op(REG_CFG, 0x00),
        write_op(REG_MEAS_CFG, MEAS_CTRL_CONT),
        SetupStep::Done(true),
    ]);
}

/// A sensor that becomes ready but does not yield its coefficients is given up:
/// nothing is written after the reset, and the old coefficients stay.
pub proof fn law_setup_without_coefficients(
    s: BaroState,
    replies: Seq<Option<Seq<u8>>>,
    k: nat,
)
    requires
        s.stage == SetupStage::AskId,
        k < MAX_POLLS,
        replies.len() == 6 + 2 * k,
        id_matches(replies[1]),
        forall|j: int| 0 <= j < k ==> !ready(#[trigger] replies[4 + 2 * j]),
        ready(replies[4 + 2 * k as int]),
        !coef_read(replies[5 + 2 * k as int]),
    ensures
        setup_run(s, replies).1 == opening() + vain_polls(k) + seq![
            read_op(REG_MEAS_CFG, 1),
            read_op(REG_COEF, COEF_LEN),
            SetupStep::Done(false),
        ],
        setup_run(s, replies).0 == (BaroState { present: false, ..s }),
{
    let t = BaroState { stage: SetupStage::Ask(k as usize), ..s };
    let rest = replies.skip(3 + 2 * k as int);
    lemma_asked(s, replies, k);
    assert(rest[1] == replies[4 + 2 * k as int] && rest[2] == replies[5 + 2 * k as int]);
    lemma_coefficients_asked(t, rest);
}

/// A sensor that never becomes ready is given up after fifty questions.
pub proof fn law_setup_gives_up(s: BaroState, replies: Seq<Option<Seq<u8>>>)
    requires
        s.stage == SetupStage::AskId,
        replies.len() == 104,
        id_matches(replies[1]),
        forall|j: int| 0 <= j < 50 ==> !ready(#[trigger] replies[4 + 2 * j]),
    ensures
        setup_run(s, replies).1 == opening() + vain_polls(50) + seq![SetupStep::Done(false)],
        setup_run(s, replies).0 == (BaroState { present: false, ..s }),
{
    let d = replies.drop_last();
    assert forall|j: int| 0 <= j < 50 implies !ready(#[trigger] d[4 + 2 * j]) by {
        assert(d[4 + 2 * j] == replies[4 + 2 * j]);
    }
    lemma_polls(s, d, 50);
    assert(setup_run(s, replies).1 =~= opening() + vain_polls(50) + seq![SetupStep::Done(false)]);
}

/// Without the product id nothing but the id is touched.
pub proof fn law_absent_sensor_untouched(s: BaroState, replies: Seq<Option<Seq<u8>>>)
    requires
        s.stage == SetupStage::AskId,
        replies.len() == 2,
        !id_matches(replies[1]),
    ensures
        setup_run(s, replies).1 == seq![read_op(REG_ID, 1), SetupStep::Done(false)],
        setup_run(s, replies).0 == (BaroState { present: false, ..s }),
{
    reveal_with_fuel(setup_run, 3);
    assert(setup_run(s, replies).1 =~= seq![read_op(REG_ID, 1), SetupStep::Done(false)]);
}

/// The bus operations of a bring-up, as they go over the wire to address 0x76: the
/// identity from register 0x0D, the reset, 40 ms of waiting, readiness from
/// register 8 with 2 ms between two questions, 18 coefficient bytes from register
/// 0x10, and the configuration that starts continuous measuring. The identity is
/// 0x10, and there are at most fifty questions.
pub proof fn law_setup_operations(k: nat)
    requires
        k > 0,
    ensures
        opening() == seq![
            SetupStep::Bus(BusOp::Read { addr: 0x76, reg: 0x0D, len: 1 }),
            SetupStep::Bus(BusOp::Write { addr: 0x76, reg: 0x0C, value: 0x09 }),
            SetupStep::Bus(BusOp::DelayUs(40_000)),
        ],
        vain_polls(0).len() == 0,
        vain_polls(k) == vain_polls((k - 1) as nat) + seq![
            SetupStep::Bus(BusOp::Read { addr: 0x76, reg: 0x08, len: 1 }),
            SetupStep::Bus(BusOp::DelayUs(2_000)),
        ],
        seq![
            read_op(REG_MEAS_CFG, 1),
            read_op(REG_COEF, COEF_LEN),
            write_op(REG_PRS_CFG, PRS_CFG),
            write_op(REG_TMP_CFG, TMP_CFG),
            write_op(REG_CFG, 0x00),
            write_op(REG_MEAS_CFG, MEAS_CTRL_CONT),
        ] == seq![
            SetupStep::Bus(BusOp::Read { addr: 0x76, reg: 0x08, len: 1 }),
            SetupStep::Bus(BusOp::Read { addr: 0x76, reg: 0x10, len: 18 }),
            SetupStep::Bus(BusOp::Write { addr: 0x76, reg: 0x06, value: 0x33 }),
            SetupStep::Bus(BusOp::Write { addr: 0x76, reg: 0x07, value: 0xB3 }),
            SetupStep::Bus(BusOp::Write { addr: 0x76, reg: 0x09, value: 0x00 }),
            SetupStep::Bus(BusOp::Write { addr: 0x76, reg: 0x08, value: 0x07 }),
        ],
        MAX_POLLS == 50,
{
    assert(opening() =~= seq![
        SetupStep::Bus(BusOp::Read { addr: 0x76, reg: 0x0D, len: 1 }),
        SetupStep::Bus(BusOp::Write { addr: 0x76, reg: 0x0C, value: 0x09 }),
        SetupStep::Bus(BusOp::DelayUs(40_000)),
    ]);
}

/// What the replies mean: the product id is the one byte 0x10; readiness is one
/// byte whose two top bits are set; coefficients are 18 bytes. A failed transfer
/// means none of these.
pub proof fn law_replies(reply: Option<Seq<u8>>)
    ensures
        reply is None ==> !id_matches(reply) && !ready(reply) && !coef_read(reply),
        reply matches Some(b) ==> (id_matches(reply) <==> b.len() == 1 && b[0] == 0x10),
        reply matches Some(b) ==> (ready(reply) <==> b.len() == 1 && b[0] as int / 64 == 3),
        reply matches Some(b) ==> (coef_read(reply) <==> b.len() == 18),
{
}

/// `v` is the number of `n` bits, half of them negative, that leaves the
/// remainder of the field.
pub open spec fn is_field(v: int, field: int, range: int) -> bool {
    -range <= 2 * v < range && (field - v) % range == 0
}

/// The fields of the coefficients: two of 12 bits, two of 20 and five of 16, most
/// significant bit first and without gaps, all signed.
pub proof fn law_coefficient_fields(c: Seq<u8>)
    ensures
        ({
            let k = coefficients(c);
            &&& is_field(k.c0 as int, 16 * c[0] + c[1] as int / 16, 0x1000)
            &&& is_field(k.c1 as int, 256 * c[1] + c[2], 0x1000)
            &&& is_field(k.c00 as int, 0x1000 * c[3] + 16 * c[4] + c[5] as int / 16, 0x10_0000)
            &&& is_field(k.c10 as int, 0x1_0000 * c[5] + 256 * c[6] + c[7], 0x10_0000)
            &&& is_field(k.c01 as int, 256 * c[8] + c[9], 0x1_0000)
            &&& is_field(k.c11 as int, 256 * c[10] + c[11], 0x1_0000)
            &&& is_field(k.c20 as int, 256 * c[12] + c[13], 0x1_0000)
            &&& is_field(k.c21 as int, 256 * c[14] + c[15], 0x1_0000)
            &&& is_field(k.c30 as int, 256 * c[16] + c[17], 0x1_0000)
        }),
{
}

/// A raw value is a signed number of 24 bits, most significant byte first.
pub proof fn law_raw_value(b2: u8, b1: u8, b0: u8)
    ensures
        is_field(signed24(b2, b1, b0), 0x1_0000 * b2 + 256 * b1 + b0, 0x100_0000),
{
}

/// What [`Baro::read`] makes of the six bytes of a sample.
pub open spec fn sample_of(present: bool, reply: Option<Seq<u8>>) -> Option<RawSample> {
    match reply {
        Some(b) => if present {
            Some(
                RawSample {
                    pressure: signed24(b[0], b[1], b[2]) as i32,
                    temperature: signed24(b[3], b[4], b[5]) as i32,
                },
            )
        } else {
            None
        },
        None => None,
    }
}

/// A sample comes out exactly when there is a sensor and the transfer worked:
/// pressure from the first three bytes, temperature from the last three.
pub proof fn law_sample_read(present: bool, b: Seq<u8>)
    requires
        b.len() == 6,
    ensures
        sample_of(present, None) is None,
        sample_of(false, Some(b)) is None,
        ({
            let r = sample_of(true, Some(b));
            &&& r is Some
            &&& is_field(
                r->Some_0.pressure as int,
                0x1_0000 * b[0] + 256 * b[1] + b[2],
                0x100_0000,
            )
            &&& is_field(
                r->Some_0.temperature as int,
                0x1_0000 * b[3] + 256 * b[4] + b[5],
                0x100_0000,
            )
        }),
{
}

/// The launch reference is the first pressure above 30000 Pa, exactly; pressures
/// at or below it, and what is no number, leave it open.
pub proof fn law_reference_taken(p: F32Bits)
    ensures
        0x46EA_6000 < p.0 <= 0x7F80_0000 ==> referenced(None, p) == Some(p),
        !(0x46EA_6000 < p.0 <= 0x7F80_0000) ==> referenced(None, p) is None,
{
}

/// While the bring-up runs nothing but its own place changes, save that the
/// coefficients come with their reply: presence is settled only at the end, and
/// the ground reference is never touched.
pub proof fn law_setup_keeps_reference(s: BaroState, reply: Option<Seq<u8>>)
    ensures
        ({
            let (t, r) = setup_step(s, reply);
            &&& t.ground == s.ground
            &&& r is Done ==> t.stage == SetupStage::AskId && r == SetupStep::Done(t.present)
                && t.coef == s.coef
            &&& r is Bus ==> t.present == s.present
            &&& t.coef != s.coef ==> s.stage == SetupStage::CoefAnswer
        }),
{
}

} // verus!
