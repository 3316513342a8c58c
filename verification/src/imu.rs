//! InvenSense v3 IMU driver (ICM-426xx and ICM-456xy) over SPI: the bytes of
//! each transfer, the bring-up sequence and the decoding of a sample.
//!
//! Register reads set bit 7 of the address, writes clear it. The part is
//! identified by its WHO_AM_I register.

use crate::float::{F32Bits, ZERO_BITS};
use crate::wire::{i16_of, pattern16, signed16, u16_of};
use vstd::prelude::*;

verus! {

pub const REG_DEVICE_CONFIG: u8 = 0x11;

pub const REG_TEMP_DATA1: u8 = 0x1D;

pub const REG_PWR_MGMT0: u8 = 0x4E;

pub const REG_GYRO_CONFIG0: u8 = 0x4F;

pub const REG_ACCEL_CONFIG0: u8 = 0x50;

pub const REG_WHO_AM_I: u8 = 0x75;

/// Set in the address byte of a read.
pub const READ: u8 = 0x80;

/// Time for the device to come back from its reset.
pub const RESET_US: u32 = 2_000;

/// Time without register writes after the sensors are switched on.
pub const POWER_UP_US: u32 = 1_000;

/// Bytes of a sample transfer: the address and the data block.
pub const SAMPLE_LEN: usize = 15;

/// One accelerometer, gyroscope and temperature reading, raw counts.
#[derive(Clone, Copy)]
pub struct Sample {
    pub acc: [i16; 3],
    pub gyr: [i16; 3],
    pub temp: i16,
}

impl Default for Sample {
    fn default() -> (r: Self)
        ensures
            r.acc@ == seq![0i16, 0, 0],
            r.gyr@ == seq![0i16, 0, 0],
            r.temp == 0,
    {
        let r = Sample { acc: [0; 3], gyr: [0; 3], temp: 0 };
        assert(r.acc@ =~= seq![0i16, 0, 0]);
        assert(r.gyr@ =~= seq![0i16, 0, 0]);
        r
    }
}

/// Detection and health of an IMU.
#[derive(Clone, Copy, PartialEq, Eq, Structural)]
pub enum Health {
    /// Not probed yet.
    Unknown,
    /// WHO_AM_I matched a known part; the byte that was read.
    Healthy(u8),
    /// A dead bus or an unknown part; the byte that was read.
    Bad(u8),
}

impl Default for Health {
    fn default() -> (r: Self)
        ensures
            r == Health::Unknown,
    {
        Health::Unknown
    }
}

/// Whether a WHO_AM_I value belongs to a supported part.
pub open spec fn known(id: u8) -> bool {
    id == 0x47 || id == 0x42 || id == 0x6F || id == 0x49 || id == 0x67 || id == 0x3B || id == 0xE9
        || id == 0xDB
}

/// The name of the part with a WHO_AM_I value.
pub open spec fn label(id: u8) -> Seq<char> {
    if id == 0x47 {
        "ICM-42688-P"@
    } else if id == 0x42 {
        "ICM-42605"@
    } else if id == 0x6F {
        "IIM-42652"@
    } else if id == 0x49 {
        "ICM-42686-P"@
    } else if id == 0x67 {
        "ICM-42670-P"@
    } else if id == 0x3B {
        "ICM-40609-D"@
    } else if id == 0xE9 {
        "ICM-45686"@
    } else if id == 0xDB {
        "ICM-40605"@
    } else {
        "UNKNOWN-v3"@
    }
}

fn part_name(id: u8) -> (r: &'static str)
    ensures
        r@ == label(id),
{
    if id == 0x47 {
        "ICM-42688-P"
    } else if id == 0x42 {
        "ICM-42605"
    } else if id == 0x6F {
        "IIM-42652"
    } else if id == 0x49 {
        "ICM-42686-P"
    } else if id == 0x67 {
        "ICM-42670-P"
    } else if id == 0x3B {
        "ICM-40609-D"
    } else if id == 0xE9 {
        "ICM-45686"
    } else if id == 0xDB {
        "ICM-40605"
    } else {
        "UNKNOWN-v3"
    }
}

fn is_known(id: u8) -> (r: bool)
    ensures
        r == known(id),
{
    id == 0x47 || id == 0x42 || id == 0x6F || id == 0x49 || id == 0x67 || id == 0x3B || id == 0xE9
        || id == 0xDB
}

impl Health {
    /// The identity byte that was read; 0 before the probe.
    pub fn whoami(&self) -> (r: u8)
        ensures
            r == (match *self {
                Health::Healthy(id) => id,
                Health::Bad(id) => id,
                Health::Unknown => 0,
            }),
    {
        match self {
            Health::Healthy(id) => *id,
            Health::Bad(id) => *id,
            Health::Unknown => 0,
        }
    }

    pub fn name(&self) -> (r: &'static str)
        ensures
            r@ == (match *self {
                Health::Healthy(id) => label(id),
                Health::Bad(_) => "INVALID"@,
                Health::Unknown => "?"@,
            }),
    {
        match self {
            Health::Healthy(id) => part_name(*id),
            Health::Bad(_) => "INVALID",
            Health::Unknown => "?",
        }
    }

    /// Whether the IMU may be used.
    pub fn is_ok(&self) -> (r: bool)
        ensures
            r == (*self is Healthy),
    {
        match self {
            Health::Healthy(_) => true,
            _ => false,
        }
    }
}

/// Filtered output of one IMU in physical units: angular rate in deg/s,
/// acceleration in g, sensor frame.
#[derive(Clone, Copy)]
pub struct ImuOut {
    pub gyro: [F32Bits; 3],
    pub accel: [F32Bits; 3],
    pub health: Health,
}

/// The zero vector.
pub open spec fn zero3() -> Seq<F32Bits> {
    seq![F32Bits(ZERO_BITS), F32Bits(ZERO_BITS), F32Bits(ZERO_BITS)]
}

impl ImuOut {
    /// The output of an IMU that is not read: nothing but its health.
    pub fn unread(health: Health) -> (r: Self)
        ensures
            r.gyro@ == zero3(),
            r.accel@ == zero3(),
            r.health == health,
    {
        let z: F32Bits = F32Bits(ZERO_BITS);
        let r = ImuOut { gyro: [z, z, z], accel: [z, z, z], health };
        assert(r.gyro@ =~= zero3());
        assert(r.accel@ =~= zero3());
        r
    }
}

impl Default for ImuOut {
    fn default() -> (r: Self)
        ensures
            r.gyro@ == zero3(),
            r.accel@ == zero3(),
            r.health == Health::Unknown,
    {
        ImuOut::unread(Health::Unknown)
    }
}

/// What the bring-up asks for next.
#[derive(Clone, Copy, PartialEq, Eq, Structural)]
pub enum InitAction {
    /// Exchange two bytes with chip select low, and hand back the second one
    /// received.
    Transfer(u8, u8),
    /// Wait this many microseconds.
    DelayUs(u32),
    /// Bring-up is over.
    Done(Health),
}

/// The two bytes that read register `reg`.
pub open spec fn read_bytes(reg: u8) -> InitAction {
    InitAction::Transfer((reg % 128 + 128) as u8, 0)
}

/// The two bytes that write `val` to register `reg`.
pub open spec fn write_bytes(reg: u8, val: u8) -> InitAction {
    InitAction::Transfer((reg % 128) as u8, val)
}

fn read_reg(reg: u8) -> (r: InitAction)
    ensures
        r == read_bytes(reg),
{
    assert(reg | 0x80 == reg % 128 + 128) by (bit_vector);
    InitAction::Transfer(reg | READ, 0x00)
}

fn write_reg(reg: u8, val: u8) -> (r: InitAction)
    ensures
        r == write_bytes(reg, val),
{
    assert(reg & !0x80u8 == reg % 128) by (bit_vector);
    InitAction::Transfer(reg & !READ, val)
}

/// Where the bring-up stands.
#[derive(Clone, Copy, PartialEq, Eq, Structural)]
pub enum Stage {
    Reset,
    ResetWait,
    Identify,
    Identified,
    Accel,
    Power,
    PowerWait,
    Finish,
}

/// What an [`Imu`] holds.
pub struct ImuState {
    pub stage: Stage,
    /// The identity read in this bring-up.
    pub id: u8,
    pub health: Health,
}

/// The state after one step of the bring-up, given the last byte received, and
/// what to do next.
pub open spec fn init_step(s: ImuState, reply: u8) -> (ImuState, InitAction) {
    match s.stage {
        Stage::Reset => (
            ImuState { stage: Stage::ResetWait, ..s },
            write_bytes(REG_DEVICE_CONFIG, 0x01),
        ),
        Stage::ResetWait => (
            ImuState { stage: Stage::Identify, ..s },
            InitAction::DelayUs(RESET_US),
        ),
        Stage::Identify => (ImuState { stage: Stage::Identified, ..s }, read_bytes(REG_WHO_AM_I)),
        Stage::Identified => if known(reply) {
            (
                ImuState { stage: Stage::Accel, id: reply, ..s },
                write_bytes(REG_GYRO_CONFIG0, 0x06),
            )
        } else {
            (
                ImuState { stage: Stage::Reset, id: reply, health: Health::Bad(reply) },
                InitAction::Done(Health::Bad(reply)),
            )
        },
        Stage::Accel => (
            ImuState { stage: Stage::Power, ..s },
            write_bytes(REG_ACCEL_CONFIG0, 0x06),
        ),
        Stage::Power => (
            ImuState { stage: Stage::PowerWait, ..s },
            write_bytes(REG_PWR_MGMT0, 0x0F),
        ),
        Stage::PowerWait => (
            ImuState { stage: Stage::Finish, ..s },
            InitAction::DelayUs(POWER_UP_US),
        ),
        Stage::Finish => (
            ImuState { stage: Stage::Reset, health: Health::Healthy(s.id), ..s },
            InitAction::Done(Health::Healthy(s.id)),
        ),
    }
}

/// The signed 16-bit number at offset `i`, most significant byte first.
pub open spec fn be_i16_at(s: Seq<u8>, i: int) -> i16 {
    signed16(256 * s[i] + s[i + 1]) as i16
}

fn be(buf: &[u8; SAMPLE_LEN], hi: usize) -> (r: i16)
    requires
        hi < 14,
    ensures
        r == be_i16_at(buf@, hi as int),
{
    i16_of(u16_of(buf[hi + 1], buf[hi]))
}

/// An InvenSense v3 IMU.
pub struct Imu {
    stage: Stage,
    id: u8,
    pub health: Health,
}

impl View for Imu {
    type V = ImuState;

    closed spec fn view(&self) -> ImuState {
        ImuState { stage: self.stage, id: self.id, health: self.health }
    }
}

impl Imu {
    pub fn new() -> (r: Self)
        ensures
            r@ == (ImuState { stage: Stage::Reset, id: 0, health: Health::Unknown }),
    {
        Imu { stage: Stage::Reset, id: 0, health: Health::Unknown }
    }

    /// The detection result so far.
    pub fn health(&self) -> (r: Health)
        ensures
            r == self@.health,
    {
        self.health
    }

    /// One step of probe and configuration: 2000 deg/s and 16 g full scale,
    /// 1 kHz, both sensors in low-noise mode. `reply` is the last byte
    /// received; it is looked at only after the identity was read. Call again
    /// after each action until it says that bring-up is over.
    pub fn init(&mut self, reply: u8) -> (r: InitAction)
        ensures
            (final(self)@, r) == init_step(old(self)@, reply),
    {
        match self.stage {
            Stage::Reset => {
                self.stage = Stage::ResetWait;
                write_reg(REG_DEVICE_CONFIG, 0x01)
            },
            Stage::ResetWait => {
                self.stage = Stage::Identify;
                InitAction::DelayUs(RESET_US)
            },
            Stage::Identify => {
                self.stage = Stage::Identified;
                read_reg(REG_WHO_AM_I)
            },
            Stage::Identified => {
                self.id = reply;
                if reply == 0x00 || reply == 0xFF || !is_known(reply) {
                    self.stage = Stage::Reset;
                    self.health = Health::Bad(reply);
                    InitAction::Done(self.health)
                } else {
                    self.stage = Stage::Accel;
                    write_reg(REG_GYRO_CONFIG0, 0x06)
                }
            },
            Stage::Accel => {
                self.stage = Stage::Power;
                write_reg(REG_ACCEL_CONFIG0, 0x06)
            },
            Stage::Power => {
                self.stage = Stage::PowerWait;
                write_reg(REG_PWR_MGMT0, 0x0F)
            },
            Stage::PowerWait => {
                self.stage = Stage::Finish;
                InitAction::DelayUs(POWER_UP_US)
            },
            Stage::Finish => {
                self.stage = Stage::Reset;
                self.health = Health::Healthy(self.id);
                InitAction::Done(self.health)
            },
        }
    }

    /// The bytes to exchange for one sample: the read address of the data
    /// block, and room for its 14 bytes.
    pub fn read_request() -> (r: [u8; SAMPLE_LEN])
        ensures
            r@ == Seq::new(
                15,
                |i: int|
                    if i == 0 {
                        0x9Du8
                    } else {
                        0
                    },
            ),
    {
        assert(0x1Du8 | 0x80 == 0x9D) by (bit_vector);
        let mut buf: [u8; SAMPLE_LEN] = [0; SAMPLE_LEN];
        buf[0] = REG_TEMP_DATA1 | READ;
        assert(buf@ =~= Seq::new(
            15,
            |i: int|
                if i == 0 {
                    0x9Du8
                } else {
                    0
                },
        ));
        buf
    }

    /// The sample in the bytes received for [`Imu::read_request`]: temperature,
    /// acceleration and angular rate, high byte first.
    pub fn read(buf: &[u8; SAMPLE_LEN]) -> (r: Sample)
        ensures
            r.temp == be_i16_at(buf@, 1),
            r.acc@ == seq![be_i16_at(buf@, 3), be_i16_at(buf@, 5), be_i16_at(buf@, 7)],
            r.gyr@ == seq![be_i16_at(buf@, 9), be_i16_at(buf@, 11), be_i16_at(buf@, 13)],
            seq![r.temp] + r.acc@ + r.gyr@ == sample_words(buf@),
    {
        let r = Sample {
            temp: be(buf, 1),
            acc: [be(buf, 3), be(buf, 5), be(buf, 7)],
            gyr: [be(buf, 9), be(buf, 11), be(buf, 13)],
        };
        assert(r.acc@ =~= seq![be_i16_at(buf@, 3), be_i16_at(buf@, 5), be_i16_at(buf@, 7)]);
        assert(r.gyr@ =~= seq![be_i16_at(buf@, 9), be_i16_at(buf@, 11), be_i16_at(buf@, 13)]);
        r
    }
}

/// The whole bring-up of a device that answers `id`.
pub open spec fn script(id: u8) -> Seq<InitAction> {
    let probe = seq![
        write_bytes(REG_DEVICE_CONFIG, 0x01),
        InitAction::DelayUs(RESET_US),
        read_bytes(REG_WHO_AM_I),
    ];
    if known(id) {
        probe + seq![
            write_bytes(REG_GYRO_CONFIG0, 0x06),
            write_bytes(REG_ACCEL_CONFIG0, 0x06),
            write_bytes(REG_PWR_MGMT0, 0x0F),
            InitAction::DelayUs(POWER_UP_US),
            InitAction::Done(Health::Healthy(id)),
        ]
    } else {
        probe.push(InitAction::Done(Health::Bad(id)))
    }
}

/// The actions of `replies.len()` steps of the bring-up, and the state after
/// them.
pub open spec fn init_run(s: ImuState, replies: Seq<u8>) -> (ImuState, Seq<InitAction>)
    decreases replies.len(),
{
    if replies.len() == 0 {
        (s, Seq::empty())
    } else {
        let (t, actions) = init_run(s, replies.drop_last());
        let (u, action) = init_step(t, replies.last());
        (u, actions.push(action))
    }
}

/// Driven from the start with `id` as the answer to the identity read (the
/// fourth reply), the bring-up performs its script and nothing else, records
/// the health that it reports and can be started again. Other replies do not
/// matter.
pub proof fn law_bring_up(s: ImuState, replies: Seq<u8>, id: u8)
    requires
        s.stage == Stage::Reset,
        replies.len() == script(id).len(),
        replies[3] == id,
    ensures
        init_run(s, replies).1 == script(id),
        init_run(s, replies).0.stage == Stage::Reset,
        init_run(s, replies).0.health == if known(id) {
            Health::Healthy(id)
        } else {
            Health::Bad(id)
        },
{
    reveal_with_fuel(init_run, 9);
    assert(init_run(s, replies).1 =~= script(id));
}

/// A dead bus, all low or all high, is never taken for a part.
pub proof fn law_dead_bus_is_bad(id: u8)
    requires
        id == 0x00 || id == 0xFF,
    ensures
        script(id).last() == InitAction::Done(Health::Bad(id)),
{
}

/// High and low byte of the pattern of `v`, as the device sends them.
pub open spec fn be_pair(v: i16) -> Seq<u8> {
    let p = pattern16(v as int);
    seq![(p / 256) as u8, (p % 256) as u8]
}

/// A sample that the device puts on the wire is read back as it was.
pub proof fn law_sample_round_trip(first: u8, temp: i16, acc: Seq<i16>, gyr: Seq<i16>)
    requires
        acc.len() == 3,
        gyr.len() == 3,
    ensures
        ({
            let b = seq![first] + be_pair(temp) + be_pair(acc[0]) + be_pair(acc[1]) + be_pair(
                acc[2],
            ) + be_pair(gyr[0]) + be_pair(gyr[1]) + be_pair(gyr[2]);
            &&& b.len() == SAMPLE_LEN
            &&& be_i16_at(b, 1) == temp
            &&& seq![be_i16_at(b, 3), be_i16_at(b, 5), be_i16_at(b, 7)] == acc
            &&& seq![be_i16_at(b, 9), be_i16_at(b, 11), be_i16_at(b, 13)] == gyr
        }),
{
}

/// The parts that are known by their identity byte, and no others.
pub proof fn law_known_parts(id: u8)
    ensures
        known(id) <==> seq![0x47u8, 0x42, 0x6F, 0x49, 0x67, 0x3B, 0xE9, 0xDB].contains(id),
{
    let ids = seq![0x47u8, 0x42, 0x6F, 0x49, 0x67, 0x3B, 0xE9, 0xDB];
    if known(id) {
        assert(ids[0] == 0x47 && ids[1] == 0x42 && ids[2] == 0x6F && ids[3] == 0x49 && ids[4]
            == 0x67 && ids[5] == 0x3B && ids[6] == 0xE9 && ids[7] == 0xDB);
    }
}

/// The names of the parts.
pub proof fn law_part_names(id: u8)
    ensures
        label(0x47) == "ICM-42688-P"@,
        label(0x42) == "ICM-42605"@,
        label(0x6F) == "IIM-42652"@,
        label(0x49) == "ICM-42686-P"@,
        label(0x67) == "ICM-42670-P"@,
        label(0x3B) == "ICM-40609-D"@,
        label(0xE9) == "ICM-45686"@,
        label(0xDB) == "ICM-40605"@,
        !known(id) ==> label(id) == "UNKNOWN-v3"@,
{
}

/// The bring-up on the wire: reset, 2 ms of waiting, the identity from register
/// 0x75; for a known part both full scales at 1 kHz, both sensors on, 1 ms of
/// rest, and its health. An unknown part is configured in no way.
pub proof fn law_bring_up_bytes(id: u8)
    ensures
        known(id) ==> script(id) == seq![
            InitAction::Transfer(0x11, 0x01),
            InitAction::DelayUs(2_000),
            InitAction::Transfer(0xF5, 0x00),
            InitAction::Transfer(0x4F, 0x06),
            InitAction::Transfer(0x50, 0x06),
            InitAction::Transfer(0x4E, 0x0F),
            InitAction::DelayUs(1_000),
            InitAction::Done(Health::Healthy(id)),
        ],
        !known(id) ==> script(id) == seq![
            InitAction::Transfer(0x11, 0x01),
            InitAction::DelayUs(2_000),
            InitAction::Transfer(0xF5, 0x00),
            InitAction::Done(Health::Bad(id)),
        ],
{
    if known(id) {
        assert(script(id) =~= seq![
            InitAction::Transfer(0x11, 0x01),
            InitAction::DelayUs(2_000),
            InitAction::Transfer(0xF5, 0x00),
            InitAction::Transfer(0x4F, 0x06),
            InitAction::Transfer(0x50, 0x06),
            InitAction::Transfer(0x4E, 0x0F),
            InitAction::DelayUs(1_000),
            InitAction::Done(Health::Healthy(id)),
        ]);
    } else {
        assert(script(id) =~= seq![
            InitAction::Transfer(0x11, 0x01),
            InitAction::DelayUs(2_000),
            InitAction::Transfer(0xF5, 0x00),
            InitAction::Done(Health::Bad(id)),
        ]);
    }
}

/// A number of a sample is signed, of 16 bits, high byte first.
pub proof fn law_word_read(s: Seq<u8>, i: int)
    ensures
        (256 * s[i] + s[i + 1] - be_i16_at(s, i)) % 0x1_0000 == 0,
{
}

/// While the bring-up runs the health stays what it was.
pub proof fn law_health_at_end(s: ImuState, reply: u8)
    ensures
        ({
            let (t, a) = init_step(s, reply);
            &&& a matches InitAction::Done(h) ==> t.health == h && t.stage == Stage::Reset
            &&& !(a is Done) ==> t.health == s.health
        }),
{
}

/// The 15 bytes of a sample: behind the first one the temperature, the
/// acceleration along x, y, z and the angular rate about x, y, z, each of two.
pub open spec fn sample_words(b: Seq<u8>) -> Seq<i16> {
    Seq::new(7, |k: int| be_i16_at(b, 1 + 2 * k))
}

/// Each word of a sample is the signed number in its own two bytes.
pub proof fn law_sample_words(b: Seq<u8>, k: int)
    requires
        0 <= k < 7,
    ensures
        sample_words(b).len() == 7,
        (256 * b[1 + 2 * k] + b[2 + 2 * k] - sample_words(b)[k]) % 0x1_0000 == 0,
{
}

/// An IMU that was not read reports zeros.
pub proof fn law_unread_is_zero(i: int)
    requires
        0 <= i < 3,
    ensures
        zero3().len() == 3,
        zero3()[i].0 == 0,
{
}

} // verus!
