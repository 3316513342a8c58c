//! Allocation-free MAVLink 2 encoder for the messages that this firmware
//! emits.
//!
//! A frame is `0xFD`, nine header bytes (payload length, two flag bytes,
//! sequence, system, component, message id in three bytes), the payload, and a
//! CRC-16/MCRF4XX over header, payload and the message's extra byte. All fields
//! are little-endian.

use crate::float::{F32Bits, NAN_BITS};
use crate::wire::{
    law_bytes_add_up, law_eight_bytes_add_up, le2, le4, le8, le_bytes, lemma_le_bytes_len,
    pattern16, pattern32, pattern8, pattern_i16, pattern_i32, pattern_i8,
};
use heapless::Vec as Bounded;
use vstd::prelude::*;
use vstd::string::*;

verus! {

/// `MAV_SYS_STATUS` bit of the accelerometer.
pub const MAV_SYS_STATUS_SENSOR_3D_ACCEL: u32 = 2;

/// `MAV_SYS_STATUS` bit of the gyroscope.
pub const MAV_SYS_STATUS_SENSOR_3D_GYRO: u32 = 4;

pub const MSG_HEARTBEAT: u32 = 0;

pub const CRC_HEARTBEAT: u8 = 50;

pub const MSG_SYS_STATUS: u32 = 1;

pub const CRC_SYS_STATUS: u8 = 124;

pub const MSG_GPS_RAW_INT: u32 = 24;

pub const CRC_GPS_RAW_INT: u8 = 24;

pub const MSG_SCALED_PRESSURE: u32 = 29;

pub const CRC_SCALED_PRESSURE: u8 = 115;

pub const MSG_ATTITUDE: u32 = 30;

pub const CRC_ATTITUDE: u8 = 39;

pub const MSG_LOCAL_POSITION_NED: u32 = 32;

pub const CRC_LOCAL_POSITION_NED: u8 = 185;

pub const MSG_GLOBAL_POSITION_INT: u32 = 33;

pub const CRC_GLOBAL_POSITION_INT: u8 = 104;

pub const MSG_RC_CHANNELS: u32 = 65;

pub const CRC_RC_CHANNELS: u8 = 118;

pub const MSG_OPTICAL_FLOW: u32 = 100;

pub const CRC_OPTICAL_FLOW: u8 = 175;

pub const MSG_DISTANCE_SENSOR: u32 = 132;

pub const CRC_DISTANCE_SENSOR: u8 = 85;

pub const MSG_HIGHRES_IMU: u32 = 105;

pub const CRC_HIGHRES_IMU: u8 = 93;

pub const MSG_STATUSTEXT: u32 = 253;

pub const CRC_STATUSTEXT: u8 = 83;

pub const MSG_SCKY_IMU_STATUS: u32 = 42000;

pub const CRC_SCKY_IMU_STATUS: u8 = 38;

/// Bytes of text that a STATUSTEXT carries.
pub const STATUS_TEXT_LEN: usize = 50;

pub const STX_V2: u8 = 0xFD;

pub const SYSTEM_ID: u8 = 1;

pub const COMPONENT_ID: u8 = 1;

pub const MAX_FRAME_LEN: usize = 280;

pub const MAX_PAYLOAD_LEN: usize = 255;

/// One encoded frame.
pub type Frame = Bounded<u8, MAX_FRAME_LEN>;

/// `heapless::Vec`: a vector of at most `N` items, stored in place.
#[verifier::external_type_specification]
#[verifier::external_body]
#[verifier::reject_recursive_types(T)]
pub struct ExBounded<T, const N: usize>(Bounded<T, N>);

/// The bytes in a frame's vector, in order.
pub uninterp spec fn frame_bytes(v: Bounded<u8, MAX_FRAME_LEN>) -> Seq<u8>;

/// The bytes in a payload's vector, in order.
pub uninterp spec fn payload_bytes(v: Bounded<u8, MAX_PAYLOAD_LEN>) -> Seq<u8>;

/// `heapless::Vec::new`, at a capacity of 280: an empty vector.
#[verifier::external_body]
fn frame_new() -> (r: Bounded<u8, MAX_FRAME_LEN>)
    ensures
        frame_bytes(r) == Seq::<u8>::empty(),
{
    Bounded::new()
}

/// `heapless::Vec::push`, at a capacity of 280: appends the item while there
/// is room, and hands it back otherwise.
#[verifier::external_body]
fn frame_push(v: &mut Bounded<u8, MAX_FRAME_LEN>, b: u8) -> (r: Result<(), u8>)
    ensures
        r == (if frame_bytes(*old(v)).len() < MAX_FRAME_LEN {
            Ok(())
        } else {
            Err(b)
        }),
        frame_bytes(*final(v)) == (if frame_bytes(*old(v)).len() < MAX_FRAME_LEN {
            frame_bytes(*old(v)).push(b)
        } else {
            frame_bytes(*old(v))
        }),
{
    v.push(b)
}

/// `heapless::Vec::extend_from_slice`, at a capacity of 280: appends the whole
/// slice when it fits, and nothing otherwise.
#[verifier::external_body]
fn frame_extend(v: &mut Bounded<u8, MAX_FRAME_LEN>, s: &[u8]) -> (r: Result<(), ()>)
    ensures
        r == (if frame_bytes(*old(v)).len() + s@.len() <= MAX_FRAME_LEN {
            Ok(())
        } else {
            Err(())
        }),
        frame_bytes(*final(v)) == (if frame_bytes(*old(v)).len() + s@.len() <= MAX_FRAME_LEN {
            frame_bytes(*old(v)) + s@
        } else {
            frame_bytes(*old(v))
        }),
{
    v.extend_from_slice(s)
}

/// `heapless::Vec::new`, at a capacity of 255: an empty vector.
#[verifier::external_body]
fn payload_new() -> (r: Bounded<u8, MAX_PAYLOAD_LEN>)
    ensures
        payload_bytes(r) == Seq::<u8>::empty(),
{
    Bounded::new()
}

/// `heapless::Vec::push`, at a capacity of 255: appends the item while there
/// is room, and hands it back otherwise.
#[verifier::external_body]
fn payload_push(v: &mut Bounded<u8, MAX_PAYLOAD_LEN>, b: u8) -> (r: Result<(), u8>)
    ensures
        r == (if payload_bytes(*old(v)).len() < MAX_PAYLOAD_LEN {
            Ok(())
        } else {
            Err(b)
        }),
        payload_bytes(*final(v)) == (if payload_bytes(*old(v)).len() < MAX_PAYLOAD_LEN {
            payload_bytes(*old(v)).push(b)
        } else {
            payload_bytes(*old(v))
        }),
{
    v.push(b)
}

/// `heapless::Vec::extend_from_slice`, at a capacity of 255: appends the whole
/// slice when it fits, and nothing otherwise.
#[verifier::external_body]
fn payload_extend(v: &mut Bounded<u8, MAX_PAYLOAD_LEN>, s: &[u8]) -> (r: Result<(), ()>)
    ensures
        r == (if payload_bytes(*old(v)).len() + s@.len() <= MAX_PAYLOAD_LEN {
            Ok(())
        } else {
            Err(())
        }),
        payload_bytes(*final(v)) == (if payload_bytes(*old(v)).len() + s@.len() <= MAX_PAYLOAD_LEN {
            payload_bytes(*old(v)) + s@
        } else {
            payload_bytes(*old(v))
        }),
{
    v.extend_from_slice(s)
}

/// `heapless::Vec::as_slice`, at a capacity of 255: the contents.
#[verifier::external_body]
fn payload_slice(v: &Bounded<u8, MAX_PAYLOAD_LEN>) -> (r: &[u8])
    ensures
        r@ == payload_bytes(*v),
{
    v.as_slice()
}

/// One bit of the reflected division by the polynomial of CRC-16/MCRF4XX.
pub open spec fn x25_bit(c: u16) -> u16 {
    if c & 1 == 1 {
        (c >> 1) ^ 0x8408
    } else {
        c >> 1
    }
}

/// `n` bits of division.
pub open spec fn x25_bits(c: u16, n: nat) -> u16
    decreases n,
{
    if n == 0 {
        c
    } else {
        x25_bit(x25_bits(c, (n - 1) as nat))
    }
}

/// The remainder after one more byte.
pub open spec fn x25_step(crc: u16, byte: u8) -> u16 {
    x25_bits(crc ^ (byte as u16), 8)
}

/// The remainder of a whole message, starting from `init`.
pub open spec fn x25_over(init: u16, s: Seq<u8>) -> u16
    decreases s.len(),
{
    if s.len() == 0 {
        init
    } else {
        x25_step(x25_over(init, s.drop_last()), s.last())
    }
}

/// The byte-wise form of [`x25_step`].
pub open spec fn x25_by_byte(byte: u8, crc: u16) -> u16 {
    let t = byte ^ (crc as u8);
    let u = t ^ (t << 4);
    (crc >> 8) ^ ((u as u16) << 8) ^ ((u as u16) << 3) ^ ((u as u16) >> 4)
}

proof fn lemma_by_byte(
    byte: u8,
    crc: u16,
    c1: u16,
    c2: u16,
    c3: u16,
    c4: u16,
    c5: u16,
    c6: u16,
    c7: u16,
)
    by (bit_vector)
    requires
        c1 == x25_bit(crc ^ (byte as u16)),
        c2 == x25_bit(c1),
        c3 == x25_bit(c2),
        c4 == x25_bit(c3),
        c5 == x25_bit(c4),
        c6 == x25_bit(c5),
        c7 == x25_bit(c6),
    ensures
        x25_by_byte(byte, crc) == x25_bit(c7),
{
}

/// One byte of CRC-16/MCRF4XX.
fn crc_accumulate(byte: u8, crc: u16) -> (r: u16)
    ensures
        r == x25_step(crc, byte),
{
    proof {
        let c0 = crc ^ (byte as u16);
        reveal_with_fuel(x25_bits, 9);
        lemma_by_byte(
            byte,
            crc,
            x25_bits(c0, 1),
            x25_bits(c0, 2),
            x25_bits(c0, 3),
            x25_bits(c0, 4),
            x25_bits(c0, 5),
            x25_bits(c0, 6),
            x25_bits(c0, 7),
        );
    }
    let mut tmp: u8 = byte ^ (crc as u8);
    tmp = tmp ^ (tmp << 4);
    (crc >> 8) ^ ((tmp as u16) << 8) ^ ((tmp as u16) << 3) ^ ((tmp as u16) >> 4)
}

/// The nine header bytes of a frame.
pub open spec fn header_of(sequence: u8, message_id: u32, payload_len: nat) -> Seq<u8> {
    seq![payload_len as u8, 0, 0, sequence, SYSTEM_ID, COMPONENT_ID] + le_bytes(
        message_id as nat,
        3,
    )
}

/// The whole frame for a payload.
pub open spec fn frame_of(sequence: u8, message_id: u32, crc_extra: u8, payload: Seq<u8>) -> Seq<
    u8,
> {
    let covered = header_of(sequence, message_id, payload.len()) + payload;
    seq![STX_V2] + covered + le_bytes(x25_over(0xFFFF, covered.push(crc_extra)) as nat, 2)
}

struct Payload {
    bytes: Bounded<u8, MAX_PAYLOAD_LEN>,
}

impl Payload {
    spec fn p(&self) -> Seq<u8> {
        payload_bytes(self.bytes)
    }

    fn new() -> (r: Self)
        ensures
            r.p() == Seq::<u8>::empty(),
    {
        Payload { bytes: payload_new() }
    }

    fn as_slice(&self) -> (r: &[u8])
        ensures
            r@ == self.p(),
    {
        payload_slice(&self.bytes)
    }

    fn u8(&mut self, value: u8)
        requires
            old(self).p().len() < MAX_PAYLOAD_LEN,
        ensures
            final(self).p() == old(self).p().push(value),
    {
        let _ = payload_push(&mut self.bytes, value);
    }

    fn i8(&mut self, value: i8)
        requires
            old(self).p().len() < MAX_PAYLOAD_LEN,
        ensures
            final(self).p() == old(self).p().push(pattern8(value as int) as u8),
    {
        self.u8(pattern_i8(value));
    }

    fn u16(&mut self, value: u16)
        requires
            old(self).p().len() + 2 <= MAX_PAYLOAD_LEN,
        ensures
            final(self).p() == old(self).p() + le_bytes(value as nat, 2),
            final(self).p().len() == old(self).p().len() + 2,
    {
        let b: [u8; 2] = le2(value);
        let _ = payload_extend(&mut self.bytes, b.as_slice());
    }

    fn i16(&mut self, value: i16)
        requires
            old(self).p().len() + 2 <= MAX_PAYLOAD_LEN,
        ensures
            final(self).p() == old(self).p() + le_bytes(pattern16(value as int), 2),
            final(self).p().len() == old(self).p().len() + 2,
    {
        self.u16(pattern_i16(value));
    }

    fn u32(&mut self, value: u32)
        requires
            old(self).p().len() + 4 <= MAX_PAYLOAD_LEN,
        ensures
            final(self).p() == old(self).p() + le_bytes(value as nat, 4),
            final(self).p().len() == old(self).p().len() + 4,
    {
        let b: [u8; 4] = le4(value);
        let _ = payload_extend(&mut self.bytes, b.as_slice());
    }

    fn i32(&mut self, value: i32)
        requires
            old(self).p().len() + 4 <= MAX_PAYLOAD_LEN,
        ensures
            final(self).p() == old(self).p() + le_bytes(pattern32(value as int), 4),
            final(self).p().len() == old(self).p().len() + 4,
    {
        self.u32(pattern_i32(value));
    }

    fn u64(&mut self, value: u64)
        requires
            old(self).p().len() + 8 <= MAX_PAYLOAD_LEN,
        ensures
            final(self).p() == old(self).p() + le_bytes(value as nat, 8),
            final(self).p().len() == old(self).p().len() + 8,
    {
        let b: [u8; 8] = le8(value);
        let _ = payload_extend(&mut self.bytes, b.as_slice());
    }

    fn float(&mut self, value: F32Bits)
        requires
            old(self).p().len() + 4 <= MAX_PAYLOAD_LEN,
        ensures
            final(self).p() == old(self).p() + le_bytes(value.0 as nat, 4),
            final(self).p().len() == old(self).p().len() + 4,
    {
        self.u32(value.0);
    }

    fn float3(&mut self, v: [F32Bits; 3])
        requires
            old(self).p().len() + 12 <= MAX_PAYLOAD_LEN,
        ensures
            final(self).p() == old(self).p() + vec3(v@),
            final(self).p().len() == old(self).p().len() + 12,
    {
        self.float(v[0]);
        self.float(v[1]);
        self.float(v[2]);
        assert(self.p() =~= old(self).p() + vec3(v@));
    }
}

/// Three numbers on the wire.
pub open spec fn vec3(v: Seq<F32Bits>) -> Seq<u8> {
    le_bytes(v[0].0 as nat, 4) + le_bytes(v[1].0 as nat, 4) + le_bytes(v[2].0 as nat, 4)
}

/// Payload of [`Encoder::heartbeat`].
pub open spec fn heartbeat_payload() -> Seq<u8> {
    le_bytes(0, 4) + seq![2u8] + seq![0u8] + seq![0u8] + seq![4u8] + seq![3u8]
}

/// Payload of [`Encoder::sys_status`].
pub open spec fn sys_status_payload(sensors_present: u32, sensors_healthy: u32) -> Seq<u8> {
    le_bytes(sensors_present as nat, 4) + le_bytes(sensors_present as nat, 4) + le_bytes(sensors_healthy as nat, 4) + le_bytes(0, 2) + le_bytes(0xFFFF, 2) + le_bytes(pattern16(-1), 2) + le_bytes(0, 2) + le_bytes(0, 2) + le_bytes(0, 2) + le_bytes(0, 2) + le_bytes(0, 2) + le_bytes(0, 2) + seq![pattern8(-1) as u8]
}

/// Payload of [`Encoder::scaled_pressure`].
pub open spec fn scaled_pressure_payload(time_boot_ms: u32, press_abs_hpa: F32Bits, press_diff_hpa: F32Bits, temperature_cdeg: i16) -> Seq<u8> {
    le_bytes(time_boot_ms as nat, 4) + le_bytes(press_abs_hpa.0 as nat, 4) + le_bytes(press_diff_hpa.0 as nat, 4) + le_bytes(pattern16(temperature_cdeg as int), 2)
}

/// Payload of [`Encoder::attitude`].
pub open spec fn attitude_payload(time_boot_ms: u32, roll_rad: F32Bits, pitch_rad: F32Bits, yaw_rad: F32Bits, rollspeed: F32Bits, pitchspeed: F32Bits, yawspeed: F32Bits) -> Seq<u8> {
    le_bytes(time_boot_ms as nat, 4) + le_bytes(roll_rad.0 as nat, 4) + le_bytes(pitch_rad.0 as nat, 4) + le_bytes(yaw_rad.0 as nat, 4) + le_bytes(rollspeed.0 as nat, 4) + le_bytes(pitchspeed.0 as nat, 4) + le_bytes(yawspeed.0 as nat, 4)
}

/// Payload of [`Encoder::local_position_ned`].
pub open spec fn local_position_ned_payload(time_boot_ms: u32, x: F32Bits, y: F32Bits, z: F32Bits, vx: F32Bits, vy: F32Bits, vz: F32Bits) -> Seq<u8> {
    le_bytes(time_boot_ms as nat, 4) + le_bytes(x.0 as nat, 4) + le_bytes(y.0 as nat, 4) + le_bytes(z.0 as nat, 4) + le_bytes(vx.0 as nat, 4) + le_bytes(vy.0 as nat, 4) + le_bytes(vz.0 as nat, 4)
}

/// Payload of [`Encoder::global_position_int`].
pub open spec fn global_position_int_payload(time_boot_ms: u32, lat_e7: i32, lon_e7: i32, alt_mm: i32, relative_alt_mm: i32, vx_cms: i16, vy_cms: i16, vz_cms: i16, hdg_cdeg: u16) -> Seq<u8> {
    le_bytes(time_boot_ms as nat, 4) + le_bytes(pattern32(lat_e7 as int), 4) + le_bytes(pattern32(lon_e7 as int), 4) + le_bytes(pattern32(alt_mm as int), 4) + le_bytes(pattern32(relative_alt_mm as int), 4) + le_bytes(pattern16(vx_cms as int), 2) + le_bytes(pattern16(vy_cms as int), 2) + le_bytes(pattern16(vz_cms as int), 2) + le_bytes(hdg_cdeg as nat, 2)
}

/// Payload of [`Encoder::gps_raw_int`].
pub open spec fn gps_raw_int_payload(time_usec: u64, fix_type: u8, lat_e7: i32, lon_e7: i32, alt_mm: i32, eph: u16, vel_cms: u16, cog_cdeg: u16, sats: u8) -> Seq<u8> {
    le_bytes(time_usec as nat, 8) + le_bytes(pattern32(lat_e7 as int), 4) + le_bytes(pattern32(lon_e7 as int), 4) + le_bytes(pattern32(alt_mm as int), 4) + le_bytes(eph as nat, 2) + le_bytes(0xFFFF, 2) + le_bytes(vel_cms as nat, 2) + le_bytes(cog_cdeg as nat, 2) + seq![fix_type] + seq![sats]
}

/// Payload of [`Encoder::imu_status`].
pub open spec fn imu_status_payload(time_boot_ms: u32, imu_id: u8, connected: bool, healthy: bool, whoami: u8) -> Seq<u8> {
    le_bytes(time_boot_ms as nat, 4) + seq![imu_id] + seq![flag_byte(connected)] + seq![flag_byte(healthy)] + seq![whoami]
}

/// Payload of [`Encoder::distance_sensor`].
pub open spec fn distance_sensor_payload(time_boot_ms: u32, min_cm: u16, max_cm: u16, current_cm: u16, orientation: u8, id: u8) -> Seq<u8> {
    le_bytes(time_boot_ms as nat, 4) + le_bytes(min_cm as nat, 2) + le_bytes(max_cm as nat, 2) + le_bytes(current_cm as nat, 2) + seq![0u8] + seq![id] + seq![orientation] + seq![0u8]
}

/// Payload of [`Encoder::optical_flow`].
pub open spec fn optical_flow_payload(time_usec: u64, flow_x: i16, flow_y: i16, flow_comp_m_x: F32Bits, flow_comp_m_y: F32Bits, ground_distance: F32Bits, quality: u8) -> Seq<u8> {
    le_bytes(time_usec as nat, 8) + le_bytes(flow_comp_m_x.0 as nat, 4) + le_bytes(flow_comp_m_y.0 as nat, 4) + le_bytes(ground_distance.0 as nat, 4) + le_bytes(pattern16(flow_x as int), 2) + le_bytes(pattern16(flow_y as int), 2) + seq![0u8] + seq![quality]
}

/// Payload of [`Encoder::highres_imu`]. Bits 0..5 of the update mask stand for
/// acceleration and angular velocity, bits 6..8 for the magnetic field.
pub open spec fn highres_imu_payload(
    time_usec: u64,
    id: u8,
    accel: Seq<F32Bits>,
    gyro: Seq<F32Bits>,
    mag: Option<Seq<F32Bits>>,
) -> Seq<u8> {
    let nan = le_bytes(NAN_BITS as nat, 4);
    let (field, updated) = match mag {
        Some(m) => (vec3(m), 0x01FFnat),
        None => (nan + nan + nan, 0x003Fnat),
    };
    le_bytes(time_usec as nat, 8) + vec3(accel) + vec3(gyro) + field + nan + nan + nan + nan
        + le_bytes(updated, 2) + seq![id]
}

/// Payload of [`Encoder::statustext`]: the severity and the first 50 bytes of
/// the text, with zeros after its end.
pub open spec fn statustext_payload(severity: u8, text: Seq<u8>) -> Seq<u8> {
    seq![severity] + Seq::new(
        50,
        |i: int|
            if i < text.len() {
                text[i]
            } else {
                0
            },
    )
}

/// A list of 16-bit numbers on the wire.
pub open spec fn u16_list(s: Seq<u16>) -> Seq<u8>
    decreases s.len(),
{
    if s.len() == 0 {
        Seq::empty()
    } else {
        u16_list(s.drop_last()) + le_bytes(s.last() as nat, 2)
    }
}

/// Payload of [`Encoder::rc_channels`].
pub open spec fn rc_channels_payload(
    time_boot_ms: u32,
    chancount: u8,
    ch: Seq<u16>,
    rssi: u8,
) -> Seq<u8> {
    le_bytes(time_boot_ms as nat, 4) + u16_list(ch) + seq![chancount, rssi]
}

/// The byte that stands for a flag.
pub open spec fn flag_byte(b: bool) -> u8 {
    if b {
        1
    } else {
        0
    }
}

fn flag(b: bool) -> (r: u8)
    ensures
        r == flag_byte(b),
{
    if b {
        1
    } else {
        0
    }
}

/// Stateful MAVLink encoder. Sequence numbers are shared by all messages on
/// one link.
pub struct Encoder {
    sequence: u8,
}

impl View for Encoder {
    type V = u8;

    /// The sequence number of the next frame.
    closed spec fn view(&self) -> u8 {
        self.sequence
    }
}

impl Encoder {
    pub fn new() -> (r: Self)
        ensures
            r@ == 0,
    {
        Encoder { sequence: 0 }
    }

    /// HEARTBEAT (message 0): a quadrotor, active, not armed.
    pub fn heartbeat(&mut self) -> (r: Frame)
        ensures
            frame_bytes(r) == frame_of(
                old(self)@,
                MSG_HEARTBEAT,
                CRC_HEARTBEAT,
                heartbeat_payload(),
            ),
            final(self)@ == next_sequence(old(self)@),
    {
        let mut p = Payload::new();
        p.u32(0);
        p.u8(2);
        p.u8(0);
        p.u8(0);
        p.u8(4);
        p.u8(3);
        assert(p.p() =~= heartbeat_payload());
        self.frame(MSG_HEARTBEAT, CRC_HEARTBEAT, p.as_slice())
    }

    /// SYS_STATUS (message 1). All sensors that are present are enabled; load,
    /// battery and error counts are reported as unavailable.
    pub fn sys_status(&mut self, sensors_present: u32, sensors_healthy: u32) -> (r: Frame)
        ensures
            frame_bytes(r) == frame_of(
                old(self)@,
                MSG_SYS_STATUS,
                CRC_SYS_STATUS,
                sys_status_payload(sensors_present, sensors_healthy),
            ),
            final(self)@ == next_sequence(old(self)@),
    {
        let mut p = Payload::new();
        p.u32(sensors_present);
        p.u32(sensors_present);
        p.u32(sensors_healthy);
        p.u16(0);
        p.u16(0xFFFF);
        p.i16(-1);
        p.u16(0);
        p.u16(0);
        p.u16(0);
        p.u16(0);
        p.u16(0);
        p.u16(0);
        p.i8(-1);
        assert(p.p() =~= sys_status_payload(sensors_present, sensors_healthy));
        self.frame(MSG_SYS_STATUS, CRC_SYS_STATUS, p.as_slice())
    }

    /// SCALED_PRESSURE (message 29): pressures in hPa, temperature in hundredths
    /// of a degree Celsius.
    pub fn scaled_pressure(&mut self, time_boot_ms: u32, press_abs_hpa: F32Bits, press_diff_hpa: F32Bits, temperature_cdeg: i16) -> (r: Frame)
        ensures
            frame_bytes(r) == frame_of(
                old(self)@,
                MSG_SCALED_PRESSURE,
                CRC_SCALED_PRESSURE,
                scaled_pressure_payload(time_boot_ms, press_abs_hpa, press_diff_hpa, temperature_cdeg),
            ),
            final(self)@ == next_sequence(old(self)@),
    {
        let mut p = Payload::new();
        p.u32(time_boot_ms);
        p.float(press_abs_hpa);
        p.float(press_diff_hpa);
        p.i16(temperature_cdeg);
        assert(p.p() =~= scaled_pressure_payload(time_boot_ms, press_abs_hpa, press_diff_hpa, temperature_cdeg));
        self.frame(MSG_SCALED_PRESSURE, CRC_SCALED_PRESSURE, p.as_slice())
    }

    /// ATTITUDE (message 30): angles in radians, rates in rad/s.
    pub fn attitude(&mut self, time_boot_ms: u32, roll_rad: F32Bits, pitch_rad: F32Bits, yaw_rad: F32Bits, rollspeed: F32Bits, pitchspeed: F32Bits, yawspeed: F32Bits) -> (r: Frame)
        ensures
            frame_bytes(r) == frame_of(
                old(self)@,
                MSG_ATTITUDE,
                CRC_ATTITUDE,
                attitude_payload(time_boot_ms, roll_rad, pitch_rad, yaw_rad, rollspeed, pitchspeed, yawspeed),
            ),
            final(self)@ == next_sequence(old(self)@),
    {
        let mut p = Payload::new();
        p.u32(time_boot_ms);
        p.float(roll_rad);
        p.float(pitch_rad);
        p.float(yaw_rad);
        p.float(rollspeed);
        p.float(pitchspeed);
        p.float(yawspeed);
        assert(p.p() =~= attitude_payload(time_boot_ms, roll_rad, pitch_rad, yaw_rad, rollspeed, pitchspeed, yawspeed));
        self.frame(MSG_ATTITUDE, CRC_ATTITUDE, p.as_slice())
    }

    /// LOCAL_POSITION_NED (message 32): position in metres and velocity in m/s,
    /// z down.
    pub fn local_position_ned(&mut self, time_boot_ms: u32, x: F32Bits, y: F32Bits, z: F32Bits, vx: F32Bits, vy: F32Bits, vz: F32Bits) -> (r: Frame)
        ensures
            frame_bytes(r) == frame_of(
                old(self)@,
                MSG_LOCAL_POSITION_NED,
                CRC_LOCAL_POSITION_NED,
                local_position_ned_payload(time_boot_ms, x, y, z, vx, vy, vz),
            ),
            final(self)@ == next_sequence(old(self)@),
    {
        let mut p = Payload::new();
        p.u32(time_boot_ms);
        p.float(x);
        p.float(y);
        p.float(z);
        p.float(vx);
        p.float(vy);
        p.float(vz);
        assert(p.p() =~= local_position_ned_payload(time_boot_ms, x, y, z, vx, vy, vz));
        self.frame(MSG_LOCAL_POSITION_NED, CRC_LOCAL_POSITION_NED, p.as_slice())
    }

    /// GLOBAL_POSITION_INT (message 33): position in 1e-7 degrees, altitudes in
    /// mm, velocities in cm/s, heading in hundredths of a degree (65535 is
    /// unknown).
    pub fn global_position_int(&mut self, time_boot_ms: u32, lat_e7: i32, lon_e7: i32, alt_mm: i32, relative_alt_mm: i32, vx_cms: i16, vy_cms: i16, vz_cms: i16, hdg_cdeg: u16) -> (r: Frame)
        ensures
            frame_bytes(r) == frame_of(
                old(self)@,
                MSG_GLOBAL_POSITION_INT,
                CRC_GLOBAL_POSITION_INT,
                global_position_int_payload(time_boot_ms, lat_e7, lon_e7, alt_mm, relative_alt_mm, vx_cms, vy_cms, vz_cms, hdg_cdeg),
            ),
            final(self)@ == next_sequence(old(self)@),
    {
        let mut p = Payload::new();
        p.u32(time_boot_ms);
        p.i32(lat_e7);
        p.i32(lon_e7);
        p.i32(alt_mm);
        p.i32(relative_alt_mm);
        p.i16(vx_cms);
        p.i16(vy_cms);
        p.i16(vz_cms);
        p.u16(hdg_cdeg);
        assert(p.p() =~= global_position_int_payload(time_boot_ms, lat_e7, lon_e7, alt_mm, relative_alt_mm, vx_cms, vy_cms, vz_cms, hdg_cdeg));
        self.frame(MSG_GLOBAL_POSITION_INT, CRC_GLOBAL_POSITION_INT, p.as_slice())
    }

    /// GPS_RAW_INT (message 24): position in 1e-7 degrees, altitude in mm, HDOP
    /// in hundredths, speed in cm/s, course in hundredths of a degree. The
    /// vertical dilution is unknown.
    pub fn gps_raw_int(&mut self, time_usec: u64, fix_type: u8, lat_e7: i32, lon_e7: i32, alt_mm: i32, eph: u16, vel_cms: u16, cog_cdeg: u16, sats: u8) -> (r: Frame)
        ensures
            frame_bytes(r) == frame_of(
                old(self)@,
                MSG_GPS_RAW_INT,
                CRC_GPS_RAW_INT,
                gps_raw_int_payload(time_usec, fix_type, lat_e7, lon_e7, alt_mm, eph, vel_cms, cog_cdeg, sats),
            ),
            final(self)@ == next_sequence(old(self)@),
    {
        let mut p = Payload::new();
        p.u64(time_usec);
        p.i32(lat_e7);
        p.i32(lon_e7);
        p.i32(alt_mm);
        p.u16(eph);
        p.u16(0xFFFF);
        p.u16(vel_cms);
        p.u16(cog_cdeg);
        p.u8(fix_type);
        p.u8(sats);
        assert(p.p() =~= gps_raw_int_payload(time_usec, fix_type, lat_e7, lon_e7, alt_mm, eph, vel_cms, cog_cdeg, sats));
        self.frame(MSG_GPS_RAW_INT, CRC_GPS_RAW_INT, p.as_slice())
    }

    /// SCKY_IMU_STATUS (message 42000): connection, health and identity of one
    /// IMU.
    pub fn imu_status(&mut self, time_boot_ms: u32, imu_id: u8, connected: bool, healthy: bool, whoami: u8) -> (r: Frame)
        ensures
            frame_bytes(r) == frame_of(
                old(self)@,
                MSG_SCKY_IMU_STATUS,
                CRC_SCKY_IMU_STATUS,
                imu_status_payload(time_boot_ms, imu_id, connected, healthy, whoami),
            ),
            final(self)@ == next_sequence(old(self)@),
    {
        let mut p = Payload::new();
        p.u32(time_boot_ms);
        p.u8(imu_id);
        p.u8(flag(connected));
        p.u8(flag(healthy));
        p.u8(whoami);
        assert(p.p() =~= imu_status_payload(time_boot_ms, imu_id, connected, healthy, whoami));
        self.frame(MSG_SCKY_IMU_STATUS, CRC_SCKY_IMU_STATUS, p.as_slice())
    }

    /// DISTANCE_SENSOR (message 132): distances in cm from a laser rangefinder;
    /// `orientation` is 25 for down, 0 forward, 2 right, 6 left, and `id` tells
    /// several apart.
    pub fn distance_sensor(&mut self, time_boot_ms: u32, min_cm: u16, max_cm: u16, current_cm: u16, orientation: u8, id: u8) -> (r: Frame)
        ensures
            frame_bytes(r) == frame_of(
                old(self)@,
                MSG_DISTANCE_SENSOR,
                CRC_DISTANCE_SENSOR,
                distance_sensor_payload(time_boot_ms, min_cm, max_cm, current_cm, orientation, id),
            ),
            final(self)@ == next_sequence(old(self)@),
    {
        let mut p = Payload::new();
        p.u32(time_boot_ms);
        p.u16(min_cm);
        p.u16(max_cm);
        p.u16(current_cm);
        p.u8(0);
        p.u8(id);
        p.u8(orientation);
        p.u8(0);
        assert(p.p() =~= distance_sensor_payload(time_boot_ms, min_cm, max_cm, current_cm, orientation, id));
        self.frame(MSG_DISTANCE_SENSOR, CRC_DISTANCE_SENSOR, p.as_slice())
    }

    /// OPTICAL_FLOW (message 100): raw flow, ground velocities in m/s, height in
    /// m, quality 0..255.
    pub fn optical_flow(&mut self, time_usec: u64, flow_x: i16, flow_y: i16, flow_comp_m_x: F32Bits, flow_comp_m_y: F32Bits, ground_distance: F32Bits, quality: u8) -> (r: Frame)
        ensures
            frame_bytes(r) == frame_of(
                old(self)@,
                MSG_OPTICAL_FLOW,
                CRC_OPTICAL_FLOW,
                optical_flow_payload(time_usec, flow_x, flow_y, flow_comp_m_x, flow_comp_m_y, ground_distance, quality),
            ),
            final(self)@ == next_sequence(old(self)@),
    {
        let mut p = Payload::new();
        p.u64(time_usec);
        p.float(flow_comp_m_x);
        p.float(flow_comp_m_y);
        p.float(ground_distance);
        p.i16(flow_x);
        p.i16(flow_y);
        p.u8(0);
        p.u8(quality);
        assert(p.p() =~= optical_flow_payload(time_usec, flow_x, flow_y, flow_comp_m_x, flow_comp_m_y, ground_distance, quality));
        self.frame(MSG_OPTICAL_FLOW, CRC_OPTICAL_FLOW, p.as_slice())
    }

    /// HIGHRES_IMU (message 105). Acceleration is in m/s^2, angular velocity in
    /// rad/s, the magnetic field in Gauss; `id` is the physical IMU. Without a
    /// magnetometer its fields are NaN and their update bits clear; pressure,
    /// altitude and temperature are never measured here.
    pub fn highres_imu(
        &mut self,
        time_usec: u64,
        id: u8,
        accel: [F32Bits; 3],
        gyro: [F32Bits; 3],
        mag: Option<[F32Bits; 3]>,
    ) -> (r: Frame)
        ensures
            frame_bytes(r) == frame_of(
                old(self)@,
                MSG_HIGHRES_IMU,
                CRC_HIGHRES_IMU,
                highres_imu_payload(
                    time_usec,
                    id,
                    accel@,
                    gyro@,
                    match mag {
                        Some(m) => Some(m@),
                        None => None,
                    },
                ),
            ),
            final(self)@ == next_sequence(old(self)@),
    {
        let mut p = Payload::new();
        p.u64(time_usec);
        p.float3(accel);
        p.float3(gyro);
        let nan: F32Bits = F32Bits(NAN_BITS);
        let updated: u16 = match mag {
            Some(m) => {
                p.float3(m);
                0x01FF
            },
            None => {
                p.float(nan);
                p.float(nan);
                p.float(nan);
                0x003F
            },
        };
        p.float(nan);
        p.float(nan);
        p.float(nan);
        p.float(nan);
        p.u16(updated);
        p.u8(id);
        assert(p.p() =~= highres_imu_payload(
            time_usec,
            id,
            accel@,
            gyro@,
            match mag {
                Some(m) => Some(m@),
                None => None,
            },
        ));
        self.frame(MSG_HIGHRES_IMU, CRC_HIGHRES_IMU, p.as_slice())
    }

    /// STATUSTEXT (message 253): a diagnostic text, cut or zero-padded to exactly
    /// 50 bytes.
    pub fn statustext(&mut self, severity: u8, text: &str) -> (r: Frame)
        ensures
            frame_bytes(r) == frame_of(
                old(self)@,
                MSG_STATUSTEXT,
                CRC_STATUSTEXT,
                statustext_payload(severity, text.spec_bytes()),
            ),
            final(self)@ == next_sequence(old(self)@),
    {
        let mut p = Payload::new();
        p.u8(severity);
        let bytes: &[u8] = text.as_bytes();
        let ghost want = statustext_payload(severity, text.spec_bytes());
        let mut i: usize = 0;
        while i < STATUS_TEXT_LEN
            invariant
                i <= STATUS_TEXT_LEN,
                bytes@ == text.spec_bytes(),
                want == statustext_payload(severity, bytes@),
                p.p() == want.take(i + 1),
            decreases STATUS_TEXT_LEN - i,
        {
            p.u8(
                if i < bytes.len() {
                    bytes[i]
                } else {
                    0
                },
            );
            i = i + 1;
            assert(p.p() =~= want.take(i + 1));
        }
        assert(p.p() =~= want);
        self.frame(MSG_STATUSTEXT, CRC_STATUSTEXT, p.as_slice())
    }

    /// RC_CHANNELS (message 65): up to 18 channels in us (65535 is unused).
    /// `rssi` is 0..254 (255 is unknown).
    pub fn rc_channels(
        &mut self,
        time_boot_ms: u32,
        chancount: u8,
        ch: &[u16; 18],
        rssi: u8,
    ) -> (r: Frame)
        ensures
            frame_bytes(r) == frame_of(
                old(self)@,
                MSG_RC_CHANNELS,
                CRC_RC_CHANNELS,
                rc_channels_payload(time_boot_ms, chancount, ch@, rssi),
            ),
            final(self)@ == next_sequence(old(self)@),
    {
        let mut p = Payload::new();
        p.u32(time_boot_ms);
        let ghost time = le_bytes(time_boot_ms as nat, 4);
        assert(p.p() =~= time + u16_list(ch@.take(0)));
        let mut i: usize = 0;
        while i < 18
            invariant
                i <= 18,
                p.p() == time + u16_list(ch@.take(i as int)),
                p.p().len() == 4 + 2 * i,
            decreases 18 - i,
        {
            p.u16(ch[i]);
            i = i + 1;
            assert(ch@.take(i as int).drop_last() =~= ch@.take(i - 1));
            assert(p.p() =~= time + u16_list(ch@.take(i as int)));
        }
        assert(ch@.take(18) =~= ch@);
        p.u8(chancount);
        p.u8(rssi);
        assert(p.p() =~= rc_channels_payload(time_boot_ms, chancount, ch@, rssi));
        self.frame(MSG_RC_CHANNELS, CRC_RC_CHANNELS, p.as_slice())
    }

    /// Frames the payload of any message under the next sequence number. Zeros
    /// at the end of a payload are kept.
    pub fn frame(&mut self, message_id: u32, crc_extra: u8, payload: &[u8]) -> (r: Frame)
        requires
            payload@.len() <= 255,
            message_id < 0x100_0000,
        ensures
            frame_bytes(r) == frame_of(old(self)@, message_id, crc_extra, payload@),
            final(self)@ == next_sequence(old(self)@),
    {
        let mut out = frame_new();
        let header: [u8; 9] = [
            payload.len() as u8,
            0,
            0,
            self.sequence,
            SYSTEM_ID,
            COMPONENT_ID,
            (message_id % 256) as u8,
            (message_id / 256 % 256) as u8,
            (message_id / 0x1_0000) as u8,
        ];
        let ghost h = header_of(self.sequence, message_id, payload@.len());
        proof {
            reveal_with_fuel(le_bytes, 4);
        }
        assert(header@ =~= h);
        self.sequence = self.sequence.wrapping_add(1);
        let _ = frame_push(&mut out, STX_V2);
        let _ = frame_extend(&mut out, header.as_slice());
        let _ = frame_extend(&mut out, payload);
        let ghost covered = h + payload@;
        let mut crc: u16 = 0xFFFF;
        let mut i: usize = 0;
        while i < 9
            invariant
                i <= 9,
                header@ == h,
                h.len() == 9,
                covered == h + payload@,
                crc == x25_over(0xFFFF, covered.take(i as int)),
            decreases 9 - i,
        {
            assert(covered.take(i + 1).drop_last() =~= covered.take(i as int));
            crc = crc_accumulate(header[i], crc);
            i = i + 1;
        }
        let n: usize = payload.len();
        let mut j: usize = 0;
        while j < n
            invariant
                j <= n,
                n == payload@.len(),
                h.len() == 9,
                covered == h + payload@,
                crc == x25_over(0xFFFF, covered.take(9 + j)),
            decreases n - j,
        {
            assert(covered.take(9 + j + 1).drop_last() =~= covered.take(9 + j));
            crc = crc_accumulate(payload[j], crc);
            j = j + 1;
        }
        assert(covered.take(9 + n) =~= covered);
        assert(covered.push(crc_extra).drop_last() =~= covered);
        crc = crc_accumulate(crc_extra, crc);
        let tail: [u8; 2] = le2(crc);
        let _ = frame_extend(&mut out, tail.as_slice());
        assert(frame_bytes(out) =~= frame_of(old(self)@, message_id, crc_extra, payload@));
        out
    }
}

/// The sequence number after `s`.
pub open spec fn next_sequence(s: u8) -> u8 {
    ((s + 1) % 256) as u8
}

proof fn lemma_x25_bit_injective(a: u16, b: u16)
    by (bit_vector)
    requires
        x25_bit(a) == x25_bit(b),
    ensures
        a == b,
{
}

proof fn lemma_x25_bits_injective(a: u16, b: u16, n: nat)
    requires
        x25_bits(a, n) == x25_bits(b, n),
    ensures
        a == b,
    decreases n,
{
    if n > 0 {
        lemma_x25_bit_injective(x25_bits(a, (n - 1) as nat), x25_bits(b, (n - 1) as nat));
        lemma_x25_bits_injective(a, b, (n - 1) as nat);
    }
}

proof fn lemma_x25_xor(c1: u16, b1: u8, c2: u16, b2: u8)
    by (bit_vector)
    requires
        c1 ^ (b1 as u16) == c2 ^ (b2 as u16),
    ensures
        c1 == c2 <==> b1 == b2,
{
}

/// A message with one byte altered has another remainder.
pub proof fn law_x25_detects_altered_byte(init: u16, s: Seq<u8>, i: int, b: u8)
    requires
        0 <= i < s.len(),
        s[i] != b,
    ensures
        x25_over(init, s.update(i, b)) != x25_over(init, s),
    decreases s.len(),
{
    let t = s.update(i, b);
    let cs = x25_over(init, s.drop_last());
    let ct = x25_over(init, t.drop_last());
    if i == s.len() - 1 {
        assert(t.drop_last() =~= s.drop_last());
    } else {
        assert(t.drop_last() =~= s.drop_last().update(i, b));
        law_x25_detects_altered_byte(init, s.drop_last(), i, b);
    }
    if x25_step(cs, s.last()) == x25_step(ct, t.last()) {
        lemma_x25_bits_injective(cs ^ (s.last() as u16), ct ^ (t.last() as u16), 8);
        lemma_x25_xor(cs, s.last(), ct, t.last());
    }
}

/// What a receiver that knows the message's extra byte checks: the marker, the
/// length and the CRC.
pub open spec fn accepted(b: Seq<u8>, crc_extra: u8) -> bool {
    &&& b.len() >= 12
    &&& b[0] == STX_V2
    &&& b.len() == 12 + b[1]
    &&& x25_over(0xFFFF, b.subrange(1, b.len() - 2).push(crc_extra)) == b[b.len() - 2] + 256
        * b[b.len() - 1]
}

/// Every frame that is built here is accepted, and the receiver finds in it the
/// sequence number, the system and component, the message id and the payload.
pub proof fn law_frame_received(sequence: u8, message_id: u32, crc_extra: u8, payload: Seq<u8>)
    requires
        payload.len() <= 255,
        message_id < 0x100_0000,
    ensures
        ({
            let b = frame_of(sequence, message_id, crc_extra, payload);
            &&& accepted(b, crc_extra)
            &&& b.len() == 12 + payload.len()
            &&& b[4] == sequence
            &&& b[5] == SYSTEM_ID
            &&& b[6] == COMPONENT_ID
            &&& b[7] + 256 * b[8] + 0x1_0000 * b[9] == message_id
            &&& b.subrange(10, 10 + payload.len() as int) == payload
        }),
{
    reveal_with_fuel(le_bytes, 4);
    let b = frame_of(sequence, message_id, crc_extra, payload);
    let covered = header_of(sequence, message_id, payload.len()) + payload;
    assert(b.subrange(1, b.len() - 2) =~= covered);
    assert(b.subrange(10, 10 + payload.len() as int) =~= payload);
}

/// A frame with any one byte altered is not accepted.
pub proof fn law_altered_frame_rejected(b: Seq<u8>, crc_extra: u8, i: int, v: u8)
    requires
        accepted(b, crc_extra),
        0 <= i < b.len(),
        b[i] != v,
    ensures
        !accepted(b.update(i, v), crc_extra),
{
    let t = b.update(i, v);
    let n = b.len() as int;
    let s = b.subrange(1, n - 2).push(crc_extra);
    let u = t.subrange(1, n - 2).push(crc_extra);
    if 1 <= i < n - 2 {
        assert(u =~= s.update(i - 1, v));
        law_x25_detects_altered_byte(0xFFFF, s, i - 1, v);
    } else {
        assert(u =~= s);
    }
}

/// Frames on one link are numbered in order: the `n`-th after `sequence` has
/// the number `sequence + n`, counted modulo 256.
pub proof fn law_sequence_counts(sequence: u8, n: nat)
    ensures
        sequence_after(sequence, n) == (sequence + n) % 256,
    decreases n,
{
    if n > 0 {
        law_sequence_counts(sequence, (n - 1) as nat);
    }
}

/// The sequence number after `n` more frames.
pub open spec fn sequence_after(sequence: u8, n: nat) -> u8
    decreases n,
{
    if n == 0 {
        sequence
    } else {
        next_sequence(sequence_after(sequence, (n - 1) as nat))
    }
}

/// A message to frame: its id, its extra byte and its payload.
pub type Framed = (u32, u8, Seq<u8>);

/// The frames that one encoder builds for a series of messages, from this
/// sequence number on.
pub open spec fn stream(sequence: u8, messages: Seq<Framed>) -> Seq<Seq<u8>>
    decreases messages.len(),
{
    if messages.len() == 0 {
        Seq::empty()
    } else {
        let d = messages.drop_last();
        let (id, extra, payload) = messages.last();
        stream(sequence, d).push(
            frame_of(sequence_after(sequence, d.len()), id, extra, payload),
        )
    }
}

proof fn lemma_stream_at(sequence: u8, messages: Seq<Framed>, k: int)
    requires
        0 <= k < messages.len(),
    ensures
        stream(sequence, messages).len() == messages.len(),
        stream(sequence, messages)[k] == frame_of(
            sequence_after(sequence, k as nat),
            messages[k].0,
            messages[k].1,
            messages[k].2,
        ),
    decreases messages.len(),
{
    let d = messages.drop_last();
    if k < d.len() {
        lemma_stream_at(sequence, d, k);
    } else if d.len() > 0 {
        lemma_stream_at(sequence, d, 0);
    } else {
        assert(stream(sequence, d).len() == 0);
    }
}

/// Frame `k` of a new encoder, counted from 0 and whatever the messages, is the
/// marker, the header with `k` modulo 256 as its sequence number, the payload as
/// it is, and the CRC over header, payload and extra byte.
pub proof fn law_nth_frame(messages: Seq<Framed>, k: int)
    requires
        0 <= k < messages.len(),
        messages[k].0 < 0x100_0000,
        messages[k].2.len() <= 255,
    ensures
        stream(0, messages).len() == messages.len(),
        ({
            let (id, extra, payload) = messages[k];
            let n = payload.len() as int;
            let b = stream(0, messages)[k];
            &&& b.len() == n + 12
            &&& b.take(10) == seq![
                STX_V2,
                n as u8,
                0,
                0,
                (k % 256) as u8,
                SYSTEM_ID,
                COMPONENT_ID,
                (id % 256) as u8,
                (id / 256 % 256) as u8,
                (id / 0x1_0000) as u8,
            ]
            &&& b.subrange(10, 10 + n) == payload
            &&& b[10 + n] + 256 * b[11 + n] == x25_over(
                0xFFFF,
                b.subrange(1, 10 + n).push(extra),
            )
        }),
{
    let (id, extra, payload) = messages[k];
    lemma_stream_at(0, messages, k);
    law_sequence_counts(0, k as nat);
    law_frame_received(sequence_after(0, k as nat), id, extra, payload);
    reveal_with_fuel(le_bytes, 4);
    let b = stream(0, messages)[k];
    assert(b.take(10) =~= seq![
        STX_V2,
        payload.len() as u8,
        0,
        0,
        (k % 256) as u8,
        SYSTEM_ID,
        COMPONENT_ID,
        (id % 256) as u8,
        (id / 256 % 256) as u8,
        (id / 0x1_0000) as u8,
    ]);
}

proof fn lemma_u16_list_len(s: Seq<u16>)
    ensures
        u16_list(s).len() == 2 * s.len(),
    decreases s.len(),
{
    if s.len() > 0 {
        lemma_u16_list_len(s.drop_last());
        lemma_le_bytes_len(s.last() as nat, 2);
    }
}

/// The lengths of the payloads with a fixed layout, whatever the values.
pub proof fn law_payload_lengths(
    h: u64,
    w: u32,
    i: i32,
    s: u16,
    t: i16,
    b: u8,
    c: bool,
    f: F32Bits,
)
    ensures
        heartbeat_payload().len() == 9,
        sys_status_payload(w, w).len() == 31,
        scaled_pressure_payload(w, f, f, t).len() == 14,
        attitude_payload(w, f, f, f, f, f, f).len() == 28,
        local_position_ned_payload(w, f, f, f, f, f, f).len() == 28,
        global_position_int_payload(w, i, i, i, i, t, t, t, s).len() == 28,
        gps_raw_int_payload(h, b, i, i, i, s, s, s, b).len() == 30,
        imu_status_payload(w, b, c, c, b).len() == 8,
        distance_sensor_payload(w, s, s, s, b, b).len() == 14,
        optical_flow_payload(h, t, t, f, f, f, b).len() == 26,
{
    assert forall|v: nat, n: nat| #[trigger] le_bytes(v, n).len() == n by {
        lemma_le_bytes_len(v, n);
    }
}

/// The lengths of the other payloads.
pub proof fn law_list_payload_lengths(
    time_usec: u64,
    time_boot_ms: u32,
    b: u8,
    accel: Seq<F32Bits>,
    gyro: Seq<F32Bits>,
    mag: Option<Seq<F32Bits>>,
    text: Seq<u8>,
    ch: Seq<u16>,
)
    requires
        ch.len() == 18,
    ensures
        highres_imu_payload(time_usec, b, accel, gyro, mag).len() == 63,
        statustext_payload(b, text).len() == 51,
        rc_channels_payload(time_boot_ms, b, ch, b).len() == 42,
{
    assert forall|v: nat, n: nat| #[trigger] le_bytes(v, n).len() == n by {
        lemma_le_bytes_len(v, n);
    }
    lemma_u16_list_len(ch);
}

/// A receiver's reading of two bytes of a payload.
pub open spec fn u16_at(p: Seq<u8>, i: int) -> int {
    p[i] + 256 * p[i + 1]
}

/// A receiver's reading of four bytes.
pub open spec fn u32_at(p: Seq<u8>, i: int) -> int {
    p[i] + 256 * p[i + 1] + 0x1_0000 * p[i + 2] + 0x100_0000 * p[i + 3]
}

/// A receiver's reading of eight bytes.
pub open spec fn u64_at(p: Seq<u8>, i: int) -> int {
    u32_at(p, i) + 0x1_0000_0000 * u32_at(p, i + 4)
}

/// Two bytes of a payload hold the signed number `v`: the same remainder.
pub open spec fn holds_i16(p: Seq<u8>, i: int, v: i16) -> bool {
    (u16_at(p, i) - v) % 0x1_0000 == 0
}

/// Four bytes of a payload hold the signed number `v`.
pub open spec fn holds_i32(p: Seq<u8>, i: int, v: i32) -> bool {
    (u32_at(p, i) - v) % 0x1_0000_0000 == 0
}

proof fn lemma_u16_at(p: Seq<u8>, i: int, v: nat)
    requires
        0 <= i,
        i + 2 <= p.len(),
        v < 0x1_0000,
        p.subrange(i, i + 2) == le_bytes(v, 2),
    ensures
        u16_at(p, i) == v,
{
    let b = p.subrange(i, i + 2);
    law_bytes_add_up(v);
    assert(b[0] == p[i] && b[1] == p[i + 1]);
}

proof fn lemma_u32_at(p: Seq<u8>, i: int, v: nat)
    requires
        0 <= i,
        i + 4 <= p.len(),
        v < 0x1_0000_0000,
        p.subrange(i, i + 4) == le_bytes(v, 4),
    ensures
        u32_at(p, i) == v,
{
    let b = p.subrange(i, i + 4);
    law_bytes_add_up(v);
    assert(b[0] == p[i] && b[1] == p[i + 1] && b[2] == p[i + 2] && b[3] == p[i + 3]);
}

proof fn lemma_u64_at(p: Seq<u8>, i: int, v: nat)
    requires
        0 <= i,
        i + 8 <= p.len(),
        v < 0x1_0000_0000_0000_0000,
        p.subrange(i, i + 8) == le_bytes(v, 8),
    ensures
        u64_at(p, i) == v,
{
    let b = p.subrange(i, i + 8);
    law_eight_bytes_add_up(v);
    assert(b[0] == p[i] && b[1] == p[i + 1] && b[2] == p[i + 2] && b[3] == p[i + 3]);
    assert(b[4] == p[i + 4] && b[5] == p[i + 5] && b[6] == p[i + 6] && b[7] == p[i + 7]);
}

/// A heartbeat says: custom mode 0, a quadrotor, generic autopilot, no mode
/// flags, active, protocol 3. It is message 0, under the extra byte 50.
pub proof fn law_heartbeat_fields()
    ensures
        MSG_HEARTBEAT == 0,
        CRC_HEARTBEAT == 50,
        ({
            let p = heartbeat_payload();
            &&& p.len() == 9
            &&& u32_at(p, 0) == 0
            &&& p[4] == 2
            &&& p[5] == 0
            &&& p[6] == 0
            &&& p[7] == 4
            &&& p[8] == 3
        }),
{
    let p = heartbeat_payload();
    assert forall|v: nat, n: nat| #[trigger] le_bytes(v, n).len() == n by {
        lemma_le_bytes_len(v, n);
    }
    assert(p.subrange(0, 4) =~= le_bytes(0, 4));
    lemma_u32_at(p, 0, 0);
}

/// A system status says which sensors are present, the same as enabled, and
/// which are healthy; load, battery and error counts are unknown or zero. It is
/// message 1, under the extra byte 124.
pub proof fn law_sys_status_fields(sensors_present: u32, sensors_healthy: u32)
    ensures
        MSG_SYS_STATUS == 1,
        CRC_SYS_STATUS == 124,
        ({
            let p = sys_status_payload(sensors_present, sensors_healthy);
            &&& p.len() == 31
            &&& u32_at(p, 0) == sensors_present
            &&& u32_at(p, 4) == sensors_present
            &&& u32_at(p, 8) == sensors_healthy
            &&& u16_at(p, 12) == 0
            &&& u16_at(p, 14) == 0xFFFF
            &&& u16_at(p, 16) == 0xFFFF
            &&& u16_at(p, 18) == 0
            &&& u16_at(p, 20) == 0
            &&& u16_at(p, 22) == 0
            &&& u16_at(p, 24) == 0
            &&& u16_at(p, 26) == 0
            &&& u16_at(p, 28) == 0
            &&& p[30] == 255
        }),
{
    let p = sys_status_payload(sensors_present, sensors_healthy);
    assert forall|v: nat, n: nat| #[trigger] le_bytes(v, n).len() == n by {
        lemma_le_bytes_len(v, n);
    }
    assert(p.subrange(0, 4) =~= le_bytes(sensors_present as nat, 4));
    lemma_u32_at(p, 0, sensors_present as nat);
    assert(p.subrange(4, 8) =~= le_bytes(sensors_present as nat, 4));
    lemma_u32_at(p, 4, sensors_present as nat);
    assert(p.subrange(8, 12) =~= le_bytes(sensors_healthy as nat, 4));
    lemma_u32_at(p, 8, sensors_healthy as nat);
    assert(p.subrange(12, 14) =~= le_bytes(0, 2));
    lemma_u16_at(p, 12, 0);
    assert(p.subrange(14, 16) =~= le_bytes(0xFFFF, 2));
    lemma_u16_at(p, 14, 0xFFFF);
    assert(p.subrange(16, 18) =~= le_bytes(pattern16(-1), 2));
    lemma_u16_at(p, 16, pattern16(-1));
    assert(p.subrange(18, 20) =~= le_bytes(0, 2));
    lemma_u16_at(p, 18, 0);
    assert(p.subrange(20, 22) =~= le_bytes(0, 2));
    lemma_u16_at(p, 20, 0);
    assert(p.subrange(22, 24) =~= le_bytes(0, 2));
    lemma_u16_at(p, 22, 0);
    assert(p.subrange(24, 26) =~= le_bytes(0, 2));
    lemma_u16_at(p, 24, 0);
    assert(p.subrange(26, 28) =~= le_bytes(0, 2));
    lemma_u16_at(p, 26, 0);
    assert(p.subrange(28, 30) =~= le_bytes(0, 2));
    lemma_u16_at(p, 28, 0);
}

/// A pressure message says the time, the absolute and the differential pressure
/// and the temperature. It is message 29, under the extra byte 115.
pub proof fn law_scaled_pressure_fields(time_boot_ms: u32, press_abs_hpa: F32Bits, press_diff_hpa: F32Bits, temperature_cdeg: i16)
    ensures
        MSG_SCALED_PRESSURE == 29,
        CRC_SCALED_PRESSURE == 115,
        ({
            let p = scaled_pressure_payload(time_boot_ms, press_abs_hpa, press_diff_hpa, temperature_cdeg);
            &&& p.len() == 14
            &&& u32_at(p, 0) == time_boot_ms
            &&& u32_at(p, 4) == press_abs_hpa.0
            &&& u32_at(p, 8) == press_diff_hpa.0
            &&& holds_i16(p, 12, temperature_cdeg)
        }),
{
    let p = scaled_pressure_payload(time_boot_ms, press_abs_hpa, press_diff_hpa, temperature_cdeg);
    assert forall|v: nat, n: nat| #[trigger] le_bytes(v, n).len() == n by {
        lemma_le_bytes_len(v, n);
    }
    assert(p.subrange(0, 4) =~= le_bytes(time_boot_ms as nat, 4));
    lemma_u32_at(p, 0, time_boot_ms as nat);
    assert(p.subrange(4, 8) =~= le_bytes(press_abs_hpa.0 as nat, 4));
    lemma_u32_at(p, 4, press_abs_hpa.0 as nat);
    assert(p.subrange(8, 12) =~= le_bytes(press_diff_hpa.0 as nat, 4));
    lemma_u32_at(p, 8, press_diff_hpa.0 as nat);
    assert(p.subrange(12, 14) =~= le_bytes(pattern16(temperature_cdeg as int), 2));
    lemma_u16_at(p, 12, pattern16(temperature_cdeg as int));
}

/// An attitude says the time, roll, pitch and yaw, and their rates in the same
/// order. It is message 30, under the extra byte 39.
pub proof fn law_attitude_fields(time_boot_ms: u32, roll_rad: F32Bits, pitch_rad: F32Bits, yaw_rad: F32Bits, rollspeed: F32Bits, pitchspeed: F32Bits, yawspeed: F32Bits)
    ensures
        MSG_ATTITUDE == 30,
        CRC_ATTITUDE == 39,
        ({
            let p = attitude_payload(time_boot_ms, roll_rad, pitch_rad, yaw_rad, rollspeed, pitchspeed, yawspeed);
            &&& p.len() == 28
            &&& u32_at(p, 0) == time_boot_ms
            &&& u32_at(p, 4) == roll_rad.0
            &&& u32_at(p, 8) == pitch_rad.0
            &&& u32_at(p, 12) == yaw_rad.0
            &&& u32_at(p, 16) == rollspeed.0
            &&& u32_at(p, 20) == pitchspeed.0
            &&& u32_at(p, 24) == yawspeed.0
        }),
{
    let p = attitude_payload(time_boot_ms, roll_rad, pitch_rad, yaw_rad, rollspeed, pitchspeed, yawspeed);
    assert forall|v: nat, n: nat| #[trigger] le_bytes(v, n).len() == n by {
        lemma_le_bytes_len(v, n);
    }
    assert(p.subrange(0, 4) =~= le_bytes(time_boot_ms as nat, 4));
    lemma_u32_at(p, 0, time_boot_ms as nat);
    assert(p.subrange(4, 8) =~= le_bytes(roll_rad.0 as nat, 4));
    lemma_u32_at(p, 4, roll_rad.0 as nat);
    assert(p.subrange(8, 12) =~= le_bytes(pitch_rad.0 as nat, 4));
    lemma_u32_at(p, 8, pitch_rad.0 as nat);
    assert(p.subrange(12, 16) =~= le_bytes(yaw_rad.0 as nat, 4));
    lemma_u32_at(p, 12, yaw_rad.0 as nat);
    assert(p.subrange(16, 20) =~= le_bytes(rollspeed.0 as nat, 4));
    lemma_u32_at(p, 16, rollspeed.0 as nat);
    assert(p.subrange(20, 24) =~= le_bytes(pitchspeed.0 as nat, 4));
    lemma_u32_at(p, 20, pitchspeed.0 as nat);
    assert(p.subrange(24, 28) =~= le_bytes(yawspeed.0 as nat, 4));
    lemma_u32_at(p, 24, yawspeed.0 as nat);
}

/// A local position says the time, the position and the velocity, each north,
/// east, down. It is message 32, under the extra byte 185.
pub proof fn law_local_position_ned_fields(time_boot_ms: u32, x: F32Bits, y: F32Bits, z: F32Bits, vx: F32Bits, vy: F32Bits, vz: F32Bits)
    ensures
        MSG_LOCAL_POSITION_NED == 32,
        CRC_LOCAL_POSITION_NED == 185,
        ({
            let p = local_position_ned_payload(time_boot_ms, x, y, z, vx, vy, vz);
            &&& p.len() == 28
            &&& u32_at(p, 0) == time_boot_ms
            &&& u32_at(p, 4) == x.0
            &&& u32_at(p, 8) == y.0
            &&& u32_at(p, 12) == z.0
            &&& u32_at(p, 16) == vx.0
            &&& u32_at(p, 20) == vy.0
            &&& u32_at(p, 24) == vz.0
        }),
{
    let p = local_position_ned_payload(time_boot_ms, x, y, z, vx, vy, vz);
    assert forall|v: nat, n: nat| #[trigger] le_bytes(v, n).len() == n by {
        lemma_le_bytes_len(v, n);
    }
    assert(p.subrange(0, 4) =~= le_bytes(time_boot_ms as nat, 4));
    lemma_u32_at(p, 0, time_boot_ms as nat);
    assert(p.subrange(4, 8) =~= le_bytes(x.0 as nat, 4));
    lemma_u32_at(p, 4, x.0 as nat);
    assert(p.subrange(8, 12) =~= le_bytes(y.0 as nat, 4));
    lemma_u32_at(p, 8, y.0 as nat);
    assert(p.subrange(12, 16) =~= le_bytes(z.0 as nat, 4));
    lemma_u32_at(p, 12, z.0 as nat);
    assert(p.subrange(16, 20) =~= le_bytes(vx.0 as nat, 4));
    lemma_u32_at(p, 16, vx.0 as nat);
    assert(p.subrange(20, 24) =~= le_bytes(vy.0 as nat, 4));
    lemma_u32_at(p, 20, vy.0 as nat);
    assert(p.subrange(24, 28) =~= le_bytes(vz.0 as nat, 4));
    lemma_u32_at(p, 24, vz.0 as nat);
}

/// A global position says the time, latitude, longitude, altitude above the
/// sea, altitude above home, the velocity and the heading. It is message 33,
/// under the extra byte 104.
pub proof fn law_global_position_int_fields(time_boot_ms: u32, lat_e7: i32, lon_e7: i32, alt_mm: i32, relative_alt_mm: i32, vx_cms: i16, vy_cms: i16, vz_cms: i16, hdg_cdeg: u16)
    ensures
        MSG_GLOBAL_POSITION_INT == 33,
        CRC_GLOBAL_POSITION_INT == 104,
        ({
            let p = global_position_int_payload(time_boot_ms, lat_e7, lon_e7, alt_mm, relative_alt_mm, vx_cms, vy_cms, vz_cms, hdg_cdeg);
            &&& p.len() == 28
            &&& u32_at(p, 0) == time_boot_ms
            &&& holds_i32(p, 4, lat_e7)
            &&& holds_i32(p, 8, lon_e7)
            &&& holds_i32(p, 12, alt_mm)
            &&& holds_i32(p, 16, relative_alt_mm)
            &&& holds_i16(p, 20, vx_cms)
            &&& holds_i16(p, 22, vy_cms)
            &&& holds_i16(p, 24, vz_cms)
            &&& u16_at(p, 26) == hdg_cdeg
        }),
{
    let p = global_position_int_payload(time_boot_ms, lat_e7, lon_e7, alt_mm, relative_alt_mm, vx_cms, vy_cms, vz_cms, hdg_cdeg);
    assert forall|v: nat, n: nat| #[trigger] le_bytes(v, n).len() == n by {
        lemma_le_bytes_len(v, n);
    }
    assert(p.subrange(0, 4) =~= le_bytes(time_boot_ms as nat, 4));
    lemma_u32_at(p, 0, time_boot_ms as nat);
    assert(p.subrange(4, 8) =~= le_bytes(pattern32(lat_e7 as int), 4));
    lemma_u32_at(p, 4, pattern32(lat_e7 as int));
    assert(p.subrange(8, 12) =~= le_bytes(pattern32(lon_e7 as int), 4));
    lemma_u32_at(p, 8, pattern32(lon_e7 as int));
    assert(p.subrange(12, 16) =~= le_bytes(pattern32(alt_mm as int), 4));
    lemma_u32_at(p, 12, pattern32(alt_mm as int));
    assert(p.subrange(16, 20) =~= le_bytes(pattern32(relative_alt_mm as int), 4));
    lemma_u32_at(p, 16, pattern32(relative_alt_mm as int));
    assert(p.subrange(20, 22) =~= le_bytes(pattern16(vx_cms as int), 2));
    lemma_u16_at(p, 20, pattern16(vx_cms as int));
    assert(p.subrange(22, 24) =~= le_bytes(pattern16(vy_cms as int), 2));
    lemma_u16_at(p, 22, pattern16(vy_cms as int));
    assert(p.subrange(24, 26) =~= le_bytes(pattern16(vz_cms as int), 2));
    lemma_u16_at(p, 24, pattern16(vz_cms as int));
    assert(p.subrange(26, 28) =~= le_bytes(hdg_cdeg as nat, 2));
    lemma_u16_at(p, 26, hdg_cdeg as nat);
}

/// A GPS message says the time, the position, the horizontal dilution with the
/// vertical one unknown, speed and course, the fix and the satellites. It is
/// message 24, under the extra byte 24.
pub proof fn law_gps_raw_int_fields(time_usec: u64, fix_type: u8, lat_e7: i32, lon_e7: i32, alt_mm: i32, eph: u16, vel_cms: u16, cog_cdeg: u16, sats: u8)
    ensures
        MSG_GPS_RAW_INT == 24,
        CRC_GPS_RAW_INT == 24,
        ({
            let p = gps_raw_int_payload(time_usec, fix_type, lat_e7, lon_e7, alt_mm, eph, vel_cms, cog_cdeg, sats);
            &&& p.len() == 30
            &&& u64_at(p, 0) == time_usec
            &&& holds_i32(p, 8, lat_e7)
            &&& holds_i32(p, 12, lon_e7)
            &&& holds_i32(p, 16, alt_mm)
            &&& u16_at(p, 20) == eph
            &&& u16_at(p, 22) == 0xFFFF
            &&& u16_at(p, 24) == vel_cms
            &&& u16_at(p, 26) == cog_cdeg
            &&& p[28] == fix_type
            &&& p[29] == sats
        }),
{
    let p = gps_raw_int_payload(time_usec, fix_type, lat_e7, lon_e7, alt_mm, eph, vel_cms, cog_cdeg, sats);
    assert forall|v: nat, n: nat| #[trigger] le_bytes(v, n).len() == n by {
        lemma_le_bytes_len(v, n);
    }
    assert(p.subrange(0, 8) =~= le_bytes(time_usec as nat, 8));
    lemma_u64_at(p, 0, time_usec as nat);
    assert(p.subrange(8, 12) =~= le_bytes(pattern32(lat_e7 as int), 4));
    lemma_u32_at(p, 8, pattern32(lat_e7 as int));
    assert(p.subrange(12, 16) =~= le_bytes(pattern32(lon_e7 as int), 4));
    lemma_u32_at(p, 12, pattern32(lon_e7 as int));
    assert(p.subrange(16, 20) =~= le_bytes(pattern32(alt_mm as int), 4));
    lemma_u32_at(p, 16, pattern32(alt_mm as int));
    assert(p.subrange(20, 22) =~= le_bytes(eph as nat, 2));
    lemma_u16_at(p, 20, eph as nat);
    assert(p.subrange(22, 24) =~= le_bytes(0xFFFF, 2));
    lemma_u16_at(p, 22, 0xFFFF);
    assert(p.subrange(24, 26) =~= le_bytes(vel_cms as nat, 2));
    lemma_u16_at(p, 24, vel_cms as nat);
    assert(p.subrange(26, 28) =~= le_bytes(cog_cdeg as nat, 2));
    lemma_u16_at(p, 26, cog_cdeg as nat);
}

/// An IMU status says the time, which IMU, whether it is connected and healthy
/// (1 or 0), and its identity. It is message 42000, under the extra byte 38.
pub proof fn law_imu_status_fields(time_boot_ms: u32, imu_id: u8, connected: bool, healthy: bool, whoami: u8)
    ensures
        MSG_SCKY_IMU_STATUS == 42000,
        CRC_SCKY_IMU_STATUS == 38,
        ({
            let p = imu_status_payload(time_boot_ms, imu_id, connected, healthy, whoami);
            &&& p.len() == 8
            &&& u32_at(p, 0) == time_boot_ms
            &&& p[4] == imu_id
            &&& p[5] == if connected {
                1int
            } else {
                0
            }
            &&& p[6] == if healthy {
                1int
            } else {
                0
            }
            &&& p[7] == whoami
        }),
{
    let p = imu_status_payload(time_boot_ms, imu_id, connected, healthy, whoami);
    assert forall|v: nat, n: nat| #[trigger] le_bytes(v, n).len() == n by {
        lemma_le_bytes_len(v, n);
    }
    assert(p.subrange(0, 4) =~= le_bytes(time_boot_ms as nat, 4));
    lemma_u32_at(p, 0, time_boot_ms as nat);
}

/// A distance says the time, the least and the greatest range, the distance, a
/// laser, which one, where it looks, and no covariance. It is message 132,
/// under the extra byte 85.
pub proof fn law_distance_sensor_fields(time_boot_ms: u32, min_cm: u16, max_cm: u16, current_cm: u16, orientation: u8, id: u8)
    ensures
        MSG_DISTANCE_SENSOR == 132,
        CRC_DISTANCE_SENSOR == 85,
        ({
            let p = distance_sensor_payload(time_boot_ms, min_cm, max_cm, current_cm, orientation, id);
            &&& p.len() == 14
            &&& u32_at(p, 0) == time_boot_ms
            &&& u16_at(p, 4) == min_cm
            &&& u16_at(p, 6) == max_cm
            &&& u16_at(p, 8) == current_cm
            &&& p[10] == 0
            &&& p[11] == id
            &&& p[12] == orientation
            &&& p[13] == 0
        }),
{
    let p = distance_sensor_payload(time_boot_ms, min_cm, max_cm, current_cm, orientation, id);
    assert forall|v: nat, n: nat| #[trigger] le_bytes(v, n).len() == n by {
        lemma_le_bytes_len(v, n);
    }
    assert(p.subrange(0, 4) =~= le_bytes(time_boot_ms as nat, 4));
    lemma_u32_at(p, 0, time_boot_ms as nat);
    assert(p.subrange(4, 6) =~= le_bytes(min_cm as nat, 2));
    lemma_u16_at(p, 4, min_cm as nat);
    assert(p.subrange(6, 8) =~= le_bytes(max_cm as nat, 2));
    lemma_u16_at(p, 6, max_cm as nat);
    assert(p.subrange(8, 10) =~= le_bytes(current_cm as nat, 2));
    lemma_u16_at(p, 8, current_cm as nat);
}

/// A flow message says the time, the ground velocity, the height, the raw flow,
/// the first sensor and the quality. It is message 100, under the extra byte
/// 175.
pub proof fn law_optical_flow_fields(time_usec: u64, flow_x: i16, flow_y: i16, flow_comp_m_x: F32Bits, flow_comp_m_y: F32Bits, ground_distance: F32Bits, quality: u8)
    ensures
        MSG_OPTICAL_FLOW == 100,
        CRC_OPTICAL_FLOW == 175,
        ({
            let p = optical_flow_payload(time_usec, flow_x, flow_y, flow_comp_m_x, flow_comp_m_y, ground_distance, quality);
            &&& p.len() == 26
            &&& u64_at(p, 0) == time_usec
            &&& u32_at(p, 8) == flow_comp_m_x.0
            &&& u32_at(p, 12) == flow_comp_m_y.0
            &&& u32_at(p, 16) == ground_distance.0
            &&& holds_i16(p, 20, flow_x)
            &&& holds_i16(p, 22, flow_y)
            &&& p[24] == 0
            &&& p[25] == quality
        }),
{
    let p = optical_flow_payload(time_usec, flow_x, flow_y, flow_comp_m_x, flow_comp_m_y, ground_distance, quality);
    assert forall|v: nat, n: nat| #[trigger] le_bytes(v, n).len() == n by {
        lemma_le_bytes_len(v, n);
    }
    assert(p.subrange(0, 8) =~= le_bytes(time_usec as nat, 8));
    lemma_u64_at(p, 0, time_usec as nat);
    assert(p.subrange(8, 12) =~= le_bytes(flow_comp_m_x.0 as nat, 4));
    lemma_u32_at(p, 8, flow_comp_m_x.0 as nat);
    assert(p.subrange(12, 16) =~= le_bytes(flow_comp_m_y.0 as nat, 4));
    lemma_u32_at(p, 12, flow_comp_m_y.0 as nat);
    assert(p.subrange(16, 20) =~= le_bytes(ground_distance.0 as nat, 4));
    lemma_u32_at(p, 16, ground_distance.0 as nat);
    assert(p.subrange(20, 22) =~= le_bytes(pattern16(flow_x as int), 2));
    lemma_u16_at(p, 20, pattern16(flow_x as int));
    assert(p.subrange(22, 24) =~= le_bytes(pattern16(flow_y as int), 2));
    lemma_u16_at(p, 22, pattern16(flow_y as int));
}

/// A HIGHRES_IMU message says the time, acceleration, angular velocity and
/// magnetic field, each x, y, z, four fields that are no number, the bits of what
/// is new (all nine with a field, the first six without one, which is no number
/// either) and which IMU. It is message 105, under the extra byte 93.
pub proof fn law_highres_imu_fields(
    time_usec: u64,
    id: u8,
    accel: Seq<F32Bits>,
    gyro: Seq<F32Bits>,
    mag: Option<Seq<F32Bits>>,
    k: int,
)
    requires
        0 <= k < 3,
    ensures
        MSG_HIGHRES_IMU == 105,
        CRC_HIGHRES_IMU == 93,
        ({
            let p = highres_imu_payload(time_usec, id, accel, gyro, mag);
            &&& p.len() == 63
            &&& u64_at(p, 0) == time_usec
            &&& u32_at(p, 8 + 4 * k) == accel[k].0
            &&& u32_at(p, 20 + 4 * k) == gyro[k].0
            &&& u32_at(p, 32 + 4 * k) == (match mag {
                Some(m) => m[k].0,
                None => 0x7FC0_0000,
            })
            &&& u32_at(p, 44) == 0x7FC0_0000
            &&& u32_at(p, 48) == 0x7FC0_0000
            &&& u32_at(p, 52) == 0x7FC0_0000
            &&& u32_at(p, 56) == 0x7FC0_0000
            &&& u16_at(p, 60) == (if mag is Some {
                0x01FFint
            } else {
                0x003F
            })
            &&& p[62] == id
        }),
{
    let p = highres_imu_payload(time_usec, id, accel, gyro, mag);
    assert forall|v: nat, n: nat| #[trigger] le_bytes(v, n).len() == n by {
        lemma_le_bytes_len(v, n);
    }
    let nan = NAN_BITS as nat;
    let updated: nat = if mag is Some {
        0x01FF
    } else {
        0x003F
    };
    let field: nat = match mag {
        Some(m) => m[k].0 as nat,
        None => nan,
    };
    assert(p.subrange(0, 8) =~= le_bytes(time_usec as nat, 8));
    lemma_u64_at(p, 0, time_usec as nat);
    assert(p.subrange(8 + 4 * k, 12 + 4 * k) =~= le_bytes(accel[k].0 as nat, 4));
    lemma_u32_at(p, 8 + 4 * k, accel[k].0 as nat);
    assert(p.subrange(20 + 4 * k, 24 + 4 * k) =~= le_bytes(gyro[k].0 as nat, 4));
    lemma_u32_at(p, 20 + 4 * k, gyro[k].0 as nat);
    assert(p.subrange(32 + 4 * k, 36 + 4 * k) =~= le_bytes(field, 4));
    lemma_u32_at(p, 32 + 4 * k, field);
    assert(p.subrange(44, 48) =~= le_bytes(nan, 4));
    lemma_u32_at(p, 44, nan);
    assert(p.subrange(48, 52) =~= le_bytes(nan, 4));
    lemma_u32_at(p, 48, nan);
    assert(p.subrange(52, 56) =~= le_bytes(nan, 4));
    lemma_u32_at(p, 52, nan);
    assert(p.subrange(56, 60) =~= le_bytes(nan, 4));
    lemma_u32_at(p, 56, nan);
    assert(p.subrange(60, 62) =~= le_bytes(updated, 2));
    lemma_u16_at(p, 60, updated);
}

/// A status text carries its severity and the text itself, cut after fifty bytes
/// or filled up with zeros. It is message 253, under the extra byte 83.
pub proof fn law_statustext_fields(severity: u8, text: Seq<u8>, k: int)
    requires
        0 <= k < 50,
    ensures
        MSG_STATUSTEXT == 253,
        CRC_STATUSTEXT == 83,
        statustext_payload(severity, text).len() == 51,
        statustext_payload(severity, text)[0] == severity,
        k < text.len() ==> statustext_payload(severity, text)[1 + k] == text[k],
        k >= text.len() ==> statustext_payload(severity, text)[1 + k] == 0,
{
}

proof fn lemma_u16_list_at(s: Seq<u16>, k: int)
    requires
        0 <= k < s.len(),
    ensures
        u16_list(s).len() == 2 * s.len(),
        u16_at(u16_list(s), 2 * k) == s[k],
    decreases s.len(),
{
    let d = s.drop_last();
    lemma_u16_list_len(s);
    lemma_u16_list_len(d);
    lemma_le_bytes_len(s.last() as nat, 2);
    if k < d.len() {
        lemma_u16_list_at(d, k);
        assert(u16_list(s)[2 * k] == u16_list(d)[2 * k]);
        assert(u16_list(s)[2 * k + 1] == u16_list(d)[2 * k + 1]);
    } else {
        assert(u16_list(s).subrange(2 * k, 2 * k + 2) =~= le_bytes(s.last() as nat, 2));
        lemma_u16_at(u16_list(s), 2 * k, s.last() as nat);
    }
}

/// An RC message says the time, the 18 channels in order, how many count, and the
/// signal strength. It is message 65, under the extra byte 118.
pub proof fn law_rc_channels_fields(
    time_boot_ms: u32,
    chancount: u8,
    ch: Seq<u16>,
    rssi: u8,
    k: int,
)
    requires
        ch.len() == 18,
        0 <= k < 18,
    ensures
        MSG_RC_CHANNELS == 65,
        CRC_RC_CHANNELS == 118,
        ({
            let p = rc_channels_payload(time_boot_ms, chancount, ch, rssi);
            &&& p.len() == 42
            &&& u32_at(p, 0) == time_boot_ms
            &&& u16_at(p, 4 + 2 * k) == ch[k]
            &&& p[40] == chancount
            &&& p[41] == rssi
        }),
{
    let p = rc_channels_payload(time_boot_ms, chancount, ch, rssi);
    lemma_le_bytes_len(time_boot_ms as nat, 4);
    lemma_u16_list_at(ch, k);
    assert(p.subrange(0, 4) =~= le_bytes(time_boot_ms as nat, 4));
    lemma_u32_at(p, 0, time_boot_ms as nat);
    assert(p[4 + 2 * k] == u16_list(ch)[2 * k]);
    assert(p[5 + 2 * k] == u16_list(ch)[2 * k + 1]);
}

/// The layout of a frame, byte by byte: the marker 0xFD, the payload's length, no
/// flags, the sequence number, system 1 and component 1, the message id, the
/// payload as it is, and the CRC over all between marker and CRC and the
/// message's extra byte, starting from all ones.
pub proof fn law_frame_layout(sequence: u8, message_id: u32, crc_extra: u8, payload: Seq<u8>)
    requires
        payload.len() <= 255,
        message_id < 0x100_0000,
    ensures
        ({
            let b = frame_of(sequence, message_id, crc_extra, payload);
            let n = payload.len() as int;
            &&& b.len() == 12 + n
            &&& b[0] == 0xFD
            &&& b[1] == n
            &&& b[2] == 0
            &&& b[3] == 0
            &&& b[4] == sequence
            &&& b[5] == 1
            &&& b[6] == 1
            &&& b[7] + 256 * b[8] + 0x1_0000 * b[9] == message_id
            &&& forall|k: int| 0 <= k < n ==> b[10 + k] == #[trigger] payload[k]
            &&& b[10 + n] + 256 * b[11 + n] == x25_over(
                0xFFFF,
                b.subrange(1, 10 + n).push(crc_extra),
            )
        }),
{
    law_frame_received(sequence, message_id, crc_extra, payload);
    let b = frame_of(sequence, message_id, crc_extra, payload);
    let p = b.subrange(10, 10 + payload.len() as int);
    assert forall|k: int| 0 <= k < payload.len() implies b[10 + k] == #[trigger] payload[k] by {
        assert(p[k] == payload[k]);
    }
}

/// The sequence number goes up by one with each frame, and from 255 to 0.
pub proof fn law_next_sequence(s: u8)
    ensures
        s < 255 ==> next_sequence(s) == s + 1,
        s == 255 ==> next_sequence(s) == 0,
{
}

/// One byte of the CRC, in the form that takes a byte at a time: the polynomial
/// 0x1021, least significant bit first.
pub proof fn law_x25_by_byte(crc: u16, byte: u8)
    ensures
        ({
            let t = byte ^ (crc as u8);
            let u = t ^ (t << 4);
            x25_step(crc, byte) == (crc >> 8) ^ ((u as u16) << 8) ^ ((u as u16) << 3) ^ ((u as u16)
                >> 4)
        }),
{
    let c0 = crc ^ (byte as u16);
    reveal_with_fuel(x25_bits, 9);
    lemma_by_byte(
        byte,
        crc,
        x25_bits(c0, 1),
        x25_bits(c0, 2),
        x25_bits(c0, 3),
        x25_bits(c0, 4),
        x25_bits(c0, 5),
        x25_bits(c0, 6),
        x25_bits(c0, 7),
    );
}

/// The CRC of a message is built up byte by byte, first byte first.
pub proof fn law_x25_appended(init: u16, s: Seq<u8>, b: u8)
    ensures
        x25_over(init, Seq::<u8>::empty()) == init,
        x25_over(init, s.push(b)) == x25_step(x25_over(init, s), b),
{
    assert(s.push(b).drop_last() =~= s);
}

} // verus!
