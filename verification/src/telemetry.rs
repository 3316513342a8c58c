//! The telemetry schedule of the USB link: which message is due at which
//! millisecond, and what it says.
//!
//! Two HIGHRES_IMU streams run at 20 Hz each, staggered; the four status
//! messages go out once a second, spread so that no two fall on one tick.

use crate::estimator::{half_turned, law_rotation_axes, rotated, Rotation};
use crate::float::F32Bits;
use crate::imu::{Health, ImuOut};
use crate::mavlink::{
    frame_bytes, frame_of, heartbeat_payload, highres_imu_payload, imu_status_payload,
    next_sequence, sys_status_payload, Encoder, Frame, CRC_HEARTBEAT, CRC_HIGHRES_IMU,
    CRC_SCKY_IMU_STATUS, CRC_SYS_STATUS, MSG_HEARTBEAT, MSG_HIGHRES_IMU, MSG_SCKY_IMU_STATUS,
    MSG_SYS_STATUS,
};
use vstd::prelude::*;

verus! {

/// Accelerometer and gyroscope in the sensor bits of SYS_STATUS.
pub const SENSORS: u32 = 6;

/// The place of a tick in the schedule.
#[derive(Clone, Copy, PartialEq, Eq, Structural)]
pub enum Slot {
    Imu1,
    Imu2,
    Heartbeat,
    SysStatus,
    Status1,
    Status2,
}

/// What the schedule has for a tick (ms since boot).
pub open spec fn slot_of(tick: int) -> Option<Slot> {
    if tick % 50 == 0 {
        Some(Slot::Imu1)
    } else if tick % 50 == 25 {
        Some(Slot::Imu2)
    } else if tick % 1000 == 5 {
        Some(Slot::Heartbeat)
    } else if tick % 1000 == 10 {
        Some(Slot::SysStatus)
    } else if tick % 1000 == 15 {
        Some(Slot::Status1)
    } else if tick % 1000 == 20 {
        Some(Slot::Status2)
    } else {
        None
    }
}

fn slot_at(tick: u32) -> (r: Option<Slot>)
    ensures
        r == slot_of(tick as int),
{
    if tick % 50 == 0 {
        Some(Slot::Imu1)
    } else if tick % 50 == 25 {
        Some(Slot::Imu2)
    } else if tick % 1000 == 5 {
        Some(Slot::Heartbeat)
    } else if tick % 1000 == 10 {
        Some(Slot::SysStatus)
    } else if tick % 1000 == 15 {
        Some(Slot::Status1)
    } else if tick % 1000 == 20 {
        Some(Slot::Status2)
    } else {
        None
    }
}

/// A message to send.
#[derive(Clone, Copy)]
pub enum Message {
    /// Readings of one IMU in the body frame, in g and deg/s.
    HighresImu { time_usec: u64, id: u8, accel: [F32Bits; 3], gyro: [F32Bits; 3] },
    Heartbeat,
    SysStatus { present: u32, healthy: u32 },
    ImuStatus { time_boot_ms: u32, id: u8, ok: bool, whoami: u8 },
}

/// What a [`Message`] says.
#[verifier::ext_equal]
pub enum MessageModel {
    HighresImu { time_usec: u64, id: u8, accel: Seq<F32Bits>, gyro: Seq<F32Bits> },
    Heartbeat,
    SysStatus { present: u32, healthy: u32 },
    ImuStatus { time_boot_ms: u32, id: u8, ok: bool, whoami: u8 },
}

impl View for Message {
    type V = MessageModel;

    open spec fn view(&self) -> MessageModel {
        match *self {
            Message::HighresImu { time_usec, id, accel, gyro } => MessageModel::HighresImu {
                time_usec,
                id,
                accel: accel@,
                gyro: gyro@,
            },
            Message::Heartbeat => MessageModel::Heartbeat,
            Message::SysStatus { present, healthy } => MessageModel::SysStatus {
                present,
                healthy,
            },
            Message::ImuStatus { time_boot_ms, id, ok, whoami } => MessageModel::ImuStatus {
                time_boot_ms,
                id,
                ok,
                whoami,
            },
        }
    }
}

/// The identity byte in a health value.
pub open spec fn whoami_of(h: Health) -> u8 {
    match h {
        Health::Healthy(id) => id,
        Health::Bad(id) => id,
        Health::Unknown => 0,
    }
}

/// The readings of a healthy IMU, rotated from its mount into the body frame; a
/// faulty one sends none.
pub open spec fn imu_message(tick: u32, id: u8, mount: Rotation, imu: ImuOut) -> Option<
    MessageModel,
> {
    if imu.health is Healthy {
        Some(
            MessageModel::HighresImu {
                time_usec: (tick * 1000) as u64,
                id,
                accel: rotated(mount, imu.accel@),
                gyro: rotated(mount, imu.gyro@),
            },
        )
    } else {
        None
    }
}

/// Connection, health and identity of one IMU.
pub open spec fn status_message(tick: u32, id: u8, h: Health) -> MessageModel {
    MessageModel::ImuStatus { time_boot_ms: tick, id, ok: h is Healthy, whoami: whoami_of(h) }
}

/// The message that is due at a tick.
pub open spec fn message_due(tick: u32, imu1: ImuOut, imu2: ImuOut) -> Option<MessageModel> {
    match slot_of(tick as int) {
        Some(Slot::Imu1) => imu_message(tick, 0, Rotation::Roll180, imu1),
        Some(Slot::Imu2) => imu_message(tick, 1, Rotation::Pitch180, imu2),
        Some(Slot::Heartbeat) => Some(MessageModel::Heartbeat),
        Some(Slot::SysStatus) => Some(
            MessageModel::SysStatus {
                present: SENSORS,
                healthy: if imu1.health is Healthy || imu2.health is Healthy {
                    SENSORS
                } else {
                    0
                },
            },
        ),
        Some(Slot::Status1) => Some(status_message(tick, 0, imu1.health)),
        Some(Slot::Status2) => Some(status_message(tick, 1, imu2.health)),
        None => None,
    }
}

fn imu_readings(tick: u32, id: u8, mount: Rotation, imu: &ImuOut) -> (r: Option<Message>)
    ensures
        match r {
            Some(m) => imu_message(tick, id, mount, *imu) == Some(m@),
            None => imu_message(tick, id, mount, *imu) is None,
        },
{
    if imu.health.is_ok() {
        let m = Message::HighresImu {
            time_usec: tick as u64 * 1_000,
            id,
            accel: mount.apply(imu.accel),
            gyro: mount.apply(imu.gyro),
        };
        assert(Some(m@) =~= imu_message(tick, id, mount, *imu));
        Some(m)
    } else {
        None
    }
}

fn imu_health(tick: u32, id: u8, h: Health) -> (r: Message)
    ensures
        r@ == status_message(tick, id, h),
{
    Message::ImuStatus { time_boot_ms: tick, id, ok: h.is_ok(), whoami: h.whoami() }
}

/// The message that is due at a tick, given the latest output of both IMUs.
pub fn due(tick: u32, imu1: &ImuOut, imu2: &ImuOut) -> (r: Option<Message>)
    ensures
        match r {
            Some(m) => message_due(tick, *imu1, *imu2) == Some(m@),
            None => message_due(tick, *imu1, *imu2) is None,
        },
{
    match slot_at(tick) {
        Some(Slot::Imu1) => imu_readings(tick, 0, Rotation::Roll180, imu1),
        Some(Slot::Imu2) => imu_readings(tick, 1, Rotation::Pitch180, imu2),
        Some(Slot::Heartbeat) => Some(Message::Heartbeat),
        Some(Slot::SysStatus) => {
            let any_ok: bool = imu1.health.is_ok() || imu2.health.is_ok();
            Some(
                Message::SysStatus {
                    present: SENSORS,
                    healthy: if any_ok {
                        SENSORS
                    } else {
                        0
                    },
                },
            )
        },
        Some(Slot::Status1) => Some(imu_health(tick, 0, imu1.health)),
        Some(Slot::Status2) => Some(imu_health(tick, 1, imu2.health)),
        None => None,
    }
}

/// The clock of the link: milliseconds since boot, wrapping at 2^32.
pub struct Schedule {
    tick: u32,
}

impl View for Schedule {
    type V = u32;

    /// The tick that comes next.
    closed spec fn view(&self) -> u32 {
        self.tick
    }
}

impl Schedule {
    pub fn new() -> (r: Self)
        ensures
            r@ == 0,
    {
        Schedule { tick: 0 }
    }

    /// One tick of the link: the message to send, if one is due and the host is
    /// there. Time goes on while it is not, so that timestamps remain times
    /// since boot.
    pub fn step(&mut self, configured: bool, imu1: &ImuOut, imu2: &ImuOut) -> (r: Option<Message>)
        ensures
            final(self)@ == (old(self)@ + 1) % 0x1_0000_0000,
            match r {
                Some(m) => configured && message_due(old(self)@, *imu1, *imu2) == Some(m@),
                None => !configured || message_due(old(self)@, *imu1, *imu2) is None,
            },
            final(self)@ == schedule_step(old(self)@, configured, *imu1, *imu2).0,
            match r {
                Some(m) => schedule_step(old(self)@, configured, *imu1, *imu2).1 == Some(m@),
                None => schedule_step(old(self)@, configured, *imu1, *imu2).1 is None,
            },
    {
        let tick: u32 = self.tick;
        self.tick = tick.wrapping_add(1);
        if configured {
            due(tick, imu1, imu2)
        } else {
            None
        }
    }
}

/// The frame of a message. `accel` and `gyro` are the readings in SI units for
/// a HIGHRES_IMU message; the others do not use them.
pub open spec fn message_frame(
    sequence: u8,
    m: MessageModel,
    accel: Seq<F32Bits>,
    gyro: Seq<F32Bits>,
) -> Seq<u8> {
    match m {
        MessageModel::HighresImu { time_usec, id, .. } => frame_of(
            sequence,
            MSG_HIGHRES_IMU,
            CRC_HIGHRES_IMU,
            highres_imu_payload(time_usec, id, accel, gyro, None),
        ),
        MessageModel::Heartbeat => frame_of(
            sequence,
            MSG_HEARTBEAT,
            CRC_HEARTBEAT,
            heartbeat_payload(),
        ),
        MessageModel::SysStatus { present, healthy } => frame_of(
            sequence,
            MSG_SYS_STATUS,
            CRC_SYS_STATUS,
            sys_status_payload(present, healthy),
        ),
        MessageModel::ImuStatus { time_boot_ms, id, ok, whoami } => frame_of(
            sequence,
            MSG_SCKY_IMU_STATUS,
            CRC_SCKY_IMU_STATUS,
            imu_status_payload(time_boot_ms, id, ok, ok, whoami),
        ),
    }
}

/// `accel` and `gyro` are what the conversion may give for the readings in a
/// message.
pub open spec fn converted<
    C: Fn([F32Bits; 3], [F32Bits; 3]) -> ([F32Bits; 3], [F32Bits; 3]),
>(to_si: C, m: MessageModel, accel: [F32Bits; 3], gyro: [F32Bits; 3]) -> bool {
    m matches MessageModel::HighresImu { accel: a, gyro: g, .. } ==> exists|
        x: [F32Bits; 3],
        y: [F32Bits; 3],
    | x@ == a && y@ == g && #[trigger] call_ensures(to_si, (x, y), (accel, gyro))
}

/// Encodes a message. `to_si` turns acceleration in g and angular rate in deg/s
/// into m/s^2 and rad/s.
pub fn encode<C: Fn([F32Bits; 3], [F32Bits; 3]) -> ([F32Bits; 3], [F32Bits; 3])>(
    encoder: &mut Encoder,
    message: Message,
    to_si: &C,
) -> (r: Frame)
    requires
        forall|x: [F32Bits; 3], y: [F32Bits; 3]| #[trigger] call_requires(*to_si, (x, y)),
    ensures
        final(encoder)@ == next_sequence(old(encoder)@),
        exists|accel: [F32Bits; 3], gyro: [F32Bits; 3]| #[trigger]
            converted(*to_si, message@, accel, gyro) && frame_bytes(r) == message_frame(
                old(encoder)@,
                message@,
                accel@,
                gyro@,
            ),
{
    proof {
        // Messages without readings are not converted.
        let z: [F32Bits; 3] = arbitrary();
        assert(!(message is HighresImu) ==> converted(*to_si, message@, z, z));
    }
    match message {
        Message::HighresImu { time_usec, id, accel, gyro } => {
            let (a, g): ([F32Bits; 3], [F32Bits; 3]) = to_si(accel, gyro);
            assert(converted(*to_si, message@, a, g));
            encoder.highres_imu(time_usec, id, a, g, None)
        },
        Message::Heartbeat => encoder.heartbeat(),
        Message::SysStatus { present, healthy } => encoder.sys_status(present, healthy),
        Message::ImuStatus { time_boot_ms, id, ok, whoami } => {
            encoder.imu_status(time_boot_ms, id, ok, ok, whoami)
        },
    }
}

/// Ticks in `start..start + n` that the schedule gives to a slot.
pub open spec fn count(slot: Slot, start: int, n: nat) -> nat
    decreases n,
{
    if n == 0 {
        0
    } else {
        count(slot, start, (n - 1) as nat) + if slot_of(start + n - 1) == Some(slot) {
            1nat
        } else {
            0
        }
    }
}

/// The period of a slot and its place in it.
pub open spec fn period(slot: Slot) -> (int, int) {
    match slot {
        Slot::Imu1 => (50, 0),
        Slot::Imu2 => (50, 25),
        Slot::Heartbeat => (1000, 5),
        Slot::SysStatus => (1000, 10),
        Slot::Status1 => (1000, 15),
        Slot::Status2 => (1000, 20),
    }
}

/// A slot comes round exactly once per period, whatever else is due: the
/// conditions of two slots never hold at one tick.
pub proof fn law_slots_disjoint(slot: Slot, tick: int)
    ensures
        slot_of(tick) == Some(slot) <==> tick % period(slot).0 == period(slot).1,
{
}

proof fn lemma_count_fast(slot: Slot, start: int, n: nat)
    requires
        slot == Slot::Imu1 || slot == Slot::Imu2,
        n <= 50,
    ensures
        count(slot, start, n) == if (period(slot).1 - start) % 50 < n {
            1nat
        } else {
            0
        },
    decreases n,
{
    if n > 0 {
        lemma_count_fast(slot, start, (n - 1) as nat);
        law_slots_disjoint(slot, start + n - 1);
    }
}

proof fn lemma_count_slow(slot: Slot, start: int, n: nat)
    requires
        slot != Slot::Imu1 && slot != Slot::Imu2,
        n <= 1000,
    ensures
        count(slot, start, n) == if (period(slot).1 - start) % 1000 < n {
            1nat
        } else {
            0
        },
    decreases n,
{
    if n > 0 {
        lemma_count_slow(slot, start, (n - 1) as nat);
        law_slots_disjoint(slot, start + n - 1);
    }
}

proof fn lemma_count_split(slot: Slot, start: int, m: nat, n: nat)
    ensures
        count(slot, start, m + n) == count(slot, start, m) + count(slot, start + m, n),
    decreases n,
{
    if n > 0 {
        lemma_count_split(slot, start, m, (n - 1) as nat);
        assert((m + n - 1) as nat == m + (n - 1) as nat);
    }
}

proof fn lemma_count_periods(slot: Slot, start: int, k: nat)
    requires
        slot == Slot::Imu1 || slot == Slot::Imu2,
    ensures
        count(slot, start, 50 * k) == k,
    decreases k,
{
    if k > 0 {
        lemma_count_periods(slot, start, (k - 1) as nat);
        lemma_count_split(slot, start, 50 * (k - 1) as nat, 50);
        lemma_count_fast(slot, start + 50 * (k - 1), 50);
        assert(50 * (k - 1) as nat + 50 == 50 * k);
    }
}

/// In any second (a thousand ticks, as long as the tick counter does not wrap)
/// each IMU has twenty slots, and heartbeat, system status and either IMU
/// status have one.
pub proof fn law_rates(start: int)
    ensures
        count(Slot::Imu1, start, 1000) == 20,
        count(Slot::Imu2, start, 1000) == 20,
        count(Slot::Heartbeat, start, 1000) == 1,
        count(Slot::SysStatus, start, 1000) == 1,
        count(Slot::Status1, start, 1000) == 1,
        count(Slot::Status2, start, 1000) == 1,
{
    lemma_count_periods(Slot::Imu1, start, 20);
    lemma_count_periods(Slot::Imu2, start, 20);
    lemma_count_slow(Slot::Heartbeat, start, 1000);
    lemma_count_slow(Slot::SysStatus, start, 1000);
    lemma_count_slow(Slot::Status1, start, 1000);
    lemma_count_slow(Slot::Status2, start, 1000);
}

/// Only a healthy IMU sends readings, in its own slots and under its own id; a
/// status goes out either way.
pub proof fn law_faulty_imu_is_silent(tick: u32, imu1: ImuOut, imu2: ImuOut)
    ensures
        message_due(tick, imu1, imu2) matches Some(MessageModel::HighresImu { id, .. }) ==> (id == 0
            && imu1.health is Healthy) || (id == 1 && imu2.health is Healthy),
        slot_of(tick as int) == Some(Slot::Status1) ==> message_due(tick, imu1, imu2) is Some,
        slot_of(tick as int) == Some(Slot::Status2) ==> message_due(tick, imu1, imu2) is Some,
{
}

/// The readings of a healthy IMU go out every fifty ticks, those of the second
/// half way between those of the first: with the time in microseconds, the IMU's
/// number, and both vectors turned from its mount, about x for the first and
/// about y for the second. A faulty IMU's slot stays empty.
pub proof fn law_readings_due(tick: u32, imu1: ImuOut, imu2: ImuOut)
    ensures
        tick % 50 == 0 ==> (match message_due(tick, imu1, imu2) {
            Some(MessageModel::HighresImu { time_usec, id, accel, gyro }) => {
                &&& imu1.health is Healthy
                &&& time_usec == 1000 * tick
                &&& id == 0
                &&& half_turned(Rotation::Roll180, imu1.accel@, accel)
                &&& half_turned(Rotation::Roll180, imu1.gyro@, gyro)
            },
            Some(_) => false,
            None => !(imu1.health is Healthy),
        }),
        tick % 50 == 25 ==> (match message_due(tick, imu1, imu2) {
            Some(MessageModel::HighresImu { time_usec, id, accel, gyro }) => {
                &&& imu2.health is Healthy
                &&& time_usec == 1000 * tick
                &&& id == 1
                &&& half_turned(Rotation::Pitch180, imu2.accel@, accel)
                &&& half_turned(Rotation::Pitch180, imu2.gyro@, gyro)
            },
            Some(_) => false,
            None => !(imu2.health is Healthy),
        }),
{
    law_rotation_axes(Rotation::Roll180, imu1.accel@);
    law_rotation_axes(Rotation::Roll180, imu1.gyro@);
    law_rotation_axes(Rotation::Pitch180, imu2.accel@);
    law_rotation_axes(Rotation::Pitch180, imu2.gyro@);
}

/// The identity in a health value.
pub open spec fn identity_in(h: Health, id: u8) -> bool {
    match h {
        Health::Healthy(v) => id == v,
        Health::Bad(v) => id == v,
        Health::Unknown => id == 0,
    }
}

/// Once a second, spread over four ticks: the heartbeat; the system status, in
/// which both sensor bits are present, and healthy exactly when an IMU is; and
/// the status of either IMU, with the time, its number, its health and its
/// identity. At every other tick that is no reading's nothing is due.
pub proof fn law_status_due(tick: u32, imu1: ImuOut, imu2: ImuOut)
    ensures
        tick % 1000 == 5 ==> message_due(tick, imu1, imu2) == Some(MessageModel::Heartbeat),
        tick % 1000 == 10 ==> message_due(tick, imu1, imu2) == Some(
            MessageModel::SysStatus {
                present: 6,
                healthy: if imu1.health is Healthy || imu2.health is Healthy {
                    6
                } else {
                    0
                },
            },
        ),
        tick % 1000 == 15 ==> (message_due(tick, imu1, imu2) matches Some(
            MessageModel::ImuStatus { time_boot_ms, id, ok, whoami },
        ) && time_boot_ms == tick && id == 0 && ok == (imu1.health is Healthy) && identity_in(
            imu1.health,
            whoami,
        )),
        tick % 1000 == 20 ==> (message_due(tick, imu1, imu2) matches Some(
            MessageModel::ImuStatus { time_boot_ms, id, ok, whoami },
        ) && time_boot_ms == tick && id == 1 && ok == (imu2.health is Healthy) && identity_in(
            imu2.health,
            whoami,
        )),
        tick % 25 != 0 && tick % 1000 != 5 && tick % 1000 != 10 && tick % 1000 != 15 && tick % 1000
            != 20 ==> message_due(tick, imu1, imu2) is None,
{
}

/// What goes out for a message: the frame of its own kind with what it says, the
/// readings replaced by those in SI units. An IMU that is healthy is also
/// connected.
pub proof fn law_message_encoded(
    sequence: u8,
    m: MessageModel,
    accel: Seq<F32Bits>,
    gyro: Seq<F32Bits>,
)
    ensures
        ({
            let b = message_frame(sequence, m, accel, gyro);
            match m {
                MessageModel::HighresImu { time_usec, id, .. } => b == frame_of(
                    sequence,
                    105,
                    93,
                    highres_imu_payload(time_usec, id, accel, gyro, None),
                ),
                MessageModel::Heartbeat => b == frame_of(sequence, 0, 50, heartbeat_payload()),
                MessageModel::SysStatus { present, healthy } => b == frame_of(
                    sequence,
                    1,
                    124,
                    sys_status_payload(present, healthy),
                ),
                MessageModel::ImuStatus { time_boot_ms, id, ok, whoami } => b == frame_of(
                    sequence,
                    42000,
                    38,
                    imu_status_payload(time_boot_ms, id, ok, ok, whoami),
                ),
            }
        }),
{
}

/// What [`Schedule::step`] does at a tick: the tick that comes next, and the
/// message to send.
pub open spec fn schedule_step(
    tick: u32,
    host: bool,
    imu1: ImuOut,
    imu2: ImuOut,
) -> (u32, Option<MessageModel>) {
    (
        ((tick + 1) % 0x1_0000_0000) as u32,
        if host {
            message_due(tick, imu1, imu2)
        } else {
            None
        },
    )
}

/// Time goes on by one at every step, from the last tick back to the first,
/// whether the host is there or not; messages go out only while it is, and
/// coming back it misses none that falls due from there on.
pub proof fn law_time_goes_on(tick: u32, host: bool, imu1: ImuOut, imu2: ImuOut)
    ensures
        tick < u32::MAX ==> schedule_step(tick, host, imu1, imu2).0 == tick + 1,
        tick == u32::MAX ==> schedule_step(tick, host, imu1, imu2).0 == 0,
        schedule_step(tick, false, imu1, imu2).1 is None,
        schedule_step(tick, true, imu1, imu2).1 == message_due(tick, imu1, imu2),
{
}

/// The readings of a message are converted, acceleration first and angular rate
/// second, and what comes of each goes out in its own place; other messages are
/// not converted.
pub proof fn law_readings_converted<
    C: Fn([F32Bits; 3], [F32Bits; 3]) -> ([F32Bits; 3], [F32Bits; 3]),
>(
    to_si: C,
    time_usec: u64,
    id: u8,
    a: [F32Bits; 3],
    g: [F32Bits; 3],
    accel: [F32Bits; 3],
    gyro: [F32Bits; 3],
)
    requires
        converted(
            to_si,
            (MessageModel::HighresImu { time_usec, id, accel: a@, gyro: g@ }),
            accel,
            gyro,
        ),
    ensures
        call_ensures(to_si, (a, g), (accel, gyro)),
        converted(to_si, MessageModel::Heartbeat, accel, gyro),
{
    let (x, y) = choose|x: [F32Bits; 3], y: [F32Bits; 3]|
        x@ == a@ && y@ == g@ && #[trigger] call_ensures(to_si, (x, y), (accel, gyro));
    assert(x =~= a && y =~= g);
}

} // verus!
