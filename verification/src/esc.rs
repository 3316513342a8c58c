//! ESC manager: configuration, per-motor test state, DShot command queues and
//! the master interlock between commands and the motor output.
//!
//! The master enable switch is the arm for persistent output. Each of the four
//! motors is independent: it carries its own throttle target, its own watchdog
//! deadline and its own queue of DShot special commands.
//!
//! What the ESC firmwares (AM32, BLHeli_32) require of the output:
//!   * a continuous stream: zero-throttle frames go out even while disarmed;
//!   * throttle is ramped up, never stepped;
//!   * special commands are honoured only at zero throttle and with the
//!     telemetry-request bit, and each is repeated over several frames.

use crate::dshot::{
    frame_ok, frame_telem, frame_value, frame_word, law_frame_round_trip, make_frame, protocol_of,
    Protocol,
};
use crate::esc_telem::{law_mechanical_speed, mechanical_rpm, TelemFrame};
use crate::float::{at_most, is_nan, F32Bits, ONE_BITS, ZERO_BITS};
use vstd::prelude::*;

verus! {

/// Number of motors and ESCs.
pub const N_MOTORS: usize = 4;

/// Lowest DShot throttle value (1..47 are special commands).
pub const DSHOT_MIN_THROTTLE: u16 = 48;

pub const DSHOT_MAX_THROTTLE: u16 = 2047;

/// Throttle steps between the lowest and the highest throttle value.
pub const THROTTLE_SPAN: u16 = 1999;

/// How long (ms) a motor test runs if the host does not refresh it.
pub const DEFAULT_TEST_TIMEOUT_MS: u32 = 3000;

/// Shorter timeouts (ms) than this mean the default.
pub const SHORTEST_TEST_TIMEOUT_MS: u32 = 500;

/// Times each queued special command is repeated on the wire.
pub const CMD_REPEATS: u8 = 10;

/// Depth of a motor's special-command queue.
pub const CMD_DEPTH: usize = 6;

/// Most that the throttle rises per output tick.
pub const RAMP_STEP_PER_TICK: u16 = 2;

/// Target meaning every motor.
pub const ALL_MOTORS: u8 = 0xFF;

/// Analog current-sense scale of the stock ESC, `490.0`.
pub const CUR_SCALE_BITS: u32 = 0x43F5_0000;

/// Full throttle in percent, `100.0`.
pub const FULL_PCT_BITS: u32 = 0x42C8_0000;

/// Latest decoded ESC telemetry, indexed by motor.
#[derive(Clone, Copy)]
pub struct EscTelemetry {
    pub rpm: [i32; N_MOTORS],
    pub centivolt: [u16; N_MOTORS],
    pub centiamp: [u16; N_MOTORS],
    pub temp: [u8; N_MOTORS],
    pub err: [u8; N_MOTORS],
    /// Consumption (mAh) of the most recently reported ESC.
    pub mah: u16,
    /// Slot that the next decoded record is attributed to: the shared
    /// telemetry wire carries no motor id.
    rr: usize,
}

/// What an [`EscTelemetry`] holds.
#[verifier::ext_equal]
pub struct TelemetryModel {
    pub rpm: Seq<i32>,
    pub centivolt: Seq<u16>,
    pub centiamp: Seq<u16>,
    pub temp: Seq<u8>,
    pub err: Seq<u8>,
    pub mah: u16,
    pub next: int,
}

impl View for EscTelemetry {
    type V = TelemetryModel;

    closed spec fn view(&self) -> TelemetryModel {
        TelemetryModel {
            rpm: self.rpm@,
            centivolt: self.centivolt@,
            centiamp: self.centiamp@,
            temp: self.temp@,
            err: self.err@,
            mah: self.mah,
            next: self.rr as int,
        }
    }
}

/// `n` times the same value.
pub open spec fn filled<T>(n: nat, v: T) -> Seq<T> {
    Seq::new(n, |i: int| v)
}

/// Nothing reported yet.
pub open spec fn no_telemetry() -> TelemetryModel {
    TelemetryModel {
        rpm: filled(4, 0),
        centivolt: filled(4, 0),
        centiamp: filled(4, 0),
        temp: filled(4, 0),
        err: filled(4, 0),
        mah: 0,
        next: 0,
    }
}

/// The effect of one record: it fills the next slot, and the slot after that
/// is next.
pub open spec fn ingested(t: TelemetryModel, f: TelemFrame, pole_count: int) -> TelemetryModel {
    TelemetryModel {
        rpm: t.rpm.update(t.next, mechanical_rpm(f.erpm as int, pole_count) as i32),
        centivolt: t.centivolt.update(t.next, f.centivolt),
        centiamp: t.centiamp.update(t.next, f.centiamp),
        temp: t.temp.update(t.next, f.temp_c),
        err: t.err,
        mah: f.mah,
        next: (t.next + 1) % 4,
    }
}

impl EscTelemetry {
    /// Every value is in this condition; `new` makes it so and `ingest` keeps
    /// it.
    pub closed spec fn wf(&self) -> bool {
        self.rr < N_MOTORS
    }

    pub fn new() -> (r: Self)
        ensures
            r.wf(),
            r@ == no_telemetry(),
    {
        let r = EscTelemetry {
            rpm: [0; N_MOTORS],
            centivolt: [0; N_MOTORS],
            centiamp: [0; N_MOTORS],
            temp: [0; N_MOTORS],
            err: [0; N_MOTORS],
            mah: 0,
            rr: 0,
        };
        assert(r@ =~= no_telemetry());
        r
    }

    /// Stores a decoded telemetry record into the next motor slot.
    pub fn ingest(&mut self, f: TelemFrame, pole_count: u8)
        requires
            old(self).wf(),
            f.erpm * 2 <= u32::MAX,
        ensures
            final(self).wf(),
            final(self)@ == ingested(old(self)@, f, pole_count as int),
    {
        let i: usize = self.rr;
        self.rpm[i] = f.rpm(pole_count);
        self.centivolt[i] = f.centivolt;
        self.centiamp[i] = f.centiamp;
        self.temp[i] = f.temp_c;
        self.mah = f.mah;
        self.rr = (self.rr + 1) % N_MOTORS;
        assert(self@ =~= ingested(old(self)@, f, pole_count as int));
    }

    /// Speeds by motor, rpm.
    pub fn rpm(&self) -> (r: [i32; N_MOTORS])
        ensures
            r@ == self@.rpm,
    {
        self.rpm
    }

    /// Voltages by motor, hundredths of a volt.
    pub fn centivolt(&self) -> (r: [u16; N_MOTORS])
        ensures
            r@ == self@.centivolt,
    {
        self.centivolt
    }

    /// Currents by motor, hundredths of an ampere.
    pub fn centiamp(&self) -> (r: [u16; N_MOTORS])
        ensures
            r@ == self@.centiamp,
    {
        self.centiamp
    }

    /// Temperatures by motor, degrees Celsius.
    pub fn temp(&self) -> (r: [u8; N_MOTORS])
        ensures
            r@ == self@.temp,
    {
        self.temp
    }

    /// Error counts by motor.
    pub fn err(&self) -> (r: [u8; N_MOTORS])
        ensures
            r@ == self@.err,
    {
        self.err
    }

    /// Consumption (mAh) of the most recently reported ESC.
    pub fn mah(&self) -> (r: u16)
        ensures
            r == self@.mah,
    {
        self.mah
    }

    /// Sum of the per-motor currents, in hundredths of an ampere.
    pub fn total_current_centiamp(&self) -> (r: u32)
        ensures
            r == self@.centiamp[0] + self@.centiamp[1] + self@.centiamp[2] + self@.centiamp[3],
            r == total_centiamp(self@),
    {
        self.centiamp[0] as u32 + self.centiamp[1] as u32 + self.centiamp[2] as u32
            + self.centiamp[3] as u32
    }
}

/// The effect of a series of records, each with the pole count it came under.
pub open spec fn ingested_all(t: TelemetryModel, records: Seq<(TelemFrame, u8)>) -> TelemetryModel
    decreases records.len(),
{
    if records.len() == 0 {
        t
    } else {
        let (f, pole_count) = records.last();
        ingested(ingested_all(t, records.drop_last()), f, pole_count as int)
    }
}

/// Slot `i` holds a record.
pub open spec fn slot_holds(t: TelemetryModel, i: int, record: (TelemFrame, u8)) -> bool {
    &&& t.rpm[i] == mechanical_rpm(record.0.erpm as int, record.1 as int) as i32
    &&& t.centivolt[i] == record.0.centivolt
    &&& t.centiamp[i] == record.0.centiamp
    &&& t.temp[i] == record.0.temp_c
}

/// Slot `i` is the same in both.
pub open spec fn same_slot(t: TelemetryModel, u: TelemetryModel, i: int) -> bool {
    &&& t.rpm[i] == u.rpm[i]
    &&& t.centivolt[i] == u.centivolt[i]
    &&& t.centiamp[i] == u.centiamp[i]
    &&& t.temp[i] == u.temp[i]
}

/// Records go to the slots in turn: of any number of them the last four stand
/// in the slots, each where its turn put it. Slots whose turn has not come, and
/// the error counts, keep what they held.
pub proof fn law_slots_in_turn(t: TelemetryModel, records: Seq<(TelemFrame, u8)>)
    requires
        0 <= t.next < 4,
        t.rpm.len() == 4,
        t.centivolt.len() == 4,
        t.centiamp.len() == 4,
        t.temp.len() == 4,
    ensures
        ({
            let u = ingested_all(t, records);
            let n = records.len() as int;
            &&& u.rpm.len() == 4
            &&& u.centivolt.len() == 4
            &&& u.centiamp.len() == 4
            &&& u.temp.len() == 4
            &&& u.next == (t.next + n) % 4
            &&& u.err == t.err
            &&& u.mah == if n == 0 {
                t.mah
            } else {
                records.last().0.mah
            }
            &&& forall|k: int|
                0 <= k < n && n - 4 <= k ==> slot_holds(u, (t.next + k) % 4, #[trigger] records[k])
            &&& forall|i: int|
                0 <= i < 4 && (i - t.next) % 4 >= n ==> #[trigger] same_slot(u, t, i)
        }),
    decreases records.len(),
{
    if records.len() > 0 {
        let d = records.drop_last();
        let v = ingested_all(t, d);
        let u = ingested_all(t, records);
        let n = records.len() as int;
        law_slots_in_turn(t, d);
        assert forall|k: int| 0 <= k < n && n - 4 <= k implies slot_holds(
            u,
            (t.next + k) % 4,
            #[trigger] records[k],
        ) by {
            if k < n - 1 {
                assert(d[k] == records[k]);
                assert((t.next + k) % 4 != v.next);
            }
        }
        assert forall|i: int| 0 <= i < 4 && (i - t.next) % 4 >= n implies #[trigger] same_slot(
            u,
            t,
            i,
        ) by {
            assert(same_slot(v, t, i));
            assert(i != v.next);
        }
    }
}

/// After any number of records slot `i` holds the last of those whose number,
/// counted from 0, leaves `i` modulo 4, or zeros where there is none; the error
/// counts are zero.
pub proof fn law_round_robin(records: Seq<(TelemFrame, u8)>, i: int)
    requires
        0 <= i < 4,
    ensures
        ({
            let u = ingested_all(no_telemetry(), records);
            let n = records.len() as int;
            let last = n - 1 - (n - 1 - i) % 4;
            &&& u.next == n % 4
            &&& u.err == filled::<u8>(4, 0)
            &&& if n <= i {
                same_slot(u, no_telemetry(), i)
            } else {
                &&& 0 <= last < n <= last + 4
                &&& last % 4 == i
                &&& slot_holds(u, i, records[last])
            }
        }),
{
    let n = records.len() as int;
    law_slots_in_turn(no_telemetry(), records);
    if n > i {
        let last = n - 1 - (n - 1 - i) % 4;
        assert(last % 4 == i);
        assert(slot_holds(ingested_all(no_telemetry(), records), last % 4, records[last]));
    } else {
        assert(same_slot(ingested_all(no_telemetry(), records), no_telemetry(), i));
    }
}

/// Live, host-tunable ESC configuration.
#[derive(Clone, Copy)]
pub struct EscConfig {
    /// Master output enable, off until the ground station turns it on.
    pub master_enabled: bool,
    pub protocol: Protocol,
    /// Output refresh rate (Hz).
    pub refresh_hz: u16,
    /// Bidirectional-DShot request flag, reflected to the ground station.
    pub bidir: bool,
    /// Bit per motor: 1 when the last commanded spin direction was reversed.
    pub dir_mask: u8,
    /// Bit per motor: 1 when 3D mode was last commanded on.
    pub mode3d_mask: u8,
    /// Motor magnetic pole count.
    pub pole_count: u8,
    /// Analog current-sense scale (A per volt) and offset (mV).
    pub cur_scale: F32Bits,
    pub cur_offset: F32Bits,
}

/// The configuration at power-on: output off.
pub open spec fn default_config() -> EscConfig {
    EscConfig {
        master_enabled: false,
        protocol: Protocol::Dshot150,
        refresh_hz: 1000,
        bidir: false,
        dir_mask: 0,
        mode3d_mask: 0,
        pole_count: 14,
        cur_scale: F32Bits(CUR_SCALE_BITS),
        cur_offset: F32Bits(ZERO_BITS),
    }
}

impl Default for EscConfig {
    fn default() -> (r: Self)
        ensures
            r == default_config(),
    {
        EscConfig {
            master_enabled: false,
            protocol: Protocol::Dshot150,
            refresh_hz: 1000,
            bidir: false,
            dir_mask: 0,
            mode3d_mask: 0,
            pole_count: 14,
            cur_scale: F32Bits(CUR_SCALE_BITS),
            cur_offset: F32Bits(ZERO_BITS),
        }
    }
}

/// A pending special command: its code and the repeats left.
pub type Pending = (u16, u8);

/// The queue with one more command, unless it is full.
pub open spec fn enqueued(q: Seq<Pending>, code: u16) -> Seq<Pending> {
    if q.len() < CMD_DEPTH {
        q.push((code, CMD_REPEATS))
    } else {
        q
    }
}

/// The queue after its front command went out once.
pub open spec fn sent_once(q: Seq<Pending>) -> Seq<Pending> {
    if q[0].1 <= 1 {
        q.drop_first()
    } else {
        q.update(0, (q[0].0, (q[0].1 - 1) as u8))
    }
}

/// A queue that the output path can hold: not too long, no entry used up.
pub open spec fn queue_ok(q: Seq<Pending>) -> bool {
    q.len() <= CMD_DEPTH && forall|i: int| 0 <= i < q.len() ==> 1 <= (#[trigger] q[i]).1
        <= CMD_REPEATS
}

/// In-order queue of pending special commands for one motor.
#[derive(Clone, Copy)]
struct CmdFifo {
    items: [(u16, u8); CMD_DEPTH],
    len: u8,
}

impl CmdFifo {
    spec fn wf(&self) -> bool {
        self.len <= CMD_DEPTH && queue_ok(self.q())
    }

    spec fn q(&self) -> Seq<Pending> {
        self.items@.take(self.len as int)
    }

    fn new() -> (r: Self)
        ensures
            r.wf(),
            r.q() == Seq::<Pending>::empty(),
    {
        let r = CmdFifo { items: [(0, 0); CMD_DEPTH], len: 0 };
        assert(r.q() =~= Seq::empty());
        r
    }

    /// Enqueues a command to be repeated [`CMD_REPEATS`] times; dropped when
    /// the queue is full.
    fn push(&mut self, code: u16)
        requires
            old(self).wf(),
        ensures
            final(self).wf(),
            final(self).q() == enqueued(old(self).q(), code),
    {
        if (self.len as usize) < CMD_DEPTH {
            self.items[self.len as usize] = (code, CMD_REPEATS);
            self.len = self.len + 1;
            assert(self.q() =~= old(self).q().push((code, CMD_REPEATS)));
        }
    }

    /// The front command's code for this tick, counting one repeat and popping
    /// the entry when its repeats run out. `None` when the queue is empty.
    fn next_code(&mut self) -> (r: Option<u16>)
        requires
            old(self).wf(),
        ensures
            final(self).wf(),
            match r {
                None => old(self).q().len() == 0 && final(self).q() == old(self).q(),
                Some(code) => old(self).q().len() > 0 && code == old(self).q()[0].0
                    && final(self).q() == sent_once(old(self).q()),
            },
    {
        if self.len == 0 {
            return None;
        }
        let (code, reps): (u16, u8) = self.items[0];
        let ghost q = self.q();
        assert(q[0] == (code, reps));
        if reps <= 1 {
            let n: usize = self.len as usize;
            let mut i: usize = 1;
            while i < n
                invariant
                    1 <= i <= n <= CMD_DEPTH,
                    n == self.len,
                    self.len == old(self).len,
                    q == old(self).q(),
                    forall|j: int| 0 <= j < i - 1 ==> self.items@[j] == q[j + 1],
                    forall|j: int| i - 1 <= j < n ==> self.items@[j] == q[j],
                decreases n - i,
            {
                self.items[i - 1] = self.items[i];
                i = i + 1;
            }
            self.len = self.len - 1;
            assert(self.q() =~= q.drop_first());
            assert forall|i: int| 0 <= i < self.q().len() implies 1 <= (#[trigger] self.q()[i]).1
                <= CMD_REPEATS by {
                assert(self.q()[i] == q[i + 1]);
            }
        } else {
            self.items[0] = (code, reps - 1);
            assert(self.q() =~= q.update(0, (code, (reps - 1) as u8)));
        }
        Some(code)
    }

    fn clear(&mut self)
        ensures
            final(self).wf(),
            final(self).q() == Seq::<Pending>::empty(),
    {
        self.len = 0;
        assert(self.q() =~= Seq::empty());
    }
}

/// Output state of one motor.
#[verifier::ext_equal]
pub struct MotorModel {
    /// Target throttle, or 0 for stop.
    pub target: u16,
    /// Deadline (ms) after which the target expires to stop.
    pub until_ms: u32,
    /// Throttle on the wire.
    pub applied: u16,
    /// Pending special commands.
    pub cmds: Seq<Pending>,
}

/// Stop, or a throttle that is no special command.
pub open spec fn throttle_ok(v: u16) -> bool {
    v == 0 || DSHOT_MIN_THROTTLE <= v <= DSHOT_MAX_THROTTLE
}

/// A motor state that the output path can be in.
pub open spec fn motor_ok(m: MotorModel) -> bool {
    throttle_ok(m.target) && throttle_ok(m.applied) && queue_ok(m.cmds)
}

/// At rest with nothing pending.
pub open spec fn idle_motor() -> MotorModel {
    MotorModel { target: 0, until_ms: 0, applied: 0, cmds: Seq::empty() }
}

#[derive(Clone, Copy)]
struct MotorOut {
    target: u16,
    until_ms: u32,
    applied: u16,
    cmds: CmdFifo,
}

impl MotorOut {
    spec fn m(&self) -> MotorModel {
        MotorModel {
            target: self.target,
            until_ms: self.until_ms,
            applied: self.applied,
            cmds: self.cmds.q(),
        }
    }

    spec fn wf(&self) -> bool {
        self.cmds.wf() && motor_ok(self.m())
    }

    fn new() -> (r: Self)
        ensures
            r.wf(),
            r.m() == idle_motor(),
    {
        MotorOut { target: 0, until_ms: 0, applied: 0, cmds: CmdFifo::new() }
    }

    fn reset(&mut self)
        ensures
            final(self).wf(),
            final(self).m() == idle_motor(),
    {
        self.target = 0;
        self.until_ms = 0;
        self.applied = 0;
        self.cmds.clear();
    }

    /// One output tick of this motor; see [`motor_tick`].
    fn tick(&mut self, now_ms: u32) -> (r: u16)
        requires
            old(self).wf(),
        ensures
            final(self).wf(),
            (final(self).m(), r) == motor_tick(old(self).m(), now_ms),
    {
        // Watchdog: a spin that the host stopped refreshing expires to stop.
        if self.target != 0 && now_ms.wrapping_sub(self.until_ms) < u32::MAX / 2 {
            self.target = 0;
        }
        // Special commands go out only while the motor is at rest.
        if self.target == 0 && self.applied == 0 {
            if let Some(code) = self.cmds.next_code() {
                return make_frame(code, true);
            }
        }
        self.applied = slew(self.applied, self.target);
        make_frame(self.applied, false)
    }
}

/// Whether the deadline has passed, on a clock that wraps at 2^32 ms.
pub open spec fn expired(until_ms: u32, now_ms: u32) -> bool {
    (now_ms - until_ms) % 0x1_0000_0000 < 0x7FFF_FFFF
}

/// The throttle one tick later: at once down to a lower target, and up by at
/// most [`RAMP_STEP_PER_TICK`] from the lowest real throttle on.
pub open spec fn slewed(applied: int, target: int) -> int {
    if target <= applied {
        target
    } else {
        let from = if applied < DSHOT_MIN_THROTTLE {
            DSHOT_MIN_THROTTLE as int
        } else {
            applied
        };
        if from + RAMP_STEP_PER_TICK < target {
            from + RAMP_STEP_PER_TICK
        } else {
            target
        }
    }
}

fn slew(applied: u16, target: u16) -> (r: u16)
    requires
        target <= DSHOT_MAX_THROTTLE,
    ensures
        r == slewed(applied as int, target as int),
{
    if target <= applied {
        return target;
    }
    let from: u16 = if applied < DSHOT_MIN_THROTTLE {
        DSHOT_MIN_THROTTLE
    } else {
        applied
    };
    if from + RAMP_STEP_PER_TICK < target {
        from + RAMP_STEP_PER_TICK
    } else {
        target
    }
}

/// One output tick of a motor: the state after it and the frame that goes out.
/// An expired target reverts to stop; at rest, the front special command goes
/// out with the telemetry bit; otherwise the throttle moves towards the target.
pub open spec fn motor_tick(m: MotorModel, now_ms: u32) -> (MotorModel, u16) {
    let target = if m.target != 0 && expired(m.until_ms, now_ms) {
        0
    } else {
        m.target
    };
    if target == 0 && m.applied == 0 && m.cmds.len() > 0 {
        (
            MotorModel { target, cmds: sent_once(m.cmds), ..m },
            frame_word(m.cmds[0].0 as int, true),
        )
    } else {
        let applied = slewed(m.applied as int, target as int);
        (MotorModel { target, applied: applied as u16, ..m }, frame_word(applied, false))
    }
}

/// What an [`Esc`] holds.
#[verifier::ext_equal]
pub struct EscState {
    pub config: EscConfig,
    pub motors: Seq<MotorModel>,
}

/// A controller state that can arise: four motors, each in order.
pub open spec fn state_ok(s: EscState) -> bool {
    s.motors.len() == N_MOTORS && forall|i: int|
        0 <= i < N_MOTORS ==> motor_ok(#[trigger] s.motors[i])
}

/// All motors at rest.
pub open spec fn idle_motors() -> Seq<MotorModel> {
    filled(4, idle_motor())
}

/// `v` brought into `lo..=hi`.
pub open spec fn clamped(v: int, lo: int, hi: int) -> int {
    if v < lo {
        lo
    } else if v > hi {
        hi
    } else {
        v
    }
}

/// How long a motor test runs.
pub open spec fn test_window(timeout_ms: u32) -> u32 {
    if timeout_ms < SHORTEST_TEST_TIMEOUT_MS {
        DEFAULT_TEST_TIMEOUT_MS
    } else {
        timeout_ms
    }
}

/// The DShot value of a throttle demand: `None` is stop, `Some(k)` is `k`
/// steps above the lowest throttle.
pub open spec fn throttle_value(throttle: Option<u16>) -> u16 {
    match throttle {
        None => 0,
        Some(k) => (DSHOT_MIN_THROTTLE + if k < THROTTLE_SPAN {
            k
        } else {
            THROTTLE_SPAN
        }) as u16,
    }
}

/// `throttle` is what a percentage demands: stop when it is not positive, full
/// throttle from a hundred on, the lowest throttle when it is no number, and
/// otherwise what the conversion may give for the percentage, or for the
/// fraction when it is at most one.
pub open spec fn demanded<S: Fn(F32Bits, bool) -> u16>(
    steps: S,
    pct: F32Bits,
    throttle: Option<u16>,
) -> bool {
    if at_most(pct, F32Bits(ZERO_BITS)) {
        throttle is None
    } else if is_nan(pct) {
        throttle == Some(0u16)
    } else if at_most(F32Bits(FULL_PCT_BITS), pct) {
        throttle == Some(THROTTLE_SPAN)
    } else {
        exists|k: u16| #[trigger]
            call_ensures(steps, (pct, at_most(pct, F32Bits(ONE_BITS))), k) && throttle == Some(k)
    }
}

/// The motor that a 1-based test number means; 0 is taken as the first.
pub open spec fn test_index(motor: u8) -> int {
    if motor == 0 {
        0
    } else {
        motor - 1
    }
}

/// The state after a motor-test request, and whether there is such a motor.
pub open spec fn test_started(
    s: EscState,
    motor: u8,
    throttle: Option<u16>,
    timeout_ms: u32,
    now_ms: u32,
) -> (EscState, bool) {
    let i = test_index(motor);
    if i >= N_MOTORS {
        (s, false)
    } else {
        let m = s.motors[i];
        match throttle {
            None => (
                EscState { motors: s.motors.update(i, MotorModel { target: 0, ..m }), ..s },
                true,
            ),
            Some(_) => (
                EscState {
                    config: EscConfig { master_enabled: true, ..s.config },
                    motors: s.motors.update(
                        i,
                        MotorModel {
                            target: throttle_value(throttle),
                            until_ms: ((now_ms + test_window(timeout_ms)) % 0x1_0000_0000) as u32,
                            ..m
                        },
                    ),
                },
                true,
            ),
        }
    }
}

/// A mask of motors after one of them, or all, were commanded on or off.
pub open spec fn mask_after(mask: u8, motor: Option<int>, on: bool) -> u8 {
    match motor {
        None => if on {
            0x0F
        } else {
            0
        },
        Some(i) => if on {
            mask | (1u8 << (i as u8))
        } else {
            mask & !(1u8 << (i as u8))
        },
    }
}

/// The configuration that reflects a direction (20, 21) or 3D (9, 10) command
/// to one motor or to all.
pub open spec fn reflected(c: EscConfig, motor: Option<int>, code: u16) -> EscConfig {
    if code == 20 {
        EscConfig { dir_mask: mask_after(c.dir_mask, motor, false), ..c }
    } else if code == 21 {
        EscConfig { dir_mask: mask_after(c.dir_mask, motor, true), ..c }
    } else if code == 9 {
        EscConfig { mode3d_mask: mask_after(c.mode3d_mask, motor, false), ..c }
    } else if code == 10 {
        EscConfig { mode3d_mask: mask_after(c.mode3d_mask, motor, true), ..c }
    } else {
        c
    }
}

/// A motor told to stop and to pass on a special command.
pub open spec fn commanded(m: MotorModel, code: u16) -> MotorModel {
    MotorModel { target: 0, cmds: enqueued(m.cmds, code), ..m }
}

/// The state after a special command to motor `target` (1-based), or to all
/// motors for 0. Other targets mean nothing.
pub open spec fn command_queued(s: EscState, target: u8, code: u16) -> EscState {
    let armed = EscConfig { master_enabled: true, ..s.config };
    if target == 0 {
        EscState {
            config: reflected(armed, None, code),
            motors: Seq::new(4, |i: int| commanded(s.motors[i], code)),
        }
    } else if target <= N_MOTORS {
        EscState {
            config: reflected(armed, Some(target - 1), code),
            motors: s.motors.update(target - 1, commanded(s.motors[target - 1], code)),
        }
    } else {
        s
    }
}

/// One output tick: the state after it and the four frames. With the master
/// off, every motor is stopped and forgets what it was told.
pub open spec fn ticked(s: EscState, now_ms: u32) -> (EscState, Seq<u16>) {
    if s.config.master_enabled {
        (
            EscState { motors: Seq::new(4, |i: int| motor_tick(s.motors[i], now_ms).0), ..s },
            Seq::new(4, |i: int| motor_tick(s.motors[i], now_ms).1),
        )
    } else {
        (EscState { motors: idle_motors(), ..s }, filled(4, frame_word(0, false)))
    }
}

/// The first motor from `i` on that has a throttle target.
pub open spec fn first_spinning(motors: Seq<MotorModel>, i: int) -> Option<int>
    decreases motors.len() - i,
{
    if i >= motors.len() {
        None
    } else if motors[i].target != 0 {
        Some(i)
    } else {
        first_spinning(motors, i + 1)
    }
}

/// ESC controller state, mutated by inbound commands.
pub struct Esc {
    pub config: EscConfig,
    motors: [MotorOut; N_MOTORS],
}

impl View for Esc {
    type V = EscState;

    closed spec fn view(&self) -> EscState {
        EscState { config: self.config, motors: self.motors@.map_values(|m: MotorOut| m.m()) }
    }
}

impl Esc {
    /// Every controller is in this condition; `new` makes it so and every
    /// method keeps it. Then its state is [`state_ok`].
    pub closed spec fn wf(&self) -> bool {
        forall|i: int| 0 <= i < N_MOTORS ==> (#[trigger] self.motors@[i]).wf()
    }

    /// A controller that came from `new` and its methods is in a state that can
    /// arise: no target or throttle among the special commands, no queue too long.
    pub proof fn law_state_ok(&self)
        requires
            self.wf(),
        ensures
            state_ok(self@),
    {
        assert forall|i: int| 0 <= i < N_MOTORS implies motor_ok(#[trigger] self@.motors[i]) by {
            assert(self.motors@[i].wf());
        }
    }

    pub fn new() -> (r: Self)
        ensures
            r.wf(),
            r@ == (EscState { config: default_config(), motors: idle_motors() }),
    {
        let r = Esc { config: EscConfig::default(), motors: [MotorOut::new(); N_MOTORS] };
        assert(r@.motors =~= idle_motors());
        r
    }

    /// The live configuration.
    pub fn config(&self) -> (r: EscConfig)
        ensures
            r == self@.config,
    {
        self.config
    }

    /// Resets every motor.
    fn reset_all(&mut self)
        ensures
            final(self).wf(),
            final(self)@ == (EscState { motors: idle_motors(), ..old(self)@ }),
    {
        let mut i: usize = 0;
        while i < N_MOTORS
            invariant
                i <= N_MOTORS,
                self.config == old(self).config,
                forall|j: int|
                    0 <= j < i ==> (#[trigger] self.motors@[j]).wf() && self.motors@[j].m()
                        == idle_motor(),
            decreases N_MOTORS - i,
        {
            let mut m = self.motors[i];
            m.reset();
            self.motors[i] = m;
            i = i + 1;
        }
        assert(self@.motors =~= idle_motors());
    }

    /// Applies a configuration write. Disabling the master cancels all motor
    /// activity at once.
    pub fn apply_set(
        &mut self,
        master_enabled: bool,
        protocol: u8,
        refresh_hz: u16,
        bidir: bool,
        dir_mask: u8,
        mode3d_mask: u8,
        pole_count: u8,
        cur_scale: F32Bits,
        cur_offset: F32Bits,
    )
        requires
            old(self).wf(),
        ensures
            final(self).wf(),
            final(self)@ == (EscState {
                config: EscConfig {
                    master_enabled,
                    protocol: protocol_of(protocol as int),
                    refresh_hz: clamped(refresh_hz as int, 50, 1000) as u16,
                    bidir,
                    dir_mask,
                    mode3d_mask,
                    pole_count: clamped(pole_count as int, 2, 64) as u8,
                    cur_scale,
                    cur_offset,
                },
                motors: if master_enabled {
                    old(self)@.motors
                } else {
                    idle_motors()
                },
            }),
            final(self)@ == configured(
                old(self)@,
                (EscConfig {
                    master_enabled,
                    protocol: protocol_of(protocol as int),
                    refresh_hz,
                    bidir,
                    dir_mask,
                    mode3d_mask,
                    pole_count,
                    cur_scale,
                    cur_offset,
                }),
            ),
    {
        self.config.master_enabled = master_enabled;
        self.config.protocol = Protocol::from_u8(protocol);
        self.config.refresh_hz = if refresh_hz < 50 {
            50
        } else if refresh_hz > 1000 {
            1000
        } else {
            refresh_hz
        };
        self.config.bidir = bidir;
        self.config.dir_mask = dir_mask;
        self.config.mode3d_mask = mode3d_mask;
        self.config.pole_count = if pole_count < 2 {
            2
        } else if pole_count > 64 {
            64
        } else {
            pole_count
        };
        self.config.cur_scale = cur_scale;
        self.config.cur_offset = cur_offset;
        if !master_enabled {
            self.reset_all();
        }
    }

    /// Starts a timed motor test at a throttle percentage (0..100). `motor` is
    /// 1-based (0 is taken as the first). Some frontends encode 10 % as 0.10, so
    /// a positive number up to one is a fraction. `steps` turns a percentage, or
    /// a fraction when its second argument says so, into throttle steps above
    /// the lowest. Returns whether there is such a motor.
    pub fn start_test<S: Fn(F32Bits, bool) -> u16>(
        &mut self,
        motor: u8,
        throttle_pct: F32Bits,
        timeout_ms: u32,
        now_ms: u32,
        steps: &S,
    ) -> (r: bool)
        requires
            old(self).wf(),
            forall|p: F32Bits, fraction: bool| #[trigger] call_requires(*steps, (p, fraction)),
        ensures
            final(self).wf(),
            exists|throttle: Option<u16>| #[trigger]
                demanded(*steps, throttle_pct, throttle) && (final(self)@, r) == test_started(
                    old(self)@,
                    motor,
                    throttle,
                    timeout_ms,
                    now_ms,
                ),
    {
        let throttle: Option<u16> = if throttle_pct.le(F32Bits(ZERO_BITS)) {
            None
        } else if throttle_pct.nan() {
            Some(0)
        } else if F32Bits(FULL_PCT_BITS).le(throttle_pct) {
            Some(THROTTLE_SPAN)
        } else {
            Some(steps(throttle_pct, throttle_pct.le(F32Bits(ONE_BITS))))
        };
        assert(demanded(*steps, throttle_pct, throttle));
        self.begin_test(motor, throttle, timeout_ms, now_ms)
    }

    /// Starts a timed motor test. `motor` is 1-based (0 is taken as the first);
    /// `throttle` is `None` for stop, or the steps above the lowest throttle.
    /// A spin enables the master; a stop never does. Returns whether there is
    /// such a motor.
    pub fn begin_test(
        &mut self,
        motor: u8,
        throttle: Option<u16>,
        timeout_ms: u32,
        now_ms: u32,
    ) -> (r: bool)
        requires
            old(self).wf(),
        ensures
            final(self).wf(),
            (final(self)@, r) == test_started(old(self)@, motor, throttle, timeout_ms, now_ms),
    {
        let motor: u8 = if motor == 0 {
            1
        } else {
            motor
        };
        if motor as usize > N_MOTORS {
            return false;
        }
        let idx: usize = motor as usize - 1;
        let value: u16 = match throttle {
            None => 0,
            Some(k) => DSHOT_MIN_THROTTLE + if k < THROTTLE_SPAN {
                k
            } else {
                THROTTLE_SPAN
            },
        };
        let timeout: u32 = if timeout_ms < SHORTEST_TEST_TIMEOUT_MS {
            DEFAULT_TEST_TIMEOUT_MS
        } else {
            timeout_ms
        };
        if value != 0 {
            self.config.master_enabled = true;
        }
        let mut m = self.motors[idx];
        assert(m.wf());
        m.target = value;
        if value != 0 {
            m.until_ms = now_ms.wrapping_add(timeout);
        }
        self.motors[idx] = m;
        proof {
            let want = test_started(old(self)@, motor, throttle, timeout_ms, now_ms).0;
            assert(self@.motors =~= want.motors);
        }
        true
    }

    /// Clears every throttle target.
    pub fn stop_all(&mut self)
        requires
            old(self).wf(),
        ensures
            final(self).wf(),
            final(self)@ == (EscState {
                motors: Seq::new(4, |i: int| MotorModel { target: 0, ..old(self)@.motors[i] }),
                ..old(self)@
            }),
            final(self)@ == all_stopped(old(self)@),
    {
        let mut i: usize = 0;
        while i < N_MOTORS
            invariant
                i <= N_MOTORS,
                self.wf(),
                self.config == old(self).config,
                forall|j: int|
                    0 <= j < i ==> (#[trigger] self.motors@[j]).m() == (MotorModel {
                        target: 0,
                        ..old(self).motors@[j].m()
                    }),
                forall|j: int| i <= j < N_MOTORS ==> self.motors@[j] == old(self).motors@[j],
            decreases N_MOTORS - i,
        {
            let mut m = self.motors[i];
            assert(m.wf());
            m.target = 0;
            self.motors[i] = m;
            i = i + 1;
        }
        assert(self@.motors =~= Seq::new(
            4,
            |i: int| MotorModel { target: 0, ..old(self)@.motors[i] },
        ));
    }

    /// The first motor with a throttle target: its 1-based number, the target
    /// and the remaining milliseconds.
    pub fn active_test(&self, now_ms: u32) -> (r: Option<(u8, u16, u32)>)
        ensures
            r == match first_spinning(self@.motors, 0) {
                None => None,
                Some(i) => Some(
                    (
                        (i + 1) as u8,
                        self@.motors[i].target,
                        ((self@.motors[i].until_ms - now_ms) % 0x1_0000_0000) as u32,
                    ),
                ),
            },
            r == test_report(self@, now_ms),
    {
        let mut i: usize = 0;
        while i < N_MOTORS
            invariant
                i <= N_MOTORS,
                first_spinning(self@.motors, 0) == first_spinning(self@.motors, i as int),
            decreases N_MOTORS - i,
        {
            let m = self.motors[i];
            assert(self@.motors[i as int] == m.m());
            if m.target != 0 {
                return Some((i as u8 + 1, m.target, m.until_ms.wrapping_sub(now_ms)));
            }
            i = i + 1;
        }
        None
    }

    /// Stops motor `idx` and queues a special command for it.
    fn command_one(&mut self, idx: usize, code: u16)
        requires
            old(self).wf(),
            idx < N_MOTORS,
        ensures
            final(self).wf(),
            final(self)@ == (EscState {
                motors: old(self)@.motors.update(
                    idx as int,
                    commanded(old(self)@.motors[idx as int], code),
                ),
                ..old(self)@
            }),
    {
        let mut m = self.motors[idx];
        assert(m.wf());
        m.target = 0;
        m.cmds.push(code);
        self.motors[idx] = m;
        assert(self@.motors =~= old(self)@.motors.update(
            idx as int,
            commanded(old(self)@.motors[idx as int], code),
        ));
    }

    /// Queues a DShot special command (20/21 spin direction, 9/10 3D off/on,
    /// 12 save, 1..5 beacon) for one motor (1..4) or for all (0). The throttle
    /// is forced to zero first, and commands queue up so that a sequence such
    /// as direction, then save, is sent in full.
    pub fn queue_command(&mut self, target: u8, dshot_cmd: u16)
        requires
            old(self).wf(),
        ensures
            final(self).wf(),
            final(self)@ == command_queued(old(self)@, target, dshot_cmd),
    {
        if target == 0 {
            self.config.master_enabled = true;
            let ghost armed = self@;
            let mut i: usize = 0;
            while i < N_MOTORS
                invariant
                    i <= N_MOTORS,
                    self.wf(),
                    self@.config == armed.config,
                    self@.motors.len() == 4,
                    armed.motors == old(self)@.motors,
                    forall|j: int|
                        0 <= j < i ==> #[trigger] self@.motors[j] == commanded(
                            armed.motors[j],
                            dshot_cmd,
                        ),
                    forall|j: int|
                        i <= j < N_MOTORS ==> #[trigger] self@.motors[j] == armed.motors[j],
                decreases N_MOTORS - i,
            {
                self.command_one(i, dshot_cmd);
                i = i + 1;
            }
            self.track_command(ALL_MOTORS, dshot_cmd);
            assert(self@.motors =~= command_queued(old(self)@, target, dshot_cmd).motors);
        } else if (target as usize) <= N_MOTORS {
            self.config.master_enabled = true;
            let idx: usize = target as usize - 1;
            self.command_one(idx, dshot_cmd);
            self.track_command(idx as u8, dshot_cmd);
        }
    }

    /// Reflects direction and 3D commands in the configuration masks.
    fn track_command(&mut self, motor_idx: u8, dshot_cmd: u16)
        requires
            old(self).wf(),
            motor_idx < N_MOTORS || motor_idx == ALL_MOTORS,
        ensures
            final(self).wf(),
            final(self)@ == (EscState {
                config: reflected(
                    old(self)@.config,
                    if motor_idx == ALL_MOTORS {
                        None
                    } else {
                        Some(motor_idx as int)
                    },
                    dshot_cmd,
                ),
                ..old(self)@
            }),
    {
        if dshot_cmd == 20 {
            self.config.dir_mask = set_mask(self.config.dir_mask, motor_idx, false);
        } else if dshot_cmd == 21 {
            self.config.dir_mask = set_mask(self.config.dir_mask, motor_idx, true);
        } else if dshot_cmd == 9 {
            self.config.mode3d_mask = set_mask(self.config.mode3d_mask, motor_idx, false);
        } else if dshot_cmd == 10 {
            self.config.mode3d_mask = set_mask(self.config.mode3d_mask, motor_idx, true);
        }
    }

    /// The four DShot frames to transmit this tick.
    pub fn frames(&mut self, now_ms: u32) -> (r: [u16; N_MOTORS])
        requires
            old(self).wf(),
        ensures
            final(self).wf(),
            (final(self)@, r@) == ticked(old(self)@, now_ms),
    {
        let mut out: [u16; N_MOTORS] = [make_frame(0, false); N_MOTORS];
        if !self.config.master_enabled {
            self.reset_all();
            assert(out@ =~= filled(4, frame_word(0, false)));
            return out;
        }
        let mut i: usize = 0;
        while i < N_MOTORS
            invariant
                i <= N_MOTORS,
                self.wf(),
                self.config == old(self).config,
                forall|j: int|
                    0 <= j < i ==> ((#[trigger] self.motors@[j]).m(), out@[j]) == motor_tick(
                        old(self).motors@[j].m(),
                        now_ms,
                    ),
                forall|j: int| i <= j < N_MOTORS ==> self.motors@[j] == old(self).motors@[j],
            decreases N_MOTORS - i,
        {
            let mut m = self.motors[i];
            assert(m.wf());
            out[i] = m.tick(now_ms);
            self.motors[i] = m;
            i = i + 1;
        }
        proof {
            let want = ticked(old(self)@, now_ms);
            assert forall|j: int| 0 <= j < 4 implies self@.motors[j] == want.0.motors[j] && out@[j]
                == want.1[j] by {
                assert((self.motors@[j].m(), out@[j]) == motor_tick(
                    old(self).motors@[j].m(),
                    now_ms,
                ));
            }
            assert(self@.motors =~= want.0.motors);
            assert(out@ =~= want.1);
        }
        out
    }
}

fn set_mask(mask: u8, motor_idx: u8, on: bool) -> (r: u8)
    requires
        motor_idx < N_MOTORS || motor_idx == ALL_MOTORS,
    ensures
        r == mask_after(
            mask,
            if motor_idx == ALL_MOTORS {
                None
            } else {
                Some(motor_idx as int)
            },
            on,
        ),
{
    if motor_idx == ALL_MOTORS {
        if on {
            0x0F
        } else {
            0
        }
    } else {
        let bit: u8 = 1u8 << motor_idx;
        if on {
            mask | bit
        } else {
            mask & !bit
        }
    }
}

/// With the master off, every motor is sent MOTOR_STOP and all motor state is
/// cleared, whatever was asked of the motors before.
pub proof fn law_master_off_stops(s: EscState, now_ms: u32)
    requires
        !s.config.master_enabled,
    ensures
        ticked(s, now_ms).1 == filled(4, frame_word(0, false)),
        ticked(s, now_ms).0 == (EscState { motors: idle_motors(), ..s }),
{
}

/// Nothing spins by itself: a new controller sends MOTOR_STOP, and goes on
/// doing so at every tick.
pub proof fn law_power_on_is_stopped(now_ms: u32)
    ensures
        ({
            let s = EscState { config: default_config(), motors: idle_motors() };
            ticked(s, now_ms) == (s, filled(4, frame_word(0, false)))
        }),
{
}

/// Whatever the state, each tick sends four frames with correct CRCs. A frame
/// without the telemetry bit carries stop or a real throttle, never a special
/// command, and at most one ramp step above the last throttle. A frame with the
/// telemetry bit goes only to a motor at rest.
pub proof fn law_frames_safe(s: EscState, now_ms: u32, i: int)
    requires
        state_ok(s),
        0 <= i < N_MOTORS,
    ensures
        state_ok(ticked(s, now_ms).0),
        ({
            let f = ticked(s, now_ms).1[i];
            let before = s.motors[i].applied;
            let floor = if before < DSHOT_MIN_THROTTLE {
                DSHOT_MIN_THROTTLE
            } else {
                before
            };
            &&& frame_ok(f)
            &&& (!frame_telem(f) ==> throttle_ok(frame_value(f) as u16) && frame_value(f) <= floor
                + RAMP_STEP_PER_TICK)
            &&& (frame_telem(f) ==> before == 0)
        }),
{
    assert forall|j: int| 0 <= j < N_MOTORS implies motor_ok(
        #[trigger] ticked(s, now_ms).0.motors[j],
    ) by {
        lemma_tick_keeps(s.motors[j], now_ms);
    }
    lemma_tick_keeps(s.motors[i], now_ms);
    law_frame_round_trip(0, false);
}

proof fn lemma_tick_keeps(m: MotorModel, now_ms: u32)
    requires
        motor_ok(m),
    ensures
        motor_ok(motor_tick(m, now_ms).0),
        frame_ok(motor_tick(m, now_ms).1),
        frame_telem(motor_tick(m, now_ms).1) ==> m.applied == 0,
        !frame_telem(motor_tick(m, now_ms).1) ==> frame_value(motor_tick(m, now_ms).1)
            == motor_tick(m, now_ms).0.applied,
{
    let r = motor_tick(m, now_ms);
    law_frame_round_trip(r.0.applied as int, false);
    if m.cmds.len() > 0 {
        law_frame_round_trip(m.cmds[0].0 as int, true);
        let q = sent_once(m.cmds);
        assert forall|k: int| 0 <= k < q.len() implies 1 <= (#[trigger] q[k]).1 <= CMD_REPEATS by {
            assert(m.cmds[k].1 >= 1);
            if m.cmds[0].1 <= 1 {
                assert(q[k] == m.cmds[k + 1]);
            }
        }
    }
}

/// A motor test runs for its window and no longer: counted from the request,
/// the target has expired exactly from the end of the window on (while the
/// clock is less than half a turn past it).
pub proof fn law_test_window(
    s: EscState,
    motor: u8,
    steps: u16,
    timeout_ms: u32,
    now_ms: u32,
    elapsed: int,
)
    requires
        state_ok(s),
        test_index(motor) < N_MOTORS,
        0 <= elapsed,
        test_window(timeout_ms) - 0x8000_0001 <= elapsed,
        elapsed < test_window(timeout_ms) + 0x7FFF_FFFF,
    ensures
        ({
            let m = test_started(s, motor, Some(steps), timeout_ms, now_ms).0.motors[test_index(
                motor,
            )];
            expired(m.until_ms, ((now_ms + elapsed) % 0x1_0000_0000) as u32) <==> elapsed
                >= test_window(timeout_ms)
        }),
{
}

/// A motor whose target has expired is at rest after the tick: it is sent
/// MOTOR_STOP, or a special command if it was at rest already.
pub proof fn law_watchdog_stops(m: MotorModel, now_ms: u32)
    requires
        motor_ok(m),
        expired(m.until_ms, now_ms) || m.target == 0,
    ensures
        motor_tick(m, now_ms).0.target == 0,
        motor_tick(m, now_ms).0.applied == 0,
        frame_telem(motor_tick(m, now_ms).1) || frame_value(motor_tick(m, now_ms).1) == 0,
{
    lemma_tick_keeps(m, now_ms);
}

/// A motor after a series of ticks at these times.
pub open spec fn motor_run(m: MotorModel, times: Seq<u32>) -> MotorModel
    decreases times.len(),
{
    if times.len() == 0 {
        m
    } else {
        motor_tick(motor_run(m, times.drop_last()), times.last()).0
    }
}

/// The frames that a motor is sent in a series of ticks at these times.
pub open spec fn motor_frames(m: MotorModel, times: Seq<u32>) -> Seq<u16>
    decreases times.len(),
{
    if times.len() == 0 {
        Seq::empty()
    } else {
        motor_frames(m, times.drop_last()).push(
            motor_tick(motor_run(m, times.drop_last()), times.last()).1,
        )
    }
}

/// The ramp: as long as a target stands, `n` ticks bring a lower throttle up
/// by two steps each, counted from the lowest real throttle, until it is the
/// target; a higher throttle comes down at the first tick. Pending commands
/// wait meanwhile.
pub proof fn law_ramp(m: MotorModel, times: Seq<u32>)
    requires
        motor_ok(m),
        m.target != 0,
        times.len() > 0,
        forall|k: int| 0 <= k < times.len() ==> !expired(m.until_ms, #[trigger] times[k]),
    ensures
        ({
            let from = if m.applied < DSHOT_MIN_THROTTLE {
                DSHOT_MIN_THROTTLE
            } else {
                m.applied
            };
            let reached = from + RAMP_STEP_PER_TICK * times.len();
            motor_run(m, times) == (MotorModel {
                applied: if m.target <= m.applied || reached >= m.target {
                    m.target
                } else {
                    reached as u16
                },
                ..m
            })
        }),
    decreases times.len(),
{
    let d = times.drop_last();
    assert(!expired(m.until_ms, times[times.len() - 1]));
    if d.len() > 0 {
        assert forall|k: int| 0 <= k < d.len() implies !expired(
            m.until_ms,
            #[trigger] d[k],
        ) by {
            assert(d[k] == times[k]);
        }
        law_ramp(m, d);
    } else {
        assert(motor_run(m, d) == m);
    }
}

/// A thousand ticks are enough for any ramp.
pub proof fn law_ramp_completes(m: MotorModel, times: Seq<u32>)
    requires
        motor_ok(m),
        m.target != 0,
        times.len() >= 1000,
        forall|k: int| 0 <= k < times.len() ==> !expired(m.until_ms, #[trigger] times[k]),
    ensures
        motor_run(m, times).applied == m.target,
{
    law_ramp(m, times);
}

/// The codes that a queue will put on the wire, repeats written out.
pub open spec fn written_out(q: Seq<Pending>) -> Seq<u16>
    decreases q.len(),
{
    if q.len() == 0 {
        Seq::empty()
    } else {
        filled(q[0].1 as nat, q[0].0) + written_out(q.drop_first())
    }
}

proof fn lemma_sent_once(q: Seq<Pending>)
    requires
        q.len() > 0,
        q[0].1 >= 1,
    ensures
        written_out(q).len() > 0,
        written_out(q)[0] == q[0].0,
        written_out(sent_once(q)) == written_out(q).drop_first(),
{
    let rest = written_out(q.drop_first());
    if q[0].1 <= 1 {
        assert(written_out(q).drop_first() =~= rest);
    } else {
        let p = sent_once(q);
        assert(p.drop_first() =~= q.drop_first());
        assert(written_out(q).drop_first() =~= filled((q[0].1 - 1) as nat, q[0].0) + rest);
    }
}

proof fn lemma_written_out_push(q: Seq<Pending>, e: Pending)
    ensures
        written_out(q.push(e)) == written_out(q) + filled(e.1 as nat, e.0),
    decreases q.len(),
{
    if q.len() == 0 {
        assert(q.push(e).drop_first() =~= Seq::<Pending>::empty());
        assert(written_out(q.push(e).drop_first()) == Seq::<u16>::empty());
        assert(written_out(q.push(e)) =~= written_out(q) + filled(e.1 as nat, e.0));
    } else {
        lemma_written_out_push(q.drop_first(), e);
        assert(q.push(e).drop_first() =~= q.drop_first().push(e));
        assert(written_out(q.push(e)) =~= written_out(q) + filled(e.1 as nat, e.0));
    }
}

/// Queueing a command while there is room puts its ten repeats after all that
/// is pending.
pub proof fn law_command_appended(q: Seq<Pending>, code: u16)
    requires
        q.len() < CMD_DEPTH,
    ensures
        written_out(enqueued(q, code)) == written_out(q) + filled(10, code),
{
    lemma_written_out_push(q, (code, CMD_REPEATS));
}

/// A motor at rest is sent its pending commands in the order in which they
/// were queued, each as often as it has repeats left, one per tick and with the
/// telemetry bit.
pub proof fn law_commands_in_order(m: MotorModel, times: Seq<u32>)
    requires
        motor_ok(m),
        m.target == 0,
        m.applied == 0,
        times.len() <= written_out(m.cmds).len(),
    ensures
        motor_frames(m, times).len() == times.len(),
        forall|k: int|
            0 <= k < times.len() ==> #[trigger] motor_frames(m, times)[k] == frame_word(
                written_out(m.cmds)[k] as int,
                true,
            ),
        motor_ok(motor_run(m, times)),
        motor_run(m, times).target == 0,
        motor_run(m, times).applied == 0,
        written_out(motor_run(m, times).cmds) == written_out(m.cmds).skip(times.len() as int),
    decreases times.len(),
{
    let codes = written_out(m.cmds);
    if times.len() == 0 {
        assert(codes.skip(0) =~= codes);
    } else {
        let d = times.drop_last();
        let n = d.len() as int;
        law_commands_in_order(m, d);
        let r = motor_run(m, d);
        assert(written_out(r.cmds).len() > 0);
        assert(r.cmds.len() > 0);
        assert(r.cmds[0].1 >= 1);
        lemma_sent_once(r.cmds);
        assert(written_out(r.cmds)[0] == codes[n]);
        lemma_tick_keeps(r, times.last());
        assert(codes.skip(n).drop_first() =~= codes.skip(n + 1));
        assert forall|k: int| 0 <= k < times.len() implies #[trigger] motor_frames(m, times)[k]
            == frame_word(codes[k] as int, true) by {
            if k < n {
                assert(motor_frames(m, times)[k] == motor_frames(m, d)[k]);
            }
        }
    }
}

/// Two commands queued one after the other for a motor with no others pending,
/// as spin direction and save are, are both sent: ten frames of the first, then
/// ten of the second. Neither overwrites the other.
pub proof fn law_command_pair_sent(m: MotorModel, first: u16, second: u16, times: Seq<u32>)
    requires
        motor_ok(m),
        m.applied == 0,
        m.cmds.len() == 0,
        times.len() == 20,
    ensures
        ({
            let frames = motor_frames(commanded(commanded(m, first), second), times);
            &&& frames.len() == 20
            &&& forall|k: int|
                0 <= k < 20 ==> #[trigger] frames[k] == frame_word(
                    if k < 10 {
                        first as int
                    } else {
                        second as int
                    },
                    true,
                )
        }),
{
    let c = commanded(commanded(m, first), second);
    law_command_appended(m.cmds, first);
    law_command_appended(enqueued(m.cmds, first), second);
    assert(written_out(c.cmds) =~= filled(10, first) + filled(10, second));
    assert(motor_ok(c));
    law_commands_in_order(c, times);
}

/// Motors do not see each other: with the master on, what a motor is sent and
/// becomes depends on its own state alone.
pub proof fn law_motors_independent(s: EscState, t: EscState, now_ms: u32, i: int)
    requires
        0 <= i < N_MOTORS,
        s.config.master_enabled,
        t.config.master_enabled,
        s.motors[i] == t.motors[i],
    ensures
        ticked(s, now_ms).1[i] == ticked(t, now_ms).1[i],
        ticked(s, now_ms).0.motors[i] == ticked(t, now_ms).0.motors[i],
{
}

/// A request to one motor leaves the others as they were; a stop request also
/// leaves the configuration, so it never arms the output.
pub proof fn law_request_touches_one(
    s: EscState,
    motor: u8,
    throttle: Option<u16>,
    timeout_ms: u32,
    now_ms: u32,
    code: u16,
    j: int,
)
    requires
        state_ok(s),
        0 <= j < N_MOTORS,
        j != test_index(motor),
    ensures
        test_started(s, motor, throttle, timeout_ms, now_ms).0.motors[j] == s.motors[j],
        throttle is None ==> test_started(s, motor, throttle, timeout_ms, now_ms).0.config
            == s.config,
        motor != 0 ==> command_queued(s, motor, code).motors[j] == s.motors[j],
{
}

proof fn lemma_mask(mask: u8, i: u8, j: u8)
    by (bit_vector)
    requires
        i < 8,
        j < 8,
    ensures
        ((mask | (1u8 << i)) >> j) & 1 == if i == j {
            1
        } else {
            (mask >> j) & 1
        },
        ((mask & !(1u8 << i)) >> j) & 1 == if i == j {
            0
        } else {
            (mask >> j) & 1
        },
{
}

/// The configuration masks reflect a command to motor `i` in that motor's bit
/// and leave the other bits.
pub proof fn law_mask_tracks_motor(mask: u8, i: int, on: bool, j: int)
    requires
        0 <= i < N_MOTORS,
        0 <= j < 8,
    ensures
        (mask_after(mask, Some(i), on) >> (j as u8)) & 1 == if i == j {
            if on {
                1u8
            } else {
                0
            }
        } else {
            (mask >> (j as u8)) & 1
        },
{
    lemma_mask(mask, i as u8, j as u8);
}

/// A request to spin an existing motor: whatever it did before, its target is
/// now the throttle that was asked for, and its window runs from now on. What it
/// has on the wire, what it has pending, the other motors and the rest of the
/// configuration stay; the master is on.
pub proof fn law_test_sets_target(
    s: EscState,
    motor: u8,
    steps: u16,
    timeout_ms: u32,
    now_ms: u32,
)
    requires
        s.motors.len() == 4,
        motor <= 4,
    ensures
        ({
            let (t, found) = test_started(s, motor, Some(steps), timeout_ms, now_ms);
            let i = if motor == 0 {
                0
            } else {
                motor - 1
            };
            let window = if timeout_ms < 500 {
                3000
            } else {
                timeout_ms as int
            };
            &&& found
            &&& t.motors.len() == 4
            &&& t.motors[i].target == 48 + if steps < 1999 {
                steps as int
            } else {
                1999
            }
            &&& t.motors[i].until_ms == (now_ms + window) % 0x1_0000_0000
            &&& t.motors[i].applied == s.motors[i].applied
            &&& t.motors[i].cmds == s.motors[i].cmds
            &&& forall|j: int| 0 <= j < 4 && j != i ==> t.motors[j] == s.motors[j]
            &&& t.config.master_enabled
            &&& same_settings(t.config, s.config)
            &&& t.config.dir_mask == s.config.dir_mask
            &&& t.config.mode3d_mask == s.config.mode3d_mask
        }),
{
}

/// Settings apart from the master switch and the masks of commanded modes.
pub open spec fn same_settings(a: EscConfig, b: EscConfig) -> bool {
    &&& a.protocol == b.protocol
    &&& a.refresh_hz == b.refresh_hz
    &&& a.bidir == b.bidir
    &&& a.pole_count == b.pole_count
    &&& a.cur_scale == b.cur_scale
    &&& a.cur_offset == b.cur_offset
}

/// Two requests in a row: the second one alone decides, up or down, how fast the
/// motor is to turn and for how long.
pub proof fn law_last_test_counts(
    s: EscState,
    motor: u8,
    first: Option<u16>,
    second: u16,
    timeout1_ms: u32,
    timeout2_ms: u32,
    t1: u32,
    t2: u32,
)
    requires
        s.motors.len() == 4,
        motor <= 4,
    ensures
        ({
            let between = test_started(s, motor, first, timeout1_ms, t1).0;
            let twice = test_started(between, motor, Some(second), timeout2_ms, t2).0;
            let once = test_started(s, motor, Some(second), timeout2_ms, t2).0;
            twice.motors =~= once.motors
        }),
{
}

/// Within the window of a test the throttle on the wire climbs to what was asked
/// for and stays there: a thousand ticks are enough, whatever it was before.
pub proof fn law_test_reaches_throttle(
    s: EscState,
    motor: u8,
    steps: u16,
    timeout_ms: u32,
    now_ms: u32,
    times: Seq<u32>,
)
    requires
        state_ok(s),
        motor <= 4,
        timeout_ms <= 0x8000_0000,
        times.len() >= 1000,
        forall|k: int|
            0 <= k < times.len() ==> (#[trigger] times[k] - now_ms) % 0x1_0000_0000 < if timeout_ms
                < 500 {
                3000
            } else {
                timeout_ms as int
            },
    ensures
        ({
            let i = if motor == 0 {
                0
            } else {
                motor - 1
            };
            let m = test_started(s, motor, Some(steps), timeout_ms, now_ms).0.motors[i];
            motor_run(m, times).applied == 48 + if steps < 1999 {
                steps as int
            } else {
                1999
            }
        }),
{
    let i = if motor == 0 {
        0
    } else {
        motor - 1
    };
    let m = test_started(s, motor, Some(steps), timeout_ms, now_ms).0.motors[i];
    assert(motor_ok(s.motors[i]));
    assert forall|k: int| 0 <= k < times.len() implies !expired(
        m.until_ms,
        #[trigger] times[k],
    ) by {
        assert((times[k] - now_ms) % 0x1_0000_0000 < test_window(timeout_ms));
    }
    law_ramp_completes(m, times);
}

/// A request to stop a motor takes its target away and changes nothing else; a
/// request to a motor that does not exist changes nothing and says so.
pub proof fn law_test_stop(s: EscState, motor: u8, throttle: Option<u16>, timeout_ms: u32, now_ms: u32)
    requires
        s.motors.len() == 4,
    ensures
        motor <= 4 ==> ({
            let (t, found) = test_started(s, motor, None, timeout_ms, now_ms);
            let i = if motor == 0 {
                0
            } else {
                motor - 1
            };
            &&& found
            &&& t.config == s.config
            &&& t.motors.len() == 4
            &&& t.motors[i].target == 0
            &&& t.motors[i].until_ms == s.motors[i].until_ms
            &&& t.motors[i].applied == s.motors[i].applied
            &&& t.motors[i].cmds == s.motors[i].cmds
            &&& forall|j: int| 0 <= j < 4 && j != i ==> t.motors[j] == s.motors[j]
        }),
        motor > 4 ==> test_started(s, motor, throttle, timeout_ms, now_ms) == (s, false),
{
}

/// The throttle that a percentage asks for: none when it is zero or less, all of
/// it from a hundred on, the lowest for no number, and in between the steps that
/// the conversion gives, told whether the number is a fraction (at most one).
pub proof fn law_percentage<S: Fn(F32Bits, bool) -> u16>(
    steps: S,
    pct: F32Bits,
    throttle: Option<u16>,
)
    requires
        demanded(steps, pct, throttle),
    ensures
        pct.0 == 0 || 0x8000_0000 <= pct.0 <= 0xFF80_0000 ==> throttle is None,
        0x42C8_0000 <= pct.0 <= 0x7F80_0000 ==> throttle == Some(1999u16),
        0x7F80_0000 < pct.0 < 0x8000_0000 || pct.0 > 0xFF80_0000 ==> throttle == Some(0u16),
        0 < pct.0 <= 0x3F80_0000 ==> throttle is Some && call_ensures(
            steps,
            (pct, true),
            throttle->Some_0,
        ),
        0x3F80_0000 < pct.0 < 0x42C8_0000 ==> throttle is Some && call_ensures(
            steps,
            (pct, false),
            throttle->Some_0,
        ),
{
}

/// What [`Esc::stop_all`] leaves.
pub open spec fn all_stopped(s: EscState) -> EscState {
    EscState { motors: Seq::new(4, |i: int| MotorModel { target: 0, ..s.motors[i] }), ..s }
}

/// Stopping all motors takes every target away and nothing else: commands stay
/// pending, the configuration stays, and at the next tick each motor is at rest
/// and is sent stop or a command.
pub proof fn law_stop_all(s: EscState, now_ms: u32, i: int)
    requires
        state_ok(s),
        0 <= i < 4,
    ensures
        ({
            let t = all_stopped(s);
            let m = t.motors[i];
            let f = ticked(t, now_ms).1[i];
            &&& t.config == s.config
            &&& t.motors.len() == 4
            &&& m.target == 0
            &&& m.until_ms == s.motors[i].until_ms
            &&& m.applied == s.motors[i].applied
            &&& m.cmds == s.motors[i].cmds
            &&& ticked(t, now_ms).0.motors[i].target == 0
            &&& ticked(t, now_ms).0.motors[i].applied == 0
            &&& f as int / 32 == 0 || f as int / 16 % 2 == 1
        }),
{
    let m = all_stopped(s).motors[i];
    assert(motor_ok(s.motors[i]));
    law_watchdog_stops(m, now_ms);
    law_frame_round_trip(0, false);
}

/// What [`Esc::active_test`] reports.
pub open spec fn test_report(s: EscState, now_ms: u32) -> Option<(u8, u16, u32)> {
    match first_spinning(s.motors, 0) {
        None => None,
        Some(i) => Some(
            (
                (i + 1) as u8,
                s.motors[i].target,
                ((s.motors[i].until_ms - now_ms) % 0x1_0000_0000) as u32,
            ),
        ),
    }
}

proof fn lemma_first_spinning(motors: Seq<MotorModel>, i: int, k: int)
    requires
        0 <= i <= k <= motors.len(),
        forall|j: int| i <= j < k ==> (#[trigger] motors[j]).target == 0,
        k < motors.len() ==> motors[k].target != 0,
    ensures
        first_spinning(motors, i) == if k < motors.len() {
            Some(k)
        } else {
            None
        },
    decreases k - i,
{
    if i < k {
        assert(motors[i].target == 0);
        lemma_first_spinning(motors, i + 1, k);
    }
}

/// The report names the first motor that has a target, counting from 1, with
/// that target and the milliseconds that are left; without one there is none.
pub proof fn law_report_names_first(s: EscState, now_ms: u32, k: int)
    requires
        s.motors.len() == 4,
        0 <= k <= 4,
        forall|j: int| 0 <= j < k ==> (#[trigger] s.motors[j]).target == 0,
        k < 4 ==> s.motors[k].target != 0,
    ensures
        k == 4 ==> test_report(s, now_ms) is None,
        k < 4 ==> ({
            &&& test_report(s, now_ms) is Some
            &&& test_report(s, now_ms)->Some_0.0 == k + 1
            &&& test_report(s, now_ms)->Some_0.1 == s.motors[k].target
            &&& test_report(s, now_ms)->Some_0.2 == (s.motors[k].until_ms - now_ms) % 0x1_0000_0000
        }),
{
    lemma_first_spinning(s.motors, 0, k);
}

/// A spin that was just asked of a motor, with none before it spinning, is what
/// the report shows: that motor, the throttle asked for, the rest of the window.
pub proof fn law_test_reported(
    s: EscState,
    motor: u8,
    steps: u16,
    timeout_ms: u32,
    now_ms: u32,
    elapsed: u32,
)
    requires
        s.motors.len() == 4,
        1 <= motor <= 4,
        forall|j: int| 0 <= j < motor - 1 ==> (#[trigger] s.motors[j]).target == 0,
        500 <= timeout_ms,
        elapsed <= timeout_ms,
    ensures
        ({
            let t = test_started(s, motor, Some(steps), timeout_ms, now_ms).0;
            let r = test_report(t, ((now_ms + elapsed) % 0x1_0000_0000) as u32);
            &&& r is Some
            &&& r->Some_0.0 == motor
            &&& r->Some_0.1 == 48 + if steps < 1999 {
                steps as int
            } else {
                1999
            }
            &&& r->Some_0.2 == timeout_ms - elapsed
        }),
{
    let t = test_started(s, motor, Some(steps), timeout_ms, now_ms).0;
    let now = ((now_ms + elapsed) % 0x1_0000_0000) as u32;
    assert forall|j: int| 0 <= j < motor - 1 implies (#[trigger] t.motors[j]).target == 0 by {
        assert(s.motors[j].target == 0);
    }
    law_report_names_first(t, now, motor - 1);
}

/// A command stops each motor that it is for and stands last in that motor's
/// queue with ten repeats, unless six are pending already. It is for all motors
/// under 0, for one of them under 1..4, and for none under anything else, which
/// changes nothing. The output is armed.
pub proof fn law_command_queued(s: EscState, target: u8, code: u16, i: int)
    requires
        s.motors.len() == 4,
        0 <= i < 4,
    ensures
        ({
            let t = command_queued(s, target, code);
            let m = t.motors[i];
            &&& t.motors.len() == 4
            &&& (target == 0 || target == i + 1) ==> ({
                &&& m.target == 0
                &&& m.until_ms == s.motors[i].until_ms
                &&& m.applied == s.motors[i].applied
                &&& m.cmds == if s.motors[i].cmds.len() < 6 {
                    s.motors[i].cmds.push((code, 10u8))
                } else {
                    s.motors[i].cmds
                }
            })
            &&& (target != 0 && target != i + 1) ==> m == s.motors[i]
            &&& target <= 4 ==> t.config.master_enabled && same_settings(t.config, s.config)
            &&& target > 4 ==> t == s
        }),
{
}

proof fn lemma_all_bits(j: u8)
    by (bit_vector)
    requires
        j < 8,
    ensures
        (0x0Fu8 >> j) & 1 == if j < 4 {
            1u8
        } else {
            0
        },
        (0u8 >> j) & 1 == 0,
{
}

/// The configuration shows what was last commanded: the direction bit of each
/// motor that a command is for is clear after code 20 and set after 21, its 3D
/// bit clear after 9 and set after 10. Other bits of motors, and other codes,
/// change no mask.
pub proof fn law_modes_reflected(s: EscState, target: u8, code: u16, i: int)
    requires
        target <= 4,
        0 <= i < 4,
    ensures
        ({
            let c = s.config;
            let e = command_queued(s, target, code).config;
            let mine = target == 0 || target == i + 1;
            let b = i as u8;
            &&& (e.dir_mask >> b) & 1 == if mine && code == 20 {
                0u8
            } else if mine && code == 21 {
                1u8
            } else {
                (c.dir_mask >> b) & 1
            }
            &&& (e.mode3d_mask >> b) & 1 == if mine && code == 9 {
                0u8
            } else if mine && code == 10 {
                1u8
            } else {
                (c.mode3d_mask >> b) & 1
            }
            &&& target == 0 && code == 20 ==> e.dir_mask == 0
            &&& target == 0 && code == 21 ==> e.dir_mask == 15
            &&& target == 0 && code == 9 ==> e.mode3d_mask == 0
            &&& target == 0 && code == 10 ==> e.mode3d_mask == 15
            &&& code != 20 && code != 21 ==> e.dir_mask == c.dir_mask
            &&& code != 9 && code != 10 ==> e.mode3d_mask == c.mode3d_mask
        }),
{
    lemma_all_bits(i as u8);
    if target != 0 {
        law_mask_tracks_motor(s.config.dir_mask, target - 1, true, i);
        law_mask_tracks_motor(s.config.dir_mask, target - 1, false, i);
        law_mask_tracks_motor(s.config.mode3d_mask, target - 1, true, i);
        law_mask_tracks_motor(s.config.mode3d_mask, target - 1, false, i);
    }
}

/// A tick of a motor whose target stands: the throttle comes down at once or
/// goes up by two from the lowest real one, never past the target, and goes out
/// without the telemetry bit. Nothing else of the motor changes.
pub proof fn law_tick_drives(s: EscState, now_ms: u32, i: int)
    requires
        state_ok(s),
        s.config.master_enabled,
        0 <= i < 4,
        s.motors[i].target != 0,
        (now_ms - s.motors[i].until_ms) % 0x1_0000_0000 >= 0x7FFF_FFFF,
    ensures
        ({
            let m = s.motors[i];
            let u = ticked(s, now_ms).0.motors[i];
            let f = ticked(s, now_ms).1[i];
            let from = if m.applied < 48 {
                48
            } else {
                m.applied as int
            };
            &&& u.target == m.target
            &&& u.until_ms == m.until_ms
            &&& u.cmds == m.cmds
            &&& m.target <= m.applied ==> u.applied == m.target
            &&& m.target > m.applied && from + 2 < m.target ==> u.applied == from + 2
            &&& m.target > m.applied && from + 2 >= m.target ==> u.applied == m.target
            &&& f as int / 32 == u.applied
            &&& f as int / 16 % 2 == 0
            &&& frame_ok(f)
        }),
{
    assert(motor_ok(s.motors[i]));
    lemma_tick_keeps(s.motors[i], now_ms);
    law_frame_round_trip(ticked(s, now_ms).0.motors[i].applied as int, false);
}

/// A tick of a motor without a target, or past its deadline: it stops at once.
/// If it was at rest, its oldest pending command goes out with the telemetry bit
/// and has one repeat less, the last of them taking it off the queue; otherwise,
/// or with nothing pending, stop goes out and the queue waits.
pub proof fn law_tick_rests(s: EscState, now_ms: u32, i: int)
    requires
        state_ok(s),
        s.config.master_enabled,
        0 <= i < 4,
        s.motors[i].target == 0 || (now_ms - s.motors[i].until_ms) % 0x1_0000_0000 < 0x7FFF_FFFF,
    ensures
        ({
            let m = s.motors[i];
            let u = ticked(s, now_ms).0.motors[i];
            let f = ticked(s, now_ms).1[i];
            &&& u.target == 0
            &&& u.applied == 0
            &&& u.until_ms == m.until_ms
            &&& frame_ok(f)
            &&& m.applied != 0 || m.cmds.len() == 0 ==> u.cmds == m.cmds && f as int / 32 == 0
                && f as int / 16 % 2 == 0
            &&& m.applied == 0 && m.cmds.len() > 0 ==> ({
                &&& f as int / 32 == m.cmds[0].0 as int % 2048
                &&& f as int / 16 % 2 == 1
                &&& m.cmds[0].1 <= 1 ==> u.cmds == m.cmds.drop_first()
                &&& m.cmds[0].1 > 1 ==> u.cmds.len() == m.cmds.len() && u.cmds[0].0 == m.cmds[0].0
                    && u.cmds[0].1 == m.cmds[0].1 - 1 && u.cmds.drop_first()
                    =~= m.cmds.drop_first()
            })
        }),
{
    let m = s.motors[i];
    assert(motor_ok(m));
    lemma_tick_keeps(m, now_ms);
    law_frame_round_trip(0, false);
    if m.cmds.len() > 0 {
        law_frame_round_trip(m.cmds[0].0 as int, true);
    }
}

/// A tick never touches the configuration; with the master off it clears every
/// motor and sends stop on every line.
pub proof fn law_tick_frame(s: EscState, now_ms: u32, i: int)
    requires
        0 <= i < 4,
    ensures
        ticked(s, now_ms).0.config == s.config,
        ticked(s, now_ms).0.motors.len() == 4,
        ticked(s, now_ms).1.len() == 4,
        !s.config.master_enabled ==> ({
            let u = ticked(s, now_ms).0.motors[i];
            let f = ticked(s, now_ms).1[i];
            &&& u.target == 0
            &&& u.until_ms == 0
            &&& u.applied == 0
            &&& u.cmds.len() == 0
            &&& f as int / 32 == 0
            &&& f as int / 16 % 2 == 0
            &&& frame_ok(f)
        }),
{
    law_frame_round_trip(0, false);
}

/// What [`Esc::apply_set`] makes of a state.
pub open spec fn configured(s: EscState, c: EscConfig) -> EscState {
    EscState {
        config: EscConfig {
            refresh_hz: clamped(c.refresh_hz as int, 50, 1000) as u16,
            pole_count: clamped(c.pole_count as int, 2, 64) as u8,
            ..c
        },
        motors: if c.master_enabled {
            s.motors
        } else {
            idle_motors()
        },
    }
}

/// A configuration write takes over every setting, the refresh rate brought into
/// 50..1000 Hz and the pole count into 2..64. Motors go on as they were while the
/// master is on, and are cleared when it is off.
pub proof fn law_configured(s: EscState, c: EscConfig, i: int)
    requires
        s.motors.len() == 4,
        0 <= i < 4,
    ensures
        ({
            let t = configured(s, c);
            let e = t.config;
            &&& e.master_enabled == c.master_enabled
            &&& e.protocol == c.protocol
            &&& e.bidir == c.bidir
            &&& e.dir_mask == c.dir_mask
            &&& e.mode3d_mask == c.mode3d_mask
            &&& e.cur_scale == c.cur_scale
            &&& e.cur_offset == c.cur_offset
            &&& 50 <= e.refresh_hz <= 1000
            &&& 50 <= c.refresh_hz <= 1000 ==> e.refresh_hz == c.refresh_hz
            &&& c.refresh_hz < 50 ==> e.refresh_hz == 50
            &&& c.refresh_hz > 1000 ==> e.refresh_hz == 1000
            &&& 2 <= e.pole_count <= 64
            &&& 2 <= c.pole_count <= 64 ==> e.pole_count == c.pole_count
            &&& c.pole_count < 2 ==> e.pole_count == 2
            &&& c.pole_count > 64 ==> e.pole_count == 64
            &&& t.motors.len() == 4
            &&& c.master_enabled ==> t.motors[i] == s.motors[i]
            &&& !c.master_enabled ==> t.motors[i].target == 0 && t.motors[i].until_ms == 0
                && t.motors[i].applied == 0 && t.motors[i].cmds.len() == 0
        }),
{
}

/// At power-on the output is off, at the slowest bitrate and full rate, for
/// fourteen poles, and nothing was ever commanded or reported.
pub proof fn law_power_on(i: int)
    requires
        0 <= i < 4,
    ensures
        ({
            let c = default_config();
            let m = idle_motors()[i];
            let t = no_telemetry();
            &&& !c.master_enabled
            &&& c.protocol == Protocol::Dshot150
            &&& c.refresh_hz == 1000
            &&& !c.bidir
            &&& c.dir_mask == 0
            &&& c.mode3d_mask == 0
            &&& c.pole_count == 14
            &&& c.cur_scale.0 == 0x43F5_0000
            &&& c.cur_offset.0 == 0
            &&& idle_motors().len() == 4
            &&& m.target == 0 && m.until_ms == 0 && m.applied == 0 && m.cmds.len() == 0
            &&& t.rpm[i] == 0 && t.centivolt[i] == 0 && t.centiamp[i] == 0 && t.temp[i] == 0
            &&& t.err[i] == 0 && t.mah == 0 && t.next == 0
        }),
{
}

/// A record fills the slot whose turn it is with what it says, speed counted in
/// turns of the shaft, and no other; the turn passes on.
pub proof fn law_record_stored(t: TelemetryModel, f: TelemFrame, pole_count: u8, i: int)
    requires
        0 <= t.next < 4,
        t.rpm.len() == 4,
        t.centivolt.len() == 4,
        t.centiamp.len() == 4,
        t.temp.len() == 4,
        f.erpm * 2 <= u32::MAX,
        0 <= i < 4,
    ensures
        ({
            let u = ingested(t, f, pole_count as int);
            let poles = if pole_count < 2 {
                2
            } else {
                pole_count as int
            };
            &&& i != t.next ==> same_slot(u, t, i)
            &&& i == t.next ==> u.rpm[i] * poles <= 2 * f.erpm < (u.rpm[i] + 1) * poles
            &&& i == t.next ==> u.centivolt[i] == f.centivolt && u.centiamp[i] == f.centiamp
                && u.temp[i] == f.temp_c
            &&& u.mah == f.mah
            &&& u.err == t.err
            &&& u.next == if t.next == 3 {
                0
            } else {
                t.next + 1
            }
        }),
{
    law_mechanical_speed(f.erpm as int, pole_count as int);
}

/// The current of all motors together.
pub open spec fn total_centiamp(t: TelemetryModel) -> int {
    t.centiamp[0] + t.centiamp[1] + t.centiamp[2] + t.centiamp[3]
}

/// A record adds to the total what it says above what its slot held before.
pub proof fn law_total_follows_records(t: TelemetryModel, f: TelemFrame, pole_count: u8)
    requires
        0 <= t.next < 4,
        t.centiamp.len() == 4,
    ensures
        total_centiamp(ingested(t, f, pole_count as int)) == total_centiamp(t) + f.centiamp
            - t.centiamp[t.next],
        total_centiamp(no_telemetry()) == 0,
{
}

} // verus!
