//! Bench diagnostics: the throttle plans that exercise the motors without a
//! host.

use vstd::prelude::*;

verus! {

pub const FRAME_HZ: u32 = 500;

/// Core clock cycles between frames.
pub const FRAME_PERIOD_CYCLES: u32 = 128_000;

/// Lowest real throttle.
pub const DSHOT_MIN: u16 = 48;

/// Throttle of the all-motor run, 12 % of the span above the lowest.
pub const RUN_VALUE: u16 = 287;

/// Highest throttle of the one-by-one sweep.
pub const RAMP_MAX: u16 = 300;

pub const CMD_SPIN_NORMAL: u16 = 20;

pub const CMD_3D_OFF: u16 = 9;

pub const CMD_SAVE: u16 = 12;

/// All-motor sequence: the frame at which each phase ends.
pub const ARM_END: u32 = 1500;

pub const CFG_DIR_END: u32 = 1600;

pub const CFG_3D_END: u32 = 1700;

pub const CFG_SAVE_END: u32 = 1800;

pub const REARM_END: u32 = 3300;

pub const RAMP_END: u32 = 4300;

pub const RAMP_FRAMES: u32 = 1000;

/// One-by-one sweep: frames of arming, of one motor and of the whole cycle.
pub const ARM_FRAMES: u32 = 1500;

pub const HOLD_FRAMES: u32 = 1000;

pub const PER_MOTOR_FRAMES: u32 = 2500;

pub const CYCLE_FRAMES: u32 = 11_500;

/// The phases of the all-motor sequence.
#[derive(Clone, Copy, PartialEq, Eq, Structural)]
pub enum BenchPhase {
    Arm,
    Direction,
    Mode3dOff,
    Save,
    Rearm,
    Ramp,
    Hold,
}

impl BenchPhase {
    /// Short name for reports.
    pub fn name(&self) -> (r: &'static str)
        ensures
            r@ == (match *self {
                BenchPhase::Arm => "ARM"@,
                BenchPhase::Direction => "CFG dir-normal"@,
                BenchPhase::Mode3dOff => "CFG 3D-off"@,
                BenchPhase::Save => "CFG save"@,
                BenchPhase::Rearm => "REARM"@,
                BenchPhase::Ramp => "RUN ramp"@,
                BenchPhase::Hold => "RUN hold 12%"@,
            }),
    {
        match self {
            BenchPhase::Arm => "ARM",
            BenchPhase::Direction => "CFG dir-normal",
            BenchPhase::Mode3dOff => "CFG 3D-off",
            BenchPhase::Save => "CFG save",
            BenchPhase::Rearm => "REARM",
            BenchPhase::Ramp => "RUN ramp",
            BenchPhase::Hold => "RUN hold 12%",
        }
    }
}

/// The phase that a frame of the all-motor sequence belongs to.
pub open spec fn phase_of(frame: int) -> BenchPhase {
    if frame < ARM_END {
        BenchPhase::Arm
    } else if frame < CFG_DIR_END {
        BenchPhase::Direction
    } else if frame < CFG_3D_END {
        BenchPhase::Mode3dOff
    } else if frame < CFG_SAVE_END {
        BenchPhase::Save
    } else if frame < REARM_END {
        BenchPhase::Rearm
    } else if frame < RAMP_END {
        BenchPhase::Ramp
    } else {
        BenchPhase::Hold
    }
}

/// The value on the way from the lowest throttle to `top`, `pos` frames into a
/// linear ramp.
pub open spec fn ramp_value(top: int, pos: int) -> int {
    DSHOT_MIN + (top - DSHOT_MIN) * pos / RAMP_FRAMES as int
}

/// The value that all motors are sent in a frame of the all-motor sequence.
pub open spec fn plan_value(frame: int) -> int {
    match phase_of(frame) {
        BenchPhase::Arm => 0,
        BenchPhase::Direction => CMD_SPIN_NORMAL as int,
        BenchPhase::Mode3dOff => CMD_3D_OFF as int,
        BenchPhase::Save => CMD_SAVE as int,
        BenchPhase::Rearm => 0,
        BenchPhase::Ramp => ramp_value(RUN_VALUE as int, frame - REARM_END),
        BenchPhase::Hold => RUN_VALUE as int,
    }
}

/// A phase in which special commands are sent, with the telemetry bit.
pub open spec fn is_command(p: BenchPhase) -> bool {
    p == BenchPhase::Direction || p == BenchPhase::Mode3dOff || p == BenchPhase::Save
}

/// The value for all four motors, the telemetry bit and the phase, for a frame
/// of the all-motor sequence: arm, configure while stopped, let the ESCs come
/// back, ramp up, hold.
pub fn frame_plan(frame: u32) -> (r: (u16, bool, BenchPhase))
    ensures
        r.0 == plan_value(frame as int),
        r.1 == is_command(phase_of(frame as int)),
        r.2 == phase_of(frame as int),
{
    if frame < ARM_END {
        (0, false, BenchPhase::Arm)
    } else if frame < CFG_DIR_END {
        (CMD_SPIN_NORMAL, true, BenchPhase::Direction)
    } else if frame < CFG_3D_END {
        (CMD_3D_OFF, true, BenchPhase::Mode3dOff)
    } else if frame < CFG_SAVE_END {
        (CMD_SAVE, true, BenchPhase::Save)
    } else if frame < REARM_END {
        (0, false, BenchPhase::Rearm)
    } else if frame < RAMP_END {
        let span: u32 = (RUN_VALUE - DSHOT_MIN) as u32;
        let pos: u32 = frame - REARM_END;
        (DSHOT_MIN + (span * pos / RAMP_FRAMES) as u16, false, BenchPhase::Ramp)
    } else {
        (RUN_VALUE, false, BenchPhase::Hold)
    }
}

/// The frame of the all-motor sequence that follows frame `at`; from its end on
/// it stays there.
pub open spec fn plan_step(at: int) -> int {
    if at < RAMP_END {
        at + 1
    } else {
        RAMP_END as int
    }
}

/// The frame of the all-motor sequence to send after frame `at`. The sequence
/// runs once: its end is held forever.
pub fn next_plan_frame(at: u32) -> (r: u32)
    ensures
        r == plan_step(at as int),
{
    if at < RAMP_END {
        at + 1
    } else {
        RAMP_END
    }
}

/// The frame of the all-motor sequence after `n` steps from its start.
pub open spec fn plan_after(n: nat) -> int
    decreases n,
{
    if n == 0 {
        0
    } else {
        plan_step(plan_after((n - 1) as nat))
    }
}

/// The all-motor sequence is gone through once, frame by frame; after that the
/// run value is held, without commands, however long it runs.
pub proof fn law_plan_runs_once(n: nat)
    ensures
        plan_after(n) == if n < RAMP_END {
            n as int
        } else {
            RAMP_END as int
        },
        n >= RAMP_END ==> phase_of(plan_after(n)) == BenchPhase::Hold,
        n >= RAMP_END ==> plan_value(plan_after(n)) == RUN_VALUE,
        n >= RAMP_END ==> !is_command(phase_of(plan_after(n))),
    decreases n,
{
    if n > 0 {
        law_plan_runs_once((n - 1) as nat);
    }
}

/// From the ramp on, the all-motor sequence never leaves the real throttles,
/// never steps up by more than one and never down; commands are sent only
/// while the motors are stopped.
pub proof fn law_plan_is_gentle(frame: int)
    requires
        0 <= frame,
    ensures
        frame < REARM_END ==> plan_value(frame) == 0 || is_command(phase_of(frame)),
        frame >= REARM_END ==> DSHOT_MIN <= plan_value(frame) <= RUN_VALUE,
        frame >= REARM_END ==> plan_value(frame) <= plan_value(frame + 1) <= plan_value(frame) + 1,
        plan_value(REARM_END as int) == DSHOT_MIN,
        plan_value(RAMP_END as int) == RUN_VALUE,
{
    let pos = frame - REARM_END;
    let span = RUN_VALUE - DSHOT_MIN;
    assert(span == 239);
    assert(span * pos == 239 * pos) by (nonlinear_arith)
        requires
            span == 239,
    ;
    assert(span * (pos + 1) == 239 * (pos + 1)) by (nonlinear_arith)
        requires
            span == 239,
    ;
    assert(span * 0 == 0) by (nonlinear_arith);
}

/// The throttle of the motor whose turn it is, `pos` frames into its turn:
/// ramp, hold, stop.
pub open spec fn turn_value(pos: int) -> int {
    if pos < RAMP_FRAMES {
        ramp_value(RAMP_MAX as int, pos)
    } else if pos < RAMP_FRAMES + HOLD_FRAMES {
        RAMP_MAX as int
    } else {
        0
    }
}

/// The motor (0-based) whose turn it is; none while arming.
pub open spec fn turn_of(cycle_pos: int) -> Option<int> {
    if cycle_pos < ARM_FRAMES {
        None
    } else {
        Some((cycle_pos - ARM_FRAMES) / PER_MOTOR_FRAMES as int)
    }
}

/// The throttle of motor `i` at a position in the repeating cycle.
pub open spec fn cycle_value(cycle_pos: int, i: int) -> int {
    if turn_of(cycle_pos) == Some(i) {
        turn_value((cycle_pos - ARM_FRAMES) % PER_MOTOR_FRAMES as int)
    } else {
        0
    }
}

/// The four throttle values at a position in the repeating cycle, and the
/// 1-based number of the motor whose turn it is (0 while arming).
pub fn cycle_values(cycle_pos: u32) -> (r: ([u16; 4], u8))
    requires
        cycle_pos < CYCLE_FRAMES,
    ensures
        forall|i: int| 0 <= i < 4 ==> #[trigger] r.0@[i] == cycle_value(cycle_pos as int, i),
        r.1 == (match turn_of(cycle_pos as int) {
            None => 0,
            Some(i) => i + 1,
        }),
{
    let mut values: [u16; 4] = [0; 4];
    if cycle_pos < ARM_FRAMES {
        return (values, 0);
    }
    let sweep_pos: u32 = cycle_pos - ARM_FRAMES;
    let motor: usize = (sweep_pos / PER_MOTOR_FRAMES) as usize;
    let phase_pos: u32 = sweep_pos % PER_MOTOR_FRAMES;
    let value: u16 = if phase_pos < RAMP_FRAMES {
        let span: u32 = (RAMP_MAX - DSHOT_MIN) as u32;
        DSHOT_MIN + (span * phase_pos / RAMP_FRAMES) as u16
    } else if phase_pos < RAMP_FRAMES + HOLD_FRAMES {
        RAMP_MAX
    } else {
        0
    };
    values[motor] = value;
    (values, motor as u8 + 1)
}

/// The position in the repeating cycle that follows `cycle_pos`.
pub fn next_cycle_pos(cycle_pos: u32) -> (r: u32)
    requires
        cycle_pos < CYCLE_FRAMES,
    ensures
        r == (cycle_pos + 1) % CYCLE_FRAMES as int,
{
    (cycle_pos + 1) % CYCLE_FRAMES
}

/// The position in the repeating cycle after `n` steps from its start.
pub open spec fn cycle_after(n: nat) -> int
    decreases n,
{
    if n == 0 {
        0
    } else {
        (cycle_after((n - 1) as nat) + 1) % CYCLE_FRAMES as int
    }
}

/// The cycle repeats whole, however long it runs.
pub proof fn law_cycle_repeats(n: nat)
    ensures
        cycle_after(n) == n % CYCLE_FRAMES as nat,
        cycle_after(n + CYCLE_FRAMES as nat) == cycle_after(n),
{
    lemma_cycle_pos(n);
    lemma_cycle_pos(n + CYCLE_FRAMES as nat);
}

proof fn lemma_cycle_pos(n: nat)
    ensures
        cycle_after(n) == n % CYCLE_FRAMES as nat,
    decreases n,
{
    if n > 0 {
        lemma_cycle_pos((n - 1) as nat);
    }
}

/// At most one motor is driven at any time, with stop or a real throttle.
pub proof fn law_one_motor_at_a_time(cycle_pos: int, i: int, j: int)
    requires
        0 <= cycle_pos < CYCLE_FRAMES,
        0 <= i < 4,
        0 <= j < 4,
        i != j,
    ensures
        cycle_value(cycle_pos, i) == 0 || cycle_value(cycle_pos, j) == 0,
        cycle_value(cycle_pos, i) == 0 || DSHOT_MIN <= cycle_value(cycle_pos, i) <= RAMP_MAX,
{
    let pos = (cycle_pos - ARM_FRAMES) % PER_MOTOR_FRAMES as int;
    let span = RAMP_MAX - DSHOT_MIN;
    assert(span == 252);
    assert(span * pos == 252 * pos) by (nonlinear_arith)
        requires
            span == 252,
    ;
}

/// Each motor has its turn in every cycle, and only the four have one.
pub proof fn law_every_motor_has_its_turn(i: int, pos: int)
    requires
        0 <= i < 4,
        0 <= pos < PER_MOTOR_FRAMES,
    ensures
        ({
            let at = ARM_FRAMES + i * PER_MOTOR_FRAMES + pos;
            &&& at < CYCLE_FRAMES
            &&& turn_of(at) == Some(i)
            &&& cycle_value(at, i) == turn_value(pos)
        }),
{
}

/// Whether a report is due: half a second of frames after the last, on counters
/// that wrap at 2^32.
pub fn report_due(count: u32, last: u32) -> (r: bool)
    ensures
        r == ((count - last) % 0x1_0000_0000 >= 250),
        r == is_due(count, last),
{
    count.wrapping_sub(last) >= FRAME_HZ / 2
}

/// What the serial diagnostic reports of the bytes that it received.
#[derive(Clone, Copy, PartialEq, Eq, Structural)]
pub struct RxStats {
    /// All bytes so far, wrapping at 2^32.
    pub total: u32,
    /// Bytes of the last read.
    pub last_len: usize,
    /// Its first two bytes; zero where there is none.
    pub last0: u8,
    pub last1: u8,
}

impl RxStats {
    pub fn new() -> (r: Self)
        ensures
            r == (RxStats { total: 0, last_len: 0, last0: 0, last1: 0 }),
    {
        RxStats { total: 0, last_len: 0, last0: 0, last1: 0 }
    }

    /// Takes in the bytes of one read; an empty one changes nothing.
    pub fn record(&mut self, input: &[u8])
        ensures
            *final(self) == if input@.len() == 0 {
                *old(self)
            } else {
                RxStats {
                    total: ((old(self).total + input@.len()) % 0x1_0000_0000) as u32,
                    last_len: input@.len() as usize,
                    last0: input@[0],
                    last1: if input@.len() > 1 {
                        input@[1]
                    } else {
                        0
                    },
                }
            },
            *final(self) == recorded(*old(self), input@),
    {
        let n: usize = input.len();
        if n > 0 {
            self.total = ((self.total as u64 + (n as u64) % 0x1_0000_0000) % 0x1_0000_0000) as u32;
            self.last_len = n;
            self.last0 = input[0];
            self.last1 = if n > 1 {
                input[1]
            } else {
                0
            };
        }
    }
}

/// The all-motor sequence by its frames: three seconds of stop, a fifth of a
/// second each of the commands normal direction, 3D off and save, three seconds
/// of stop, two seconds of ramp from 48 to 287, and 287 from there on. The
/// telemetry bit goes with the commands alone.
pub proof fn law_plan_by_frames(frame: int)
    requires
        0 <= frame,
    ensures
        frame < 1500 ==> plan_value(frame) == 0 && phase_of(frame) == BenchPhase::Arm,
        1500 <= frame < 1600 ==> plan_value(frame) == 20 && phase_of(frame)
            == BenchPhase::Direction,
        1600 <= frame < 1700 ==> plan_value(frame) == 9 && phase_of(frame)
            == BenchPhase::Mode3dOff,
        1700 <= frame < 1800 ==> plan_value(frame) == 12 && phase_of(frame) == BenchPhase::Save,
        1800 <= frame < 3300 ==> plan_value(frame) == 0 && phase_of(frame) == BenchPhase::Rearm,
        3300 <= frame < 4300 ==> phase_of(frame) == BenchPhase::Ramp && 1000 * (plan_value(frame)
            - 48) <= 239 * (frame - 3300) < 1000 * (plan_value(frame) - 47),
        4300 <= frame ==> plan_value(frame) == 287 && phase_of(frame) == BenchPhase::Hold,
        is_command(phase_of(frame)) <==> 1500 <= frame < 1800,
{
    let pos = frame - REARM_END;
    let span = RUN_VALUE - DSHOT_MIN;
    assert(span * pos == 239 * pos) by (nonlinear_arith)
        requires
            span == 239,
    ;
}

/// A turn of the one-by-one sweep: two seconds of ramp from 48 to 300, two
/// seconds at 300, one second of stop. Four turns of five seconds follow three
/// seconds of stop.
pub proof fn law_turn_by_frames(cycle_pos: int, i: int)
    requires
        0 <= cycle_pos < 11_500,
        0 <= i < 4,
    ensures
        ({
            let pos = cycle_pos - 1500 - 2500 * i;
            let v = cycle_value(cycle_pos, i);
            &&& pos < 0 || pos >= 2000 ==> v == 0
            &&& 0 <= pos < 1000 ==> 1000 * (v - 48) <= 252 * pos < 1000 * (v - 47)
            &&& 1000 <= pos < 2000 ==> v == 300
            &&& turn_of(cycle_pos) == Some(i) <==> 0 <= pos < 2500
        }),
        CYCLE_FRAMES == 11_500,
{
    let pos = (cycle_pos - ARM_FRAMES) % PER_MOTOR_FRAMES as int;
    let span = RAMP_MAX - DSHOT_MIN;
    assert(span * pos == 252 * pos) by (nonlinear_arith)
        requires
            span == 252,
    ;
}

/// What [`report_due`] tells.
pub open spec fn is_due(count: u32, last: u32) -> bool {
    (count - last) % 0x1_0000_0000 >= 250
}

/// A report is due from the 250th frame after the last one on, wherever the
/// counter wraps meanwhile.
pub proof fn law_report_due(last: u32, frames: int)
    requires
        0 <= frames < 0x1_0000_0000,
    ensures
        is_due(((last + frames) % 0x1_0000_0000) as u32, last) <==> frames >= 250,
{
}

/// What [`RxStats::record`] makes of the counts.
pub open spec fn recorded(s: RxStats, input: Seq<u8>) -> RxStats {
    if input.len() == 0 {
        s
    } else {
        RxStats {
            total: ((s.total + input.len()) % 0x1_0000_0000) as u32,
            last_len: input.len() as usize,
            last0: input[0],
            last1: if input.len() > 1 {
                input[1]
            } else {
                0
            },
        }
    }
}

/// All bytes are counted, and the last read that brought any is shown by its
/// length and its first two bytes.
pub proof fn law_reads_recorded(s: RxStats, input: Seq<u8>)
    requires
        input.len() <= usize::MAX,
    ensures
        input.len() == 0 ==> recorded(s, input) == s,
        input.len() > 0 ==> ({
            let t = recorded(s, input);
            &&& t.total == (s.total + input.len()) % 0x1_0000_0000
            &&& t.last_len == input.len()
            &&& t.last0 == input[0]
            &&& input.len() == 1 ==> t.last1 == 0
            &&& input.len() >= 2 ==> t.last1 == input[1]
        }),
{
}

} // verus!
