//! DShot motor output: frames, the bit-banged waveform that carries them, and
//! the register values that set the motor pins up.
//!
//! All four motor pins live on one GPIO port, so that one write of the port's
//! bit set/reset register (low half sets lines, high half resets them) drives
//! them together.

use vstd::prelude::*;

verus! {

/// Core clock of the board.
pub const CORE_HZ: u32 = 64_000_000;

pub const N_LINES: usize = 4;

/// Bit position of each motor signal within the port.
pub const MOTOR_BITS: [u8; 4] = [0, 1, 2, 3];

/// DShot bitrate.
#[derive(Clone, Copy, PartialEq, Eq, Structural)]
pub enum Protocol {
    Dshot150,
    Dshot300,
    Dshot600,
}

/// The wire number of a bitrate; other numbers mean the default bitrate.
pub open spec fn protocol_of(v: int) -> Protocol {
    if v == 1 {
        Protocol::Dshot300
    } else if v == 2 {
        Protocol::Dshot600
    } else {
        Protocol::Dshot150
    }
}

/// The number that stands for a bitrate on the wire.
pub open spec fn protocol_number(p: Protocol) -> u8 {
    match p {
        Protocol::Dshot150 => 0,
        Protocol::Dshot300 => 1,
        Protocol::Dshot600 => 2,
    }
}

/// Bits per second.
pub open spec fn bit_rate(p: Protocol) -> int {
    match p {
        Protocol::Dshot150 => 150_000,
        Protocol::Dshot300 => 300_000,
        Protocol::Dshot600 => 600_000,
    }
}

/// Core clock cycles per bit, rounded down.
pub open spec fn bit_period(p: Protocol) -> int {
    CORE_HZ as int / bit_rate(p)
}

impl Protocol {
    pub fn from_u8(v: u8) -> (r: Self)
        ensures
            r == protocol_of(v as int),
    {
        match v {
            1 => Protocol::Dshot300,
            2 => Protocol::Dshot600,
            _ => Protocol::Dshot150,
        }
    }

    pub fn as_u8(self) -> (r: u8)
        ensures
            r == protocol_number(self),
    {
        match self {
            Protocol::Dshot150 => 0,
            Protocol::Dshot300 => 1,
            Protocol::Dshot600 => 2,
        }
    }

    /// Bit period in core clock cycles.
    pub fn bit_cycles(self) -> (r: u32)
        ensures
            r == bit_period(self),
    {
        let hz: u32 = match self {
            Protocol::Dshot150 => 150_000,
            Protocol::Dshot300 => 300_000,
            Protocol::Dshot600 => 600_000,
        };
        CORE_HZ / hz
    }
}

/// A bitrate survives being written to the wire and read back.
pub proof fn law_protocol_round_trip(p: Protocol)
    ensures
        protocol_of(protocol_number(p) as int) == p,
{
}

/// The exclusive or of the three nibbles of a 12-bit packet.
pub open spec fn nibble_crc(packet: u16) -> u16 {
    (packet ^ (packet >> 4) ^ (packet >> 8)) & 0x0F
}

/// The 12 bits of a frame in front of its CRC: an 11-bit value and the
/// telemetry request.
pub open spec fn packet_of(value: int, telem: bool) -> int {
    2 * (value % 2048) + if telem {
        1int
    } else {
        0
    }
}

/// The 16-bit frame for a value and a telemetry request.
pub open spec fn frame_word(value: int, telem: bool) -> u16 {
    let packet = packet_of(value, telem);
    (16 * packet + nibble_crc(packet as u16)) as u16
}

/// A frame whose last nibble is the CRC of the others.
pub open spec fn frame_ok(f: u16) -> bool {
    f & 0x0F == nibble_crc(f >> 4)
}

/// The 11-bit value in a frame.
pub open spec fn frame_value(f: u16) -> int {
    f as int / 32
}

/// The telemetry request in a frame.
pub open spec fn frame_telem(f: u16) -> bool {
    f as int / 16 % 2 == 1
}

proof fn lemma_make(value: u16, t: u16)
    by (bit_vector)
    requires
        t <= 1,
    ensures
        ((value & 0x07FF) << 1) | t == 2 * (value % 2048) + t,
        ((((value & 0x07FF) << 1) | t) << 4) | nibble_crc(((value & 0x07FF) << 1) | t) == 16 * (((
        value & 0x07FF) << 1) | t) + nibble_crc(((value & 0x07FF) << 1) | t),
{
}

/// Builds the 16-bit DShot frame for an 11-bit value (`0` is stop, `1..47` are
/// special commands, `48..2047` throttle). `telem` requests ESC telemetry.
pub fn make_frame(value: u16, telem: bool) -> (r: u16)
    ensures
        r == frame_word(value as int, telem),
{
    let v: u16 = value & 0x07FF;
    let t: u16 = if telem {
        1
    } else {
        0
    };
    let packet: u16 = (v << 1) | t;
    let crc: u16 = (packet ^ (packet >> 4) ^ (packet >> 8)) & 0x0F;
    proof {
        lemma_make(value, t);
    }
    (packet << 4) | crc
}

proof fn lemma_read_back(packet: u16)
    by (bit_vector)
    requires
        packet < 4096,
    ensures
        16 * packet + nibble_crc(packet) < 0x1_0000,
        ((16 * packet + nibble_crc(packet)) as u16) & 0x0F == nibble_crc(packet),
        ((16 * packet + nibble_crc(packet)) as u16) >> 4 == packet,
        nibble_crc(packet) < 16,
{
}

/// What a receiver reads from a frame is what was put in: the value modulo
/// 2048 and the telemetry request, under a correct CRC.
pub proof fn law_frame_round_trip(value: int, telem: bool)
    ensures
        frame_ok(frame_word(value, telem)),
        frame_value(frame_word(value, telem)) == value % 2048,
        frame_telem(frame_word(value, telem)) == telem,
{
    lemma_read_back(packet_of(value, telem) as u16);
}

proof fn lemma_bit_flip(f: u16, k: u16)
    by (bit_vector)
    requires
        k < 16,
        f & 0x0F == ((f >> 4) ^ ((f >> 4) >> 4) ^ ((f >> 4) >> 8)) & 0x0F,
    ensures
        (f ^ (1u16 << k)) & 0x0F != (((f ^ (1u16 << k)) >> 4) ^ (((f ^ (1u16 << k)) >> 4) >> 4) ^ ((
        (f ^ (1u16 << k)) >> 4) >> 8)) & 0x0F,
{
}

/// A frame with one bit flipped on the wire fails its CRC, so the ESC drops it.
pub proof fn law_flipped_bit_detected(f: u16, k: u16)
    requires
        frame_ok(f),
        k < 16,
    ensures
        !frame_ok(f ^ (1u16 << k)),
{
    lemma_bit_flip(f, k);
}

/// Bit `c` of a register value.
pub open spec fn bit32(v: u32, c: u32) -> bool {
    (v >> c) & 1 == 1
}

/// Bit `c` of a frame.
pub open spec fn bit16(v: u16, c: u16) -> bool {
    (v >> c) & 1 == 1
}

/// What it takes to send one frame on each motor line: the cycles of the three
/// parts of a bit, and the register writes that open them.
#[derive(Clone, Copy)]
pub struct Waveform {
    /// High on every line.
    pub t_low: u32,
    /// Still high on the lines that send a one.
    pub t_mid: u32,
    /// Low on every line.
    pub t_rest: u32,
    /// Raises every motor line.
    pub set_all: u32,
    /// Lowers every motor line.
    pub reset_all: u32,
    /// For each bit of the frames, first sent first: lowers the lines that
    /// send a zero.
    pub zero_resets: [u32; 16],
}

/// The lines raised by a register write.
pub open spec fn raises(w: u32, line: int) -> bool {
    bit32(w, line as u32)
}

/// The lines lowered by a register write.
pub open spec fn lowers(w: u32, line: int) -> bool {
    bit32(w, (line + 16) as u32)
}

/// The port line of motor `i`.
pub open spec fn motor_line(i: int) -> int {
    MOTOR_BITS@[i] as int
}

/// A line that carries a motor signal.
pub open spec fn is_motor_line(line: int) -> bool {
    exists|i: int| 0 <= i < N_LINES && #[trigger] motor_line(i) == line
}

proof fn lemma_lines()
    ensures
        motor_line(0) == 0,
        motor_line(1) == 1,
        motor_line(2) == 2,
        motor_line(3) == 3,
        forall|c: int| #[trigger] is_motor_line(c) <==> 0 <= c < 4,
{
    assert(MOTOR_BITS@ =~= seq![0u8, 1, 2, 3]);
    assert forall|c: int| #[trigger] is_motor_line(c) <==> 0 <= c < 4 by {
        if 0 <= c < 4 {
            assert(motor_line(c) == c);
        }
    }
}

proof fn lemma_or_bit(v: u32, b: u32, c: u32)
    by (bit_vector)
    requires
        b < 32,
        c < 32,
    ensures
        bit32(v | (1u32 << b), c) <==> (bit32(v, c) || b == c),
        !bit32(0, c),
{
}

/// The register write that raises every motor line and does nothing else.
fn set_mask() -> (r: u32)
    ensures
        forall|c: u32| c < 32 ==> (#[trigger] bit32(r, c) <==> is_motor_line(c as int)),
{
    let mut m: u32 = 0;
    let mut i: usize = 0;
    proof {
        lemma_lines();
        assert forall|c: u32| c < 32 implies !#[trigger] bit32(m, c) by {
            lemma_or_bit(0, 0, c);
        }
    }
    while i < N_LINES
        invariant
            i <= N_LINES,
            forall|j: int| 0 <= j < 4 ==> #[trigger] motor_line(j) == j,
            forall|c: u32| c < 32 ==> (#[trigger] bit32(m, c) <==> c < i),
        decreases N_LINES - i,
    {
        let b: u32 = MOTOR_BITS[i] as u32;
        let ghost before = m;
        assert(motor_line(i as int) == b);
        m = m | (1u32 << b);
        assert forall|c: u32| c < 32 implies (#[trigger] bit32(m, c) <==> c < i + 1) by {
            lemma_or_bit(before, b, c);
            assert(bit32(before, c) <==> c < i);
        }
        i = i + 1;
    }
    m
}

/// The register write that lowers every motor line (idle) and does nothing
/// else.
pub fn idle_mask() -> (r: u32)
    ensures
        forall|c: u32|
            c < 32 ==> (#[trigger] bit32(r, c) <==> c >= 16 && is_motor_line(c - 16)),
{
    let s: u32 = set_mask();
    proof {
        lemma_lines();
        assert forall|c: u32| c < 32 implies (#[trigger] bit32(s << 16, c) <==> c >= 16
            && is_motor_line(c - 16)) by {
            lemma_shift_bit(s, c);
            if c >= 16 {
                assert(bit32(s, (c - 16) as u32) <==> is_motor_line(c - 16));
            }
        }
    }
    s << 16
}

proof fn lemma_shift_bit(v: u32, c: u32)
    by (bit_vector)
    requires
        c < 32,
    ensures
        c >= 16 ==> (bit32(v << 16, c) <==> bit32(v, (c - 16) as u32)),
        c < 16 ==> !bit32(v << 16, c),
{
}

/// The register write for one bit slot: lowers exactly the motor lines whose
/// frame has a zero at position `shift`.
fn zero_mask(frames: &[u16; 4], shift: u16) -> (r: u32)
    requires
        shift < 16,
    ensures
        forall|c: u32|
            c < 32 ==> (#[trigger] bit32(r, c) <==> 16 <= c < 20 && !bit16(
                frames@[c - 16],
                shift,
            )),
{
    let mut m: u32 = 0;
    let mut i: usize = 0;
    proof {
        lemma_lines();
        assert forall|c: u32| c < 32 implies !#[trigger] bit32(m, c) by {
            lemma_or_bit(0, 0, c);
        }
    }
    while i < N_LINES
        invariant
            i <= N_LINES,
            shift < 16,
            forall|j: int| 0 <= j < 4 ==> #[trigger] motor_line(j) == j,
            forall|c: u32|
                c < 32 ==> (#[trigger] bit32(m, c) <==> 16 <= c < 16 + i && !bit16(
                    frames@[c - 16],
                    shift,
                )),
        decreases N_LINES - i,
    {
        let ghost before = m;
        let f: u16 = frames[i];
        let bit: u16 = (f >> shift) & 1;
        assert((f >> shift) & 1 == 0 || (f >> shift) & 1 == 1) by (bit_vector);
        let b: u32 = MOTOR_BITS[i] as u32 + 16;
        assert(motor_line(i as int) + 16 == b);
        if bit == 0 {
            m = m | (1u32 << b);
        }
        assert forall|c: u32| c < 32 implies (#[trigger] bit32(m, c) <==> 16 <= c < 16 + i + 1
            && !bit16(frames@[c - 16], shift)) by {
            lemma_or_bit(before, b, c);
            assert(bit32(before, c) <==> 16 <= c < 16 + i && !bit16(frames@[c - 16], shift));
        }
        i = i + 1;
    }
    m
}

/// A waveform that sends these frames at this bitrate: the parts of a bit, and
/// for each register write exactly the lines that it raises or lowers.
pub open spec fn carries(w: Waveform, frames: Seq<u16>, proto: Protocol) -> bool {
    &&& w.t_low == bit_period(proto) * 3 / 8
    &&& w.t_mid == bit_period(proto) * 3 / 8
    &&& w.t_low + w.t_mid + w.t_rest == bit_period(proto)
    &&& forall|c: u32| c < 32 ==> (#[trigger] bit32(w.set_all, c) <==> is_motor_line(c as int))
    &&& forall|c: u32|
        c < 32 ==> (#[trigger] bit32(w.reset_all, c) <==> c >= 16 && is_motor_line(c - 16))
    &&& forall|k: int, i: int|
        0 <= k < 16 && 0 <= i < N_LINES ==> (lowers(
            #[trigger] w.zero_resets@[k],
            #[trigger] motor_line(i),
        ) <==> !bit16(frames[i], (15 - k) as u16))
    &&& forall|k: int, c: u32|
        0 <= k < 16 && c < 32 && !(c >= 16 && is_motor_line(c - 16)) ==> !#[trigger] bit32(
            w.zero_resets@[k],
            c,
        )
}

/// The waveform that sends `frames`, one per motor, at bitrate `proto`: each
/// bit is high for three eighths of the bit period, stays high for another
/// three eighths when it is a one, and is low for the rest. The most
/// significant bit goes first.
pub fn waveform(frames: &[u16; 4], proto: Protocol) -> (r: Waveform)
    ensures
        carries(r, frames@, proto),
{
    let bit: u32 = proto.bit_cycles();
    let t_low: u32 = (bit * 3) / 8;
    let t_mid: u32 = (bit * 3) / 8;
    let t_rest: u32 = bit - t_low - t_mid;
    let set_all: u32 = set_mask();
    let reset_all: u32 = idle_mask();
    let mut zero_resets: [u32; 16] = [0; 16];
    let mut k: usize = 0;
    while k < 16
        invariant
            k <= 16,
            forall|j: int, c: u32|
                0 <= j < k && c < 32 ==> (#[trigger] bit32(zero_resets@[j], c) <==> 16 <= c < 20
                    && !bit16(frames@[c - 16], (15 - j) as u16)),
        decreases 16 - k,
    {
        zero_resets[k] = zero_mask(frames, 15 - k as u16);
        k = k + 1;
    }
    proof {
        lemma_lines();
        assert forall|j: int, i: int| 0 <= j < 16 && 0 <= i < N_LINES implies (lowers(
            #[trigger] zero_resets@[j],
            #[trigger] motor_line(i),
        ) <==> !bit16(frames@[i], (15 - j) as u16)) by {
            assert(motor_line(i) == i);
            assert(bit32(zero_resets@[j], (i + 16) as u32) <==> !bit16(
                frames@[i],
                (15 - j) as u16,
            ));
        }
    }
    Waveform { t_low, t_mid, t_rest, set_all, reset_all, zero_resets }
}

/// The register writes of one bit slot, and for each the cycle count up to
/// which it holds.
#[derive(Clone, Copy)]
pub struct Slot {
    pub writes: [u32; 3],
    pub until: [u32; 3],
}

impl Waveform {
    /// The writes of bit slot `k` of a waveform, when the slot starts at cycle
    /// `start` of a counter that wraps at 2^32. The last deadline is the start
    /// of the next slot.
    pub fn slot(&self, k: usize, start: u32) -> (r: Slot)
        requires
            k < 16,
            self.t_low + self.t_mid + self.t_rest <= u32::MAX,
        ensures
            r.writes@ == seq![self.set_all, self.zero_resets@[k as int], self.reset_all],
            r.until@ == seq![
                ((start + self.t_low) % 0x1_0000_0000) as u32,
                ((start + self.t_low + self.t_mid) % 0x1_0000_0000) as u32,
                ((start + self.t_low + self.t_mid + self.t_rest) % 0x1_0000_0000) as u32,
            ],
            r.writes@ == slot_writes(*self, k as int),
            r.until@ == slot_deadlines(*self, start),
    {
        let writes: [u32; 3] = [self.set_all, self.zero_resets[k], self.reset_all];
        let until: [u32; 3] = [
            start.wrapping_add(self.t_low),
            start.wrapping_add(self.t_low + self.t_mid),
            start.wrapping_add(self.t_low + self.t_mid + self.t_rest),
        ];
        assert(writes@ =~= seq![self.set_all, self.zero_resets@[k as int], self.reset_all]);
        assert(until@ =~= seq![
            ((start + self.t_low) % 0x1_0000_0000) as u32,
            ((start + self.t_low + self.t_mid) % 0x1_0000_0000) as u32,
            ((start + self.t_low + self.t_mid + self.t_rest) % 0x1_0000_0000) as u32,
        ]);
        Slot { writes, until }
    }
}

/// Level of a port line after a register write, given its level before.
pub open spec fn after_write(w: u32, line: int, level: bool) -> bool {
    if raises(w, line) {
        true
    } else if lowers(w, line) {
        false
    } else {
        level
    }
}

/// Level of a port line `t` cycles into bit slot `k`, when the three writes of
/// the slot are made on time and the line had `level` before.
pub open spec fn level_at(w: Waveform, k: int, line: int, t: int, level: bool) -> bool {
    let l0 = after_write(w.set_all, line, level);
    let l1 = after_write(w.zero_resets@[k], line, l0);
    let l2 = after_write(w.reset_all, line, l1);
    if t < w.t_low {
        l0
    } else if t < w.t_low + w.t_mid {
        l1
    } else {
        l2
    }
}

/// On the line of motor `i`, every bit slot is high first and low last, and
/// half way through the slot the level is the bit of that motor's own frame,
/// most significant bit first: the four frames travel independently.
pub proof fn law_waveform_carries_frames(
    w: Waveform,
    frames: Seq<u16>,
    proto: Protocol,
    i: int,
    k: int,
    level: bool,
)
    requires
        carries(w, frames, proto),
        0 <= i < N_LINES,
        0 <= k < 16,
    ensures
        level_at(w, k, motor_line(i), 0, level),
        level_at(w, k, motor_line(i), bit_period(proto) / 2, level) == bit16(
            frames[i],
            (15 - k) as u16,
        ),
        !level_at(w, k, motor_line(i), bit_period(proto) - 1, level),
{
    lemma_lines();
    let line = motor_line(i);
    assert(line == i);
    assert(is_motor_line(line));
    assert(bit32(w.set_all, line as u32));
    assert(!bit32(w.zero_resets@[k], line as u32));
    assert(lowers(w.zero_resets@[k], line) <==> !bit16(frames[i], (15 - k) as u16));
    assert(!bit32(w.reset_all, line as u32));
    assert(bit32(w.reset_all, (line + 16) as u32));
}

/// Lines of the port that carry no motor signal keep their level.
pub proof fn law_other_lines_untouched(
    w: Waveform,
    frames: Seq<u16>,
    proto: Protocol,
    line: int,
    k: int,
    t: int,
    level: bool,
)
    requires
        carries(w, frames, proto),
        0 <= line < 16,
        !is_motor_line(line),
        0 <= k < 16,
    ensures
        level_at(w, k, line, t, level) == level,
{
    lemma_lines();
    assert(!bit32(w.set_all, line as u32));
    assert(!bit32(w.set_all, (line + 16) as u32));
    assert(!bit32(w.zero_resets@[k], line as u32));
    assert(!bit32(w.zero_resets@[k], (line + 16) as u32));
    assert(!bit32(w.reset_all, line as u32));
    assert(!bit32(w.reset_all, (line + 16) as u32));
}

/// Whether a cycle counter that wraps at 2^32 has reached `deadline`: it is
/// less than half a turn past it.
pub fn deadline_reached(now: u32, deadline: u32) -> (r: bool)
    ensures
        r == ((now - deadline) % 0x1_0000_0000 < 0x8000_0000),
        r == reached(now, deadline),
{
    now.wrapping_sub(deadline) < 0x8000_0000
}

/// Counted without wrapping, a deadline less than half a turn away in either
/// direction is reached exactly from its own cycle on.
pub proof fn law_deadline_survives_wrap(now: int, deadline: int)
    requires
        0 <= now,
        0 <= deadline,
        -0x8000_0000 <= now - deadline < 0x8000_0000,
    ensures
        ((now % 0x1_0000_0000 - deadline % 0x1_0000_0000) % 0x1_0000_0000 < 0x8000_0000) <==> now
            >= deadline,
{
}

/// The two-bit field of pin `c` in a mode or speed register.
pub open spec fn pin_field(v: u32, c: u32) -> u32 {
    (v >> ((2 * c) as u32)) & 3
}

proof fn lemma_fields(v: u32, b: u32, at: u32, c: u32)
    by (bit_vector)
    requires
        b < 16,
        at == 2 * b,
        c < 16,
    ensures
        pin_field((v & !(3u32 << at)) | (1u32 << at), c) == if c == b {
            1
        } else {
            pin_field(v, c)
        },
        pin_field(v | (3u32 << at), c) == if c == b {
            3
        } else {
            pin_field(v, c)
        },
{
}

/// Mode register with pin `b` as general-purpose output, the others unchanged.
pub fn output_mode(bits: u32, b: u8) -> (r: u32)
    requires
        b < 16,
    ensures
        forall|c: u32|
            c < 16 ==> #[trigger] pin_field(r, c) == if c == b {
                1
            } else {
                pin_field(bits, c)
            },
{
    let at: u32 = b as u32 * 2;
    proof {
        assert forall|c: u32| c < 16 implies #[trigger] pin_field(
            (bits & !(3u32 << at)) | (1u32 << at),
            c,
        ) == if c == b {
            1
        } else {
            pin_field(bits, c)
        } by {
            lemma_fields(bits, b as u32, at, c);
        }
    }
    (bits & !(3u32 << at)) | (1u32 << at)
}

/// Speed register with pin `b` at very high speed, the others unchanged.
pub fn very_high_speed(bits: u32, b: u8) -> (r: u32)
    requires
        b < 16,
    ensures
        forall|c: u32|
            c < 16 ==> #[trigger] pin_field(r, c) == if c == b {
                3
            } else {
                pin_field(bits, c)
            },
{
    let at: u32 = b as u32 * 2;
    proof {
        assert forall|c: u32| c < 16 implies #[trigger] pin_field(bits | (3u32 << at), c) == if c
            == b {
            3
        } else {
            pin_field(bits, c)
        } by {
            lemma_fields(bits, b as u32, at, c);
        }
    }
    bits | (3u32 << at)
}

proof fn lemma_clear_bit(v: u32, b: u32, c: u32)
    by (bit_vector)
    requires
        b < 32,
        c < 32,
    ensures
        bit32(v & !(1u32 << b), c) <==> (bit32(v, c) && b != c),
{
}

/// Output-type register with pin `b` push-pull, the others unchanged.
pub fn push_pull(bits: u32, b: u8) -> (r: u32)
    requires
        b < 16,
    ensures
        forall|c: u32| c < 32 ==> (#[trigger] bit32(r, c) <==> bit32(bits, c) && c != b),
{
    let at: u32 = b as u32;
    proof {
        assert forall|c: u32| c < 32 implies (#[trigger] bit32(bits & !(1u32 << at), c) <==> bit32(
            bits,
            c,
        ) && c != b) by {
            lemma_clear_bit(bits, at, c);
        }
    }
    bits & !(1u32 << at)
}

/// The three numbers of a bitrate on the wire; every other number means the
/// slowest.
pub proof fn law_protocol_numbers(v: int)
    ensures
        protocol_of(1) == Protocol::Dshot300,
        protocol_of(2) == Protocol::Dshot600,
        v != 1 && v != 2 ==> protocol_of(v) == Protocol::Dshot150,
        protocol_number(Protocol::Dshot150) == 0,
        protocol_number(Protocol::Dshot300) == 1,
        protocol_number(Protocol::Dshot600) == 2,
{
}

/// The cycles of a bit at 64 MHz, and of the parts that make it a zero or a one.
pub proof fn law_bit_timing(w: Waveform, frames: Seq<u16>, proto: Protocol)
    requires
        carries(w, frames, proto),
    ensures
        proto == Protocol::Dshot150 ==> w.t_low == 159 && w.t_mid == 159 && w.t_rest == 108
            && bit_period(proto) == 426,
        proto == Protocol::Dshot300 ==> w.t_low == 79 && w.t_mid == 79 && w.t_rest == 55
            && bit_period(proto) == 213,
        proto == Protocol::Dshot600 ==> w.t_low == 39 && w.t_mid == 39 && w.t_rest == 28
            && bit_period(proto) == 106,
{
    assert(bit_period(Protocol::Dshot150) == 426);
    assert(bit_period(Protocol::Dshot300) == 213);
    assert(bit_period(Protocol::Dshot600) == 106);
}

proof fn lemma_nibbles(packet: u16, a: u16, b: u16, c: u16)
    by (bit_vector)
    requires
        a < 16,
        b < 16,
        c < 16,
        packet == 256 * a + 16 * b + c,
    ensures
        nibble_crc(packet) == a ^ b ^ c,
{
}

/// The bits of a frame, most significant first: eleven of the value, the
/// telemetry request, and the exclusive or of the three nibbles that these make.
pub proof fn law_frame_bits(value: int, telem: bool)
    ensures
        ({
            let f = frame_word(value, telem) as int;
            let a = (f / 4096) as u16;
            let b = (f / 256 % 16) as u16;
            let c = (f / 16 % 16) as u16;
            &&& f / 32 == value % 2048
            &&& f / 16 % 2 == (if telem {
                1int
            } else {
                0
            })
            &&& f % 16 == a ^ b ^ c
        }),
{
    let p = packet_of(value, telem);
    let a = (p / 256) as u16;
    let b = (p / 16 % 16) as u16;
    let c = (p % 16) as u16;
    lemma_read_back(p as u16);
    lemma_nibbles(p as u16, a, b, c);
}

/// The motor signals are the four lowest lines of the port, in order.
pub proof fn law_motor_lines(i: int)
    ensures
        0 <= i < 4 ==> motor_line(i) == i,
        is_motor_line(i) <==> 0 <= i < 4,
{
    lemma_lines();
}

/// Whether a counter that wraps at 2^32 is at a deadline or less than half a turn
/// past it.
pub open spec fn reached(now: u32, deadline: u32) -> bool {
    (now - deadline) % 0x1_0000_0000 < 0x8000_0000
}

/// A deadline `ahead` cycles away is reached exactly after that many cycles,
/// wherever the counter wraps meanwhile.
pub proof fn law_deadline_reached(start: u32, ahead: int, elapsed: int)
    requires
        0 <= ahead < 0x8000_0000,
        0 <= elapsed < 0x8000_0000,
    ensures
        reached(
            ((start + elapsed) % 0x1_0000_0000) as u32,
            ((start + ahead) % 0x1_0000_0000) as u32,
        ) <==> elapsed >= ahead,
{
}

/// The deadlines of a bit slot that starts at `start`.
pub open spec fn slot_deadlines(w: Waveform, start: u32) -> Seq<u32> {
    seq![
        ((start + w.t_low) % 0x1_0000_0000) as u32,
        ((start + w.t_low + w.t_mid) % 0x1_0000_0000) as u32,
        ((start + w.t_low + w.t_mid + w.t_rest) % 0x1_0000_0000) as u32,
    ]
}

/// The deadlines of a slot are reached after the first part of the bit, after the
/// second, and after the whole bit, wherever the counter wraps meanwhile.
pub proof fn law_slot_deadlines(
    w: Waveform,
    frames: Seq<u16>,
    proto: Protocol,
    start: u32,
    elapsed: int,
)
    requires
        carries(w, frames, proto),
        0 <= elapsed < 0x8000_0000,
    ensures
        ({
            let now = ((start + elapsed) % 0x1_0000_0000) as u32;
            let d = slot_deadlines(w, start);
            &&& d.len() == 3
            &&& reached(now, d[0]) <==> elapsed >= w.t_low
            &&& reached(now, d[1]) <==> elapsed >= w.t_low + w.t_mid
            &&& reached(now, d[2]) <==> elapsed >= bit_period(proto)
        }),
{
    law_bit_timing(w, frames, proto);
    law_deadline_reached(start, w.t_low as int, elapsed);
    law_deadline_reached(start, w.t_low + w.t_mid, elapsed);
    law_deadline_reached(start, w.t_low + w.t_mid + w.t_rest, elapsed);
}

/// The register writes of bit slot `k`.
pub open spec fn slot_writes(w: Waveform, k: int) -> Seq<u32> {
    seq![w.set_all, w.zero_resets@[k], w.reset_all]
}

/// The three writes of a slot, in order, on the line of motor `i`: the first
/// raises it, the second leaves it up exactly when bit `k` of that motor's frame
/// is a one, counting from the most significant, and the third lowers it.
pub proof fn law_slot_writes(
    w: Waveform,
    frames: Seq<u16>,
    proto: Protocol,
    k: int,
    i: int,
    level: bool,
)
    requires
        carries(w, frames, proto),
        0 <= k < 16,
        0 <= i < 4,
    ensures
        ({
            let writes = slot_writes(w, k);
            let high = after_write(writes[0], i, level);
            let bit = after_write(writes[1], i, high);
            &&& writes.len() == 3
            &&& high
            &&& bit <==> (frames[i] >> ((15 - k) as u16)) & 1 == 1
            &&& !after_write(writes[2], i, bit)
        }),
{
    law_bit_timing(w, frames, proto);
    lemma_lines();
    assert(motor_line(i) == i);
    law_waveform_carries_frames(w, frames, proto, i, k, level);
}

} // verus!
