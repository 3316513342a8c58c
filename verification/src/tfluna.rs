//! Benewake TF-Luna single-point lidar: UART frame decoder.
//!
//! The sensor streams a fixed 9-byte frame at 100 Hz:
//! ```text
//!   0x59 0x59 Dist_L Dist_H Amp_L Amp_H Temp_L Temp_H Checksum
//! ```
//! The checksum is the low byte of the sum of the first eight bytes. Distance
//! is in centimetres; the amplitude is the return signal strength.

use crate::wire::u16_of;
use vstd::prelude::*;

verus! {

/// Working range, cm.
pub const MIN_CM: u16 = 20;

pub const MAX_CM: u16 = 800;

/// Returns weaker than this amplitude are unreliable.
pub const AMP_MIN: u16 = 100;

/// Amplitude that marks saturation (target too close or too reflective).
pub const AMP_SATURATED: u16 = 0xFFFF;

/// Both header bytes of a frame.
pub const HEADER: u8 = 0x59;

pub const FRAME_LEN: usize = 9;

/// Latest TF-Luna reading.
#[derive(Clone, Copy)]
pub struct TfLunaData {
    /// Distance, cm.
    pub distance_cm: u16,
    /// Return signal strength.
    pub amplitude: u16,
    /// True when the reading is in range and the amplitude is trustworthy.
    pub valid: bool,
    /// Count of valid frames decoded.
    pub frames: u32,
    /// Total bytes received. Wraps at 2^32.
    pub rx_bytes: u32,
    /// Frames whose checksum did not match.
    pub checksum_errors: u32,
}

/// Nothing received yet.
pub open spec fn no_reading() -> TfLunaData {
    TfLunaData {
        distance_cm: 0,
        amplitude: 0,
        valid: false,
        frames: 0,
        rx_bytes: 0,
        checksum_errors: 0,
    }
}

impl Default for TfLunaData {
    fn default() -> (r: Self)
        ensures
            r == no_reading(),
    {
        TfLunaData {
            distance_cm: 0,
            amplitude: 0,
            valid: false,
            frames: 0,
            rx_bytes: 0,
            checksum_errors: 0,
        }
    }
}

/// The sum of a byte sequence.
pub open spec fn byte_sum(s: Seq<u8>) -> nat
    decreases s.len(),
{
    if s.len() == 0 {
        0
    } else {
        byte_sum(s.drop_last()) + s.last() as nat
    }
}

/// A trustworthy reading: in range, neither weak nor saturated.
pub open spec fn trusted(distance: int, amplitude: int) -> bool {
    AMP_MIN <= amplitude && amplitude != AMP_SATURATED && MIN_CM <= distance <= MAX_CM
}

/// A counter that wraps at 2^32.
pub open spec fn bumped(n: u32) -> u32 {
    ((n + 1) % 0x1_0000_0000) as u32
}

/// The effect of a complete 9-byte frame, and whether its checksum matched.
pub open spec fn decode(f: Seq<u8>, d: TfLunaData) -> (TfLunaData, bool) {
    if byte_sum(f.take(8)) % 256 == f[8] {
        let distance = f[2] + 256 * f[3];
        let amplitude = f[4] + 256 * f[5];
        (
            TfLunaData {
                distance_cm: distance as u16,
                amplitude: amplitude as u16,
                valid: trusted(distance, amplitude),
                frames: bumped(d.frames),
                ..d
            },
            true,
        )
    } else {
        (TfLunaData { checksum_errors: bumped(d.checksum_errors), ..d }, false)
    }
}

/// What a [`TfLunaParser`] holds: the bytes of the frame in progress and the
/// latest reading.
#[verifier::ext_equal]
pub struct TfLunaState {
    pub got: Seq<u8>,
    pub data: TfLunaData,
}

/// The state after one received byte, and whether a frame was decoded.
pub open spec fn step(s: TfLunaState, b: u8) -> (TfLunaState, bool) {
    let data = TfLunaData { rx_bytes: bumped(s.data.rx_bytes), ..s.data };
    if s.got.len() < 2 && b != HEADER {
        (TfLunaState { got: Seq::empty(), data }, false)
    } else if s.got.len() < 8 {
        (TfLunaState { got: s.got.push(b), data }, false)
    } else {
        let (data, ok) = decode(s.got.push(b), data);
        (TfLunaState { got: Seq::empty(), data }, ok)
    }
}

#[derive(Clone, Copy)]
enum State {
    Sync1,
    Sync2,
    Body,
}

/// Byte-fed TF-Luna frame assembler and decoder.
pub struct TfLunaParser {
    state: State,
    buf: [u8; FRAME_LEN],
    idx: usize,
    data: TfLunaData,
}

impl TfLunaParser {
    /// Every parser is in this condition; `new` makes it so and `push` keeps it.
    pub closed spec fn wf(&self) -> bool {
        &&& (self.state is Body ==> 2 <= self.idx < FRAME_LEN)
    }
}

impl View for TfLunaParser {
    type V = TfLunaState;

    closed spec fn view(&self) -> TfLunaState {
        TfLunaState {
            got: match self.state {
                State::Sync1 => Seq::empty(),
                State::Sync2 => self.buf@.take(1),
                State::Body => self.buf@.take(self.idx as int),
            },
            data: self.data,
        }
    }
}

impl TfLunaParser {
    pub fn new() -> (r: Self)
        ensures
            r.wf(),
            r@ == (TfLunaState { got: Seq::empty(), data: no_reading() }),
    {
        TfLunaParser {
            state: State::Sync1,
            buf: [0; FRAME_LEN],
            idx: 0,
            data: TfLunaData::default(),
        }
    }

    pub fn data(&self) -> (r: TfLunaData)
        ensures
            r == self@.data,
    {
        self.data
    }

    /// Feeds one received byte. Returns `true` when a checksum-valid frame was
    /// just decoded.
    pub fn push(&mut self, byte: u8) -> (r: bool)
        requires
            old(self).wf(),
        ensures
            final(self).wf(),
            (final(self)@, r) == step(old(self)@, byte),
    {
        let ghost got = self@.got;
        self.data.rx_bytes = self.data.rx_bytes.wrapping_add(1);
        match self.state {
            State::Sync1 => {
                if byte == HEADER {
                    self.buf[0] = byte;
                    self.state = State::Sync2;
                    assert(self@.got =~= got.push(byte));
                }
                false
            },
            State::Sync2 => {
                if byte == HEADER {
                    self.buf[1] = byte;
                    self.idx = 2;
                    self.state = State::Body;
                    assert(self@.got =~= got.push(byte));
                } else {
                    self.state = State::Sync1;
                }
                false
            },
            State::Body => {
                self.buf[self.idx] = byte;
                self.idx = self.idx + 1;
                assert(self.buf@.take(self.idx as int) =~= got.push(byte));
                if self.idx == FRAME_LEN {
                    self.state = State::Sync1;
                    assert(self.buf@.take(9) =~= self.buf@);
                    return self.process();
                }
                false
            },
        }
    }

    fn process(&mut self) -> (r: bool)
        requires
            old(self).state is Sync1,
        ensures
            final(self).wf(),
            final(self)@.got == Seq::<u8>::empty(),
            (final(self)@.data, r) == decode(old(self).buf@, old(self)@.data),
    {
        let mut sum: u32 = 0;
        let mut i: usize = 0;
        while i < 8
            invariant
                i <= 8,
                sum == byte_sum(self.buf@.take(i as int)),
                sum <= 255 * i,
            decreases 8 - i,
        {
            sum = sum + self.buf[i] as u32;
            assert(self.buf@.take(i + 1).drop_last() =~= self.buf@.take(i as int));
            i = i + 1;
        }
        if (sum % 256) as u8 != self.buf[8] {
            self.data.checksum_errors = self.data.checksum_errors.wrapping_add(1);
            return false;
        }
        let distance: u16 = u16_of(self.buf[2], self.buf[3]);
        let amplitude: u16 = u16_of(self.buf[4], self.buf[5]);
        self.data.distance_cm = distance;
        self.data.amplitude = amplitude;
        self.data.valid = amplitude >= AMP_MIN && amplitude != AMP_SATURATED && MIN_CM <= distance
            && distance <= MAX_CM;
        self.data.frames = self.data.frames.wrapping_add(1);
        true
    }
}

/// The state after a stream of bytes.
pub open spec fn run(s: TfLunaState, bytes: Seq<u8>) -> TfLunaState
    decreases bytes.len(),
{
    if bytes.len() == 0 {
        s
    } else {
        step(run(s, bytes.drop_last()), bytes.last()).0
    }
}

/// A complete frame: nine bytes that start with the header pair.
pub open spec fn frame_ok(f: Seq<u8>) -> bool {
    f.len() == 9 && f[0] == HEADER && f[1] == HEADER
}

proof fn lemma_step_collects(s: TfLunaState, b: u8)
    requires
        s.got.len() < 8,
        s.got.len() < 2 ==> b == HEADER,
    ensures
        step(s, b).0.got == s.got.push(b),
        step(s, b).0.data == (TfLunaData { rx_bytes: bumped(s.data.rx_bytes), ..s.data }),
{
}

/// A counter after `k` more counts.
spec fn bumped_by(n: u32, k: nat) -> u32
    decreases k,
{
    if k == 0 {
        n
    } else {
        bumped(bumped_by(n, (k - 1) as nat))
    }
}

proof fn lemma_bumped_by(n: u32, k: nat)
    ensures
        bumped_by(n, k) == (n + k) % 0x1_0000_0000,
    decreases k,
{
    if k > 0 {
        lemma_bumped_by(n, (k - 1) as nat);
    }
}

proof fn lemma_frame_progress(s: TfLunaState, f: Seq<u8>, k: nat)
    requires
        s.got.len() == 0,
        frame_ok(f),
        k <= 8,
    ensures
        run(s, f.take(k as int)).got == f.take(k as int),
        run(s, f.take(k as int)).data == (TfLunaData {
            rx_bytes: bumped_by(s.data.rx_bytes, k),
            ..s.data
        }),
    decreases k,
{
    let t = f.take(k as int);
    if k == 0 {
        assert(t =~= Seq::<u8>::empty());
        assert(s.got =~= t);
    } else {
        let j = (k - 1) as nat;
        lemma_frame_progress(s, f, j);
        assert(t.drop_last() =~= f.take(j as int));
        assert(f.take(j as int).push(f[j as int]) =~= t);
        lemma_step_collects(run(s, f.take(j as int)), f[j as int]);
    }
}

/// A frame that arrives while the receiver is between frames is decoded as a
/// whole, counted byte for byte, and leaves the receiver between frames.
pub proof fn law_frame_received(s: TfLunaState, f: Seq<u8>)
    requires
        s.got.len() == 0,
        frame_ok(f),
    ensures
        ({
            let rx = ((s.data.rx_bytes + 9) % 0x1_0000_0000) as u32;
            run(s, f) == (TfLunaState {
                got: Seq::empty(),
                data: decode(f, TfLunaData { rx_bytes: rx, ..s.data }).0,
            })
        }),
{
    lemma_frame_progress(s, f, 8);
    lemma_bumped_by(s.data.rx_bytes, 8);
    assert(f.take(9) =~= f);
    assert(f.drop_last() =~= f.take(8));
    assert(f.take(8).push(f[8]) =~= f);
}

proof fn lemma_sum_update(s: Seq<u8>, i: int, b: u8)
    requires
        0 <= i < s.len(),
    ensures
        byte_sum(s.update(i, b)) == byte_sum(s) - s[i] + b,
    decreases s.len(),
{
    let t = s.update(i, b);
    if i == s.len() - 1 {
        assert(t.drop_last() =~= s.drop_last());
    } else {
        assert(t.drop_last() =~= s.drop_last().update(i, b));
        lemma_sum_update(s.drop_last(), i, b);
    }
}

/// A frame that is correct but for one altered byte after the header changes
/// no reading: it is counted as a checksum error.
pub proof fn law_altered_frame_rejected(f: Seq<u8>, d: TfLunaData, i: int, b: u8)
    requires
        frame_ok(f),
        decode(f, d).1,
        2 <= i < 9,
        f[i] != b,
    ensures
        decode(f.update(i, b), d) == (
            TfLunaData { checksum_errors: bumped(d.checksum_errors), ..d },
            false,
        ),
{
    let g = f.update(i, b);
    if i == 8 {
        assert(g.take(8) =~= f.take(8));
    } else {
        assert(g.take(8) =~= f.take(8).update(i, b));
        lemma_sum_update(f.take(8), i, b);
    }
}

/// Outside a frame, bytes other than the header byte are skipped.
pub proof fn law_noise_skipped(s: TfLunaState, b: u8)
    requires
        s.got.len() == 0,
        b != HEADER,
    ensures
        step(s, b).0.got.len() == 0,
        step(s, b).0.data == (TfLunaData { rx_bytes: bumped(s.data.rx_bytes), ..s.data }),
        !step(s, b).1,
{
}

/// A reading keeps this through every byte: when it is marked valid, the
/// distance is in the working range and the amplitude trustworthy.
pub open spec fn validity_sound(d: TfLunaData) -> bool {
    d.valid ==> trusted(d.distance_cm as int, d.amplitude as int)
}

/// No stream of bytes makes a parser report an untrustworthy reading as valid.
pub proof fn law_validity_sound(s: TfLunaState, bytes: Seq<u8>)
    requires
        validity_sound(s.data),
    ensures
        validity_sound(run(s, bytes).data),
    decreases bytes.len(),
{
    if bytes.len() > 0 {
        law_validity_sound(s, bytes.drop_last());
    }
}

/// The bytes in front of the checksum for a distance, an amplitude and a
/// temperature field.
pub open spec fn head_for(distance: u16, amplitude: u16, temp_lo: u8, temp_hi: u8) -> Seq<u8> {
    seq![
        HEADER,
        HEADER,
        (distance as int % 256) as u8,
        (distance as int / 256) as u8,
        (amplitude as int % 256) as u8,
        (amplitude as int / 256) as u8,
        temp_lo,
        temp_hi,
    ]
}

/// The whole frame.
pub open spec fn frame_for(distance: u16, amplitude: u16, temp_lo: u8, temp_hi: u8) -> Seq<u8> {
    let head = head_for(distance, amplitude, temp_lo, temp_hi);
    head.push((byte_sum(head) % 256) as u8)
}

/// What the sensor measured and sent is what the parser reports.
pub proof fn law_distance_received(
    s: TfLunaState,
    distance: u16,
    amplitude: u16,
    temp_lo: u8,
    temp_hi: u8,
)
    requires
        s.got.len() == 0,
    ensures
        ({
            let d = run(s, frame_for(distance, amplitude, temp_lo, temp_hi)).data;
            &&& d.distance_cm == distance
            &&& d.amplitude == amplitude
            &&& d.valid == trusted(distance as int, amplitude as int)
            &&& d.frames == bumped(s.data.frames)
            &&& d.checksum_errors == s.data.checksum_errors
        }),
{
    let f = frame_for(distance, amplitude, temp_lo, temp_hi);
    assert(f.take(8) =~= head_for(distance, amplitude, temp_lo, temp_hi));
    law_frame_received(s, f);
}

/// Nine bytes with the header pair and a matching checksum: the reading is what
/// they say, whatever it was before, and it is valid exactly from 20 to 800 cm
/// with an amplitude of at least 100 that is not saturated. The frame is counted.
pub proof fn law_reading_taken(s: TfLunaState, f: Seq<u8>)
    requires
        s.got.len() == 0,
        f.len() == 9,
        f[0] == 0x59,
        f[1] == 0x59,
        (f[0] + f[1] + f[2] + f[3] + f[4] + f[5] + f[6] + f[7]) % 256 == f[8],
    ensures
        ({
            let t = run(s, f);
            let distance = f[2] + 256 * f[3];
            let amplitude = f[4] + 256 * f[5];
            &&& t.got.len() == 0
            &&& t.data.distance_cm == distance
            &&& t.data.amplitude == amplitude
            &&& t.data.valid <==> 20 <= distance <= 800 && 100 <= amplitude < 65535
            &&& t.data.frames == (s.data.frames + 1) % 0x1_0000_0000
            &&& t.data.checksum_errors == s.data.checksum_errors
            &&& t.data.rx_bytes == (s.data.rx_bytes + 9) % 0x1_0000_0000
            &&& decoded_after(s, f)
        }),
{
    lemma_sum_of_eight(f);
    law_frame_received(s, f);
    lemma_frame_progress(s, f, 8);
    assert(f.drop_last() =~= f.take(8));
    assert(f.take(8).push(f[8]) =~= f);
}

/// With a checksum that does not match the old reading stays, an error is
/// counted and nothing is reported.
pub proof fn law_wrong_checksum_counted(s: TfLunaState, f: Seq<u8>)
    requires
        s.got.len() == 0,
        f.len() == 9,
        f[0] == 0x59,
        f[1] == 0x59,
        (f[0] + f[1] + f[2] + f[3] + f[4] + f[5] + f[6] + f[7]) % 256 != f[8],
    ensures
        ({
            let t = run(s, f);
            &&& t.got.len() == 0
            &&& t.data.distance_cm == s.data.distance_cm
            &&& t.data.amplitude == s.data.amplitude
            &&& t.data.valid == s.data.valid
            &&& t.data.frames == s.data.frames
            &&& t.data.checksum_errors == (s.data.checksum_errors + 1) % 0x1_0000_0000
            &&& t.data.rx_bytes == (s.data.rx_bytes + 9) % 0x1_0000_0000
            &&& !decoded_after(s, f)
        }),
{
    lemma_sum_of_eight(f);
    law_frame_received(s, f);
    lemma_frame_progress(s, f, 8);
    assert(f.drop_last() =~= f.take(8));
    assert(f.take(8).push(f[8]) =~= f);
}

proof fn lemma_sum_of_eight(f: Seq<u8>)
    requires
        f.len() == 9,
    ensures
        byte_sum(f.take(8)) == f[0] + f[1] + f[2] + f[3] + f[4] + f[5] + f[6] + f[7],
{
    reveal_with_fuel(byte_sum, 9);
    assert(f.take(8).drop_last() =~= f.take(7));
    assert(f.take(7).drop_last() =~= f.take(6));
    assert(f.take(6).drop_last() =~= f.take(5));
    assert(f.take(5).drop_last() =~= f.take(4));
    assert(f.take(4).drop_last() =~= f.take(3));
    assert(f.take(3).drop_last() =~= f.take(2));
    assert(f.take(2).drop_last() =~= f.take(1));
    assert(f.take(1).drop_last() =~= f.take(0));
}

/// Whether the last byte of a stream completed a reading.
pub open spec fn decoded_after(s: TfLunaState, bytes: Seq<u8>) -> bool {
    bytes.len() > 0 && step(run(s, bytes.drop_last()), bytes.last()).1
}

/// Both header bytes are 0x59: any other byte in their place starts the search
/// again. Every byte is counted, and inside a frame no reading changes.
pub proof fn law_header_searched(s: TfLunaState, b: u8)
    requires
        s.got.len() < 8,
    ensures
        ({
            let (t, ok) = step(s, b);
            &&& !ok
            &&& t.got == if s.got.len() < 2 && b != 0x59 {
                Seq::<u8>::empty()
            } else {
                s.got.push(b)
            }
            &&& t.data.rx_bytes == (s.data.rx_bytes + 1) % 0x1_0000_0000
            &&& t.data.distance_cm == s.data.distance_cm
            &&& t.data.amplitude == s.data.amplitude
            &&& t.data.valid == s.data.valid
            &&& t.data.frames == s.data.frames
            &&& t.data.checksum_errors == s.data.checksum_errors
        }),
{
}

/// Before anything was received there is no valid reading and nothing counted.
pub proof fn law_no_reading()
    ensures
        !no_reading().valid,
        no_reading().distance_cm == 0,
        no_reading().amplitude == 0,
        no_reading().frames == 0,
        no_reading().rx_bytes == 0,
        no_reading().checksum_errors == 0,
{
}

} // verus!
