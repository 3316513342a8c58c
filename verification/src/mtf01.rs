//! MicoAir MTF-01 optical-flow and lidar driver: MSP v2 sensor messages.
//!
//! The sensor pushes two messages without being polled:
//! `MSP2_SENSOR_RANGEFINDER` (0x1F01) and `MSP2_SENSOR_OPTIC_FLOW` (0x1F02).
//! A frame on the wire is
//! ```text
//!   '$' 'X' <dir> <flag> <func_lo> <func_hi> <size_lo> <size_hi> <payload ...> <crc8>
//! ```
//! and the CRC is CRC-8/DVB-S2 over everything from the flag to the payload.

use crate::crc::{crc8_over, law_crc8_detects_altered_byte};
use crate::crsf::{crc8_dvb_s2, POLY_DVB_S2};
use crate::wire::{i32_of, le_bytes, lemma_le_bytes_len, pattern32, signed32, u32_of};
use vstd::prelude::*;

verus! {

pub const MSP2_SENSOR_RANGEFINDER: u16 = 0x1F01;

pub const MSP2_SENSOR_OPTIC_FLOW: u16 = 0x1F02;

/// Longest payload that is kept; a longer frame is dropped.
pub const MAX_PAYLOAD: usize = 32;

/// `'$'`
pub const DOLLAR: u8 = 0x24;

/// `'X'`
pub const LETTER_X: u8 = 0x58;

/// Latest MTF-01 readings.
#[derive(Clone, Copy)]
pub struct Mtf01Data {
    /// Downward distance, mm. Valid only when `dist_valid`.
    pub dist_mm: i32,
    /// Lidar return quality (0..255).
    pub dist_quality: u8,
    pub dist_valid: bool,
    /// Raw optical-flow motion, sensor units.
    pub flow_x: i32,
    pub flow_y: i32,
    /// Optical-flow quality (0..255). Low quality means an untrustworthy surface.
    pub flow_quality: u8,
    pub flow_valid: bool,
}

/// Nothing received yet.
pub open spec fn no_reading() -> Mtf01Data {
    Mtf01Data {
        dist_mm: 0,
        dist_quality: 0,
        dist_valid: false,
        flow_x: 0,
        flow_y: 0,
        flow_quality: 0,
        flow_valid: false,
    }
}

impl Default for Mtf01Data {
    fn default() -> (r: Self)
        ensures
            r == no_reading(),
    {
        Mtf01Data {
            dist_mm: 0,
            dist_quality: 0,
            dist_valid: false,
            flow_x: 0,
            flow_y: 0,
            flow_quality: 0,
            flow_valid: false,
        }
    }
}

/// The signed 32-bit number at offset `i`, least significant byte first.
pub open spec fn le_i32_at(p: Seq<u8>, i: int) -> i32 {
    signed32(p[i] + 256 * p[i + 1] + 0x1_0000 * p[i + 2] + 0x100_0000 * p[i + 3]) as i32
}

/// Function code of a frame body (flag, function, size, payload).
pub open spec fn func_of(body: Seq<u8>) -> int {
    body[1] + 256 * body[2]
}

/// Payload size that a frame body announces.
pub open spec fn size_of(body: Seq<u8>) -> int {
    body[3] + 256 * body[4]
}

/// The effect of a frame body whose CRC matched, and whether it was a sensor
/// message.
pub open spec fn decode(body: Seq<u8>, d: Mtf01Data) -> (Mtf01Data, bool) {
    let p = body.skip(5);
    if func_of(body) == MSP2_SENSOR_RANGEFINDER && p.len() >= 5 {
        let dist = le_i32_at(p, 1);
        (Mtf01Data { dist_quality: p[0], dist_mm: dist, dist_valid: dist >= 0, ..d }, true)
    } else if func_of(body) == MSP2_SENSOR_OPTIC_FLOW && p.len() >= 9 {
        (
            Mtf01Data {
                flow_quality: p[0],
                flow_x: le_i32_at(p, 1),
                flow_y: le_i32_at(p, 5),
                flow_valid: p[0] > 0,
                ..d
            },
            true,
        )
    } else {
        (d, false)
    }
}

/// Where in a frame the receiver stands.
#[verifier::ext_equal]
pub enum Phase {
    /// Waiting for `'$'`.
    Hunt,
    /// `'$'` was seen.
    Dollar,
    /// `'$' 'X'` was seen; the direction character comes next.
    Direction,
    /// The CRC-covered bytes so far: flag, function, size, payload.
    Body(Seq<u8>),
}

/// What an [`MspParser`] holds.
#[verifier::ext_equal]
pub struct MspState {
    pub phase: Phase,
    pub data: Mtf01Data,
}

/// The state after one received byte, and whether a sensor message was decoded.
pub open spec fn step(s: MspState, b: u8) -> (MspState, bool) {
    match s.phase {
        Phase::Hunt => if b == DOLLAR {
            (MspState { phase: Phase::Dollar, ..s }, false)
        } else {
            (s, false)
        },
        Phase::Dollar => if b == LETTER_X {
            (MspState { phase: Phase::Direction, ..s }, false)
        } else {
            (MspState { phase: Phase::Hunt, ..s }, false)
        },
        Phase::Direction => (MspState { phase: Phase::Body(Seq::empty()), ..s }, false),
        Phase::Body(got) => if got.len() < 4 {
            (MspState { phase: Phase::Body(got.push(b)), ..s }, false)
        } else if got.len() == 4 {
            if size_of(got.push(b)) > MAX_PAYLOAD {
                (MspState { phase: Phase::Hunt, ..s }, false)
            } else {
                (MspState { phase: Phase::Body(got.push(b)), ..s }, false)
            }
        } else if got.len() < 5 + size_of(got) {
            (MspState { phase: Phase::Body(got.push(b)), ..s }, false)
        } else if b == crc8_over(POLY_DVB_S2, 0, got) {
            let (data, ok) = decode(got, s.data);
            (MspState { phase: Phase::Hunt, data }, ok)
        } else {
            (MspState { phase: Phase::Hunt, ..s }, false)
        },
    }
}

#[derive(Clone, Copy)]
enum State {
    Dollar,
    X,
    Dir,
    Flag,
    FuncLo,
    FuncHi,
    SizeLo,
    SizeHi,
    Payload,
    Crc,
}

/// Byte-fed MSP v2 frame assembler and decoder.
pub struct MspParser {
    state: State,
    func: u16,
    size: usize,
    idx: usize,
    crc: u8,
    flag: u8,
    buf: [u8; MAX_PAYLOAD],
    data: Mtf01Data,
}

/// The five header bytes that these fields were read from.
spec fn header(flag: u8, func: u16, size: usize) -> Seq<u8> {
    seq![
        flag,
        (func % 256) as u8,
        (func / 256) as u8,
        (size % 256) as u8,
        (size / 256) as u8,
    ]
}

impl MspParser {
    /// The CRC-covered bytes received so far.
    closed spec fn got(&self) -> Seq<u8> {
        let h = header(self.flag, self.func, self.size);
        match self.state {
            State::FuncLo => h.take(1),
            State::FuncHi => h.take(2),
            State::SizeLo => h.take(3),
            State::SizeHi => h.take(4),
            State::Payload => h + self.buf@.take(self.idx as int),
            State::Crc => h + self.buf@.take(self.size as int),
            _ => Seq::empty(),
        }
    }

    /// Every parser is in this condition; `new` makes it so and `push` keeps it.
    pub closed spec fn wf(&self) -> bool {
        &&& (self.state is FuncHi ==> self.func < 256)
        &&& (self.state is SizeHi ==> self.size < 256)
        &&& (self.state is Payload ==> self.idx < self.size <= MAX_PAYLOAD)
        &&& (self.state is Crc ==> self.size <= MAX_PAYLOAD)
        &&& ((self.state is FuncLo || self.state is FuncHi || self.state is SizeLo || self.state
            is SizeHi || self.state is Payload || self.state is Crc) ==> self.crc == crc8_over(
            POLY_DVB_S2,
            0,
            self.got(),
        ))
    }
}

impl View for MspParser {
    type V = MspState;

    closed spec fn view(&self) -> MspState {
        MspState {
            phase: match self.state {
                State::Dollar => Phase::Hunt,
                State::X => Phase::Dollar,
                State::Dir => Phase::Direction,
                _ => Phase::Body(self.got()),
            },
            data: self.data,
        }
    }
}

proof fn lemma_crc_push(s: Seq<u8>, b: u8)
    ensures
        crc8_over(POLY_DVB_S2, 0, s.push(b)) == crate::crc::crc8_step(
            POLY_DVB_S2,
            crc8_over(POLY_DVB_S2, 0, s),
            b,
        ),
{
    assert(s.push(b).drop_last() =~= s);
}

impl MspParser {
    pub fn new() -> (r: Self)
        ensures
            r.wf(),
            r@ == (MspState { phase: Phase::Hunt, data: no_reading() }),
    {
        MspParser {
            state: State::Dollar,
            func: 0,
            size: 0,
            idx: 0,
            crc: 0,
            flag: 0,
            buf: [0; MAX_PAYLOAD],
            data: Mtf01Data::default(),
        }
    }

    pub fn data(&self) -> (r: Mtf01Data)
        ensures
            r == self@.data,
    {
        self.data
    }

    /// Feeds one received byte. Returns `true` when a recognised sensor message
    /// was just decoded.
    pub fn push(&mut self, b: u8) -> (r: bool)
        requires
            old(self).wf(),
        ensures
            final(self).wf(),
            (final(self)@, r) == step(old(self)@, b),
    {
        let ghost got = self.got();
        proof {
            lemma_crc_push(got, b);
        }
        match self.state {
            State::Dollar => {
                if b == DOLLAR {
                    self.state = State::X;
                }
                false
            },
            State::X => {
                self.state = if b == LETTER_X {
                    State::Dir
                } else {
                    State::Dollar
                };
                false
            },
            State::Dir => {
                self.state = State::Flag;
                false
            },
            State::Flag => {
                self.flag = b;
                self.crc = crc8_dvb_s2(0, b);
                self.state = State::FuncLo;
                assert(self.got() =~= got.push(b));
                false
            },
            State::FuncLo => {
                self.func = b as u16;
                self.crc = crc8_dvb_s2(self.crc, b);
                self.state = State::FuncHi;
                assert(self.got() =~= got.push(b));
                false
            },
            State::FuncHi => {
                self.func = self.func + 256 * (b as u16);
                self.crc = crc8_dvb_s2(self.crc, b);
                self.state = State::SizeLo;
                assert(self.got() =~= got.push(b));
                false
            },
            State::SizeLo => {
                self.size = b as usize;
                self.crc = crc8_dvb_s2(self.crc, b);
                self.state = State::SizeHi;
                assert(self.got() =~= got.push(b));
                false
            },
            State::SizeHi => {
                self.size = self.size + 256 * (b as usize);
                self.crc = crc8_dvb_s2(self.crc, b);
                self.idx = 0;
                assert(size_of(got.push(b)) == self.size);
                if self.size == 0 {
                    self.state = State::Crc;
                    assert(self.got() =~= got.push(b));
                } else if self.size > MAX_PAYLOAD {
                    self.state = State::Dollar;
                } else {
                    self.state = State::Payload;
                    assert(self.got() =~= got.push(b));
                }
                false
            },
            State::Payload => {
                self.buf[self.idx] = b;
                self.idx = self.idx + 1;
                self.crc = crc8_dvb_s2(self.crc, b);
                assert(self.got() =~= got.push(b));
                if self.idx >= self.size {
                    self.state = State::Crc;
                    assert(self.got() =~= got.push(b));
                }
                false
            },
            State::Crc => {
                let ok: bool = b == self.crc;
                self.state = State::Dollar;
                if ok {
                    assert(got =~= header(self.flag, self.func, self.size) + self.buf@.take(
                        self.size as int,
                    ));
                    self.decode()
                } else {
                    false
                }
            },
        }
    }

    fn decode(&mut self) -> (r: bool)
        requires
            old(self).state is Dollar,
            old(self).size <= MAX_PAYLOAD,
        ensures
            final(self).wf(),
            final(self)@.phase is Hunt,
            (final(self)@.data, r) == decode(
                header(old(self).flag, old(self).func, old(self).size) + old(self).buf@.take(
                    old(self).size as int,
                ),
                old(self)@.data,
            ),
    {
        let ghost body = header(self.flag, self.func, self.size) + self.buf@.take(self.size as int);
        assert(body.skip(5) =~= self.buf@.take(self.size as int));
        assert(func_of(body) == self.func);
        if self.func == MSP2_SENSOR_RANGEFINDER && self.size >= 5 {
            self.data.dist_quality = self.buf[0];
            let dist: i32 = i32_of(u32_of(self.buf[1], self.buf[2], self.buf[3], self.buf[4]));
            self.data.dist_mm = dist;
            self.data.dist_valid = dist >= 0;
            true
        } else if self.func == MSP2_SENSOR_OPTIC_FLOW && self.size >= 9 {
            self.data.flow_quality = self.buf[0];
            self.data.flow_x = i32_of(u32_of(self.buf[1], self.buf[2], self.buf[3], self.buf[4]));
            self.data.flow_y = i32_of(u32_of(self.buf[5], self.buf[6], self.buf[7], self.buf[8]));
            self.data.flow_valid = self.buf[0] > 0;
            true
        } else {
            false
        }
    }
}

/// The state after a stream of bytes.
pub open spec fn run(s: MspState, bytes: Seq<u8>) -> MspState
    decreases bytes.len(),
{
    if bytes.len() == 0 {
        s
    } else {
        step(run(s, bytes.drop_last()), bytes.last()).0
    }
}

/// Whether the last byte of a stream completed a sensor message.
pub open spec fn decoded_after(s: MspState, bytes: Seq<u8>) -> bool {
    bytes.len() > 0 && step(run(s, bytes.drop_last()), bytes.last()).1
}

/// A body (flag, function, size, payload) whose size field counts its payload.
pub open spec fn body_ok(body: Seq<u8>) -> bool {
    &&& body.len() >= 5
    &&& size_of(body) == body.len() - 5
    &&& size_of(body) <= MAX_PAYLOAD
}

/// A body on the wire, closed by the byte `crc`.
pub open spec fn wire_frame(dir: u8, body: Seq<u8>, crc: u8) -> Seq<u8> {
    (seq![DOLLAR, LETTER_X, dir] + body).push(crc)
}

proof fn lemma_body_progress(s: MspState, dir: u8, body: Seq<u8>, k: int)
    requires
        s.phase is Hunt,
        body_ok(body),
        0 <= k <= body.len(),
    ensures
        run(s, (seq![DOLLAR, LETTER_X, dir] + body).take(k + 3)) == (MspState {
            phase: Phase::Body(body.take(k)),
            ..s
        }),
    decreases k,
{
    let w = seq![DOLLAR, LETTER_X, dir] + body;
    let t = w.take(k + 3);
    assert(t.drop_last() =~= w.take(k + 2));
    if k == 0 {
        assert(w.take(2).drop_last() =~= w.take(1));
        assert(w.take(1).drop_last() =~= Seq::<u8>::empty());
        assert(run(s, Seq::<u8>::empty()) == s);
        assert(run(s, w.take(1)) == (MspState { phase: Phase::Dollar, ..s }));
        assert(run(s, w.take(2)) == (MspState { phase: Phase::Direction, ..s }));
        assert(body.take(0) =~= Seq::<u8>::empty());
    } else {
        lemma_body_progress(s, dir, body, k - 1);
        assert(t.last() == body[k - 1]);
        let got = body.take(k - 1);
        assert(got.push(body[k - 1]) =~= body.take(k));
        if k == 5 {
            assert(size_of(got.push(body[4])) == size_of(body));
        } else if k > 5 {
            assert(size_of(got) == size_of(body));
        }
    }
}

/// A frame that arrives whole, after anything that left the receiver hunting,
/// is decoded when its CRC matches and dropped when it does not, and the
/// receiver is hunting again. The direction character does not matter.
pub proof fn law_frame_received(s: MspState, dir: u8, body: Seq<u8>, crc: u8)
    requires
        s.phase is Hunt,
        body_ok(body),
    ensures
        ({
            let (data, ok) = if crc == crc8_over(POLY_DVB_S2, 0, body) {
                decode(body, s.data)
            } else {
                (s.data, false)
            };
            &&& run(s, wire_frame(dir, body, crc)) == (MspState { phase: Phase::Hunt, data })
            &&& decoded_after(s, wire_frame(dir, body, crc)) == ok
        }),
{
    let w = seq![DOLLAR, LETTER_X, dir] + body;
    lemma_body_progress(s, dir, body, body.len() as int);
    assert(w.take(body.len() as int + 3) =~= w);
    assert(body.take(body.len() as int) =~= body);
    assert(w.push(crc).drop_last() =~= w);
}

/// A frame with one payload or header byte altered (the size field apart), or
/// with another CRC byte, changes no reading.
pub proof fn law_altered_frame_ignored(
    s: MspState,
    dir: u8,
    body: Seq<u8>,
    i: int,
    b: u8,
    crc: u8,
)
    requires
        s.phase is Hunt,
        body_ok(body),
        0 <= i < body.len(),
        i != 3 && i != 4,
        body[i] != b,
    ensures
        run(s, wire_frame(dir, body.update(i, b), crc8_over(POLY_DVB_S2, 0, body))) == s,
        !decoded_after(s, wire_frame(dir, body.update(i, b), crc8_over(POLY_DVB_S2, 0, body))),
        crc != crc8_over(POLY_DVB_S2, 0, body) ==> run(s, wire_frame(dir, body, crc)) == s
            && !decoded_after(s, wire_frame(dir, body, crc)),
{
    law_frame_received(s, dir, body, crc);
    assert(POLY_DVB_S2 & 1 == 1) by (bit_vector);
    law_crc8_detects_altered_byte(POLY_DVB_S2, 0, body, i, b);
    law_frame_received(s, dir, body.update(i, b), crc8_over(POLY_DVB_S2, 0, body));
}

/// The two sensor messages do not touch each other's readings, and a negative
/// distance is never marked valid.
pub proof fn law_readings_independent(body: Seq<u8>, d: Mtf01Data)
    ensures
        ({
            let (e, ok) = decode(body, d);
            &&& (func_of(body) != MSP2_SENSOR_RANGEFINDER ==> e.dist_mm == d.dist_mm
                && e.dist_quality == d.dist_quality && e.dist_valid == d.dist_valid)
            &&& (func_of(body) != MSP2_SENSOR_OPTIC_FLOW ==> e.flow_x == d.flow_x && e.flow_y
                == d.flow_y && e.flow_quality == d.flow_quality && e.flow_valid == d.flow_valid)
            &&& (ok && func_of(body) == MSP2_SENSOR_RANGEFINDER ==> (e.dist_valid <==> e.dist_mm
                >= 0))
            &&& (!ok ==> e == d)
        }),
{
}

/// The body of a rangefinder message.
pub open spec fn range_body(flag: u8, quality: u8, dist_mm: i32) -> Seq<u8> {
    seq![flag, 0x01, 0x1F, 5, 0, quality] + le_bytes(pattern32(dist_mm as int), 4)
}

/// The body of an optical-flow message.
pub open spec fn flow_body(flag: u8, quality: u8, x: i32, y: i32) -> Seq<u8> {
    seq![flag, 0x02, 0x1F, 9, 0, quality] + le_bytes(pattern32(x as int), 4) + le_bytes(
        pattern32(y as int),
        4,
    )
}

proof fn lemma_number_at(p: Seq<u8>, i: int, v: i32)
    requires
        0 <= i,
        i + 4 <= p.len(),
        p.subrange(i, i + 4) == le_bytes(pattern32(v as int), 4),
    ensures
        le_i32_at(p, i) == v,
{
    reveal_with_fuel(le_bytes, 5);
    let q = p.subrange(i, i + 4);
    let n = pattern32(v as int);
    assert(q[0] == (n % 256) as u8);
    assert(q[1] == (n / 256 % 256) as u8);
    assert(q[2] == (n / 256 / 256 % 256) as u8);
    assert(q[3] == (n / 256 / 256 / 256 % 256) as u8);
    assert(p[i] == q[0] && p[i + 1] == q[1] && p[i + 2] == q[2] && p[i + 3] == q[3]);
}

/// The distance that the sensor measured and sent is the distance that the
/// receiver reports; the flow stays.
pub proof fn law_distance_received(s: MspState, dir: u8, flag: u8, quality: u8, dist_mm: i32)
    requires
        s.phase is Hunt,
    ensures
        ({
            let body = range_body(flag, quality, dist_mm);
            run(s, wire_frame(dir, body, crc8_over(POLY_DVB_S2, 0, body))) == (MspState {
                phase: Phase::Hunt,
                data: Mtf01Data {
                    dist_mm,
                    dist_quality: quality,
                    dist_valid: dist_mm >= 0,
                    ..s.data
                },
            })
        }),
{
    let number = le_bytes(pattern32(dist_mm as int), 4);
    lemma_le_bytes_len(pattern32(dist_mm as int), 4);
    let body = range_body(flag, quality, dist_mm);
    let p = body.skip(5);
    assert(p.subrange(1, 5) =~= number);
    lemma_number_at(p, 1, dist_mm);
    law_frame_received(s, dir, body, crc8_over(POLY_DVB_S2, 0, body));
}

/// The flow that the sensor measured and sent is the flow that the receiver
/// reports; the distance stays.
pub proof fn law_flow_received(s: MspState, dir: u8, flag: u8, quality: u8, x: i32, y: i32)
    requires
        s.phase is Hunt,
    ensures
        ({
            let body = flow_body(flag, quality, x, y);
            run(s, wire_frame(dir, body, crc8_over(POLY_DVB_S2, 0, body))) == (MspState {
                phase: Phase::Hunt,
                data: Mtf01Data {
                    flow_x: x,
                    flow_y: y,
                    flow_quality: quality,
                    flow_valid: quality > 0,
                    ..s.data
                },
            })
        }),
{
    lemma_le_bytes_len(pattern32(x as int), 4);
    lemma_le_bytes_len(pattern32(y as int), 4);
    let body = flow_body(flag, quality, x, y);
    let p = body.skip(5);
    assert(p.subrange(1, 5) =~= le_bytes(pattern32(x as int), 4));
    assert(p.subrange(5, 9) =~= le_bytes(pattern32(y as int), 4));
    lemma_number_at(p, 1, x);
    lemma_number_at(p, 5, y);
    law_frame_received(s, dir, body, crc8_over(POLY_DVB_S2, 0, body));
}

/// The signed number in four bytes of a message: the one of the 32-bit range
/// that leaves their remainder.
pub open spec fn holds(p: Seq<u8>, i: int, v: i32) -> bool {
    (p[i] + 256 * p[i + 1] + 0x1_0000 * p[i + 2] + 0x100_0000 * p[i + 3] - v) % 0x1_0000_0000 == 0
}

/// The header of a message: any flag, the function and the payload's size, low
/// byte first.
pub open spec fn message(flag: u8, func: int, p: Seq<u8>) -> Seq<u8> {
    seq![flag, (func % 256) as u8, (func / 256) as u8, p.len() as u8, 0] + p
}

/// The message on the wire, under its CRC: `$`, `X`, a direction, and the CRC of
/// all that follows these under the polynomial 0xD5.
pub open spec fn sent_message(dir: u8, flag: u8, func: int, p: Seq<u8>) -> Seq<u8> {
    let body = message(flag, func, p);
    seq![0x24u8, 0x58, dir] + body.push(crc8_over(0xD5, 0, body))
}

proof fn lemma_sent(s: MspState, dir: u8, flag: u8, func: int, p: Seq<u8>)
    requires
        s.phase is Hunt,
        0 <= func < 0x1_0000,
        p.len() <= 32,
    ensures
        func_of(message(flag, func, p)) == func,
        message(flag, func, p).skip(5) == p,
        run(s, sent_message(dir, flag, func, p)) == (MspState {
            phase: Phase::Hunt,
            data: decode(message(flag, func, p), s.data).0,
        }),
        decoded_after(s, sent_message(dir, flag, func, p)) == decode(
            message(flag, func, p),
            s.data,
        ).1,
{
    let body = message(flag, func, p);
    let crc = crc8_over(0xD5, 0, body);
    assert(body.skip(5) =~= p);
    assert(size_of(body) == p.len());
    assert(sent_message(dir, flag, func, p) =~= wire_frame(dir, body, crc));
    law_frame_received(s, dir, body, crc);
}

/// A rangefinder message that arrives whole is taken over whatever was before:
/// the quality, the distance, and that it is valid exactly when it is not
/// negative. The flow stays.
pub proof fn law_range_taken(s: MspState, dir: u8, flag: u8, p: Seq<u8>)
    requires
        s.phase is Hunt,
        5 <= p.len() <= 32,
    ensures
        ({
            let t = run(s, sent_message(dir, flag, 0x1F01, p));
            &&& t.phase is Hunt
            &&& decoded_after(s, sent_message(dir, flag, 0x1F01, p))
            &&& t.data.dist_quality == p[0]
            &&& holds(p, 1, t.data.dist_mm)
            &&& t.data.dist_valid <==> t.data.dist_mm >= 0
            &&& t.data.flow_x == s.data.flow_x
            &&& t.data.flow_y == s.data.flow_y
            &&& t.data.flow_quality == s.data.flow_quality
            &&& t.data.flow_valid == s.data.flow_valid
        }),
{
    lemma_sent(s, dir, flag, 0x1F01, p);
}

/// A flow message that arrives whole is taken over whatever was before: the
/// quality, the motion along x and along y, and that it is valid exactly when
/// the quality is not zero. The distance stays.
pub proof fn law_flow_taken(s: MspState, dir: u8, flag: u8, p: Seq<u8>)
    requires
        s.phase is Hunt,
        9 <= p.len() <= 32,
    ensures
        ({
            let t = run(s, sent_message(dir, flag, 0x1F02, p));
            &&& t.phase is Hunt
            &&& decoded_after(s, sent_message(dir, flag, 0x1F02, p))
            &&& t.data.flow_quality == p[0]
            &&& holds(p, 1, t.data.flow_x)
            &&& holds(p, 5, t.data.flow_y)
            &&& t.data.flow_valid <==> p[0] != 0
            &&& t.data.dist_mm == s.data.dist_mm
            &&& t.data.dist_quality == s.data.dist_quality
            &&& t.data.dist_valid == s.data.dist_valid
        }),
{
    lemma_sent(s, dir, flag, 0x1F02, p);
}

/// Other messages, and sensor messages that are too short, change no reading and
/// are not reported.
pub proof fn law_other_messages_ignored(s: MspState, dir: u8, flag: u8, func: int, p: Seq<u8>)
    requires
        s.phase is Hunt,
        0 <= func < 0x1_0000,
        p.len() <= 32,
        func == 0x1F01 ==> p.len() < 5,
        func == 0x1F02 ==> p.len() < 9,
    ensures
        run(s, sent_message(dir, flag, func, p)) == s,
        !decoded_after(s, sent_message(dir, flag, func, p)),
{
    lemma_sent(s, dir, flag, func, p);
}

/// A frame starts with `$` and `X`; a size above 32 drops it. No reading changes
/// before the CRC has come.
pub proof fn law_frame_start(s: MspState, b: u8)
    ensures
        s.phase is Hunt ==> step(s, b).0.phase == (if b == 0x24 {
            Phase::Dollar
        } else {
            Phase::Hunt
        }),
        s.phase is Dollar ==> step(s, b).0.phase == (if b == 0x58 {
            Phase::Direction
        } else {
            Phase::Hunt
        }),
        s.phase is Direction ==> step(s, b).0.phase == Phase::Body(Seq::empty()),
        (s.phase matches Phase::Body(got) ==> got.len() < 5) ==> step(s, b).0.data == s.data && !step(
            s,
            b,
        ).1,
        s.phase matches Phase::Body(got) ==> (got.len() == 4 ==> (step(s, b).0.phase is Hunt
            <==> got[3] + 256 * b > 32)),
{
}

/// Before anything was received nothing is valid.
pub proof fn law_no_reading()
    ensures
        !no_reading().dist_valid,
        !no_reading().flow_valid,
        no_reading().dist_mm == 0,
        no_reading().dist_quality == 0,
        no_reading().flow_x == 0,
        no_reading().flow_y == 0,
        no_reading().flow_quality == 0,
{
}

} // verus!
