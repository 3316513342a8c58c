//! CRSF (Crossfire) decoding for the ExpressLRS receiver.
//!
//! A frame on the wire is
//! ```text
//!   [addr] [len] [type] [payload ...] [crc8]
//!          \_______ len bytes _______/
//! ```
//! `len` counts type, payload and CRC; the CRC is CRC-8/DVB-S2 over type and
//! payload. Two frame types are decoded: `0x16` RC_CHANNELS_PACKED (16
//! channels of 11 bits in 22 bytes) and `0x14` LINK_STATISTICS.

use crate::crc::{crc8_over, crc8_step, crc8_update, law_crc8_detects_altered_byte};
use crate::wire::{
    law_le_read_back, law_le_round_trip, le_bytes, le_nat, lemma_le_bytes_len, lemma_le_nat_skip,
};
use vstd::arithmetic::div_mod::*;
use vstd::arithmetic::power::*;
use vstd::prelude::*;

verus! {

pub const ADDR_FLIGHT_CONTROLLER: u8 = 0xC8;

pub const ADDR_BROADCAST: u8 = 0xEE;

pub const TYPE_RC_CHANNELS: u8 = 0x16;

pub const TYPE_LINK_STATS: u8 = 0x14;

/// Generator polynomial of CRC-8/DVB-S2.
pub const POLY_DVB_S2: u8 = 0xD5;

/// Longest `len` a frame may announce.
pub const MAX_LEN: usize = 65;

const BUF_LEN: usize = 66;

/// Decoded RC and link state.
#[derive(Clone, Copy)]
pub struct RcChannels {
    /// 16 channels, raw CRSF units (172 is 988 us, 992 centre, 1811 is 2012 us).
    pub ch: [u16; 16],
    /// Uplink link quality, 0..100 %.
    pub link_quality: u8,
    /// Uplink RSSI in -dBm (70 means -70 dBm).
    pub rssi_dbm: u8,
    /// Count of RC frames decoded. A counter that stalls means link loss.
    pub frames: u32,
}

/// What an [`RcChannels`] says.
#[verifier::ext_equal]
pub struct RcModel {
    pub ch: Seq<u16>,
    pub link_quality: u8,
    pub rssi_dbm: u8,
    pub frames: u32,
}

impl View for RcChannels {
    type V = RcModel;

    open spec fn view(&self) -> RcModel {
        RcModel {
            ch: self.ch@,
            link_quality: self.link_quality,
            rssi_dbm: self.rssi_dbm,
            frames: self.frames,
        }
    }
}

/// Centre sticks, nothing received.
pub open spec fn idle_channels() -> RcModel {
    RcModel { ch: Seq::new(16, |i: int| 992u16), link_quality: 0, rssi_dbm: 0, frames: 0 }
}

/// Pulse width in microseconds of a raw channel value.
pub open spec fn pulse_us(raw: int) -> int {
    raw * 1024 / 1639 + 881
}

impl Default for RcChannels {
    fn default() -> (r: Self)
        ensures
            r@ == idle_channels(),
    {
        let r = RcChannels { ch: [992; 16], link_quality: 0, rssi_dbm: 0, frames: 0 };
        assert(r@ =~= idle_channels());
        r
    }
}

impl RcChannels {
    /// Channel `i` (0-based) as a standard 988-2012 us pulse width; a channel
    /// that does not exist reads as centred.
    pub fn ch_us(&self, i: usize) -> (r: u16)
        ensures
            r == pulse_us(if i < 16 { self@.ch[i as int] as int } else { 992 }),
            r == channel_us(self@, i as int),
    {
        let raw: u32 = if i < 16 {
            self.ch[i] as u32
        } else {
            992
        };
        ((raw * 1024) / 1639 + 881) as u16
    }
}

/// One step of CRC-8/DVB-S2, used by both CRSF and MSP v2.
pub fn crc8_dvb_s2(crc: u8, byte: u8) -> (r: u8)
    ensures
        r == crc8_step(POLY_DVB_S2, crc, byte),
{
    crc8_update(POLY_DVB_S2, crc, byte)
}

/// The 16 channels that 22 payload bytes carry: the base-2048 digits of the
/// little-endian number that the bytes spell.
pub open spec fn channels(p: Seq<u8>) -> Seq<u16> {
    Seq::new(16, |i: int| (le_nat(p.take(22)) as int / pow(2048, i as nat) % 2048) as u16)
}

/// A frame body (type, payload, CRC) whose CRC matches.
pub open spec fn crc_ok(f: Seq<u8>) -> bool {
    f.last() == crc8_over(POLY_DVB_S2, 0, f.drop_last())
}

/// The effect of a complete frame body on the decoded state, and whether it
/// brought fresh channels.
pub open spec fn decode(f: Seq<u8>, d: RcModel) -> (RcModel, bool) {
    let payload = f.subrange(1, f.len() - 1);
    if !crc_ok(f) {
        (d, false)
    } else if f[0] == TYPE_RC_CHANNELS && payload.len() >= 22 {
        (
            RcModel {
                ch: channels(payload),
                frames: ((d.frames + 1) % 0x1_0000_0000) as u32,
                ..d
            },
            true,
        )
    } else if f[0] == TYPE_LINK_STATS && payload.len() >= 10 {
        (RcModel { rssi_dbm: payload[0], link_quality: payload[2], ..d }, false)
    } else {
        (d, false)
    }
}

/// Where in a frame the receiver stands.
#[verifier::ext_equal]
pub enum Phase {
    /// Waiting for an address byte.
    Hunt,
    /// An address was seen; the length comes next.
    Length,
    /// `got` of the announced `len` bytes have arrived.
    Body { len: nat, got: Seq<u8> },
}

/// What a [`CrsfParser`] holds.
#[verifier::ext_equal]
pub struct CrsfState {
    pub phase: Phase,
    pub data: RcModel,
}

/// The state after one received byte, and whether fresh channels came of it.
pub open spec fn step(s: CrsfState, b: u8) -> (CrsfState, bool) {
    match s.phase {
        Phase::Hunt => if b == ADDR_FLIGHT_CONTROLLER || b == ADDR_BROADCAST {
            (CrsfState { phase: Phase::Length, ..s }, false)
        } else {
            (s, false)
        },
        Phase::Length => if 2 <= b <= MAX_LEN {
            (CrsfState { phase: Phase::Body { len: b as nat, got: Seq::empty() }, ..s }, false)
        } else {
            (CrsfState { phase: Phase::Hunt, ..s }, false)
        },
        Phase::Body { len, got } => if got.len() + 1 >= len {
            let (data, fresh) = decode(got.push(b), s.data);
            (CrsfState { phase: Phase::Hunt, data }, fresh)
        } else {
            (CrsfState { phase: Phase::Body { len, got: got.push(b) }, ..s }, false)
        },
    }
}

#[derive(Clone, Copy)]
enum State {
    Sync,
    Len,
    Data,
}

/// Byte-fed CRSF frame assembler and decoder.
pub struct CrsfParser {
    state: State,
    len: usize,
    idx: usize,
    buf: [u8; BUF_LEN],
    data: RcChannels,
}

impl View for CrsfParser {
    type V = CrsfState;

    closed spec fn view(&self) -> CrsfState {
        CrsfState {
            phase: match self.state {
                State::Sync => Phase::Hunt,
                State::Len => Phase::Length,
                State::Data => Phase::Body {
                    len: self.len as nat,
                    got: self.buf@.take(self.idx as int),
                },
            },
            data: self.data@,
        }
    }
}

impl CrsfParser {
    /// Every parser is in this condition; `new` makes it so and `push` keeps it.
    pub closed spec fn wf(&self) -> bool {
        self.state is Data ==> 2 <= self.len <= MAX_LEN && self.idx < self.len
    }

    pub fn new() -> (r: Self)
        ensures
            r.wf(),
            r@ == (CrsfState { phase: Phase::Hunt, data: idle_channels() }),
    {
        CrsfParser {
            state: State::Sync,
            len: 0,
            idx: 0,
            buf: [0; BUF_LEN],
            data: RcChannels::default(),
        }
    }

    pub fn data(&self) -> (r: RcChannels)
        ensures
            r@ == self@.data,
    {
        self.data
    }

    /// Feeds one received byte. Returns `true` when an RC_CHANNELS frame was
    /// just decoded, so that fresh stick data is available.
    pub fn push(&mut self, byte: u8) -> (r: bool)
        requires
            old(self).wf(),
        ensures
            final(self).wf(),
            (final(self)@, r) == step(old(self)@, byte),
    {
        let ghost before = self@;
        match self.state {
            State::Sync => {
                if byte == ADDR_FLIGHT_CONTROLLER || byte == ADDR_BROADCAST {
                    self.state = State::Len;
                }
                false
            },
            State::Len => {
                if 2 <= byte as usize && byte as usize <= MAX_LEN {
                    self.len = byte as usize;
                    self.idx = 0;
                    self.state = State::Data;
                    assert(self.buf@.take(0) =~= Seq::<u8>::empty());
                } else {
                    self.state = State::Sync;
                }
                false
            },
            State::Data => {
                let ghost got = self.buf@.take(self.idx as int);
                self.buf[self.idx] = byte;
                self.idx = self.idx + 1;
                assert(self.buf@.take(self.idx as int) =~= got.push(byte));
                if self.idx >= self.len {
                    self.state = State::Sync;
                    return self.process();
                }
                false
            },
        }
    }

    fn process(&mut self) -> (r: bool)
        requires
            old(self).state is Sync,
            2 <= old(self).len <= MAX_LEN,
        ensures
            final(self).wf(),
            final(self)@.phase is Hunt,
            (final(self)@.data, r) == decode(
                old(self).buf@.take(old(self).len as int),
                old(self)@.data,
            ),
    {
        let ghost f = self.buf@.take(self.len as int);
        let ghost d = self.data@;
        let crc_pos: usize = self.len - 1;
        let mut crc: u8 = 0;
        let mut i: usize = 0;
        assert(self.buf@.take(0) =~= Seq::<u8>::empty());
        while i < crc_pos
            invariant
                i <= crc_pos,
                crc_pos < BUF_LEN,
                crc == crc8_over(POLY_DVB_S2, 0, self.buf@.take(i as int)),
            decreases crc_pos - i,
        {
            assert(self.buf@.take(i + 1).drop_last() =~= self.buf@.take(i as int));
            crc = crc8_dvb_s2(crc, self.buf[i]);
            i += 1;
        }
        assert(f.drop_last() =~= self.buf@.take(crc_pos as int));
        if crc != self.buf[crc_pos] {
            return false;
        }
        let frame_type: u8 = self.buf[0];
        let payload: usize = crc_pos - 1;
        let ghost p = f.subrange(1, f.len() - 1);
        if frame_type == TYPE_RC_CHANNELS && payload >= 22 {
            let bytes = vstd::slice::slice_subrange(self.buf.as_slice(), 1, crc_pos);
            assert(bytes@ =~= p);
            unpack_channels(bytes, &mut self.data.ch);
            self.data.frames = self.data.frames.wrapping_add(1);
            true
        } else if frame_type == TYPE_LINK_STATS && payload >= 10 {
            self.data.rssi_dbm = self.buf[1];
            self.data.link_quality = self.buf[3];
            false
        } else {
            false
        }
    }
}

proof fn lemma_three_bytes(b0: u32, b1: u32, b2: u32, shift: u32)
    by (bit_vector)
    requires
        b0 < 256,
        b1 < 256,
        b2 < 256,
        shift < 8,
    ensures
        (if shift > 5 {
            ((b0 >> shift) | (b1 << ((8 - shift) as u32))) | (b2 << ((16 - shift) as u32))
        } else {
            (b0 >> shift) | (b1 << ((8 - shift) as u32))
        }) & 0x07FF == (((b0 + 256 * b1 + 0x1_0000 * b2) as u32) >> shift) % 2048,
{
}

/// Bits above the 24th do not reach an 11-bit digit that starts below the 8th.
proof fn lemma_low_bits(low: int, rest: int, sh: nat)
    requires
        0 <= low < 0x100_0000,
        0 <= rest,
        sh < 8,
    ensures
        (low + 0x100_0000 * rest) / pow(2, sh) % 2048 == low / pow(2, sh) % 2048,
{
    let h = (24 - sh) as nat;
    lemma_pow_positive(2, sh);
    lemma_pow_adds(2, sh, h);
    assert(pow(2, 24) == 0x100_0000) by {
        reveal_with_fuel(pow, 25);
    }
    let q = pow(2, h) * rest;
    assert(0x100_0000 * rest == pow(2, sh) * q) by (nonlinear_arith)
        requires
            pow(2, sh) * pow(2, h) == 0x100_0000,
            q == pow(2, h) * rest,
    ;
    lemma_shift_out(low, q, pow(2, sh));
    lemma_pow_adds(2, 11, (h - 11) as nat);
    assert(pow(2, 11) == 2048) by {
        reveal_with_fuel(pow, 12);
    }
    let m = pow(2, (h - 11) as nat) * rest;
    assert(q == 2048 * m) by (nonlinear_arith)
        requires
            pow(2, h) == 2048 * pow(2, (h - 11) as nat),
            q == pow(2, h) * rest,
            m == pow(2, (h - 11) as nat) * rest,
    ;
    lemma_mod_multiples_vanish(m, low / pow(2, sh), 2048);
}

proof fn lemma_shift_out(x: int, q: int, d: int)
    requires
        d > 0,
    ensures
        (x + d * q) / d == x / d + q,
{
    lemma_hoist_over_denominator(x, q, d as nat);
    assert(d * q == q * d) by (nonlinear_arith);
}

/// Digit `i` in base 2048 lies in the three bytes from `11 * i / 8` on.
proof fn lemma_digit(s: Seq<u8>, i: nat)
    requires
        s.len() == 22,
        i < 16,
    ensures
        ({
            let k = (11 * i / 8) as int;
            let low = s[k] + 256 * s[k + 1] + 0x1_0000 * (if k + 2 < 22 {
                s[k + 2] as int
            } else {
                0
            });
            le_nat(s) as int / pow(2048, i) % 2048 == low / pow(2, (11 * i % 8) as nat) % 2048
        }),
{
    let k: nat = 11 * i / 8;
    let sh: nat = 11 * i % 8;
    let t = s.skip(k as int);
    lemma_le_nat_skip(s, k);
    // 2048^i = 256^k * 2^sh
    assert(pow(2048, i) == pow(256, k) * pow(2, sh)) by {
        lemma_pow_multiplies(2, 11, i);
        lemma_pow_multiplies(2, 8, k);
        lemma_pow_adds(2, 8 * k, sh);
        assert(pow(2, 11) == 2048) by {
            reveal_with_fuel(pow, 12);
        }
        assert(pow(2, 8) == 256) by {
            reveal_with_fuel(pow, 9);
        }
        assert(11 * i == 8 * k + sh);
    }
    lemma_pow_positive(256, k);
    lemma_pow_positive(2, sh);
    lemma_div_denominator(le_nat(s) as int, pow(256, k), pow(2, sh));
    assert(le_nat(s) as int / pow(2048, i) == le_nat(t) as int / pow(2, sh));
    // The tail as its three lowest bytes and the rest.
    let t2 = t.drop_first().drop_first();
    let rest: nat = if t2.len() == 0 {
        0
    } else {
        le_nat(t2.drop_first())
    };
    let b2: int = if k + 2 < 22 {
        s[k as int + 2] as int
    } else {
        0
    };
    let low = s[k as int] + 256 * s[k as int + 1] + 0x1_0000 * b2;
    assert(le_nat(t) == s[k as int] as nat + 256 * le_nat(t.drop_first()));
    assert(le_nat(t.drop_first()) == s[k as int + 1] as nat + 256 * le_nat(t2));
    assert(le_nat(t) == low + 0x100_0000 * rest);
    lemma_low_bits(low, rest as int, sh);
}

/// Unpacks 16 little-endian 11-bit channels from 22 bytes: the base-2048 digits
/// of the number that the bytes spell. Bytes behind those have no effect.
pub fn unpack_channels(p: &[u8], ch: &mut [u16; 16])
    requires
        p@.len() >= 22,
    ensures
        final(ch)@ == channels(p@),
        final(ch)@ == channels(p@.take(22)),
        forall|i: int| 0 <= i < 16 ==> #[trigger] final(ch)@[i] <= 2047,
        channel_number(final(ch)@) == le_nat(p@.take(22)),
        pack_channels(final(ch)@) == p@.take(22),
{
    let ghost s = p@.take(22);
    let mut bit: usize = 0;
    let mut i: usize = 0;
    assert(s.take(22) =~= s);
    while i < 16
        invariant
            i <= 16,
            bit == 11 * i,
            p@.len() >= 22,
            s == p@.take(22),
            s.take(22) == s,
            forall|j: int| 0 <= j < i ==> ch@[j] == channels(s)[j],
        decreases 16 - i,
    {
        let byte: usize = bit / 8;
        let shift: u32 = (bit % 8) as u32;
        let b0: u32 = p[byte] as u32;
        let b1: u32 = p[byte + 1] as u32;
        let mut val: u32 = b0 >> shift;
        val = val | (b1 << (8 - shift));
        let ghost b2: u32 = if byte + 2 < 22 {
            s[byte + 2] as u32
        } else {
            0
        };
        if shift > 5 {
            val = val | ((p[byte + 2] as u32) << (16 - shift));
        }
        proof {
            lemma_digit(s, i as nat);
            lemma_three_bytes(b0, b1, b2, shift);
            let low = (b0 + 256 * b1 + 0x1_0000 * b2) as u32;
            vstd::bits::lemma_u32_shr_is_div(low, shift);
            vstd::arithmetic::power2::lemma_pow2(shift as nat);
            assert(s[byte as int] == b0 && s[byte + 1] == b1);
            assert(low == b0 + 256 * b1 + 0x1_0000 * b2);
            assert(val & 0x07FF == (low >> shift) % 2048);
        }
        assert(val & 0x07FF == channels(s)[i as int]);
        ch[i] = (val & 0x07FF) as u16;
        bit += 11;
        i += 1;
    }
    assert(ch@ =~= channels(s));
    proof {
        law_payload_round_trip(p@);
    }
}

/// The state after a stream of bytes.
pub open spec fn run(s: CrsfState, bytes: Seq<u8>) -> CrsfState
    decreases bytes.len(),
{
    if bytes.len() == 0 {
        s
    } else {
        step(run(s, bytes.drop_last()), bytes.last()).0
    }
}

/// Whether the last byte of a stream brought fresh channels.
pub open spec fn fresh_after(s: CrsfState, bytes: Seq<u8>) -> bool {
    bytes.len() > 0 && step(run(s, bytes.drop_last()), bytes.last()).1
}

/// A frame body `f` as it goes over the wire.
pub open spec fn wire_frame(addr: u8, f: Seq<u8>) -> Seq<u8> {
    seq![addr, f.len() as u8] + f
}

proof fn lemma_body_progress(s: CrsfState, addr: u8, f: Seq<u8>, k: int)
    requires
        s.phase is Hunt,
        addr == ADDR_FLIGHT_CONTROLLER || addr == ADDR_BROADCAST,
        2 <= f.len() <= MAX_LEN,
        0 <= k < f.len(),
    ensures
        run(s, wire_frame(addr, f).take(k + 2)) == (CrsfState {
            phase: Phase::Body { len: f.len(), got: f.take(k) },
            ..s
        }),
    decreases k,
{
    let w = wire_frame(addr, f);
    let t = w.take(k + 2);
    assert(t.drop_last() =~= w.take(k + 1));
    if k == 0 {
        assert(w.take(1).drop_last() =~= Seq::<u8>::empty());
        assert(w.take(1).last() == addr);
        assert(run(s, Seq::<u8>::empty()) == s);
        assert(run(s, w.take(1)) == (CrsfState { phase: Phase::Length, ..s }));
        assert(f.take(0) =~= Seq::<u8>::empty());
    } else {
        lemma_body_progress(s, addr, f, k - 1);
        assert(t.last() == f[k - 1]);
        assert(f.take(k - 1).push(f[k - 1]) =~= f.take(k));
    }
}

/// A frame that arrives whole, after anything that left the receiver hunting,
/// is decoded, and the receiver is hunting again.
pub proof fn law_frame_received(s: CrsfState, addr: u8, f: Seq<u8>)
    requires
        s.phase is Hunt,
        addr == ADDR_FLIGHT_CONTROLLER || addr == ADDR_BROADCAST,
        2 <= f.len() <= MAX_LEN,
    ensures
        run(s, wire_frame(addr, f)) == (CrsfState {
            phase: Phase::Hunt,
            data: decode(f, s.data).0,
        }),
        fresh_after(s, wire_frame(addr, f)) == decode(f, s.data).1,
{
    let w = wire_frame(addr, f);
    lemma_body_progress(s, addr, f, f.len() - 1);
    assert(w.drop_last() =~= w.take(f.len() as int + 1));
    assert(f.take(f.len() - 1).push(f.last()) =~= f);
}

/// Bytes that are no address leave a hunting receiver as it is.
pub proof fn law_noise_ignored(s: CrsfState, noise: Seq<u8>)
    requires
        s.phase is Hunt,
        forall|i: int|
            0 <= i < noise.len() ==> noise[i] != ADDR_FLIGHT_CONTROLLER && noise[i]
                != ADDR_BROADCAST,
    ensures
        run(s, noise) == s,
    decreases noise.len(),
{
    if noise.len() > 0 {
        law_noise_ignored(s, noise.drop_last());
    }
}

/// A frame with one byte of type, payload or CRC altered in transit changes
/// nothing that was decoded.
pub proof fn law_altered_frame_ignored(d: RcModel, f: Seq<u8>, i: int, b: u8)
    requires
        f.len() >= 2,
        crc_ok(f),
        0 <= i < f.len(),
        f[i] != b,
    ensures
        decode(f.update(i, b), d) == (d, false),
{
    let g = f.update(i, b);
    if i == f.len() - 1 {
        assert(g.drop_last() =~= f.drop_last());
    } else {
        assert(g.drop_last() =~= f.drop_last().update(i, b));
        assert(POLY_DVB_S2 & 1 == 1) by (bit_vector);
        law_crc8_detects_altered_byte(POLY_DVB_S2, 0, f.drop_last(), i, b);
    }
}

/// The number whose base-2048 digits are `ch`, least significant first.
pub open spec fn channel_number(ch: Seq<u16>) -> nat
    decreases ch.len(),
{
    if ch.len() == 0 {
        0
    } else {
        ch[0] as nat + 2048 * channel_number(ch.drop_first())
    }
}

/// 16 channels in their 22-byte packing.
pub open spec fn pack_channels(ch: Seq<u16>) -> Seq<u8> {
    le_bytes(channel_number(ch), 22)
}

proof fn lemma_channel_number_bound(ch: Seq<u16>)
    requires
        forall|i: int| 0 <= i < ch.len() ==> ch[i] < 2048,
    ensures
        channel_number(ch) < pow(2048, ch.len()),
    decreases ch.len(),
{
    reveal(pow);
    if ch.len() > 0 {
        let t = ch.drop_first();
        assert forall|i: int| 0 <= i < t.len() implies t[i] < 2048 by {
            assert(t[i] == ch[i + 1]);
        }
        lemma_channel_number_bound(t);
        assert(pow(2048, ch.len()) == 2048 * pow(2048, t.len()));
    }
}

proof fn lemma_channel_digit(ch: Seq<u16>, i: nat)
    requires
        forall|j: int| 0 <= j < ch.len() ==> ch[j] < 2048,
        i < ch.len(),
    ensures
        channel_number(ch) as int / pow(2048, i) % 2048 == ch[i as int],
    decreases i,
{
    reveal(pow);
    let t = ch.drop_first();
    let n = channel_number(ch) as int;
    if i == 0 {
    } else {
        assert forall|j: int| 0 <= j < t.len() implies t[j] < 2048 by {
            assert(t[j] == ch[j + 1]);
        }
        lemma_channel_digit(t, (i - 1) as nat);
        lemma_pow_positive(2048, (i - 1) as nat);
        lemma_div_denominator(n, 2048, pow(2048, (i - 1) as nat));
        assert(n / 2048 == channel_number(t));
        assert(t[i - 1] == ch[i as int]);
    }
}

/// Unpacking what was packed gives the channels back.
pub proof fn law_channels_round_trip(ch: Seq<u16>)
    requires
        ch.len() == 16,
        forall|i: int| 0 <= i < 16 ==> ch[i] < 2048,
    ensures
        pack_channels(ch).len() == 22,
        channels(pack_channels(ch)) == ch,
{
    let p = pack_channels(ch);
    lemma_channel_number_bound(ch);
    lemma_le_bytes_len(channel_number(ch), 22);
    lemma_bits_of_frame();
    law_le_round_trip(channel_number(ch), 22);
    assert(p.take(22) =~= p);
    assert forall|i: int| 0 <= i < 16 implies channels(p)[i] == ch[i] by {
        lemma_channel_digit(ch, i as nat);
    }
    assert(channels(p) =~= ch);
}

/// The body of an RC_CHANNELS_PACKED frame that carries `ch`.
pub open spec fn rc_body(ch: Seq<u16>) -> Seq<u8> {
    let head = seq![TYPE_RC_CHANNELS] + pack_channels(ch);
    head.push(crc8_over(POLY_DVB_S2, 0, head))
}

/// Stick positions that a transmitter packs into a frame are the positions
/// that the receiver reports, one more frame is counted, and the caller is told.
pub proof fn law_sticks_received(s: CrsfState, addr: u8, ch: Seq<u16>)
    requires
        s.phase is Hunt,
        addr == ADDR_FLIGHT_CONTROLLER || addr == ADDR_BROADCAST,
        ch.len() == 16,
        forall|i: int| 0 <= i < 16 ==> ch[i] < 2048,
    ensures
        run(s, wire_frame(addr, rc_body(ch))) == (CrsfState {
            phase: Phase::Hunt,
            data: RcModel { ch, frames: ((s.data.frames + 1) % 0x1_0000_0000) as u32, ..s.data },
        }),
        fresh_after(s, wire_frame(addr, rc_body(ch))),
{
    let head = seq![TYPE_RC_CHANNELS] + pack_channels(ch);
    let f = rc_body(ch);
    law_channels_round_trip(ch);
    assert(f.drop_last() =~= head);
    assert(f.subrange(1, f.len() - 1) =~= pack_channels(ch));
    law_frame_received(s, addr, f);
}

/// The stick range 172..1811 maps into 988..2012 us with 992 at 1500 us, and
/// more stick never means a shorter pulse.
pub proof fn law_pulse_range(a: int, b: int)
    requires
        172 <= a <= b <= 1811,
    ensures
        988 <= pulse_us(a) <= pulse_us(b) <= 2012,
        pulse_us(172) == 988,
        pulse_us(992) == 1500,
        pulse_us(1811) == 2012,
{
}

/// The `k` lowest base-2048 digits of `n`, least significant first.
spec fn digits(n: int, k: nat) -> Seq<u16> {
    Seq::new(k, |i: int| (n / pow(2048, i as nat) % 2048) as u16)
}

proof fn lemma_digits_spell(n: int, k: nat)
    requires
        0 <= n < pow(2048, k),
    ensures
        channel_number(digits(n, k)) == n,
    decreases k,
{
    reveal(pow);
    if k > 0 {
        let d = digits(n, k);
        let q = n / 2048;
        let j = (k - 1) as nat;
        assert(pow(2048, k) == 2048 * pow(2048, j));
        lemma_digits_spell(q, j);
        assert forall|i: int| 0 <= i < j implies d.drop_first()[i] == digits(q, j)[i] by {
            lemma_pow_positive(2048, i as nat);
            lemma_div_denominator(n, 2048, pow(2048, i as nat));
            assert(pow(2048, (i + 1) as nat) == 2048 * pow(2048, i as nat));
        }
        assert(d.drop_first() =~= digits(q, j));
        assert(d[0] == n % 2048) by {
            assert(pow(2048, 0) == 1);
            assert(n / 1 == n);
        }
    }
}

proof fn lemma_bits_of_frame()
    ensures
        pow(2048, 16) == pow(256, 22),
{
    lemma_pow_multiplies(2, 11, 16);
    lemma_pow_multiplies(2, 8, 22);
    assert(pow(2, 11) == 2048) by {
        reveal_with_fuel(pow, 12);
    }
    assert(pow(2, 8) == 256) by {
        reveal_with_fuel(pow, 9);
    }
}

/// Nothing of a payload is lost in its channels: each has 11 bits, packing them
/// again gives the 22 bytes back, and bytes behind those have no effect.
pub proof fn law_payload_round_trip(p: Seq<u8>)
    requires
        p.len() >= 22,
    ensures
        channels(p).len() == 16,
        forall|i: int| 0 <= i < 16 ==> #[trigger] channels(p)[i] <= 2047,
        channel_number(channels(p)) == le_nat(p.take(22)),
        pack_channels(channels(p)) == p.take(22),
        channels(p.take(22)) == channels(p),
{
    let s = p.take(22);
    let n = le_nat(s) as int;
    law_le_read_back(s);
    lemma_bits_of_frame();
    lemma_digits_spell(n, 16);
    assert(channels(p) =~= digits(n, 16));
    assert(s.take(22) =~= s);
}

/// A frame on the wire: address, length, type, payload and the CRC of type and
/// payload under the polynomial 0xD5.
pub open spec fn sent_frame(addr: u8, kind: u8, payload: Seq<u8>) -> Seq<u8> {
    let head = seq![kind] + payload;
    seq![addr, (payload.len() + 2) as u8] + head.push(crc8_over(0xD5, 0, head))
}

proof fn lemma_sent(s: CrsfState, addr: u8, kind: u8, payload: Seq<u8>)
    requires
        s.phase is Hunt,
        addr == 0xC8 || addr == 0xEE,
        payload.len() <= 63,
    ensures
        ({
            let head = seq![kind] + payload;
            let f = head.push(crc8_over(0xD5, 0, head));
            &&& f.subrange(1, f.len() - 1) == payload
            &&& crc_ok(f)
            &&& f[0] == kind
            &&& run(s, sent_frame(addr, kind, payload)) == (CrsfState {
                phase: Phase::Hunt,
                data: decode(f, s.data).0,
            })
            &&& fresh_after(s, sent_frame(addr, kind, payload)) == decode(f, s.data).1
        }),
{
    let head = seq![kind] + payload;
    let f = head.push(crc8_over(0xD5, 0, head));
    assert(f.drop_last() =~= head);
    assert(f.subrange(1, f.len() - 1) =~= payload);
    assert(sent_frame(addr, kind, payload) =~= wire_frame(addr, f));
    law_frame_received(s, addr, f);
}

/// Link statistics that arrive whole, to either address, are taken over whatever
/// they were before, up or down: the signal strength from the first payload
/// byte, the link quality from the third. Sticks and frame count stay.
pub proof fn law_link_statistics_received(s: CrsfState, addr: u8, payload: Seq<u8>)
    requires
        s.phase is Hunt,
        addr == 0xC8 || addr == 0xEE,
        10 <= payload.len() <= 63,
    ensures
        ({
            let t = run(s, sent_frame(addr, 0x14, payload));
            &&& t.phase is Hunt
            &&& t.data.rssi_dbm == payload[0]
            &&& t.data.link_quality == payload[2]
            &&& t.data.ch == s.data.ch
            &&& t.data.frames == s.data.frames
            &&& !fresh_after(s, sent_frame(addr, 0x14, payload))
        }),
{
    lemma_sent(s, addr, 0x14, payload);
}

/// A channel frame that arrives whole replaces all sticks: channel `i` is made of
/// the payload bits from `11 * i` on, eleven of them. One more frame is counted,
/// the caller is told, and the link statistics stay.
pub proof fn law_channels_received(s: CrsfState, addr: u8, payload: Seq<u8>, i: int)
    requires
        s.phase is Hunt,
        addr == 0xC8 || addr == 0xEE,
        22 <= payload.len() <= 63,
        0 <= i < 16,
    ensures
        ({
            let t = run(s, sent_frame(addr, 0x16, payload));
            &&& t.phase is Hunt
            &&& t.data.ch.len() == 16
            &&& t.data.ch[i] == le_nat(payload.take(22)) as int / pow(2, (11 * i) as nat) % 2048
            &&& t.data.frames == (s.data.frames + 1) % 0x1_0000_0000
            &&& t.data.rssi_dbm == s.data.rssi_dbm
            &&& t.data.link_quality == s.data.link_quality
            &&& fresh_after(s, sent_frame(addr, 0x16, payload))
        }),
{
    lemma_sent(s, addr, 0x16, payload);
    lemma_pow_multiplies(2, 11, i as nat);
    assert(pow(2, 11) == 2048) by {
        reveal_with_fuel(pow, 12);
    }
}

/// Frames of other types, and frames that are too short for their type, are
/// taken note of by nobody.
pub proof fn law_other_frames_ignored(s: CrsfState, addr: u8, kind: u8, payload: Seq<u8>)
    requires
        s.phase is Hunt,
        addr == 0xC8 || addr == 0xEE,
        payload.len() <= 63,
        kind == 0x16 ==> payload.len() < 22,
        kind == 0x14 ==> payload.len() < 10,
    ensures
        run(s, sent_frame(addr, kind, payload)) == s,
        !fresh_after(s, sent_frame(addr, kind, payload)),
{
    lemma_sent(s, addr, kind, payload);
}

/// A frame with a wrong CRC is taken note of by nobody.
pub proof fn law_wrong_crc_ignored(s: CrsfState, addr: u8, head: Seq<u8>, crc: u8)
    requires
        s.phase is Hunt,
        addr == 0xC8 || addr == 0xEE,
        1 <= head.len() <= 64,
        crc != crc8_over(0xD5, 0, head),
    ensures
        run(s, seq![addr, (head.len() + 1) as u8] + head.push(crc)) == s,
        !fresh_after(s, seq![addr, (head.len() + 1) as u8] + head.push(crc)),
{
    let f = head.push(crc);
    assert(f.drop_last() =~= head);
    assert(seq![addr, (head.len() + 1) as u8] + f =~= wire_frame(addr, f));
    law_frame_received(s, addr, f);
}

/// Only the addresses 0xC8 and 0xEE start a frame, and only a length from 2 to 65
/// goes on with it.
pub proof fn law_frame_start(s: CrsfState, b: u8)
    ensures
        s.phase is Hunt ==> ({
            let (t, fresh) = step(s, b);
            &&& !fresh
            &&& t.data == s.data
            &&& b == 0xC8 || b == 0xEE <==> t.phase is Length
            &&& b != 0xC8 && b != 0xEE <==> t.phase is Hunt
        }),
        s.phase is Length ==> ({
            let (t, fresh) = step(s, b);
            &&& !fresh
            &&& t.data == s.data
            &&& 2 <= b <= 65 ==> t.phase == (Phase::Body { len: b as nat, got: Seq::empty() })
            &&& b < 2 || b > 65 ==> t.phase is Hunt
        }),
{
}

/// The pulse width of a raw value is 881 us and 1024 us per 1639 counts, rounded
/// down; a channel is centred before anything was received.
pub proof fn law_pulse_scale(raw: int, i: int)
    requires
        0 <= raw,
        0 <= i < 16,
    ensures
        1639 * (pulse_us(raw) - 881) <= 1024 * raw < 1639 * (pulse_us(raw) - 880),
        idle_channels().ch.len() == 16,
        pulse_us(idle_channels().ch[i] as int) == 1500,
        idle_channels().link_quality == 0,
        idle_channels().rssi_dbm == 0,
        idle_channels().frames == 0,
{
}

/// What [`RcChannels::ch_us`] gives.
pub open spec fn channel_us(d: RcModel, i: int) -> int {
    pulse_us(if i < 16 { d.ch[i] as int } else { 992 })
}

/// Each channel has its own pulse width, by its own raw value; channels that do
/// not exist are centred at 1500 us.
pub proof fn law_channel_us(d: RcModel, i: int)
    requires
        0 <= i,
    ensures
        i < 16 ==> 1639 * (channel_us(d, i) - 881) <= 1024 * d.ch[i] < 1639 * (channel_us(d, i)
            - 880),
        i >= 16 ==> channel_us(d, i) == 1500,
{
}

} // verus!
