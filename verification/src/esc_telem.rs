//! BLHeli32 / KISS ESC telemetry decoder.
//!
//! Each record is 10 bytes, big-endian, closed by a CRC-8 (polynomial 0x07,
//! most significant bit first, initial value 0):
//!
//! | bytes | field          | units            |
//! |-------|----------------|------------------|
//! | 0     | temperature    | deg C            |
//! | 1..2  | voltage        | centivolts       |
//! | 3..4  | current        | centiamps        |
//! | 5..6  | consumption    | mAh              |
//! | 7..8  | eRPM / 100     | (x100 = eRPM)    |
//! | 9     | CRC-8          |                  |
//!
//! The stream carries no sync byte, so the parser keeps a rolling 10-byte
//! window, accepts it whenever the CRC matches, and slides by one byte
//! otherwise.

use crate::crc::{crc8_over, crc8_step, crc8_update, law_crc8_detects_altered_byte};
use crate::tfluna::bumped;
use crate::wire::u16_of;
use vstd::prelude::*;

verus! {

/// Generator polynomial of the telemetry CRC.
pub const POLY: u8 = 0x07;

pub const FRAME_LEN: usize = 10;

/// One decoded ESC telemetry record.
#[derive(Clone, Copy)]
pub struct TelemFrame {
    pub temp_c: u8,
    pub centivolt: u16,
    pub centiamp: u16,
    pub mah: u16,
    pub erpm: u32,
}

impl Default for TelemFrame {
    fn default() -> (r: Self)
        ensures
            r == (TelemFrame { temp_c: 0, centivolt: 0, centiamp: 0, mah: 0, erpm: 0 }),
    {
        TelemFrame { temp_c: 0, centivolt: 0, centiamp: 0, mah: 0, erpm: 0 }
    }
}

/// Mechanical speed of a motor: two electrical turns per pole pair; a pole
/// count below two counts as two.
pub open spec fn mechanical_rpm(erpm: int, pole_count: int) -> int {
    erpm * 2 / (if pole_count < 2 {
        2
    } else {
        pole_count
    })
}

impl TelemFrame {
    /// Mechanical RPM from electrical RPM and the motor pole count.
    pub fn rpm(&self, pole_count: u8) -> (r: i32)
        requires
            self.erpm * 2 <= u32::MAX,
        ensures
            r == mechanical_rpm(self.erpm as int, pole_count as int),
    {
        let poles: u32 = if pole_count < 2 {
            2
        } else {
            pole_count as u32
        };
        let doubled: u32 = self.erpm * 2;
        assert(doubled as int / poles as int <= doubled as int / 2) by (nonlinear_arith)
            requires
                poles >= 2,
        ;
        (doubled / poles) as i32
    }
}

fn update_crc8(crc: u8, byte: u8) -> (r: u8)
    ensures
        r == crc8_step(POLY, crc, byte),
{
    crc8_update(POLY, crc, byte)
}

/// The CRC of the first `n` bytes of a window.
fn crc8(data: &[u8; FRAME_LEN], n: usize) -> (r: u8)
    requires
        n <= FRAME_LEN,
    ensures
        r == crc8_over(POLY, 0, data@.take(n as int)),
{
    let mut c: u8 = 0;
    let mut i: usize = 0;
    while i < n
        invariant
            i <= n <= FRAME_LEN,
            c == crc8_over(POLY, 0, data@.take(i as int)),
        decreases n - i,
    {
        assert(data@.take(i + 1).drop_last() =~= data@.take(i as int));
        c = update_crc8(c, data[i]);
        i = i + 1;
    }
    c
}

/// The unsigned 16-bit number at offset `i`, most significant byte first.
pub open spec fn be_u16_at(s: Seq<u8>, i: int) -> int {
    256 * s[i] + s[i + 1]
}

/// Ten bytes of which the last is the CRC of the others.
pub open spec fn record_ok(w: Seq<u8>) -> bool {
    w.len() == FRAME_LEN && crc8_over(POLY, 0, w.take(9)) == w[9]
}

/// What a record says.
pub open spec fn record(w: Seq<u8>) -> TelemFrame {
    TelemFrame {
        temp_c: w[0],
        centivolt: be_u16_at(w, 1) as u16,
        centiamp: be_u16_at(w, 3) as u16,
        mah: be_u16_at(w, 5) as u16,
        erpm: (be_u16_at(w, 7) * 100) as u32,
    }
}

/// What an [`EscTelemParser`] holds.
#[verifier::ext_equal]
pub struct TelemState {
    pub window: Seq<u8>,
    pub rx_bytes: u32,
    pub frames: u32,
    pub crc_errors: u32,
}

/// The window with one more byte; a full window drops its oldest.
pub open spec fn slide(w: Seq<u8>, b: u8) -> Seq<u8> {
    if w.len() < FRAME_LEN {
        w.push(b)
    } else {
        w.drop_first().push(b)
    }
}

/// The state after one received byte, and the record that it completed.
pub open spec fn step(s: TelemState, b: u8) -> (TelemState, Option<TelemFrame>) {
    let w = slide(s.window, b);
    let t = TelemState { window: w, rx_bytes: bumped(s.rx_bytes), ..s };
    if w.len() < FRAME_LEN {
        (t, None)
    } else if record_ok(w) {
        (TelemState { window: Seq::empty(), frames: bumped(s.frames), ..t }, Some(record(w)))
    } else {
        (TelemState { crc_errors: bumped(s.crc_errors), ..t }, None)
    }
}

/// Rolling-window decoder.
pub struct EscTelemParser {
    buf: [u8; FRAME_LEN],
    len: usize,
    pub rx_bytes: u32,
    pub frames: u32,
    pub crc_errors: u32,
}

impl EscTelemParser {
    /// Every parser is in this condition; `new` makes it so and `push` keeps it.
    pub closed spec fn wf(&self) -> bool {
        self.len <= FRAME_LEN
    }
}

impl View for EscTelemParser {
    type V = TelemState;

    closed spec fn view(&self) -> TelemState {
        TelemState {
            window: self.buf@.take(self.len as int),
            rx_bytes: self.rx_bytes,
            frames: self.frames,
            crc_errors: self.crc_errors,
        }
    }
}

impl EscTelemParser {
    pub fn new() -> (r: Self)
        ensures
            r.wf(),
            r@ == (TelemState { window: Seq::empty(), rx_bytes: 0, frames: 0, crc_errors: 0 }),
    {
        let r = EscTelemParser {
            buf: [0; FRAME_LEN],
            len: 0,
            rx_bytes: 0,
            frames: 0,
            crc_errors: 0,
        };
        assert(r@.window =~= Seq::empty());
        r
    }

    /// Bytes received, wrapping at 2^32.
    pub fn rx_bytes(&self) -> (r: u32)
        ensures
            r == self@.rx_bytes,
    {
        self.rx_bytes
    }

    /// Records decoded, wrapping at 2^32.
    pub fn frames(&self) -> (r: u32)
        ensures
            r == self@.frames,
    {
        self.frames
    }

    /// Full windows whose CRC did not match, wrapping at 2^32.
    pub fn crc_errors(&self) -> (r: u32)
        ensures
            r == self@.crc_errors,
    {
        self.crc_errors
    }

    /// Feeds one received byte; returns a record when a CRC-valid window
    /// completes.
    pub fn push(&mut self, byte: u8) -> (r: Option<TelemFrame>)
        requires
            old(self).wf(),
        ensures
            final(self).wf(),
            (final(self)@, r) == step(old(self)@, byte),
    {
        let ghost w = slide(self@.window, byte);
        self.rx_bytes = self.rx_bytes.wrapping_add(1);
        if self.len < FRAME_LEN {
            self.buf[self.len] = byte;
            self.len = self.len + 1;
        } else {
            self.shift(byte);
        }
        assert(self.buf@.take(self.len as int) =~= w);
        if self.len < FRAME_LEN {
            return None;
        }
        assert(self.buf@ =~= w);
        if crc8(&self.buf, FRAME_LEN - 1) == self.buf[FRAME_LEN - 1] {
            self.frames = self.frames.wrapping_add(1);
            self.len = 0;
            assert(self@.window =~= Seq::empty());
            Some(
                TelemFrame {
                    temp_c: self.buf[0],
                    centivolt: u16_of(self.buf[2], self.buf[1]),
                    centiamp: u16_of(self.buf[4], self.buf[3]),
                    mah: u16_of(self.buf[6], self.buf[5]),
                    erpm: u16_of(self.buf[8], self.buf[7]) as u32 * 100,
                },
            )
        } else {
            self.crc_errors = self.crc_errors.wrapping_add(1);
            None
        }
    }

    /// Slides the full window left by one byte and appends `byte`.
    fn shift(&mut self, byte: u8)
        ensures
            final(self).buf@ == old(self).buf@.drop_first().push(byte),
            final(self).len == old(self).len,
            final(self).rx_bytes == old(self).rx_bytes,
            final(self).frames == old(self).frames,
            final(self).crc_errors == old(self).crc_errors,
    {
        let mut i: usize = 1;
        while i < FRAME_LEN
            invariant
                1 <= i <= FRAME_LEN,
                forall|j: int| 0 <= j < i - 1 ==> self.buf@[j] == old(self).buf@[j + 1],
                forall|j: int| i - 1 <= j < FRAME_LEN ==> self.buf@[j] == old(self).buf@[j],
                self.len == old(self).len,
                self.rx_bytes == old(self).rx_bytes,
                self.frames == old(self).frames,
                self.crc_errors == old(self).crc_errors,
            decreases FRAME_LEN - i,
        {
            self.buf[i - 1] = self.buf[i];
            i = i + 1;
        }
        self.buf[FRAME_LEN - 1] = byte;
        assert(self.buf@ =~= old(self).buf@.drop_first().push(byte));
    }
}

/// Every decoded record has a speed that [`TelemFrame::rpm`] takes.
pub proof fn law_record_speed_in_range(s: TelemState, b: u8)
    ensures
        step(s, b).1 matches Some(f) ==> f.erpm % 100 == 0 && f.erpm <= 6_553_500,
{
}

/// The state after a stream of bytes.
pub open spec fn run(s: TelemState, bytes: Seq<u8>) -> TelemState
    decreases bytes.len(),
{
    if bytes.len() == 0 {
        s
    } else {
        step(run(s, bytes.drop_last()), bytes.last()).0
    }
}

/// The record that the last byte of a stream completed.
pub open spec fn decoded_after(s: TelemState, bytes: Seq<u8>) -> Option<TelemFrame> {
    if bytes.len() == 0 {
        None
    } else {
        step(run(s, bytes.drop_last()), bytes.last()).1
    }
}

/// The last `FRAME_LEN` bytes of a sequence, or all of it when it is shorter.
pub open spec fn tail(s: Seq<u8>) -> Seq<u8> {
    if s.len() <= FRAME_LEN {
        s
    } else {
        s.skip(s.len() - FRAME_LEN)
    }
}

proof fn lemma_window_is_tail(s: TelemState, bytes: Seq<u8>)
    requires
        s.window.len() <= FRAME_LEN,
        forall|k: int| 0 <= k <= bytes.len() ==> (#[trigger] decoded_after(s, bytes.take(k))) is None,
    ensures
        run(s, bytes).window == tail(s.window + bytes),
    decreases bytes.len(),
{
    if bytes.len() == 0 {
        assert(s.window + bytes =~= s.window);
    } else {
        let d = bytes.drop_last();
        assert forall|k: int| 0 <= k <= d.len() implies (#[trigger] decoded_after(s, d.take(k)))
            is None by {
            assert(d.take(k) =~= bytes.take(k));
        }
        lemma_window_is_tail(s, d);
        assert(bytes.take(bytes.len() as int) =~= bytes);
        assert(decoded_after(s, bytes.take(bytes.len() as int)) is None);
        assert(slide(run(s, d).window, bytes.last()) =~= tail(s.window + bytes));
    }
}

/// The parser finds its place again by itself: whatever stands in the window,
/// ten bytes that form a record are decoded at the last of them, unless a
/// record ended at one of the bytes before.
pub proof fn law_resync(s: TelemState, rec: Seq<u8>)
    requires
        s.window.len() <= FRAME_LEN,
        record_ok(rec),
        forall|k: int| 0 <= k < 10 ==> (#[trigger] decoded_after(s, rec.take(k))) is None,
    ensures
        decoded_after(s, rec) == Some(record(rec)),
        run(s, rec).window.len() == 0,
{
    let d = rec.drop_last();
    assert forall|k: int| 0 <= k <= d.len() implies (#[trigger] decoded_after(s, d.take(k)))
        is None by {
        assert(d.take(k) =~= rec.take(k));
    }
    lemma_window_is_tail(s, d);
    assert(slide(run(s, d).window, rec.last()) =~= rec);
}

proof fn lemma_fill(s: TelemState, rec: Seq<u8>, k: int)
    requires
        s.window.len() == 0,
        rec.len() == FRAME_LEN,
        0 <= k < 10,
    ensures
        run(s, rec.take(k)).window == rec.take(k),
        decoded_after(s, rec.take(k)) is None,
    decreases k,
{
    if k == 0 {
        assert(s.window =~= rec.take(0));
    } else {
        lemma_fill(s, rec, k - 1);
        assert(rec.take(k).drop_last() =~= rec.take(k - 1));
        assert(rec.take(k - 1).push(rec[k - 1]) =~= rec.take(k));
    }
}

/// A record that arrives with the window empty, as after another record, is
/// decoded and empties the window again: back-to-back records are all decoded.
pub proof fn law_record_received(s: TelemState, rec: Seq<u8>)
    requires
        s.window.len() == 0,
        record_ok(rec),
    ensures
        decoded_after(s, rec) == Some(record(rec)),
        run(s, rec).window.len() == 0,
{
    assert forall|k: int| 0 <= k < 10 implies (#[trigger] decoded_after(s, rec.take(k)))
        is None by {
        lemma_fill(s, rec, k);
    }
    law_resync(s, rec);
}

/// A record with one byte altered is not accepted.
pub proof fn law_altered_record_rejected(rec: Seq<u8>, i: int, b: u8)
    requires
        record_ok(rec),
        0 <= i < 10,
        rec[i] != b,
    ensures
        !record_ok(rec.update(i, b)),
{
    assert(POLY & 1 == 1) by (bit_vector);
    let t = rec.update(i, b);
    if i == 9 {
        assert(t.take(9) =~= rec.take(9));
    } else {
        assert(t.take(9) =~= rec.take(9).update(i, b));
        law_crc8_detects_altered_byte(POLY, 0, rec.take(9), i, b);
    }
}

/// The bytes of a record in front of its CRC.
pub open spec fn record_head(f: TelemFrame) -> Seq<u8> {
    let e = f.erpm as int / 100;
    seq![
        f.temp_c,
        (f.centivolt as int / 256) as u8,
        (f.centivolt as int % 256) as u8,
        (f.centiamp as int / 256) as u8,
        (f.centiamp as int % 256) as u8,
        (f.mah as int / 256) as u8,
        (f.mah as int % 256) as u8,
        (e / 256) as u8,
        (e % 256) as u8,
    ]
}

/// The ten bytes of a record.
pub open spec fn record_bytes(f: TelemFrame) -> Seq<u8> {
    record_head(f).push(crc8_over(POLY, 0, record_head(f)))
}

/// What the ESC measured and sent is what comes out, for speeds that the record
/// can carry: multiples of a hundred in sixteen bits.
pub proof fn law_record_round_trip(s: TelemState, f: TelemFrame)
    requires
        s.window.len() == 0,
        f.erpm % 100 == 0,
        f.erpm <= 6_553_500,
    ensures
        record_ok(record_bytes(f)),
        decoded_after(s, record_bytes(f)) == Some(f),
{
    let b = record_bytes(f);
    assert(b.take(9) =~= record_head(f));
    law_record_received(s, b);
    assert(record(b) == f);
}

/// The speed of the shaft is the electrical speed over the pole pairs, rounded
/// down; fewer than two poles count as two.
pub proof fn law_mechanical_speed(erpm: int, pole_count: int)
    requires
        0 <= erpm,
        2 * erpm <= u32::MAX,
    ensures
        ({
            let poles = if pole_count < 2 {
                2
            } else {
                pole_count
            };
            let r = mechanical_rpm(erpm, pole_count);
            &&& r * poles <= 2 * erpm < (r + 1) * poles
            &&& 0 <= r <= i32::MAX
        }),
{
    let poles = if pole_count < 2 {
        2
    } else {
        pole_count
    };
    let n = 2 * erpm;
    let r = mechanical_rpm(erpm, pole_count);
    assert(r * poles <= n < (r + 1) * poles && 0 <= r <= n / 2) by (nonlinear_arith)
        requires
            poles >= 2,
            n >= 0,
            r == n / poles,
    ;
}

/// A record says, most significant byte first, the temperature, the voltage, the
/// current, the consumption and a hundredth of the electrical speed.
pub proof fn law_record_fields(w: Seq<u8>)
    ensures
        record(w).temp_c == w[0],
        record(w).centivolt == 256 * w[1] + w[2],
        record(w).centiamp == 256 * w[3] + w[4],
        record(w).mah == 256 * w[5] + w[6],
        record(w).erpm == 100 * (256 * w[7] + w[8]),
{
}

/// Every byte is counted; a record is counted exactly when one comes out, and
/// an error exactly when ten bytes are together and none does. No window is ever
/// longer than ten bytes.
pub proof fn law_bytes_counted(s: TelemState, b: u8)
    requires
        s.window.len() <= 10,
    ensures
        ({
            let (t, r) = step(s, b);
            let full = s.window.len() >= 9;
            &&& t.rx_bytes == (s.rx_bytes + 1) % 0x1_0000_0000
            &&& t.frames == if r is Some {
                (s.frames + 1) % 0x1_0000_0000
            } else {
                s.frames as int
            }
            &&& t.crc_errors == if full && r is None {
                (s.crc_errors + 1) % 0x1_0000_0000
            } else {
                s.crc_errors as int
            }
            &&& r is Some ==> full && t.window.len() == 0
            &&& r is None ==> t.window.len() == (if full {
                10
            } else {
                s.window.len() + 1
            }) && t.window.last() == b
            &&& t.window.len() <= 10
        }),
{
}

/// A record is ten bytes that close with the CRC of the others, under the
/// polynomial 7 from zero on.
pub proof fn law_record_check(w: Seq<u8>)
    ensures
        record_ok(w) <==> w.len() == 10 && crc8_over(7, 0, w.take(9)) == w[9],
{
}

} // verus!
