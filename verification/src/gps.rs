//! NMEA-0183 decoder for the GPS receiver.
//!
//! Two sentences are decoded and merged into one [`GpsData`]:
//!   * GGA: fix quality, satellite count, position, altitude, HDOP
//!   * RMC: ground speed and course over ground
//!
//! A sentence on the wire is `$`, its body, `*`, two hexadecimal digits (the
//! exclusive or of the body's bytes) and a line end. Decimal numbers in the
//! fields are turned into integers by conversions that the caller supplies,
//! see [`Unit`].

use vstd::prelude::*;
use vstd::slice::*;

verus! {

pub const DOLLAR: u8 = 0x24;

pub const STAR: u8 = 0x2A;

pub const COMMA: u8 = 0x2C;

pub const CR: u8 = 0x0D;

pub const LF: u8 = 0x0A;

/// Longest sentence that is kept; a longer one is dropped.
pub const MAX_SENTENCE: usize = 100;

/// A full turn in hundredths of a degree.
pub const FULL_CIRCLE_CDEG: i32 = 36_000;

/// Marks an unknown course.
pub const COURSE_UNKNOWN: u16 = 0xFFFF;

/// Latest merged GPS solution.
#[derive(Clone, Copy)]
pub struct GpsData {
    /// 0 is no fix, 3 is a fix.
    pub fix_type: u8,
    /// Satellites used in the solution.
    pub sats: u8,
    /// Latitude, degrees * 1e7.
    pub lat_e7: i32,
    /// Longitude, degrees * 1e7.
    pub lon_e7: i32,
    /// Altitude above mean sea level, mm.
    pub alt_mm: i32,
    /// Horizontal dilution of precision * 100 (65535 is unknown).
    pub eph: u16,
    /// Ground speed, cm/s.
    pub vel_cms: u16,
    /// Course over ground, hundredths of a degree: 0..35999, or 65535 when it is
    /// unknown.
    pub cog_cdeg: u16,
    /// Count of sentences decoded.
    pub sentences: u32,
}

/// Nothing received yet.
pub open spec fn no_solution() -> GpsData {
    GpsData {
        fix_type: 0,
        sats: 0,
        lat_e7: 0,
        lon_e7: 0,
        alt_mm: 0,
        eph: 0xFFFF,
        vel_cms: 0,
        cog_cdeg: 0xFFFF,
        sentences: 0,
    }
}

impl Default for GpsData {
    fn default() -> (r: Self)
        ensures
            r == no_solution(),
    {
        GpsData {
            fix_type: 0,
            sats: 0,
            lat_e7: 0,
            lon_e7: 0,
            alt_mm: 0,
            eph: 0xFFFF,
            vel_cms: 0,
            cog_cdeg: 0xFFFF,
            sentences: 0,
        }
    }
}

/// What a decimal number is multiplied by before it is cut to an integer.
#[derive(Clone, Copy, PartialEq, Eq, Structural)]
pub enum Unit {
    /// 1000: metres to millimetres.
    Milli,
    /// 100: units to hundredths.
    Centi,
    /// 51.4444: knots to cm/s.
    KnotsToCms,
}

/// What the conversions gave for the number fields of one sentence; `None`
/// where a field is missing or holds no number.
#[derive(Clone, Copy)]
pub struct Numbers {
    pub lat: Option<i32>,
    pub lon: Option<i32>,
    pub altitude: Option<i32>,
    pub hdop: Option<i32>,
    pub speed: Option<i32>,
    pub course: Option<i32>,
}

/// Index of the first comma, or the length when there is none.
pub open spec fn comma(s: Seq<u8>) -> int
    decreases s.len(),
{
    if s.len() == 0 || s[0] == COMMA {
        0
    } else {
        1 + comma(s.drop_first())
    }
}

/// Part `n` of a text split at its commas.
pub open spec fn part(s: Seq<u8>, n: nat) -> Option<Seq<u8>>
    decreases n,
{
    if n == 0 {
        Some(s.take(comma(s)))
    } else if comma(s) < s.len() {
        part(s.skip(comma(s) + 1), (n - 1) as nat)
    } else {
        None
    }
}

/// Field `n` of a sentence body, counting the sentence type as field 0; an
/// empty field counts as missing.
pub open spec fn field(s: Seq<u8>, n: nat) -> Option<Seq<u8>> {
    match part(s, n) {
        Some(f) => if f.len() > 0 {
            Some(f)
        } else {
            None
        },
        None => None,
    }
}

/// Comma-separated field accessor over a sentence body.
struct Fields<'a> {
    body: &'a [u8],
}

/// Index of the first comma at or after `start`, or the length.
fn comma_from(body: &[u8], start: usize) -> (r: usize)
    requires
        start <= body@.len(),
    ensures
        r == start + comma(body@.skip(start as int)),
        start <= r <= body@.len(),
{
    let mut i: usize = start;
    let n: usize = body.len();
    while i < n && body[i] != COMMA
        invariant
            start <= i <= n,
            n == body@.len(),
            comma(body@.skip(start as int)) == i - start + comma(body@.skip(i as int)),
        decreases n - i,
    {
        assert(body@.skip(i as int).drop_first() =~= body@.skip(i + 1));
        i = i + 1;
    }
    i
}

impl<'a> Fields<'a> {
    fn new(body: &'a [u8]) -> (r: Self)
        ensures
            r.body@ == body@,
    {
        Fields { body }
    }

    /// Field `n`, counting the sentence type as field 0.
    fn get(&self, n: usize) -> (r: Option<&'a [u8]>)
        ensures
            match r {
                Some(s) => field(self.body@, n as nat) == Some(s@),
                None => field(self.body@, n as nat) is None,
            },
    {
        let len: usize = self.body.len();
        let mut start: usize = 0;
        let mut k: usize = 0;
        assert(self.body@.skip(0) =~= self.body@);
        while k < n
            invariant
                k <= n,
                start <= len,
                len == self.body@.len(),
                part(self.body@, n as nat) == part(self.body@.skip(start as int), (n - k) as nat),
            decreases n - k,
        {
            let c: usize = comma_from(self.body, start);
            if c >= len {
                return None;
            }
            assert(self.body@.skip(start as int).skip(c - start + 1) =~= self.body@.skip(c + 1));
            start = c + 1;
            k = k + 1;
        }
        let end: usize = comma_from(self.body, start);
        assert(self.body@.skip(start as int).take(end - start) =~= self.body@.subrange(
            start as int,
            end as int,
        ));
        if start == end {
            None
        } else {
            Some(slice_subrange(self.body, start, end))
        }
    }
}

/// Value of a hexadecimal digit.
pub open spec fn hex_digit(c: u8) -> Option<u8> {
    if 0x30 <= c <= 0x39 {
        Some((c - 0x30) as u8)
    } else if 0x41 <= c <= 0x46 {
        Some((c - 0x41 + 10) as u8)
    } else if 0x61 <= c <= 0x66 {
        Some((c - 0x61 + 10) as u8)
    } else {
        None
    }
}

/// Value of two hexadecimal digits.
pub open spec fn hex_pair(hi: u8, lo: u8) -> Option<u8> {
    match (hex_digit(hi), hex_digit(lo)) {
        (Some(h), Some(l)) => Some((16 * h + l) as u8),
        _ => None,
    }
}

fn hexval(c: u8) -> (r: Option<u8>)
    ensures
        r == hex_digit(c),
        r matches Some(v) ==> v < 16,
{
    if 0x30 <= c && c <= 0x39 {
        Some(c - 0x30)
    } else if 0x41 <= c && c <= 0x46 {
        Some(c - 0x41 + 10)
    } else if 0x61 <= c && c <= 0x66 {
        Some(c - 0x61 + 10)
    } else {
        None
    }
}

/// Two hexadecimal digits as a byte.
fn hex2(hi: u8, lo: u8) -> (r: Option<u8>)
    ensures
        r == hex_pair(hi, lo),
{
    match (hexval(hi), hexval(lo)) {
        (Some(h), Some(l)) => Some(16 * h + l),
        _ => None,
    }
}

/// A text of decimal digits alone.
pub open spec fn all_digits(s: Seq<u8>) -> bool {
    forall|i: int| 0 <= i < s.len() ==> 0x30 <= #[trigger] s[i] <= 0x39
}

/// The number that decimal digits spell.
pub open spec fn decimal(s: Seq<u8>) -> nat
    decreases s.len(),
{
    if s.len() == 0 {
        0
    } else {
        10 * decimal(s.drop_last()) + (s.last() - 0x30) as nat
    }
}

/// A text without its leading plus sign.
pub open spec fn unsigned_part(s: Seq<u8>) -> Seq<u8> {
    if s.len() > 0 && s[0] == 0x2B {
        s.drop_first()
    } else {
        s
    }
}

/// The number in a text: decimal digits, with a plus sign in front or none,
/// that spell a 32-bit number.
pub open spec fn whole_number(s: Seq<u8>) -> Option<u32> {
    let d = unsigned_part(s);
    if d.len() > 0 && all_digits(d) && decimal(d) <= u32::MAX {
        Some(decimal(d) as u32)
    } else {
        None
    }
}

proof fn lemma_decimal_grows(s: Seq<u8>, k: int)
    requires
        0 <= k <= s.len(),
    ensures
        decimal(s.take(k)) <= decimal(s),
    decreases s.len() - k,
{
    if k < s.len() {
        lemma_decimal_grows(s, k + 1);
        assert(s.take(k + 1).drop_last() =~= s.take(k));
    } else {
        assert(s.take(k) =~= s);
    }
}

fn parse_u32(s: &[u8]) -> (r: Option<u32>)
    ensures
        r == whole_number(s@),
{
    let n: usize = s.len();
    let start: usize = if n > 0 && s[0] == 0x2B {
        1
    } else {
        0
    };
    let ghost d = unsigned_part(s@);
    assert(d =~= s@.skip(start as int));
    if start == n {
        return None;
    }
    let mut value: u64 = 0;
    let mut i: usize = start;
    assert(d.take(0) =~= Seq::<u8>::empty());
    while i < n
        invariant
            start <= i <= n,
            n == s@.len(),
            d == s@.skip(start as int),
            d == unsigned_part(s@),
            value == decimal(d.take(i - start)),
            value <= u32::MAX,
            forall|j: int| 0 <= j < i - start ==> 0x30 <= #[trigger] d[j] <= 0x39,
        decreases n - i,
    {
        let c: u8 = s[i];
        assert(d[i - start] == c);
        if c < 0x30 || c > 0x39 {
            return None;
        }
        assert(d.take(i - start + 1).drop_last() =~= d.take(i - start));
        value = 10 * value + (c - 0x30) as u64;
        if value > u32::MAX as u64 {
            proof {
                lemma_decimal_grows(d, i - start + 1);
            }
            return None;
        }
        i = i + 1;
    }
    assert(d.take(n - start) =~= d);
    Some(value as u32)
}

/// `v` with the other sign; the least number has none and stays.
pub open spec fn opposite(v: i32) -> i32 {
    if v == i32::MIN {
        v
    } else {
        (-v) as i32
    }
}

/// `v` brought into 16 bits.
pub open spec fn saturated16(v: i32) -> u16 {
    if v < 0 {
        0
    } else if v > 0xFFFF {
        0xFFFF
    } else {
        v as u16
    }
}

/// A course in hundredths of a degree: north for a negative one, unknown from a
/// full turn on.
pub open spec fn course_of(v: i32) -> u16 {
    if v < 0 {
        0
    } else if v < FULL_CIRCLE_CDEG {
        v as u16
    } else {
        COURSE_UNKNOWN
    }
}

/// A coordinate under its hemisphere letter: `negative` turns the sign.
pub open spec fn signed_by(v: i32, letter: Option<Seq<u8>>, negative: u8) -> i32 {
    if letter == Some(seq![negative]) {
        opposite(v)
    } else {
        v
    }
}

/// The effect of a GGA sentence.
pub open spec fn gga(d: GpsData, body: Seq<u8>, n: Numbers) -> GpsData {
    let quality = match field(body, 6) {
        Some(f) => whole_number(f),
        None => None,
    };
    let sats = match field(body, 7) {
        Some(f) => whole_number(f),
        None => None,
    };
    GpsData {
        fix_type: if quality matches Some(q) && q >= 1 {
            3
        } else {
            0
        },
        sats: match sats {
            Some(k) => (k % 256) as u8,
            None => d.sats,
        },
        lat_e7: match n.lat {
            Some(v) => signed_by(v, field(body, 3), 0x53),
            None => d.lat_e7,
        },
        lon_e7: match n.lon {
            Some(v) => signed_by(v, field(body, 5), 0x57),
            None => d.lon_e7,
        },
        alt_mm: match n.altitude {
            Some(v) => v,
            None => d.alt_mm,
        },
        eph: match n.hdop {
            Some(v) => saturated16(v),
            None => d.eph,
        },
        ..d
    }
}

/// The effect of an RMC sentence.
pub open spec fn rmc(d: GpsData, n: Numbers) -> GpsData {
    GpsData {
        vel_cms: match n.speed {
            Some(v) => saturated16(v),
            None => d.vel_cms,
        },
        cog_cdeg: match n.course {
            Some(v) => course_of(v),
            None => d.cog_cdeg,
        },
        ..d
    }
}

fn clamp16(v: i32) -> (r: u16)
    ensures
        r == saturated16(v),
{
    if v < 0 {
        0
    } else if v > 0xFFFF {
        0xFFFF
    } else {
        v as u16
    }
}

/// A coordinate under its hemisphere letter.
fn with_hemisphere(v: i32, letter: Option<&[u8]>, negative: u8) -> (r: i32)
    ensures
        r == signed_by(
            v,
            match letter {
                Some(s) => Some(s@),
                None => None,
            },
            negative,
        ),
{
    let turned: bool = match letter {
        Some(s) => {
            let t: bool = s.len() == 1 && s[0] == negative;
            proof {
                if t {
                    assert(s@ =~= seq![negative]);
                }
            }
            t
        },
        None => false,
    };
    if turned && v != i32::MIN {
        -v
    } else {
        v
    }
}

/// GGA: type, time, lat, N/S, lon, E/W, quality, sats, hdop, alt, ...
pub fn parse_gga(data: &mut GpsData, body: &[u8], n: Numbers)
    ensures
        *final(data) == gga(*old(data), body@, n),
{
    let f = Fields::new(body);
    let quality: Option<u32> = match f.get(6) {
        Some(s) => parse_u32(s),
        None => None,
    };
    data.fix_type = match quality {
        Some(q) => if q >= 1 {
            3
        } else {
            0
        },
        None => 0,
    };
    let sats: Option<u32> = match f.get(7) {
        Some(s) => parse_u32(s),
        None => None,
    };
    if let Some(k) = sats {
        data.sats = (k % 256) as u8;
    }
    if let Some(v) = n.lat {
        data.lat_e7 = with_hemisphere(v, f.get(3), 0x53);
    }
    if let Some(v) = n.lon {
        data.lon_e7 = with_hemisphere(v, f.get(5), 0x57);
    }
    if let Some(v) = n.altitude {
        data.alt_mm = v;
    }
    if let Some(v) = n.hdop {
        data.eph = clamp16(v);
    }
}

/// RMC: type, time, status, lat, N/S, lon, E/W, speed, course, ...
pub fn parse_rmc(data: &mut GpsData, n: Numbers)
    ensures
        *final(data) == rmc(*old(data), n),
{
    if let Some(v) = n.speed {
        data.vel_cms = clamp16(v);
    }
    if let Some(v) = n.course {
        data.cog_cdeg = if v < 0 {
            0
        } else if v < FULL_CIRCLE_CDEG {
            v as u16
        } else {
            COURSE_UNKNOWN
        };
    }
}

/// `v` is what the conversion `scaled` may give for field `n` of `body`.
pub open spec fn scaled_field<F: Fn(&[u8], Unit) -> Option<i32>>(
    scaled: F,
    body: Seq<u8>,
    n: nat,
    unit: Unit,
    v: Option<i32>,
) -> bool {
    match field(body, n) {
        None => v is None,
        Some(text) => exists|s: &[u8]| s@ == text && #[trigger] call_ensures(scaled, (s, unit), v),
    }
}

/// `v` is what the conversion `angle` may give for the coordinate in field `n`
/// of `body`, which is followed by its hemisphere: the first `digits` bytes are
/// degrees, the rest minutes.
pub open spec fn angle_field<G: Fn(&[u8], &[u8]) -> Option<i32>>(
    angle: G,
    body: Seq<u8>,
    n: nat,
    digits: int,
    v: Option<i32>,
) -> bool {
    match (field(body, n), field(body, n + 1)) {
        (Some(text), Some(_)) => if text.len() < digits {
            v is None
        } else {
            exists|d: &[u8], m: &[u8]|
                d@ == text.take(digits) && m@ == text.skip(digits) && #[trigger] call_ensures(
                    angle,
                    (d, m),
                    v,
                )
        },
        _ => v is None,
    }
}

/// The sentence types that are decoded.
#[derive(Clone, Copy, PartialEq, Eq, Structural)]
pub enum Kind {
    Gga,
    Rmc,
}

/// `n` is what the conversions may give for the number fields of a sentence.
pub open spec fn numbers_of<
    F: Fn(&[u8], Unit) -> Option<i32>,
    G: Fn(&[u8], &[u8]) -> Option<i32>,
>(scaled: F, angle: G, kind: Kind, body: Seq<u8>, n: Numbers) -> bool {
    match kind {
        Kind::Gga => {
            &&& angle_field(angle, body, 2, 2, n.lat)
            &&& angle_field(angle, body, 4, 3, n.lon)
            &&& scaled_field(scaled, body, 9, Unit::Milli, n.altitude)
            &&& scaled_field(scaled, body, 8, Unit::Centi, n.hdop)
            &&& n.speed is None
            &&& n.course is None
        },
        Kind::Rmc => {
            &&& n.lat is None
            &&& n.lon is None
            &&& n.altitude is None
            &&& n.hdop is None
            &&& scaled_field(scaled, body, 7, Unit::KnotsToCms, n.speed)
            &&& scaled_field(scaled, body, 8, Unit::Centi, n.course)
        },
    }
}

fn scaled_number<F: Fn(&[u8], Unit) -> Option<i32>>(
    scaled: &F,
    f: &Fields,
    n: usize,
    unit: Unit,
) -> (r: Option<i32>)
    requires
        forall|s: &[u8], u: Unit| #[trigger] call_requires(*scaled, (s, u)),
    ensures
        scaled_field(*scaled, f.body@, n as nat, unit, r),
{
    match f.get(n) {
        Some(s) => scaled(s, unit),
        None => None,
    }
}

/// An NMEA angle, `ddmm.mmmm` or `dddmm.mmmm`, in degrees * 1e7.
fn parse_lat_lon<G: Fn(&[u8], &[u8]) -> Option<i32>>(
    angle: &G,
    f: &Fields,
    n: usize,
    deg_digits: usize,
) -> (r: Option<i32>)
    requires
        n < 100,
        forall|d: &[u8], m: &[u8]| #[trigger] call_requires(*angle, (d, m)),
    ensures
        angle_field(*angle, f.body@, n as nat, deg_digits as int, r),
{
    match (f.get(n), f.get(n + 1)) {
        (Some(s), Some(_)) => {
            if s.len() < deg_digits {
                return None;
            }
            let d: &[u8] = slice_subrange(s, 0, deg_digits);
            let m: &[u8] = slice_subrange(s, deg_digits, s.len());
            assert(d@ =~= s@.take(deg_digits as int));
            assert(m@ =~= s@.skip(deg_digits as int));
            angle(d, m)
        },
        _ => None,
    }
}

fn numbers<F: Fn(&[u8], Unit) -> Option<i32>, G: Fn(&[u8], &[u8]) -> Option<i32>>(
    scaled: &F,
    angle: &G,
    kind: Kind,
    body: &[u8],
) -> (r: Numbers)
    requires
        forall|s: &[u8], u: Unit| #[trigger] call_requires(*scaled, (s, u)),
        forall|d: &[u8], m: &[u8]| #[trigger] call_requires(*angle, (d, m)),
    ensures
        numbers_of(*scaled, *angle, kind, body@, r),
{
    let f = Fields::new(body);
    match kind {
        Kind::Gga => Numbers {
            lat: parse_lat_lon(angle, &f, 2, 2),
            lon: parse_lat_lon(angle, &f, 4, 3),
            altitude: scaled_number(scaled, &f, 9, Unit::Milli),
            hdop: scaled_number(scaled, &f, 8, Unit::Centi),
            speed: None,
            course: None,
        },
        Kind::Rmc => Numbers {
            lat: None,
            lon: None,
            altitude: None,
            hdop: None,
            speed: scaled_number(scaled, &f, 7, Unit::KnotsToCms),
            course: scaled_number(scaled, &f, 8, Unit::Centi),
        },
    }
}

/// The exclusive or of all bytes.
pub open spec fn xor_sum(s: Seq<u8>) -> u8
    decreases s.len(),
{
    if s.len() == 0 {
        0
    } else {
        xor_sum(s.drop_last()) ^ s.last()
    }
}

/// Index of the first star, or the length when there is none.
pub open spec fn star(s: Seq<u8>) -> int
    decreases s.len(),
{
    if s.len() == 0 || s[0] == STAR {
        0
    } else {
        1 + star(s.drop_first())
    }
}

/// The type of a sentence: three letters behind the two of the talker.
pub open spec fn kind_of(body: Seq<u8>) -> Option<Kind> {
    if body.len() < 5 {
        None
    } else if body[2] == 0x47 && body[3] == 0x47 && body[4] == 0x41 {
        Some(Kind::Gga)
    } else if body[2] == 0x52 && body[3] == 0x4D && body[4] == 0x43 {
        Some(Kind::Rmc)
    } else {
        None
    }
}

/// The body of a line whose checksum matches and whose type is decoded.
pub open spec fn sentence(line: Seq<u8>) -> Option<(Kind, Seq<u8>)> {
    let e = star(line);
    if e + 2 < line.len() && hex_pair(line[e + 1], line[e + 2]) == Some(xor_sum(line.take(e))) {
        match kind_of(line.take(e)) {
            Some(k) => Some((k, line.take(e))),
            None => None,
        }
    } else {
        None
    }
}

/// The effect of a sentence, given what the conversions gave.
pub open spec fn decode(d: GpsData, kind: Kind, body: Seq<u8>, n: Numbers) -> GpsData {
    let e = match kind {
        Kind::Gga => gga(d, body, n),
        Kind::Rmc => rmc(d, n),
    };
    GpsData { sentences: ((d.sentences + 1) % 0x1_0000_0000) as u32, ..e }
}

/// What an [`NmeaParser`] holds: the line in progress, if any, and the latest
/// solution.
#[verifier::ext_equal]
pub struct NmeaState {
    pub line: Option<Seq<u8>>,
    pub data: GpsData,
}

/// Whether a byte ends a line.
pub open spec fn ends_line(b: u8) -> bool {
    b == CR || b == LF
}

/// The sentence that byte `b` completes.
pub open spec fn completed(s: NmeaState, b: u8) -> Option<(Kind, Seq<u8>)> {
    match s.line {
        Some(line) => if ends_line(b) {
            sentence(line)
        } else {
            None
        },
        None => None,
    }
}

/// The line in progress after byte `b`.
pub open spec fn line_after(line: Option<Seq<u8>>, b: u8) -> Option<Seq<u8>> {
    if b == DOLLAR {
        Some(Seq::empty())
    } else if ends_line(b) {
        None
    } else {
        match line {
            Some(l) => if l.len() < MAX_SENTENCE {
                Some(l.push(b))
            } else {
                None
            },
            None => None,
        }
    }
}

/// The state after one received byte, given what the conversions gave, and
/// whether a sentence was decoded.
pub open spec fn step(s: NmeaState, b: u8, n: Numbers) -> (NmeaState, bool) {
    let line = line_after(s.line, b);
    match completed(s, b) {
        Some((kind, body)) => (NmeaState { line, data: decode(s.data, kind, body, n) }, true),
        None => (NmeaState { line, ..s }, false),
    }
}

/// A solution within its documented ranges: no fix or a fix, and a course
/// within the circle or unknown.
pub open spec fn solution_ok(d: GpsData) -> bool {
    &&& (d.fix_type == 0 || d.fix_type == 3)
    &&& (d.cog_cdeg <= 35_999 || d.cog_cdeg == 65_535)
}

/// Every byte, whatever the conversions gave, leaves a solution within its
/// ranges there, where the first solution is.
pub proof fn law_step_keeps_ranges(s: NmeaState, b: u8, n: Numbers)
    ensures
        solution_ok(no_solution()),
        solution_ok(s.data) ==> solution_ok(step(s, b, n).0.data),
{
}

/// The state after a series of bytes, with what the conversions gave at each.
pub open spec fn run(s: NmeaState, inputs: Seq<(u8, Numbers)>) -> NmeaState
    decreases inputs.len(),
{
    if inputs.len() == 0 {
        s
    } else {
        step(run(s, inputs.drop_last()), inputs.last().0, inputs.last().1).0
    }
}

/// From the first state on, no series of bytes brings the solution out of its
/// ranges.
pub proof fn law_solution_in_range(inputs: Seq<(u8, Numbers)>)
    ensures
        solution_ok(run(NmeaState { line: None, data: no_solution() }, inputs).data),
    decreases inputs.len(),
{
    if inputs.len() > 0 {
        let s = NmeaState { line: None, data: no_solution() };
        law_solution_in_range(inputs.drop_last());
        law_step_keeps_ranges(run(s, inputs.drop_last()), inputs.last().0, inputs.last().1);
    }
}

/// Byte-fed NMEA sentence assembler and decoder.
pub struct NmeaParser {
    buf: [u8; MAX_SENTENCE],
    len: usize,
    active: bool,
    data: GpsData,
}

impl View for NmeaParser {
    type V = NmeaState;

    closed spec fn view(&self) -> NmeaState {
        NmeaState {
            line: if self.active {
                Some(self.buf@.take(self.len as int))
            } else {
                None
            },
            data: self.data,
        }
    }
}

impl NmeaParser {
    /// Every parser is in this condition; `new` makes it so and `push` keeps it.
    pub closed spec fn wf(&self) -> bool {
        self.len <= MAX_SENTENCE && solution_ok(self.data)
    }

    /// The solution of a parser that came from `new` and `push` is within its
    /// documented ranges.
    pub proof fn law_data_in_range(&self)
        requires
            self.wf(),
        ensures
            solution_ok(self@.data),
    {
    }

    pub fn new() -> (r: Self)
        ensures
            r.wf(),
            r@ == (NmeaState { line: None, data: no_solution() }),
    {
        NmeaParser { buf: [0; MAX_SENTENCE], len: 0, active: false, data: GpsData::default() }
    }

    pub fn data(&self) -> (r: GpsData)
        ensures
            r == self@.data,
    {
        self.data
    }

    /// Feeds one received byte. Returns `true` when a sentence was just
    /// decoded.
    ///
    /// `scaled` reads a decimal number, multiplies it by the unit's factor and
    /// cuts it to an integer; `angle` reads degrees and minutes and gives
    /// degrees * 1e7. Both give `None` for a text that is no number.
    pub fn push<F: Fn(&[u8], Unit) -> Option<i32>, G: Fn(&[u8], &[u8]) -> Option<i32>>(
        &mut self,
        byte: u8,
        scaled: &F,
        angle: &G,
    ) -> (r: bool)
        requires
            old(self).wf(),
            forall|s: &[u8], u: Unit| #[trigger] call_requires(*scaled, (s, u)),
            forall|d: &[u8], m: &[u8]| #[trigger] call_requires(*angle, (d, m)),
        ensures
            final(self).wf(),
            exists|n: Numbers|
                (completed(old(self)@, byte) matches Some((kind, body)) ==> numbers_of(
                    *scaled,
                    *angle,
                    kind,
                    body,
                    n,
                )) && (final(self)@, r) == #[trigger] step(old(self)@, byte, n),
    {
        let ghost before = self@;
        let ghost mut n: Numbers = arbitrary();
        let mut complete: bool = false;
        if byte == DOLLAR {
            self.active = true;
            self.len = 0;
            assert(self@.line =~= line_after(before.line, byte));
        } else if byte == CR || byte == LF {
            if self.active {
                if let Some((kind, end)) = self.check() {
                    let body: &[u8] = slice_subrange(self.buf.as_slice(), 0, end);
                    assert(body@ =~= self.buf@.take(self.len as int).take(end as int));
                    let found: Numbers = numbers(scaled, angle, kind, body);
                    proof {
                        n = found;
                    }
                    let mut data: GpsData = self.data;
                    match kind {
                        Kind::Gga => parse_gga(&mut data, body, found),
                        Kind::Rmc => parse_rmc(&mut data, found),
                    }
                    data.sentences = data.sentences.wrapping_add(1);
                    self.data = data;
                    complete = true;
                }
            }
            self.active = false;
            self.len = 0;
        } else if self.active {
            if self.len < MAX_SENTENCE {
                self.buf[self.len] = byte;
                self.len = self.len + 1;
                assert(self.buf@.take(self.len as int) =~= before.line->Some_0.push(byte));
            } else {
                self.active = false;
                self.len = 0;
            }
        }
        assert((self@, complete) == step(before, byte, n));
        proof {
            law_step_keeps_ranges(before, byte, n);
        }
        complete
    }

    /// Checks the buffered line: its type and the end of its body, when the
    /// checksum matches and the type is decoded.
    fn check(&self) -> (r: Option<(Kind, usize)>)
        requires
            self.wf(),
        ensures
            ({
                let line = self.buf@.take(self.len as int);
                match r {
                    Some((kind, end)) => end <= self.len && sentence(line) == Some(
                        (kind, line.take(end as int)),
                    ),
                    None => sentence(line) is None,
                }
            }),
    {
        let ghost line = self.buf@.take(self.len as int);
        let n: usize = self.len;
        let mut e: usize = 0;
        let mut sum: u8 = 0;
        assert(line.skip(0) =~= line);
        assert(line.take(0) =~= Seq::<u8>::empty());
        while e < n && self.buf[e] != STAR
            invariant
                e <= n <= MAX_SENTENCE,
                n == self.len,
                line == self.buf@.take(n as int),
                star(line) == e + star(line.skip(e as int)),
                sum == xor_sum(line.take(e as int)),
            decreases n - e,
        {
            assert(line.skip(e as int).drop_first() =~= line.skip(e + 1));
            assert(line.take(e + 1).drop_last() =~= line.take(e as int));
            sum = sum ^ self.buf[e];
            e = e + 1;
        }
        assert(star(line) == e);
        if e + 2 >= n {
            return None;
        }
        match hex2(self.buf[e + 1], self.buf[e + 2]) {
            Some(given) => if given != sum {
                return None;
            },
            None => return None,
        }
        if e < 5 {
            return None;
        }
        if self.buf[2] == 0x47 && self.buf[3] == 0x47 && self.buf[4] == 0x41 {
            Some((Kind::Gga, e))
        } else if self.buf[2] == 0x52 && self.buf[3] == 0x4D && self.buf[4] == 0x43 {
            Some((Kind::Rmc, e))
        } else {
            None
        }
    }
}

/// Texts written one after the other with commas between them.
pub open spec fn joined(fs: Seq<Seq<u8>>) -> Seq<u8>
    decreases fs.len(),
{
    if fs.len() == 0 {
        Seq::empty()
    } else if fs.len() == 1 {
        fs[0]
    } else {
        fs[0].push(COMMA) + joined(fs.drop_first())
    }
}

/// A text without a comma.
pub open spec fn comma_free(s: Seq<u8>) -> bool {
    forall|i: int| 0 <= i < s.len() ==> s[i] != COMMA
}

proof fn lemma_first_comma(s: Seq<u8>, k: int)
    requires
        0 <= k <= s.len(),
        forall|i: int| 0 <= i < k ==> s[i] != COMMA,
        k < s.len() ==> s[k] == COMMA,
    ensures
        comma(s) == k,
    decreases k,
{
    if k > 0 {
        assert forall|i: int| 0 <= i < k - 1 implies s.drop_first()[i] != COMMA by {
            assert(s.drop_first()[i] == s[i + 1]);
        }
        lemma_first_comma(s.drop_first(), k - 1);
    }
}

/// Splitting undoes joining: part `n` of joined texts is text `n`, and there is
/// none beyond the last.
pub proof fn law_fields_join(fs: Seq<Seq<u8>>, n: nat)
    requires
        fs.len() > 0,
        forall|k: int| 0 <= k < fs.len() ==> comma_free(#[trigger] fs[k]),
    ensures
        part(joined(fs), n) == if n < fs.len() {
            Some(fs[n as int])
        } else {
            None
        },
    decreases n,
{
    let j = joined(fs);
    let first = fs[0];
    assert(comma_free(first));
    if fs.len() == 1 {
        lemma_first_comma(j, j.len() as int);
        assert(j.take(j.len() as int) =~= first);
    } else {
        let rest = fs.drop_first();
        assert(j == first.push(COMMA) + joined(rest));
        lemma_first_comma(j, first.len() as int);
        if n == 0 {
            assert(j.take(first.len() as int) =~= first);
        } else {
            assert(j.skip(first.len() as int + 1) =~= joined(rest));
            assert forall|k: int| 0 <= k < rest.len() implies comma_free(#[trigger] rest[k]) by {
                assert(rest[k] == fs[k + 1]);
            }
            law_fields_join(rest, (n - 1) as nat);
        }
    }
}

/// The line in progress after a series of bytes.
pub open spec fn line_run(line: Option<Seq<u8>>, bytes: Seq<u8>) -> Option<Seq<u8>>
    decreases bytes.len(),
{
    if bytes.len() == 0 {
        line
    } else {
        line_after(line_run(line, bytes.drop_last()), bytes.last())
    }
}

/// Bytes that neither start nor end a line.
pub open spec fn plain(s: Seq<u8>) -> bool {
    forall|i: int| 0 <= i < s.len() ==> #[trigger] s[i] != DOLLAR && !ends_line(s[i])
}

/// Whatever came before, a `$` and a text of at most a hundred bytes leave
/// exactly that text as the line in progress; a longer text is dropped.
pub proof fn law_line_collected(line: Option<Seq<u8>>, text: Seq<u8>)
    requires
        plain(text),
    ensures
        line_run(line, seq![DOLLAR] + text) == if text.len() <= MAX_SENTENCE {
            Some(text)
        } else {
            None
        },
    decreases text.len(),
{
    let all = seq![DOLLAR] + text;
    if text.len() == 0 {
        assert(all.drop_last() =~= Seq::<u8>::empty());
        assert(all.last() == DOLLAR);
        assert(text =~= Seq::<u8>::empty());
    } else {
        let t = text.drop_last();
        assert(all.drop_last() =~= seq![DOLLAR] + t);
        assert(all.last() == text.last());
        assert(plain(t)) by {
            assert forall|i: int| 0 <= i < t.len() implies #[trigger] t[i] != DOLLAR && !ends_line(
                t[i],
            ) by {
                assert(t[i] == text[i]);
            }
        }
        law_line_collected(line, t);
        assert(text[text.len() - 1] != DOLLAR);
        assert(t.push(text.last()) =~= text);
    }
}

proof fn lemma_first_star(s: Seq<u8>, k: int)
    requires
        0 <= k < s.len(),
        forall|i: int| 0 <= i < k ==> s[i] != STAR,
        s[k] == STAR,
    ensures
        star(s) == k,
    decreases k,
{
    if k > 0 {
        assert forall|i: int| 0 <= i < k - 1 implies s.drop_first()[i] != STAR by {
            assert(s.drop_first()[i] == s[i + 1]);
        }
        lemma_first_star(s.drop_first(), k - 1);
    }
}

/// A body without a star, followed by a star and two hexadecimal digits, is a
/// sentence exactly when the digits spell the body's checksum and the type is
/// decoded.
pub proof fn law_sentence_recognised(body: Seq<u8>, hi: u8, lo: u8)
    requires
        forall|i: int| 0 <= i < body.len() ==> body[i] != STAR,
    ensures
        sentence(body + seq![STAR, hi, lo]) == match kind_of(body) {
            Some(k) => if hex_pair(hi, lo) == Some(xor_sum(body)) {
                Some((k, body))
            } else {
                None
            },
            None => None,
        },
{
    let line = body + seq![STAR, hi, lo];
    lemma_first_star(line, body.len() as int);
    assert(line.take(body.len() as int) =~= body);
}

/// A sentence that arrives whole, whatever came before, is decoded at its line
/// end exactly when its checksum matches and its type is known.
pub proof fn law_sentence_received(s: NmeaState, body: Seq<u8>, hi: u8, lo: u8, end: u8)
    requires
        body.len() + 3 <= MAX_SENTENCE,
        plain(body + seq![STAR, hi, lo]),
        forall|i: int| 0 <= i < body.len() ==> body[i] != STAR,
        ends_line(end),
    ensures
        ({
            let t = NmeaState {
                line: line_run(s.line, seq![DOLLAR] + (body + seq![STAR, hi, lo])),
                ..s
            };
            completed(t, end) == match kind_of(body) {
                Some(k) => if hex_pair(hi, lo) == Some(xor_sum(body)) {
                    Some((k, body))
                } else {
                    None
                },
                None => None,
            }
        }),
{
    law_line_collected(s.line, body + seq![STAR, hi, lo]);
    law_sentence_recognised(body, hi, lo);
}

proof fn lemma_xor_differs(a: u8, b: u8, c: u8, d: u8)
    by (bit_vector)
    ensures
        a ^ c == b ^ c ==> a == b,
        a ^ c == a ^ d ==> c == d,
{
}

proof fn lemma_xor_update(s: Seq<u8>, i: int, b: u8)
    requires
        0 <= i < s.len(),
        s[i] != b,
    ensures
        xor_sum(s.update(i, b)) != xor_sum(s),
    decreases s.len(),
{
    let t = s.update(i, b);
    let x = xor_sum(s.drop_last());
    let y = xor_sum(t.drop_last());
    if i == s.len() - 1 {
        assert(t.drop_last() =~= s.drop_last());
    } else {
        assert(t.drop_last() =~= s.drop_last().update(i, b));
        lemma_xor_update(s.drop_last(), i, b);
    }
    lemma_xor_differs(x, y, s.last(), t.last());
}

/// A sentence with one byte of its body altered (to anything but a star) is
/// not decoded.
pub proof fn law_altered_sentence_rejected(body: Seq<u8>, hi: u8, lo: u8, i: int, b: u8)
    requires
        forall|i: int| 0 <= i < body.len() ==> body[i] != STAR,
        sentence(body + seq![STAR, hi, lo]) is Some,
        0 <= i < body.len(),
        body[i] != b,
        b != STAR,
    ensures
        sentence(body.update(i, b) + seq![STAR, hi, lo]) is None,
{
    law_sentence_recognised(body, hi, lo);
    law_sentence_recognised(body.update(i, b), hi, lo);
    lemma_xor_update(body, i, b);
}

/// A `push` reports a sentence exactly when it counts one, and a byte that
/// completes none leaves the solution as it is.
pub proof fn law_report_is_count(s: NmeaState, b: u8, n: Numbers)
    ensures
        step(s, b, n).1 <==> completed(s, b) is Some,
        step(s, b, n).1 ==> step(s, b, n).0.data.sentences == (s.data.sentences + 1)
            % 0x1_0000_0000,
        !step(s, b, n).1 ==> step(s, b, n).0.data == s.data,
{
}

/// GGA and RMC fill separate parts of the solution.
pub proof fn law_sentences_merge(d: GpsData, body: Seq<u8>, n: Numbers)
    ensures
        gga(d, body, n).vel_cms == d.vel_cms,
        gga(d, body, n).cog_cdeg == d.cog_cdeg,
        ({
            let e = rmc(d, n);
            &&& e.fix_type == d.fix_type
            &&& e.sats == d.sats
            &&& e.lat_e7 == d.lat_e7
            &&& e.lon_e7 == d.lon_e7
            &&& e.alt_mm == d.alt_mm
            &&& e.eph == d.eph
        }),
        rmc(gga(d, body, n), n) == gga(rmc(d, n), body, n),
{
}

/// The digit `d` in hexadecimal, in either case.
pub open spec fn is_hex(c: u8, d: int) -> bool {
    if d < 10 {
        c == 0x30 + d
    } else {
        c == 0x41 + d - 10 || c == 0x61 + d - 10
    }
}

/// Two characters spell a byte exactly when they are the digits of its upper and
/// its lower half.
pub proof fn law_hex_pair(hi: u8, lo: u8, v: u8)
    ensures
        hex_pair(hi, lo) == Some(v) <==> is_hex(hi, v as int / 16) && is_hex(lo, v as int % 16),
{
}

/// The checksum is the exclusive or of all bytes: nothing gives zero, and each
/// byte more is combined with what there was.
pub proof fn law_xor_appended(s: Seq<u8>, b: u8)
    ensures
        xor_sum(Seq::<u8>::empty()) == 0,
        xor_sum(s.push(b)) == xor_sum(s) ^ b,
{
    assert(s.push(b).drop_last() =~= s);
}

/// A decimal number grows by a place with each digit.
pub proof fn law_decimal_appended(s: Seq<u8>, c: u8)
    requires
        0x30 <= c <= 0x39,
    ensures
        decimal(Seq::<u8>::empty()) == 0,
        decimal(s.push(c)) == 10 * decimal(s) + (c - 0x30),
{
    assert(s.push(c).drop_last() =~= s);
}

/// A text of digits that spell a 32-bit number is that number, with a plus sign
/// in front or without. Anything else is no number: no digits, another character,
/// too great a value.
pub proof fn law_whole_number(d: Seq<u8>, k: int)
    ensures
        d.len() > 0 && all_digits(d) && decimal(d) <= 0xFFFF_FFFF ==> whole_number(d) == Some(
            decimal(d) as u32,
        ) && whole_number(seq![0x2Bu8] + d) == Some(decimal(d) as u32),
        d.len() > 0 && all_digits(d) && decimal(d) > 0xFFFF_FFFF ==> whole_number(d) is None,
        d.len() == 0 ==> whole_number(d) is None && whole_number(seq![0x2Bu8] + d) is None,
        0 <= k < d.len() && !(0x30 <= d[k] <= 0x39) && (k > 0 || d[k] != 0x2B) ==> whole_number(d)
            is None,
{
    let p = seq![0x2Bu8] + d;
    assert(p.drop_first() =~= d);
    if 0 <= k < d.len() && d[0] == 0x2B && k > 0 {
        assert(d.drop_first()[k - 1] == d[k]);
    }
    if d.len() > 0 && all_digits(d) {
        assert(0x30 <= d[0] <= 0x39);
    }
}

/// The type of a sentence stands in its third to fifth letter: GGA or RMC.
pub proof fn law_kind_of(body: Seq<u8>)
    ensures
        kind_of(body) == Some(Kind::Gga) <==> body.len() >= 5 && body[2] == 0x47 && body[3] == 0x47
            && body[4] == 0x41,
        kind_of(body) == Some(Kind::Rmc) <==> body.len() >= 5 && body[2] == 0x52 && body[3] == 0x4D
            && body[4] == 0x43,
{
}

/// `$` starts a line anew, carriage return and line feed end it, and other bytes
/// are collected, a hundred at most: one more drops the line.
pub proof fn law_line_bytes(line: Option<Seq<u8>>, b: u8)
    ensures
        b == 0x24 ==> line_after(line, b) == Some(Seq::<u8>::empty()),
        b == 0x0D || b == 0x0A ==> line_after(line, b) is None,
        b != 0x24 && b != 0x0D && b != 0x0A ==> (match line {
            Some(l) => if l.len() < 100 {
                line_after(line, b) == Some(l.push(b))
            } else {
                line_after(line, b) is None
            },
            None => line_after(line, b) is None,
        }),
{
}

/// Field `k` of a sentence with these fields; nothing beyond the last.
pub open spec fn text_at(fs: Seq<Seq<u8>>, k: int) -> Seq<u8> {
    if k < fs.len() {
        fs[k]
    } else {
        Seq::empty()
    }
}

/// The effect of a GGA sentence with these fields. A coordinate that was read
/// replaces the old one, whatever that was, with its sign turned exactly by `S`
/// or `W`; the same holds of altitude, dilution (brought into 16 bits) and
/// satellites. There is a fix exactly when the quality is a number from one on.
/// What could not be read stays, and so do speed, course and count.
pub proof fn law_gga_read(d: GpsData, fs: Seq<Seq<u8>>, n: Numbers)
    requires
        fs.len() > 0,
        forall|k: int| 0 <= k < fs.len() ==> comma_free(#[trigger] fs[k]),
    ensures
        ({
            let e = gga(d, joined(fs), n);
            &&& n.lat matches Some(v) ==> (v != i32::MIN ==> e.lat_e7 == if text_at(fs, 3) == seq![0x53u8] {
                -v
            } else {
                v as int
            })
            &&& n.lon matches Some(v) ==> (v != i32::MIN ==> e.lon_e7 == if text_at(fs, 5) == seq![0x57u8] {
                -v
            } else {
                v as int
            })
            &&& n.lat == Some(i32::MIN) ==> e.lat_e7 == i32::MIN
            &&& n.lon == Some(i32::MIN) ==> e.lon_e7 == i32::MIN
            &&& n.lat is None ==> e.lat_e7 == d.lat_e7
            &&& n.lon is None ==> e.lon_e7 == d.lon_e7
            &&& n.altitude matches Some(v) ==> e.alt_mm == v
            &&& n.altitude is None ==> e.alt_mm == d.alt_mm
            &&& n.hdop matches Some(v) ==> e.eph == if v < 0 {
                0
            } else if v > 65535 {
                65535
            } else {
                v as int
            }
            &&& n.hdop is None ==> e.eph == d.eph
            &&& e.fix_type == if whole_number(text_at(fs, 6)) matches Some(q) && q > 0 {
                3int
            } else {
                0
            }
            &&& whole_number(text_at(fs, 7)) matches Some(k) ==> e.sats == k % 256
            &&& whole_number(text_at(fs, 7)) is None ==> e.sats == d.sats
            &&& e.vel_cms == d.vel_cms
            &&& e.cog_cdeg == d.cog_cdeg
            &&& e.sentences == d.sentences
        }),
{
    law_fields_join(fs, 3);
    law_fields_join(fs, 5);
    law_fields_join(fs, 6);
    law_fields_join(fs, 7);
}

/// A GGA sentence with both coordinates sets the position by itself: two
/// solutions before it become one position after it.
pub proof fn law_position_forgets(d: GpsData, e: GpsData, body: Seq<u8>, n: Numbers)
    requires
        n.lat is Some,
        n.lon is Some,
    ensures
        gga(d, body, n).lat_e7 == gga(e, body, n).lat_e7,
        gga(d, body, n).lon_e7 == gga(e, body, n).lon_e7,
        field(body, 3) != Some(seq![0x53u8]) ==> gga(d, body, n).lat_e7 == n.lat->Some_0,
        field(body, 3) == Some(seq![0x53u8]) && n.lat->Some_0 != i32::MIN ==> gga(
            d,
            body,
            n,
        ).lat_e7 == -n.lat->Some_0,
        field(body, 5) != Some(seq![0x57u8]) ==> gga(d, body, n).lon_e7 == n.lon->Some_0,
        field(body, 5) == Some(seq![0x57u8]) && n.lon->Some_0 != i32::MIN ==> gga(
            d,
            body,
            n,
        ).lon_e7 == -n.lon->Some_0,
        n.altitude is Some ==> gga(d, body, n).alt_mm == gga(e, body, n).alt_mm,
        n.hdop is Some ==> gga(d, body, n).eph == gga(e, body, n).eph,
        gga(d, body, n).fix_type == gga(e, body, n).fix_type,
{
}

/// The effect of an RMC sentence: a speed that was read replaces the old one,
/// brought into 16 bits; a course too, zero for a negative one and unknown from a
/// full turn on. What could not be read, and all else, stays.
pub proof fn law_rmc_read(d: GpsData, n: Numbers)
    ensures
        ({
            let e = rmc(d, n);
            &&& n.speed matches Some(v) ==> e.vel_cms == if v < 0 {
                0
            } else if v > 65535 {
                65535
            } else {
                v as int
            }
            &&& n.speed is None ==> e.vel_cms == d.vel_cms
            &&& n.course matches Some(v) ==> e.cog_cdeg == if v < 0 {
                0
            } else if v > 35999 {
                65535
            } else {
                v as int
            }
            &&& n.course is None ==> e.cog_cdeg == d.cog_cdeg
            &&& e.fix_type == d.fix_type
            &&& e.sats == d.sats
            &&& e.lat_e7 == d.lat_e7
            &&& e.lon_e7 == d.lon_e7
            &&& e.alt_mm == d.alt_mm
            &&& e.eph == d.eph
            &&& e.sentences == d.sentences
        }),
{
}

/// The number `v` comes from a text by this conversion; an empty text has none.
pub open spec fn read_from<F: Fn(&[u8], Unit) -> Option<i32>>(
    scaled: F,
    text: Seq<u8>,
    unit: Unit,
    v: Option<i32>,
) -> bool {
    if text.len() == 0 {
        v is None
    } else {
        exists|s: &[u8]| s@ == text && #[trigger] call_ensures(scaled, (s, unit), v)
    }
}

/// The angle `v` comes from a text of which so many digits are degrees and the
/// rest minutes; without its hemisphere, or too short, it has none.
pub open spec fn angle_from<G: Fn(&[u8], &[u8]) -> Option<i32>>(
    angle: G,
    text: Seq<u8>,
    hemisphere: Seq<u8>,
    digits: int,
    v: Option<i32>,
) -> bool {
    if text.len() == 0 || hemisphere.len() == 0 || text.len() < digits {
        v is None
    } else {
        exists|d: &[u8], m: &[u8]|
            d@ == text.subrange(0, digits) && m@ == text.subrange(digits, text.len() as int)
                && #[trigger] call_ensures(angle, (d, m), v)
    }
}

/// Where the numbers of a GGA sentence stand: latitude (two digits of degrees) in
/// field 2 before its hemisphere, longitude (three) in field 4 before its own,
/// the dilution in field 8 in hundredths, the altitude in field 9 in millimetres.
pub proof fn law_gga_numbers<
    F: Fn(&[u8], Unit) -> Option<i32>,
    G: Fn(&[u8], &[u8]) -> Option<i32>,
>(scaled: F, angle: G, fs: Seq<Seq<u8>>, n: Numbers)
    requires
        fs.len() > 0,
        forall|k: int| 0 <= k < fs.len() ==> comma_free(#[trigger] fs[k]),
        numbers_of(scaled, angle, Kind::Gga, joined(fs), n),
    ensures
        angle_from(angle, text_at(fs, 2), text_at(fs, 3), 2, n.lat),
        angle_from(angle, text_at(fs, 4), text_at(fs, 5), 3, n.lon),
        read_from(scaled, text_at(fs, 8), Unit::Centi, n.hdop),
        read_from(scaled, text_at(fs, 9), Unit::Milli, n.altitude),
        n.speed is None,
        n.course is None,
{
    law_fields_join(fs, 2);
    law_fields_join(fs, 3);
    law_fields_join(fs, 4);
    law_fields_join(fs, 5);
    law_fields_join(fs, 8);
    law_fields_join(fs, 9);
    if text_at(fs, 2).len() >= 2 && text_at(fs, 3).len() > 0 {
        assert(text_at(fs, 2).take(2) =~= text_at(fs, 2).subrange(0, 2));
        assert(text_at(fs, 2).skip(2) =~= text_at(fs, 2).subrange(2, text_at(fs, 2).len() as int));
    }
    if text_at(fs, 4).len() >= 3 && text_at(fs, 5).len() > 0 {
        assert(text_at(fs, 4).take(3) =~= text_at(fs, 4).subrange(0, 3));
        assert(text_at(fs, 4).skip(3) =~= text_at(fs, 4).subrange(3, text_at(fs, 4).len() as int));
    }
}

/// Where the numbers of an RMC sentence stand: the speed in field 7, from knots,
/// and the course in field 8, in hundredths.
pub proof fn law_rmc_numbers<
    F: Fn(&[u8], Unit) -> Option<i32>,
    G: Fn(&[u8], &[u8]) -> Option<i32>,
>(scaled: F, angle: G, fs: Seq<Seq<u8>>, n: Numbers)
    requires
        fs.len() > 0,
        forall|k: int| 0 <= k < fs.len() ==> comma_free(#[trigger] fs[k]),
        numbers_of(scaled, angle, Kind::Rmc, joined(fs), n),
    ensures
        read_from(scaled, text_at(fs, 7), Unit::KnotsToCms, n.speed),
        read_from(scaled, text_at(fs, 8), Unit::Centi, n.course),
        n.lat is None,
        n.lon is None,
        n.altitude is None,
        n.hdop is None,
{
    law_fields_join(fs, 7);
    law_fields_join(fs, 8);
}

/// A sentence that arrives whole under its checksum, whatever came before, is
/// decoded at its line end: the solution is the old one with the effect of the
/// sentence and one more counted, and the caller is told. Under another checksum
/// nothing changes.
pub proof fn law_sentence_decoded(
    s: NmeaState,
    body: Seq<u8>,
    hi: u8,
    lo: u8,
    end: u8,
    n: Numbers,
)
    requires
        5 <= body.len() <= 97,
        forall|i: int|
            0 <= i < body.len() ==> #[trigger] body[i] != 0x24 && body[i] != 0x2A && body[i] != 0x0D
                && body[i] != 0x0A,
        hi != 0x24 && hi != 0x0D && hi != 0x0A,
        lo != 0x24 && lo != 0x0D && lo != 0x0A,
        end == 0x0D || end == 0x0A,
    ensures
        ({
            let text = body + seq![0x2Au8, hi, lo];
            let t = NmeaState { line: line_run(s.line, seq![0x24u8] + text), ..s };
            let (u, told) = step(t, end, n);
            let ok = hex_pair(hi, lo) == Some(xor_sum(body));
            let count = (s.data.sentences + 1) % 0x1_0000_0000;
            let is_gga = body[2] == 0x47 && body[3] == 0x47 && body[4] == 0x41;
            let is_rmc = body[2] == 0x52 && body[3] == 0x4D && body[4] == 0x43;
            &&& u.line is None
            &&& told <==> ok && (is_gga || is_rmc)
            &&& !told ==> u.data == s.data
            &&& ok && is_gga ==> u.data == (GpsData {
                sentences: count as u32,
                ..gga(s.data, body, n)
            })
            &&& ok && is_rmc ==> u.data == (GpsData {
                sentences: count as u32,
                ..rmc(s.data, n)
            })
        }),
{
    let text = body + seq![0x2Au8, hi, lo];
    assert forall|i: int| 0 <= i < text.len() implies #[trigger] text[i] != DOLLAR && !ends_line(
        text[i],
    ) by {
        if i < body.len() {
            assert(text[i] == body[i]);
        }
    }
    assert forall|i: int| 0 <= i < body.len() implies body[i] != STAR by {}
    law_sentence_received(s, body, hi, lo, end);
}

/// Before anything was received there is no fix, and dilution and course are
/// unknown.
pub proof fn law_no_solution()
    ensures
        ({
            let d = no_solution();
            &&& d.fix_type == 0
            &&& d.sats == 0
            &&& d.lat_e7 == 0
            &&& d.lon_e7 == 0
            &&& d.alt_mm == 0
            &&& d.eph == 65535
            &&& d.vel_cms == 0
            &&& d.cog_cdeg == 65535
            &&& d.sentences == 0
        }),
{
}

/// Text behind the two digits of the checksum has no effect, and a line without
/// a star, or with fewer than two characters behind it, is no sentence.
pub proof fn law_line_end(body: Seq<u8>, hi: u8, lo: u8, rest: Seq<u8>)
    requires
        forall|i: int| 0 <= i < body.len() ==> body[i] != 0x2A,
    ensures
        sentence(body + seq![0x2Au8, hi, lo] + rest) == sentence(body + seq![0x2Au8, hi, lo]),
        sentence(body) is None,
        sentence(body + seq![0x2Au8]) is None,
        sentence(body + seq![0x2Au8, hi]) is None,
{
    let n = body.len() as int;
    let a = body + seq![0x2Au8, hi, lo] + rest;
    let b = body + seq![0x2Au8, hi, lo];
    lemma_first_star(a, n);
    lemma_first_star(b, n);
    lemma_first_star(body + seq![0x2Au8], n);
    lemma_first_star(body + seq![0x2Au8, hi], n);
    assert(a.take(n) =~= b.take(n));
    lemma_no_star(body);
}

proof fn lemma_no_star(s: Seq<u8>)
    requires
        forall|i: int| 0 <= i < s.len() ==> s[i] != STAR,
    ensures
        star(s) == s.len(),
    decreases s.len(),
{
    if s.len() > 0 {
        assert forall|i: int| 0 <= i < s.drop_first().len() implies s.drop_first()[i] != STAR by {
            assert(s.drop_first()[i] == s[i + 1]);
        }
        lemma_no_star(s.drop_first());
    }
}

} // verus!
