//! NMEA sentences: checksum framing, fields, coordinates and fix quality.
//!
//! One set of bounds for every reader: a quality code outside the defined ones is no
//! fix, coordinates beyond the poles or the date line are refused, and so are clock
//! fields that no clock shows.
use crate::text::{
    all_digits, byte_range, decimal_number, digits_value, is_digit, read_decimal, same_bytes,
    unsigned_part,
};
use vstd::prelude::*;

verus! {

/// Why a sentence was refused.
#[derive(Debug, Clone, Copy, PartialEq, Eq, Structural)]
pub enum NmeaError {
    /// The sentence is not formed as it should be.
    Malformed,
    /// The checksum is not that of the sentence.
    ChecksumMismatch,
    /// The sentence says that there is no fix.
    NoFix,
}

/// The quality of a fix.
#[derive(Debug, Clone, Copy, PartialEq, Eq, Structural)]
pub enum FixQuality {
    NoFix,
    Gps,
    DifferentialGps,
    Pps,
    Rtk,
    FloatRtk,
    Estimated,
    Manual,
    Simulation,
}

/// A position in microdegrees.
#[derive(Debug, Clone, Copy, PartialEq, Eq, Structural)]
pub struct Fix {
    /// Latitude. Positive = North.
    pub lat_udeg: i64,
    /// Longitude. Positive = East.
    pub lon_udeg: i64,
    /// Altitude in millimeters, where the sentence tells it.
    pub altitude_mm: Option<i32>,
    pub quality: FixQuality,
    pub satellite_count: u8,
}

/// A date and time.
#[derive(Debug, Clone, Copy, PartialEq, Eq, Structural)]
pub struct DateTime {
    pub year: u16,
    pub month: u8,
    pub day: u8,
    pub hour: u8,
    pub minute: u8,
    pub second: u8,
}

// ---------------------------------------------------------------------------
// Framing
// ---------------------------------------------------------------------------

/// The value of a hexadecimal digit.
pub open spec fn hex_digit_value(b: u8) -> Option<u8> {
    if 0x30 <= b <= 0x39 {
        Some((b - 0x30) as u8)
    } else if 0x41 <= b <= 0x46 {
        Some((b - 0x37) as u8)
    } else if 0x61 <= b <= 0x66 {
        Some((b - 0x57) as u8)
    } else {
        None
    }
}

/// The value of a hexadecimal digit.
fn read_hex(b: u8) -> (r: Option<u8>)
    ensures
        r == hex_digit_value(b),
        r matches Some(v) ==> v < 16,
{
    if 0x30 <= b && b <= 0x39 {
        Some(b - 0x30)
    } else if 0x41 <= b && b <= 0x46 {
        Some(b - 0x37)
    } else if 0x61 <= b && b <= 0x66 {
        Some(b - 0x57)
    } else {
        None
    }
}

/// The checksum of the body of a sentence: all its bytes, combined bit by bit.
pub open spec fn checksum(body: Seq<u8>) -> u8
    decreases body.len(),
{
    if body.len() == 0 {
        0
    } else {
        checksum(body.drop_last()) ^ body.last()
    }
}

/// Compute the checksum of the body of a sentence.
pub fn compute_checksum(body: &[u8]) -> (r: u8)
    ensures
        r == checksum(body@),
{
    let mut sum: u8 = 0;
    let mut i: usize = 0;
    while i < body.len()
        invariant
            i <= body@.len(),
            sum == checksum(body@.take(i as int)),
        decreases body@.len() - i,
    {
        assert(body@.take(i + 1).drop_last() =~= body@.take(i as int));
        sum = sum ^ body[i];
        i += 1;
    }
    assert(body@.take(i as int) =~= body@);
    sum
}

/// The body of a sentence `$body*HH`, where HH is its checksum in exactly two
/// hexadecimal digits.
pub open spec fn body_of(s: Seq<u8>) -> Result<Seq<u8>, NmeaError> {
    let n = s.len();
    if n < 4 || s[0] != 0x24 || s[n - 3] != 0x2A {
        Err(NmeaError::Malformed)
    } else {
        match (hex_digit_value(s[n - 2]), hex_digit_value(s[n - 1])) {
            (Some(high), Some(low)) => if checksum(s.subrange(1, n - 3)) == high * 16 + low {
                Ok(s.subrange(1, n - 3))
            } else {
                Err(NmeaError::ChecksumMismatch)
            },
            _ => Err(NmeaError::Malformed),
        }
    }
}

/// Check the framing of a sentence and give its body.
pub fn check_frame(sentence: &[u8]) -> (r: Result<&[u8], NmeaError>)
    ensures
        match r {
            Ok(body) => body_of(sentence@) == Ok::<Seq<u8>, NmeaError>(body@),
            Err(e) => body_of(sentence@) == Err::<Seq<u8>, NmeaError>(e),
        },
{
    let n: usize = sentence.len();
    if n < 4 || sentence[0] != 0x24 || sentence[n - 3] != 0x2A {
        return Err(NmeaError::Malformed);
    }
    let high: u8 = match read_hex(sentence[n - 2]) {
        Some(v) => v,
        None => {
            return Err(NmeaError::Malformed);
        },
    };
    let low: u8 = match read_hex(sentence[n - 1]) {
        Some(v) => v,
        None => {
            return Err(NmeaError::Malformed);
        },
    };
    let body = byte_range(sentence, 1, n - 3);
    if compute_checksum(body) == high * 16 + low {
        Ok(body)
    } else {
        Err(NmeaError::ChecksumMismatch)
    }
}

// ---------------------------------------------------------------------------
// Fields
// ---------------------------------------------------------------------------

/// The fields of a body: what stands between commas.
pub open spec fn fields_of(body: Seq<u8>) -> Seq<Seq<u8>>
    decreases body.len(),
{
    if body.len() == 0 {
        seq![Seq::empty()]
    } else {
        let before = fields_of(body.drop_last());
        if body.last() == 0x2C {
            before.push(Seq::empty())
        } else {
            before.update(before.len() - 1, before.last().push(body.last()))
        }
    }
}

/// The bytes of each field.
pub open spec fn contents(fields: Seq<Vec<u8>>) -> Seq<Seq<u8>> {
    Seq::new(fields.len(), |i: int| fields[i]@)
}

/// Split a body into its fields.
pub fn split_fields(body: &[u8]) -> (r: Vec<Vec<u8>>)
    ensures
        contents(r@) == fields_of(body@),
        r@.len() >= 1,
{
    let mut done: Vec<Vec<u8>> = Vec::new();
    let mut current: Vec<u8> = Vec::new();
    let mut i: usize = 0;
    assert(body@.take(0) =~= Seq::<u8>::empty());
    assert(contents(done@).push(current@) =~= seq![Seq::<u8>::empty()]);
    while i < body.len()
        invariant
            i <= body@.len(),
            fields_of(body@.take(i as int)) == contents(done@).push(current@),
        decreases body@.len() - i,
    {
        let b: u8 = body[i];
        let ghost before = contents(done@);
        let ghost word = current@;
        proof {
            assert(body@.take(i + 1).drop_last() =~= body@.take(i as int));
            assert(body@.take(i + 1).last() == b);
        }
        if b == 0x2C {
            done.push(current);
            current = Vec::new();
            assert(contents(done@) =~= before.push(word));
            assert(current@ =~= Seq::<u8>::empty());
        } else {
            current.push(b);
            assert(before.push(word).update(before.len() as int, word.push(b)) =~= before.push(
                word.push(b),
            ));
        }
        i += 1;
    }
    assert(body@.take(i as int) =~= body@);
    let ghost before = contents(done@);
    let ghost word = current@;
    done.push(current);
    assert(contents(done@) =~= before.push(word));
    done
}

/// Whether every byte is a digit.
fn only_digits(s: &[u8]) -> (r: bool)
    ensures
        r == all_digits(s@),
{
    let mut i: usize = 0;
    while i < s.len()
        invariant
            i <= s@.len(),
            forall|j: int| 0 <= j < i ==> is_digit(#[trigger] s@[j]),
        decreases s@.len() - i,
    {
        if s[i] < 0x30 || s[i] > 0x39 {
            assert(!is_digit(s@[i as int]));
            return false;
        }
        i += 1;
    }
    true
}

/// The number that digits stand for, where there is at least one and the number is
/// not larger than a limit.
pub open spec fn whole_number(s: Seq<u8>, max: int) -> Option<int> {
    if s.len() > 0 && all_digits(s) && digits_value(s) <= max {
        Some(digits_value(s) as int)
    } else {
        None
    }
}

/// Read a whole number.
fn read_whole(s: &[u8], max: u64) -> (r: Option<u64>)
    ensures
        match whole_number(s@, max as int) {
            Some(n) => r is Some && r->0 == n,
            None => r is None,
        },
{
    if s.len() == 0 || !only_digits(s) {
        return None;
    }
    proof {
        assert(is_digit(s@[0]));
        assert(unsigned_part(s@) == s@);
        assert(decimal_number(s@) == Some(digits_value(s@)));
    }
    read_decimal(s, max)
}

/// Decimals as a multiple of the smallest step of a scale: each digit counts for its
/// place, and digits beyond the scale are dropped.
pub open spec fn scaled(digits: Seq<u8>, scale: int) -> int
    decreases digits.len(),
{
    if digits.len() == 0 || scale < 1 {
        0
    } else {
        (digits[0] - 0x30) * scale + scaled(digits.drop_first(), scale / 10)
    }
}

proof fn lemma_scaled(digits: Seq<u8>, scale: int)
    requires
        all_digits(digits),
        scale <= 100_000,
    ensures
        0 <= scaled(digits, scale) <= 10 * scale || (scale < 1 && scaled(digits, scale) == 0),
        scale >= 1 ==> scaled(digits, scale) < 10 * scale,
    decreases digits.len(),
{
    if digits.len() > 0 && scale >= 1 {
        let rest = digits.drop_first();
        assert forall|i: int| 0 <= i < rest.len() implies is_digit(#[trigger] rest[i]) by {
            assert(rest[i] == digits[i + 1]);
        }
        lemma_scaled(rest, scale / 10);
        assert(is_digit(digits[0]));
        let d = digits[0] - 0x30;
        assert(0 <= d * scale <= 9 * scale) by (nonlinear_arith)
            requires
                0 <= d <= 9,
                scale >= 1,
        ;
    }
}

/// The decimals behind a whole part: none, or a point and digits.
pub open spec fn decimals(rest: Seq<u8>, scale: int) -> Option<int> {
    if rest.len() == 0 {
        Some(0)
    } else if rest[0] == 0x2E && all_digits(rest.drop_first()) {
        Some(scaled(rest.drop_first(), scale))
    } else {
        None
    }
}

/// Read the decimals behind a whole part.
fn read_decimals(rest: &[u8], scale: u64) -> (r: Option<u64>)
    requires
        1 <= scale <= 100_000,
    ensures
        match decimals(rest@, scale as int) {
            Some(n) => r is Some && r->0 == n && n < 10 * scale,
            None => r is None,
        },
{
    if rest.len() == 0 {
        return Some(0);
    }
    if rest[0] != 0x2E {
        return None;
    }
    let digits = byte_range(rest, 1, rest.len());
    assert(digits@ =~= rest@.drop_first());
    if !only_digits(digits) {
        return None;
    }
    proof {
        lemma_scaled(digits@, scale as int);
    }
    let mut total: u64 = 0;
    let mut place: u64 = scale;
    let mut i: usize = 0;
    assert(digits@.skip(0) =~= digits@);
    while i < digits.len() && place >= 1
        invariant
            i <= digits@.len(),
            all_digits(digits@),
            place <= 100_000,
            scale <= 100_000,
            total + scaled(digits@.skip(i as int), place as int) == scaled(digits@, scale as int),
            scaled(digits@, scale as int) < 10 * scale,
        decreases digits@.len() - i,
    {
        assert(is_digit(digits@[i as int]));
        let ghost rest_digits = digits@.skip(i as int);
        let d: u64 = (digits[i] - 0x30) as u64;
        proof {
            assert(rest_digits[0] == digits@[i as int]);
            assert(rest_digits.drop_first() =~= digits@.skip(i + 1));
            assert forall|j: int| 0 <= j < rest_digits.drop_first().len() implies is_digit(
                #[trigger] rest_digits.drop_first()[j],
            ) by {
                assert(rest_digits.drop_first()[j] == digits@[i + 1 + j]);
            }
            lemma_scaled(rest_digits.drop_first(), place as int / 10);
            assert(0 <= d * place <= 900_000) by (nonlinear_arith)
                requires
                    0 <= d <= 9,
                    0 <= place <= 100_000,
            ;
        }
        total = total + d * place;
        place = place / 10;
        i += 1;
    }
    Some(total)
}

/// An angle in microdegrees: whole degrees in a number of digits, then minutes in two
/// digits, with decimals.
pub open spec fn angle(f: Seq<u8>, degree_digits: int) -> Option<int> {
    if f.len() < degree_digits + 2 {
        None
    } else {
        match (
            whole_number(f.take(degree_digits), 999),
            whole_number(f.subrange(degree_digits, degree_digits + 2), 59),
            decimals(f.skip(degree_digits + 2), 100_000),
        ) {
            (Some(degrees), Some(minutes), Some(fraction)) => Some(
                degrees * 1_000_000 + (minutes * 1_000_000 + fraction) / 60,
            ),
            _ => None,
        }
    }
}

/// Read an angle in microdegrees.
fn read_angle(f: &[u8], degree_digits: usize) -> (r: Option<i64>)
    requires
        1 <= degree_digits <= 3,
    ensures
        match angle(f@, degree_digits as int) {
            Some(n) => r is Some && r->0 == n && 0 <= n <= 1_000_000_000,
            None => r is None,
        },
{
    if f.len() < degree_digits + 2 {
        return None;
    }
    let head = byte_range(f, 0, degree_digits);
    let mid = byte_range(f, degree_digits, degree_digits + 2);
    let tail = byte_range(f, degree_digits + 2, f.len());
    assert(head@ =~= f@.take(degree_digits as int));
    assert(tail@ =~= f@.skip(degree_digits + 2));
    match (read_whole(head, 999), read_whole(mid, 59), read_decimals(tail, 100_000)) {
        (Some(degrees), Some(minutes), Some(fraction)) => {
            let udeg: u64 = degrees * 1_000_000 + (minutes * 1_000_000 + fraction) / 60;
            Some(udeg as i64)
        },
        _ => None,
    }
}

/// A coordinate in microdegrees: an angle and a hemisphere, within a limit.
pub open spec fn coordinate(
    f: Seq<u8>,
    hemisphere: Seq<u8>,
    degree_digits: int,
    positive: u8,
    negative: u8,
    limit: int,
) -> Option<int> {
    match angle(f, degree_digits) {
        Some(udeg) => if udeg > limit {
            None
        } else if hemisphere == seq![positive] {
            Some(udeg)
        } else if hemisphere == seq![negative] {
            Some(-udeg)
        } else {
            None
        },
        None => None,
    }
}

/// Read a coordinate in microdegrees.
fn read_coordinate(
    f: &[u8],
    hemisphere: &[u8],
    degree_digits: usize,
    positive: u8,
    negative: u8,
    limit: i64,
) -> (r: Option<i64>)
    requires
        1 <= degree_digits <= 3,
    ensures
        match coordinate(
            f@,
            hemisphere@,
            degree_digits as int,
            positive,
            negative,
            limit as int,
        ) {
            Some(n) => r is Some && r->0 == n,
            None => r is None,
        },
{
    let udeg: i64 = match read_angle(f, degree_digits) {
        Some(v) => v,
        None => {
            return None;
        },
    };
    if udeg > limit || hemisphere.len() != 1 {
        return None;
    }
    assert(hemisphere@ =~= seq![hemisphere@[0]]);
    proof {
        assert(seq![positive][0] == positive);
        assert(seq![negative][0] == negative);
    }
    if hemisphere[0] == positive {
        Some(udeg)
    } else if hemisphere[0] == negative {
        Some(-udeg)
    } else {
        None
    }
}

/// The latitude of a field and its hemisphere.
pub open spec fn latitude(f: Seq<u8>, hemisphere: Seq<u8>) -> Option<int> {
    coordinate(f, hemisphere, 2, 0x4E, 0x53, 90_000_000)
}

/// The longitude of a field and its hemisphere.
pub open spec fn longitude(f: Seq<u8>, hemisphere: Seq<u8>) -> Option<int> {
    coordinate(f, hemisphere, 3, 0x45, 0x57, 180_000_000)
}

/// An altitude in millimeters: a number of meters with an optional minus sign and
/// decimals, or `None` where the field is absent or malformed, or the number too large.
pub open spec fn altitude(f: Seq<u8>) -> Option<i32> {
    let negative = f.len() > 0 && f[0] == 0x2D;
    let plain = if negative {
        f.drop_first()
    } else {
        f
    };
    let point = point_of(plain, 0);
    match (whole_number(plain.take(point), 2_147_483), decimals(plain.skip(point), 100)) {
        (Some(meters), Some(fraction)) => {
            let mm = if negative {
                -(meters * 1000 + fraction)
            } else {
                meters * 1000 + fraction
            };
            if i32::MIN <= mm <= i32::MAX {
                Some(mm as i32)
            } else {
                None
            }
        },
        _ => None,
    }
}

/// The position of the first point from `from` on, or the end.
pub open spec fn point_of(s: Seq<u8>, from: int) -> int
    decreases s.len() - from,
{
    if from < 0 || from >= s.len() {
        s.len() as int
    } else if s[from] == 0x2E {
        from
    } else {
        point_of(s, from + 1)
    }
}

/// Read an altitude in millimeters.
fn read_altitude(f: &[u8]) -> (r: Option<i32>)
    ensures
        r == altitude(f@),
{
    let negative: bool = f.len() > 0 && f[0] == 0x2D;
    let start: usize = if negative {
        1
    } else {
        0
    };
    let plain = byte_range(f, start, f.len());
    assert(plain@ =~= if negative {
        f@.drop_first()
    } else {
        f@
    });
    let mut point: usize = 0;
    while point < plain.len() && plain[point] != 0x2E
        invariant
            point <= plain@.len(),
            point_of(plain@, 0) == point_of(plain@, point as int),
        decreases plain@.len() - point,
    {
        point += 1;
    }
    let whole = byte_range(plain, 0, point);
    let rest = byte_range(plain, point, plain.len());
    assert(whole@ =~= plain@.take(point as int));
    assert(rest@ =~= plain@.skip(point as int));
    match (read_whole(whole, 2_147_483), read_decimals(rest, 100)) {
        (Some(meters), Some(fraction)) => {
            let size: i64 = (meters * 1000 + fraction) as i64;
            let mm: i64 = if negative {
                -size
            } else {
                size
            };
            if i32::MIN as i64 <= mm && mm <= i32::MAX as i64 {
                Some(mm as i32)
            } else {
                None
            }
        },
        _ => None,
    }
}

/// The quality that a code stands for. Codes that are not defined, and fields that
/// are no such number, are no fix.
pub open spec fn quality_of(f: Seq<u8>) -> FixQuality {
    match whole_number(f, 255) {
        Some(n) => if n == 1 {
            FixQuality::Gps
        } else if n == 2 {
            FixQuality::DifferentialGps
        } else if n == 3 {
            FixQuality::Pps
        } else if n == 4 {
            FixQuality::Rtk
        } else if n == 5 {
            FixQuality::FloatRtk
        } else if n == 6 {
            FixQuality::Estimated
        } else if n == 7 {
            FixQuality::Manual
        } else if n == 8 {
            FixQuality::Simulation
        } else {
            FixQuality::NoFix
        },
        None => FixQuality::NoFix,
    }
}

/// Read the quality of a fix.
fn read_quality(f: &[u8]) -> (r: FixQuality)
    ensures
        r == quality_of(f@),
{
    match read_whole(f, 255) {
        Some(n) => if n == 1 {
            FixQuality::Gps
        } else if n == 2 {
            FixQuality::DifferentialGps
        } else if n == 3 {
            FixQuality::Pps
        } else if n == 4 {
            FixQuality::Rtk
        } else if n == 5 {
            FixQuality::FloatRtk
        } else if n == 6 {
            FixQuality::Estimated
        } else if n == 7 {
            FixQuality::Manual
        } else if n == 8 {
            FixQuality::Simulation
        } else {
            FixQuality::NoFix
        },
        None => FixQuality::NoFix,
    }
}

/// The number of satellites of a field; none where it is no such number.
pub open spec fn satellites(f: Seq<u8>) -> u8 {
    match whole_number(f, 255) {
        Some(n) => n as u8,
        None => 0,
    }
}

/// Whether the type field of a body ends in three letters.
pub open spec fn is_type(f: Seq<u8>, letters: Seq<u8>) -> bool {
    f.len() == 5 && f.skip(2) == letters
}

/// The letters of a GGA sentence.
pub open spec fn gga() -> Seq<u8> {
    seq![0x47u8, 0x47, 0x41]
}

/// The letters of an RMC sentence.
pub open spec fn rmc() -> Seq<u8> {
    seq![0x52u8, 0x4D, 0x43]
}

// ---------------------------------------------------------------------------
// Sentences
// ---------------------------------------------------------------------------

/// The fix that the fields of a GGA sentence tell.
pub open spec fn gga_fix(f: Seq<Seq<u8>>) -> Result<Fix, NmeaError> {
    if f.len() < 10 || !is_type(f[0], gga()) {
        Err(NmeaError::Malformed)
    } else if quality_of(f[6]) == FixQuality::NoFix {
        Err(NmeaError::NoFix)
    } else {
        match (latitude(f[2], f[3]), longitude(f[4], f[5])) {
            (Some(lat), Some(lon)) => Ok(
                Fix {
                    lat_udeg: lat as i64,
                    lon_udeg: lon as i64,
                    altitude_mm: altitude(f[9]),
                    quality: quality_of(f[6]),
                    satellite_count: satellites(f[7]),
                },
            ),
            _ => Err(NmeaError::Malformed),
        }
    }
}

/// The clock that a time field and a date field show: `hhmmss` with decimals and
/// `ddmmyy`, of this century.
pub open spec fn clock(time: Seq<u8>, date: Seq<u8>) -> Option<DateTime> {
    if time.len() < 6 || date.len() != 6 {
        None
    } else {
        match (
            whole_number(time.subrange(0, 2), 23),
            whole_number(time.subrange(2, 4), 59),
            whole_number(time.subrange(4, 6), 59),
            decimals(time.skip(6), 1),
            whole_number(date.subrange(0, 2), 31),
            whole_number(date.subrange(2, 4), 12),
            whole_number(date.subrange(4, 6), 99),
        ) {
            (
                Some(hour),
                Some(minute),
                Some(second),
                Some(_),
                Some(day),
                Some(month),
                Some(year),
            ) => if day == 0 || month == 0 {
                None
            } else {
                Some(
                    DateTime {
                        year: (2000 + year) as u16,
                        month: month as u8,
                        day: day as u8,
                        hour: hour as u8,
                        minute: minute as u8,
                        second: second as u8,
                    },
                )
            },
            _ => None,
        }
    }
}

/// The fix and the time that the fields of an RMC sentence tell. Such a sentence
/// tells neither altitude nor satellites.
pub open spec fn rmc_fix(f: Seq<Seq<u8>>) -> Result<(Fix, DateTime), NmeaError> {
    if f.len() < 10 || !is_type(f[0], rmc()) {
        Err(NmeaError::Malformed)
    } else if f[2] != seq![0x41u8] {
        Err(NmeaError::NoFix)
    } else {
        match (latitude(f[3], f[4]), longitude(f[5], f[6]), clock(f[1], f[9])) {
            (Some(lat), Some(lon), Some(time)) => Ok(
                (
                    Fix {
                        lat_udeg: lat as i64,
                        lon_udeg: lon as i64,
                        altitude_mm: None,
                        quality: FixQuality::Gps,
                        satellite_count: 0,
                    },
                    time,
                ),
            ),
            _ => Err(NmeaError::Malformed),
        }
    }
}

/// What a GGA sentence tells.
pub open spec fn gga_reading(sentence: Seq<u8>) -> Result<Fix, NmeaError> {
    match body_of(sentence) {
        Ok(body) => gga_fix(fields_of(body)),
        Err(e) => Err(e),
    }
}

/// What an RMC sentence tells.
pub open spec fn rmc_reading(sentence: Seq<u8>) -> Result<(Fix, DateTime), NmeaError> {
    match body_of(sentence) {
        Ok(body) => rmc_fix(fields_of(body)),
        Err(e) => Err(e),
    }
}

/// Whether the type field of a body ends in three letters.
fn has_type(f: &[u8], letters: &[u8; 3]) -> (r: bool)
    ensures
        r == is_type(f@, letters@),
{
    if f.len() != 5 {
        return false;
    }
    let tail = byte_range(f, 2, 5);
    assert(tail@ =~= f@.skip(2));
    same_bytes(tail, letters.as_slice())
}

/// Read the clock of a time field and a date field.
fn read_clock(time: &[u8], date: &[u8]) -> (r: Option<DateTime>)
    ensures
        r == clock(time@, date@),
{
    if time.len() < 6 || date.len() != 6 {
        return None;
    }
    let tail = byte_range(time, 6, time.len());
    assert(tail@ =~= time@.skip(6));
    let hour = read_whole(byte_range(time, 0, 2), 23);
    let minute = read_whole(byte_range(time, 2, 4), 59);
    let second = read_whole(byte_range(time, 4, 6), 59);
    let rest = read_decimals(tail, 1);
    let day = read_whole(byte_range(date, 0, 2), 31);
    let month = read_whole(byte_range(date, 2, 4), 12);
    let year = read_whole(byte_range(date, 4, 6), 99);
    match (hour, minute, second, rest, day, month, year) {
        (
            Some(hour),
            Some(minute),
            Some(second),
            Some(_),
            Some(day),
            Some(month),
            Some(year),
        ) => if day == 0 || month == 0 {
            None
        } else {
            Some(
                DateTime {
                    year: 2000 + year as u16,
                    month: month as u8,
                    day: day as u8,
                    hour: hour as u8,
                    minute: minute as u8,
                    second: second as u8,
                },
            )
        },
        _ => None,
    }
}

/// Read a GGA sentence (fix data).
pub fn read_gga(sentence: &[u8]) -> (r: Result<Fix, NmeaError>)
    ensures
        r == gga_reading(sentence@),
{
    let body = match check_frame(sentence) {
        Ok(body) => body,
        Err(e) => {
            return Err(e);
        },
    };
    let f = split_fields(body);
    let ghost all = fields_of(body@);
    assert(all.len() == f@.len());
    assert(forall|i: int| 0 <= i < f@.len() ==> #[trigger] all[i] == f@[i]@);
    let letters: [u8; 3] = [0x47, 0x47, 0x41];
    assert(letters@ =~= gga());
    if f.len() < 10 || !has_type(f[0].as_slice(), &letters) {
        return Err(NmeaError::Malformed);
    }
    let quality = read_quality(f[6].as_slice());
    if quality == FixQuality::NoFix {
        return Err(NmeaError::NoFix);
    }
    let lat = read_coordinate(f[2].as_slice(), f[3].as_slice(), 2, 0x4E, 0x53, 90_000_000);
    let lon = read_coordinate(f[4].as_slice(), f[5].as_slice(), 3, 0x45, 0x57, 180_000_000);
    let satellite_count: u8 = match read_whole(f[7].as_slice(), 255) {
        Some(n) => n as u8,
        None => 0,
    };
    match (lat, lon) {
        (Some(lat), Some(lon)) => Ok(
            Fix {
                lat_udeg: lat,
                lon_udeg: lon,
                altitude_mm: read_altitude(f[9].as_slice()),
                quality,
                satellite_count,
            },
        ),
        _ => Err(NmeaError::Malformed),
    }
}

/// Read an RMC sentence (recommended minimum).
pub fn read_rmc(sentence: &[u8]) -> (r: Result<(Fix, DateTime), NmeaError>)
    ensures
        r == rmc_reading(sentence@),
{
    let body = match check_frame(sentence) {
        Ok(body) => body,
        Err(e) => {
            return Err(e);
        },
    };
    let f = split_fields(body);
    let ghost all = fields_of(body@);
    assert(all.len() == f@.len());
    assert(forall|i: int| 0 <= i < f@.len() ==> #[trigger] all[i] == f@[i]@);
    let letters: [u8; 3] = [0x52, 0x4D, 0x43];
    assert(letters@ =~= rmc());
    if f.len() < 10 || !has_type(f[0].as_slice(), &letters) {
        return Err(NmeaError::Malformed);
    }
    let active: [u8; 1] = [0x41];
    assert(active@ =~= seq![0x41u8]);
    if !same_bytes(f[2].as_slice(), active.as_slice()) {
        return Err(NmeaError::NoFix);
    }
    let lat = read_coordinate(f[3].as_slice(), f[4].as_slice(), 2, 0x4E, 0x53, 90_000_000);
    let lon = read_coordinate(f[5].as_slice(), f[6].as_slice(), 3, 0x45, 0x57, 180_000_000);
    let time = read_clock(f[1].as_slice(), f[9].as_slice());
    match (lat, lon, time) {
        (Some(lat), Some(lon), Some(time)) => Ok(
            (
                Fix {
                    lat_udeg: lat,
                    lon_udeg: lon,
                    altitude_mm: None,
                    quality: FixQuality::Gps,
                    satellite_count: 0,
                },
                time,
            ),
        ),
        _ => Err(NmeaError::Malformed),
    }
}

// ---------------------------------------------------------------------------
// Laws
// ---------------------------------------------------------------------------

/// Law: a position that is accepted lies on the globe, and a fix that is accepted has
/// a defined quality.
pub proof fn law_accepted_fixes_are_bounded(sentence: Seq<u8>)
    ensures
        gga_reading(sentence) matches Ok(fix) ==> -90_000_000 <= fix.lat_udeg <= 90_000_000
            && -180_000_000 <= fix.lon_udeg <= 180_000_000 && fix.quality != FixQuality::NoFix,
        rmc_reading(sentence) matches Ok((fix, time)) ==> -90_000_000 <= fix.lat_udeg <= 90_000_000
            && -180_000_000 <= fix.lon_udeg <= 180_000_000,
{
    if let Ok(body) = body_of(sentence) {
        let f = fields_of(body);
        if f.len() >= 10 {
            lemma_coordinate(f[2], f[3], 2, 0x4E, 0x53, 90_000_000);
            lemma_coordinate(f[4], f[5], 3, 0x45, 0x57, 180_000_000);
            lemma_coordinate(f[3], f[4], 2, 0x4E, 0x53, 90_000_000);
            lemma_coordinate(f[5], f[6], 3, 0x45, 0x57, 180_000_000);
        }
    }
}

proof fn lemma_coordinate(
    f: Seq<u8>,
    hemisphere: Seq<u8>,
    degree_digits: int,
    positive: u8,
    negative: u8,
    limit: int,
)
    requires
        1 <= degree_digits <= 3,
    ensures
        coordinate(f, hemisphere, degree_digits, positive, negative, limit) matches Some(v)
            ==> -limit <= v <= limit,
{
    if angle(f, degree_digits) is Some {
        let rest = f.skip(degree_digits + 2);
        if rest.len() > 0 {
            lemma_scaled(rest.drop_first(), 100_000);
        }
    }
}

/// Law: a clock that is accepted shows a time of day, a month and a day of the month.
pub proof fn law_accepted_clocks_are_valid(sentence: Seq<u8>)
    ensures
        rmc_reading(sentence) matches Ok((fix, time)) ==> time.hour < 24 && time.minute < 60
            && time.second < 60 && 1 <= time.month <= 12 && 1 <= time.day <= 31 && 2000
            <= time.year <= 2099,
{
}

/// Law: a change of one byte of the body is always detected: the sentence is refused
/// with the old checksum.
pub proof fn law_checksum_detects_one_changed_byte(body: Seq<u8>, at: int, b: u8)
    requires
        0 <= at < body.len(),
        b != body[at],
    ensures
        checksum(body.update(at, b)) != checksum(body),
    decreases body.len(),
{
    let changed = body.update(at, b);
    if at == body.len() - 1 {
        assert(changed.drop_last() =~= body.drop_last());
        let s = checksum(body.drop_last());
        let old_byte = body.last();
        assert((s ^ b) != (s ^ old_byte)) by (bit_vector)
            requires
                b != old_byte,
        ;
    } else {
        assert(changed.drop_last() =~= body.drop_last().update(at, b));
        law_checksum_detects_one_changed_byte(body.drop_last(), at, b);
        let s = checksum(body.drop_last());
        let t = checksum(changed.drop_last());
        let l = body.last();
        assert((s ^ l) != (t ^ l)) by (bit_vector)
            requires
                s != t,
        ;
    }
}

} // verus!
