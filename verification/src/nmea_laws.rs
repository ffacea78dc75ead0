//! What the GPS receiver makes of the bytes of a sentence.
use crate::gps::{gga_result, rmc_result, GpsError, GpsPosition, GpsTime};
use crate::json_text_laws::is_hex;
use crate::nmea::{
    altitude, angle, body_of, checksum, clock, decimals, fields_of, gga, gga_reading, is_type,
    latitude, longitude, point_of, quality_of, rmc, rmc_reading, satellites, scaled, whole_number,
    FixQuality, NmeaError,
};
use crate::text::{all_digits, decimal, is_digit};
use crate::text_laws::{law_decimal_reads_back, law_digits_count_for_their_place};
use vstd::prelude::*;

verus! {

// ---------------------------------------------------------------------------
// Frames
// ---------------------------------------------------------------------------

/// The hexadecimal digit of a number below sixteen.
pub open spec fn hex_char(n: int) -> u8 {
    if n < 10 {
        (0x30 + n) as u8
    } else {
        (0x37 + n) as u8
    }
}

/// A sentence on the wire: a dollar sign, the body, a star and two hexadecimal digits.
pub open spec fn sentence_of(body: Seq<u8>, sum: u8) -> Seq<u8> {
    seq![0x24u8] + body + seq![0x2Au8, hex_char(sum as int / 16), hex_char(sum as int % 16)]
}

/// Law: the checksum combines the bytes of the body bit by bit: of one byte it is the byte,
/// and of two pieces the exclusive or of theirs.
pub proof fn law_checksum_is_the_exclusive_or(a: Seq<u8>, b: Seq<u8>)
    ensures
        checksum(a + b) == checksum(a) ^ checksum(b),
        b.len() == 0 ==> checksum(b) == 0,
        b.len() == 1 ==> checksum(b) == b[0],
    decreases b.len(),
{
    if b.len() == 0 {
        assert(a + b =~= a);
        let s = checksum(a);
        assert(s ^ 0u8 == s) by (bit_vector);
    } else {
        assert((a + b).drop_last() =~= a + b.drop_last());
        law_checksum_is_the_exclusive_or(a, b.drop_last());
        let s = checksum(a);
        let t = checksum(b.drop_last());
        let l = b.last();
        assert((s ^ t) ^ l == s ^ (t ^ l)) by (bit_vector);
        assert(0u8 ^ l == l) by (bit_vector);
    }
}

/// Law: a sentence gives its body where the digits are those of its checksum; with any
/// other two digits it is refused as damaged.
pub proof fn law_frames_are_checked(body: Seq<u8>, sum: u8)
    ensures
        body_of(sentence_of(body, sum)) == (if sum == checksum(body) {
            Ok::<Seq<u8>, NmeaError>(body)
        } else {
            Err::<Seq<u8>, NmeaError>(NmeaError::ChecksumMismatch)
        }),
{
    let s = sentence_of(body, sum);
    let n = s.len();
    assert(s.subrange(1, n - 3) =~= body);
    assert(s[n - 3] == 0x2A);
    assert(s[n - 2] == hex_char(sum as int / 16));
    assert(s[n - 1] == hex_char(sum as int % 16));
}

/// Law: the two digits behind the star may be capitals or small letters; they are compared with
/// the checksum as the number they stand for.
pub proof fn law_checksum_digits_have_either_case(
    body: Seq<u8>,
    a: u8,
    b: u8,
    high: int,
    low: int,
)
    requires
        is_hex(a, high),
        is_hex(b, low),
    ensures
        body_of(seq![0x24u8] + body + seq![0x2Au8, a, b]) == (if 16 * high + low == checksum(body) {
            Ok::<Seq<u8>, NmeaError>(body)
        } else {
            Err::<Seq<u8>, NmeaError>(NmeaError::ChecksumMismatch)
        }),
{
    let s = seq![0x24u8] + body + seq![0x2Au8, a, b];
    let n = s.len();
    assert(s.subrange(1, n - 3) =~= body);
    assert(s[0] == 0x24);
    assert(s[n - 3] == 0x2A);
    assert(s[n - 2] == a);
    assert(s[n - 1] == b);
}

/// Law: what is accepted as a sentence is a dollar sign, the body, a star and two digits.
pub proof fn law_only_frames_are_read(s: Seq<u8>)
    ensures
        body_of(s) matches Ok(body) ==> s.len() == body.len() + 4 && s[0] == 0x24 && s[s.len() - 3]
            == 0x2A && s.subrange(1, s.len() - 3) == body,
        body_of(s) is Err ==> gga_reading(s) is Err && rmc_reading(s) is Err,
{
}

// ---------------------------------------------------------------------------
// Fields
// ---------------------------------------------------------------------------

/// Fields with commas between them.
pub open spec fn comma_joined(fields: Seq<Seq<u8>>) -> Seq<u8>
    decreases fields.len(),
{
    if fields.len() == 0 {
        Seq::empty()
    } else if fields.len() == 1 {
        fields[0]
    } else {
        comma_joined(fields.drop_last()) + seq![0x2Cu8] + fields.last()
    }
}

/// Whether no field has a comma in it.
pub open spec fn are_fields(fields: Seq<Seq<u8>>) -> bool {
    forall|i: int, j: int|
        0 <= i < fields.len() && 0 <= j < fields[i].len() ==> #[trigger] fields[i][j] != 0x2C
}

proof fn lemma_field_goes_on(body: Seq<u8>, more: Seq<u8>)
    requires
        forall|j: int| 0 <= j < more.len() ==> #[trigger] more[j] != 0x2C,
    ensures
        fields_of(body).len() >= 1,
        fields_of(body + more) == fields_of(body).update(
            fields_of(body).len() - 1,
            fields_of(body).last() + more,
        ),
    decreases more.len(), body.len(),
{
    lemma_some_field(body);
    let f = fields_of(body);
    if more.len() == 0 {
        assert(body + more =~= body);
        assert(f.last() + more =~= f.last());
        assert(f.update(f.len() - 1, f.last() + more) =~= f);
    } else {
        let less = more.drop_last();
        lemma_field_goes_on(body, less);
        assert((body + more).drop_last() =~= body + less);
        assert((body + more).last() == more.last());
        assert((f.last() + less).push(more.last()) =~= f.last() + more);
        let g = fields_of(body + less);
        assert(g.update(g.len() - 1, g.last().push(more.last())) =~= f.update(
            f.len() - 1,
            f.last() + more,
        ));
    }
}

proof fn lemma_some_field(body: Seq<u8>)
    ensures
        fields_of(body).len() >= 1,
    decreases body.len(),
{
    if body.len() > 0 {
        lemma_some_field(body.drop_last());
    }
}

/// Law: the fields of a body are what stands between its commas.
pub proof fn law_fields_stand_between_commas(fields: Seq<Seq<u8>>)
    requires
        fields.len() >= 1,
        are_fields(fields),
    ensures
        fields_of(comma_joined(fields)) == fields,
    decreases fields.len(),
{
    let last = fields.last();
    assert forall|j: int| 0 <= j < last.len() implies #[trigger] last[j] != 0x2C by {
        assert(fields[fields.len() - 1][j] != 0x2C);
    }
    if fields.len() == 1 {
        lemma_field_goes_on(Seq::empty(), last);
        assert(Seq::<u8>::empty() + last =~= last);
        assert(fields_of(Seq::<u8>::empty()) == seq![Seq::<u8>::empty()]);
        assert(fields_of(last) =~= fields);
    } else {
        let front = fields.drop_last();
        assert forall|i: int, j: int| 0 <= i < front.len() && 0 <= j < front[i].len() implies
            #[trigger] front[i][j] != 0x2C by {
            assert(fields[i][j] != 0x2C);
        }
        law_fields_stand_between_commas(front);
        let b = comma_joined(front);
        let c = b + seq![0x2Cu8];
        assert(c.drop_last() =~= b);
        assert(fields_of(c) == front.push(Seq::empty()));
        lemma_field_goes_on(c, last);
        assert(Seq::<u8>::empty() + last =~= last);
        assert(fields_of(c + last) =~= fields);
    }
}

// ---------------------------------------------------------------------------
// Angles
// ---------------------------------------------------------------------------

/// The digit at a position; beyond the end it is zero.
pub open spec fn digit_at(f: Seq<u8>, i: int) -> int {
    if 0 <= i < f.len() {
        f[i] - 0x30
    } else {
        0
    }
}

/// Whether nothing or a point and digits stand from a position on.
pub open spec fn ends_in_decimals(f: Seq<u8>, from: int) -> bool {
    f.len() == from || (f.len() > from && f[from] == 0x2E && forall|i: int|
        from < i < f.len() ==> is_digit(#[trigger] f[i]))
}

/// Whether a field is an angle: degrees in two or three digits, minutes below sixty in two
/// digits, and decimals.
pub open spec fn is_angle(f: Seq<u8>, width: int) -> bool {
    &&& f.len() >= width + 2
    &&& forall|i: int| 0 <= i < width + 2 ==> is_digit(#[trigger] f[i])
    &&& f[width] <= 0x35
    &&& ends_in_decimals(f, width + 2)
}

/// The whole degrees of an angle.
pub open spec fn whole_degrees(f: Seq<u8>, width: int) -> int {
    if width == 2 {
        10 * digit_at(f, 0) + digit_at(f, 1)
    } else {
        100 * digit_at(f, 0) + 10 * digit_at(f, 1) + digit_at(f, 2)
    }
}

/// The minutes of an angle in millionths.
pub open spec fn minute_millionths(f: Seq<u8>, width: int) -> int {
    let p = width + 3;
    (10 * digit_at(f, width) + digit_at(f, width + 1)) * 1_000_000 + digit_at(f, p) * 100_000
        + digit_at(f, p + 1) * 10_000 + digit_at(f, p + 2) * 1_000 + digit_at(f, p + 3) * 100
        + digit_at(f, p + 4) * 10 + digit_at(f, p + 5)
}

/// The size of an angle in millionths of a degree: a minute is the sixtieth part of one.
pub open spec fn microdegrees(f: Seq<u8>, width: int) -> int {
    whole_degrees(f, width) * 1_000_000 + minute_millionths(f, width) / 60
}

proof fn lemma_scaled_places(d: Seq<u8>)
    requires
        all_digits(d),
    ensures
        scaled(d, 100_000) == digit_at(d, 0) * 100_000 + digit_at(d, 1) * 10_000 + digit_at(d, 2)
            * 1_000 + digit_at(d, 3) * 100 + digit_at(d, 4) * 10 + digit_at(d, 5),
        scaled(d, 100) == digit_at(d, 0) * 100 + digit_at(d, 1) * 10 + digit_at(d, 2),
{
    lemma_scaled_step(d, 100_000);
    lemma_scaled_step(d.drop_first(), 10_000);
    let d2 = d.drop_first().drop_first();
    lemma_scaled_step(d2, 1_000);
    lemma_scaled_step(d2.drop_first(), 100);
    let d4 = d2.drop_first().drop_first();
    lemma_scaled_step(d4, 10);
    lemma_scaled_step(d4.drop_first(), 1);
    lemma_scaled_step(d, 100);
    lemma_scaled_step(d.drop_first(), 10);
    lemma_scaled_step(d2, 1);
    if d.len() <= 5 {
        reveal_with_fuel(scaled, 2);
    }
}

/// One digit of decimals.
proof fn lemma_scaled_step(d: Seq<u8>, scale: int)
    requires
        scale >= 1,
    ensures
        d.len() > 0 ==> scaled(d, scale) == digit_at(d, 0) * scale + scaled(
            d.drop_first(),
            scale / 10,
        ),
        d.len() == 0 ==> scaled(d, scale) == 0,
        scaled(d, 0) == 0,
{
    reveal_with_fuel(scaled, 2);
}

proof fn lemma_decimals(f: Seq<u8>, from: int, scale: int)
    requires
        0 <= from <= f.len(),
    ensures
        decimals(f.skip(from), scale) is Some <==> ends_in_decimals(f, from),
        ends_in_decimals(f, from) && f.len() > from ==> decimals(f.skip(from), scale) == Some(
            scaled(f.skip(from + 1), scale),
        ) && all_digits(f.skip(from + 1)),
        f.len() == from ==> decimals(f.skip(from), scale) == Some(0int),
{
    let rest = f.skip(from);
    if f.len() > from {
        let tail = f.skip(from + 1);
        assert(rest.drop_first() =~= tail);
        assert(rest[0] == f[from]);
        if ends_in_decimals(f, from) {
            assert forall|i: int| 0 <= i < tail.len() implies is_digit(#[trigger] tail[i]) by {
                assert(is_digit(f[from + 1 + i]));
            }
        }
        if all_digits(tail) {
            assert forall|i: int| from < i < f.len() implies is_digit(#[trigger] f[i]) by {
                assert(is_digit(tail[i - from - 1]));
            }
        }
    }
}

/// The number in two digits at a position.
proof fn lemma_two(f: Seq<u8>, from: int, max: int)
    requires
        0 <= from,
        from + 2 <= f.len(),
        max <= 99,
    ensures
        whole_number(f.subrange(from, from + 2), max) == (if is_digit(f[from]) && is_digit(
            f[from + 1],
        ) && 10 * digit_at(f, from) + digit_at(f, from + 1) <= max {
            Some(10 * digit_at(f, from) + digit_at(f, from + 1))
        } else {
            None
        }),
{
    let s = f.subrange(from, from + 2);
    assert(s[0] == f[from] && s[1] == f[from + 1]);
    if is_digit(s[0]) && is_digit(s[1]) {
        assert(all_digits(s));
        law_digits_count_for_their_place(s);
    } else if all_digits(s) {
        assert(is_digit(s[0]) && is_digit(s[1]));
    }
}

proof fn lemma_angle(f: Seq<u8>, width: int)
    requires
        width == 2 || width == 3,
    ensures
        angle(f, width) == (if is_angle(f, width) {
            Some(microdegrees(f, width))
        } else {
            None
        }),
{
    if f.len() >= width + 2 {
        let head = f.take(width);
        lemma_two(f, width, 59);
        lemma_decimals(f, width + 2, 100_000);
        if forall|i: int| 0 <= i < width ==> is_digit(#[trigger] f[i]) {
            assert forall|i: int| 0 <= i < head.len() implies is_digit(#[trigger] head[i]) by {
                assert(is_digit(f[i]));
            }
            law_digits_count_for_their_place(head);
            assert(is_digit(f[0]) && is_digit(f[1]));
            if width == 3 {
                assert(is_digit(f[2]));
            }
            assert(whole_number(head, 999) == Some(whole_degrees(f, width)));
        } else if all_digits(head) {
            assert forall|i: int| 0 <= i < width implies is_digit(#[trigger] f[i]) by {
                assert(is_digit(head[i]));
            }
        }
        if is_angle(f, width) {
            assert(is_digit(f[width]) && is_digit(f[width + 1]));
            if f.len() > width + 2 {
                let tail = f.skip(width + 3);
                lemma_scaled_places(tail);
                assert forall|k: int| 0 <= k implies #[trigger] digit_at(tail, k) == digit_at(
                    f,
                    width + 3 + k,
                ) by {}
                assert(digit_at(tail, 0) == digit_at(f, width + 3));
                assert(digit_at(tail, 1) == digit_at(f, width + 4));
                assert(digit_at(tail, 2) == digit_at(f, width + 5));
                assert(digit_at(tail, 3) == digit_at(f, width + 6));
                assert(digit_at(tail, 4) == digit_at(f, width + 7));
                assert(digit_at(tail, 5) == digit_at(f, width + 8));
            }
        } else if angle(f, width) is Some {
            assert forall|i: int| 0 <= i < width + 2 implies is_digit(#[trigger] f[i]) by {
                if i < width {
                    assert(is_digit(head[i]));
                }
            }
        }
    }
}

/// Whether a field and the letter behind it are a latitude.
pub open spec fn is_latitude(f: Seq<u8>, letter: Seq<u8>) -> bool {
    is_angle(f, 2) && microdegrees(f, 2) <= 90_000_000 && letter.len() == 1 && (letter[0] == 0x4E
        || letter[0] == 0x53)
}

/// Whether a field and the letter behind it are a longitude.
pub open spec fn is_longitude(f: Seq<u8>, letter: Seq<u8>) -> bool {
    is_angle(f, 3) && microdegrees(f, 3) <= 180_000_000 && letter.len() == 1 && (letter[0] == 0x45
        || letter[0] == 0x57)
}

proof fn lemma_positions(lat: Seq<u8>, ns: Seq<u8>, lon: Seq<u8>, ew: Seq<u8>)
    ensures
        latitude(lat, ns) == (if is_latitude(lat, ns) {
            Some(if ns[0] == 0x4E {
                microdegrees(lat, 2)
            } else {
                -microdegrees(lat, 2)
            })
        } else {
            None
        }),
        longitude(lon, ew) == (if is_longitude(lon, ew) {
            Some(if ew[0] == 0x45 {
                microdegrees(lon, 3)
            } else {
                -microdegrees(lon, 3)
            })
        } else {
            None
        }),
        is_latitude(lat, ns) ==> microdegrees(lat, 2) >= 0,
        is_longitude(lon, ew) ==> microdegrees(lon, 3) >= 0,
{
    lemma_angle(lat, 2);
    lemma_angle(lon, 3);
    assert(ns == seq![0x4Eu8] <==> ns.len() == 1 && ns[0] == 0x4E) by {
        if ns.len() == 1 {
            assert(ns =~= seq![ns[0]]);
        }
    }
    assert(ns == seq![0x53u8] <==> ns.len() == 1 && ns[0] == 0x53) by {
        if ns.len() == 1 {
            assert(ns =~= seq![ns[0]]);
        }
    }
    assert(ew == seq![0x45u8] <==> ew.len() == 1 && ew[0] == 0x45) by {
        if ew.len() == 1 {
            assert(ew =~= seq![ew[0]]);
        }
    }
    assert(ew == seq![0x57u8] <==> ew.len() == 1 && ew[0] == 0x57) by {
        if ew.len() == 1 {
            assert(ew =~= seq![ew[0]]);
        }
    }
    if is_angle(lat, 2) {
        lemma_angle_not_negative(lat, 2);
    }
    if is_angle(lon, 3) {
        lemma_angle_not_negative(lon, 3);
    }
}

proof fn lemma_angle_not_negative(f: Seq<u8>, width: int)
    requires
        is_angle(f, width),
        width == 2 || width == 3,
    ensures
        microdegrees(f, width) >= 0,
{
    assert forall|i: int| i != width + 2 implies #[trigger] digit_at(f, i) >= 0 by {
        if 0 <= i < f.len() {
            assert(is_digit(f[i]));
        }
    }
    assert(digit_at(f, 0) >= 0 && digit_at(f, 1) >= 0 && digit_at(f, 2) >= 0 || width == 2);
    assert(digit_at(f, 0) >= 0 && digit_at(f, 1) >= 0);
    assert(digit_at(f, width) >= 0 && digit_at(f, width + 1) >= 0 && digit_at(f, width + 3) >= 0);
    assert(digit_at(f, width + 4) >= 0 && digit_at(f, width + 5) >= 0 && digit_at(f, width + 6)
        >= 0 && digit_at(f, width + 7) >= 0 && digit_at(f, width + 8) >= 0);
}

// ---------------------------------------------------------------------------
// Clocks
// ---------------------------------------------------------------------------

/// The number in two digits at a position of a field.
pub open spec fn pair_at(f: Seq<u8>, i: int) -> int {
    10 * digit_at(f, i) + digit_at(f, i + 1)
}

/// Whether a field is a time of day: hours, minutes and seconds in two digits each, and
/// decimals.
pub open spec fn is_time(f: Seq<u8>) -> bool {
    &&& f.len() >= 6
    &&& forall|i: int| 0 <= i < 6 ==> is_digit(#[trigger] f[i])
    &&& pair_at(f, 0) < 24
    &&& pair_at(f, 2) < 60
    &&& pair_at(f, 4) < 60
    &&& ends_in_decimals(f, 6)
}

/// Whether a field is a date: day, month and year of the century in two digits each.
pub open spec fn is_date(f: Seq<u8>) -> bool {
    &&& f.len() == 6
    &&& forall|i: int| 0 <= i < 6 ==> is_digit(#[trigger] f[i])
    &&& 1 <= pair_at(f, 0) <= 31
    &&& 1 <= pair_at(f, 2) <= 12
}

proof fn lemma_clock(time: Seq<u8>, date: Seq<u8>)
    ensures
        clock(time, date) is Some <==> is_time(time) && is_date(date),
        clock(time, date) matches Some(t) ==> t.hour == pair_at(time, 0) && t.minute == pair_at(
            time,
            2,
        ) && t.second == pair_at(time, 4) && t.day == pair_at(date, 0) && t.month == pair_at(
            date,
            2,
        ) && t.year == 2000 + pair_at(date, 4),
{
    if time.len() >= 6 && date.len() == 6 {
        lemma_two(time, 0, 23);
        lemma_two(time, 2, 59);
        lemma_two(time, 4, 59);
        lemma_decimals(time, 6, 1);
        lemma_two(date, 0, 31);
        lemma_two(date, 2, 12);
        lemma_two(date, 4, 99);
        if is_time(time) && is_date(date) {
            assert(is_digit(time[0]) && is_digit(time[1]) && is_digit(time[2]) && is_digit(time[3])
                && is_digit(time[4]) && is_digit(time[5]));
            assert(is_digit(date[0]) && is_digit(date[1]) && is_digit(date[2]) && is_digit(date[3])
                && is_digit(date[4]) && is_digit(date[5]));
        }
    }
}

// ---------------------------------------------------------------------------
// Sentences
// ---------------------------------------------------------------------------

/// The sentence that fields make up, with its checksum.
pub open spec fn sealed_fields(f: Seq<Seq<u8>>) -> Seq<u8> {
    sentence_of(comma_joined(f), checksum(comma_joined(f)))
}

/// Whether a field ends in three letters behind two others.
pub open spec fn names(f: Seq<u8>, a: u8, b: u8, c: u8) -> bool {
    f.len() == 5 && f[2] == a && f[3] == b && f[4] == c
}

proof fn lemma_names(f: Seq<u8>)
    ensures
        is_type(f, gga()) <==> names(f, 0x47, 0x47, 0x41),
        is_type(f, rmc()) <==> names(f, 0x52, 0x4D, 0x43),
{
    if f.len() == 5 {
        let t = f.skip(2);
        assert(t =~= seq![f[2], f[3], f[4]]);
        assert(gga()[0] == 0x47 && gga()[1] == 0x47 && gga()[2] == 0x41);
        assert(rmc()[0] == 0x52 && rmc()[1] == 0x4D && rmc()[2] == 0x43);
        if names(f, 0x47, 0x47, 0x41) {
            assert(t =~= gga());
        }
        if names(f, 0x52, 0x4D, 0x43) {
            assert(t =~= rmc());
        }
    }
}

/// Law: an RMC sentence is accepted exactly where it is active and its position, time and
/// date are well-formed. North and East count as positive, South and West as negative: the
/// letter gives the sign and the digits the amount. Time and date are the digits in pairs.
/// One that is not active has no fix; anything else is refused.
pub proof fn law_rmc_tells_position_and_time(f: Seq<Seq<u8>>)
    requires
        f.len() >= 10,
        are_fields(f),
        names(f[0], 0x52, 0x4D, 0x43),
    ensures
        f[2] != seq![0x41u8] ==> rmc_result(sealed_fields(f)) == Err::<
            (GpsPosition, GpsTime),
            GpsError,
        >(GpsError::NoFix),
        f[2] == seq![0x41u8] && !(is_latitude(f[3], f[4]) && is_longitude(f[5], f[6]) && is_time(
            f[1],
        ) && is_date(f[9])) ==> rmc_result(sealed_fields(f)) == Err::<
            (GpsPosition, GpsTime),
            GpsError,
        >(GpsError::ParseError),
        f[2] == seq![0x41u8] && is_latitude(f[3], f[4]) && is_longitude(f[5], f[6]) && is_time(f[1])
            && is_date(f[9]) ==> {
            &&& rmc_result(sealed_fields(f)) matches Ok((p, t))
            &&& f[4][0] == 0x4E ==> p.latitude == microdegrees(f[3], 2)
            &&& f[4][0] == 0x53 ==> p.latitude == -microdegrees(f[3], 2)
            &&& f[6][0] == 0x45 ==> p.longitude == microdegrees(f[5], 3)
            &&& f[6][0] == 0x57 ==> p.longitude == -microdegrees(f[5], 3)
            &&& p.altitude_mm is None
            &&& p.fix_quality == FixQuality::Gps
            &&& p.satellite_count == 0
            &&& t.hour == pair_at(f[1], 0)
            &&& t.minute == pair_at(f[1], 2)
            &&& t.second == pair_at(f[1], 4)
            &&& t.day == pair_at(f[9], 0)
            &&& t.month == pair_at(f[9], 2)
            &&& t.year == 2000 + pair_at(f[9], 4)
        },
{
    law_frames_are_checked(comma_joined(f), checksum(comma_joined(f)));
    law_fields_stand_between_commas(f);
    lemma_names(f[0]);
    lemma_positions(f[3], f[4], f[5], f[6]);
    lemma_clock(f[1], f[9]);
}

/// The number of a quality code that is a single digit.
pub open spec fn quality_code(q: FixQuality) -> int {
    match q {
        FixQuality::NoFix => 0,
        FixQuality::Gps => 1,
        FixQuality::DifferentialGps => 2,
        FixQuality::Pps => 3,
        FixQuality::Rtk => 4,
        FixQuality::FloatRtk => 5,
        FixQuality::Estimated => 6,
        FixQuality::Manual => 7,
        FixQuality::Simulation => 8,
    }
}

/// Law: a GGA sentence is accepted exactly where its quality is that of a fix and its
/// position is well-formed. The sign and amount of the position are as in RMC. Without a fix
/// it says so; anything else is refused.
pub proof fn law_gga_tells_position_and_quality(f: Seq<Seq<u8>>)
    requires
        f.len() >= 10,
        are_fields(f),
        names(f[0], 0x47, 0x47, 0x41),
    ensures
        quality_of(f[6]) == FixQuality::NoFix ==> gga_result(sealed_fields(f)) == Err::<
            GpsPosition,
            GpsError,
        >(GpsError::NoFix),
        quality_of(f[6]) != FixQuality::NoFix && !(is_latitude(f[2], f[3]) && is_longitude(
            f[4],
            f[5],
        )) ==> gga_result(sealed_fields(f)) == Err::<GpsPosition, GpsError>(GpsError::ParseError),
        quality_of(f[6]) != FixQuality::NoFix && is_latitude(f[2], f[3]) && is_longitude(f[4], f[5])
            ==> {
            &&& gga_result(sealed_fields(f)) matches Ok(p)
            &&& f[3][0] == 0x4E ==> p.latitude == microdegrees(f[2], 2)
            &&& f[3][0] == 0x53 ==> p.latitude == -microdegrees(f[2], 2)
            &&& f[5][0] == 0x45 ==> p.longitude == microdegrees(f[4], 3)
            &&& f[5][0] == 0x57 ==> p.longitude == -microdegrees(f[4], 3)
            &&& p.fix_quality == quality_of(f[6])
            &&& p.satellite_count == satellites(f[7])
            &&& p.altitude_mm == altitude(f[9])
        },
{
    law_frames_are_checked(comma_joined(f), checksum(comma_joined(f)));
    law_fields_stand_between_commas(f);
    lemma_names(f[0]);
    lemma_positions(f[2], f[3], f[4], f[5]);
}

/// Law: a GGA and an RMC sentence with the same position fields give the same position.
pub proof fn law_both_sentences_agree_on_the_position(g: Seq<Seq<u8>>, r: Seq<Seq<u8>>)
    requires
        g.len() >= 10,
        r.len() >= 10,
        are_fields(g),
        are_fields(r),
        g[2] == r[3],
        g[3] == r[4],
        g[4] == r[5],
        g[5] == r[6],
        gga_result(sealed_fields(g)) is Ok,
        rmc_result(sealed_fields(r)) is Ok,
    ensures
        gga_result(sealed_fields(g))->Ok_0.latitude == rmc_result(
            sealed_fields(r),
        )->Ok_0.0.latitude,
        gga_result(sealed_fields(g))->Ok_0.longitude == rmc_result(
            sealed_fields(r),
        )->Ok_0.0.longitude,
{
    law_frames_are_checked(comma_joined(g), checksum(comma_joined(g)));
    law_fields_stand_between_commas(g);
    law_frames_are_checked(comma_joined(r), checksum(comma_joined(r)));
    law_fields_stand_between_commas(r);
}

/// Law: a sentence of another type is refused by either reader, and so is one with fewer
/// than ten fields; a damaged one is refused as damaged.
pub proof fn law_other_sentences_are_refused(f: Seq<Seq<u8>>, sum: u8)
    requires
        f.len() >= 1,
        are_fields(f),
    ensures
        sum != checksum(comma_joined(f)) ==> gga_result(sentence_of(comma_joined(f), sum)) == Err::<
            GpsPosition,
            GpsError,
        >(GpsError::ChecksumMismatch) && rmc_result(sentence_of(comma_joined(f), sum)) == Err::<
            (GpsPosition, GpsTime),
            GpsError,
        >(GpsError::ChecksumMismatch),
        f.len() < 10 || !names(f[0], 0x47, 0x47, 0x41) ==> gga_result(sealed_fields(f)) == Err::<
            GpsPosition,
            GpsError,
        >(GpsError::ParseError),
        f.len() < 10 || !names(f[0], 0x52, 0x4D, 0x43) ==> rmc_result(sealed_fields(f)) == Err::<
            (GpsPosition, GpsTime),
            GpsError,
        >(GpsError::ParseError),
{
    law_frames_are_checked(comma_joined(f), sum);
    law_frames_are_checked(comma_joined(f), checksum(comma_joined(f)));
    law_fields_stand_between_commas(f);
    lemma_names(f[0]);
}

/// Law: a quality written as its code is read as that quality, and every number beyond the
/// codes, and every field that is no number, as no fix. Satellites are read as the number
/// that is written.
pub proof fn law_qualities_and_satellites_read_back(n: nat, f: Seq<u8>)
    ensures
        n <= 8 ==> quality_code(quality_of(decimal(n))) == n,
        n > 8 ==> quality_of(decimal(n)) == FixQuality::NoFix,
        f.len() == 0 || !all_digits(f) ==> quality_of(f) == FixQuality::NoFix && satellites(f) == 0,
        n <= 255 ==> satellites(decimal(n)) == n,
        n > 255 ==> satellites(decimal(n)) == 0,
{
    law_decimal_reads_back(n);
}

proof fn lemma_point(whole: Seq<u8>, rest: Seq<u8>, from: int)
    requires
        all_digits(whole),
        0 <= from <= whole.len(),
        rest.len() == 0 || rest[0] == 0x2E,
    ensures
        point_of(whole + rest, from) == whole.len(),
    decreases whole.len() - from,
{
    if from < whole.len() {
        assert(is_digit(whole[from]));
        assert((whole + rest)[from] == whole[from]);
        lemma_point(whole, rest, from + 1);
    }
}

/// Law: an altitude in meters with decimals is read in millimeters, and a minus sign in front
/// of it as below sea level; further decimals are dropped. What does not fit is left out.
#[verifier::spinoff_prover]
#[verifier::rlimit(60)]
pub proof fn law_altitudes_read_back(meters: nat, fraction: Seq<u8>)
    requires
        all_digits(fraction),
    ensures
        ({
            let mm = meters * 1000 + digit_at(fraction, 0) * 100 + digit_at(fraction, 1) * 10
                + digit_at(fraction, 2);
            let text = decimal(meters) + seq![0x2Eu8] + fraction;
            &&& mm <= i32::MAX ==> altitude(text) == Some(mm as i32)
            &&& mm > i32::MAX ==> altitude(text) is None
            &&& -mm >= i32::MIN ==> altitude(seq![0x2Du8] + text) == Some((-mm) as i32)
            &&& -mm < i32::MIN ==> altitude(seq![0x2Du8] + text) is None
            &&& meters * 1000 <= i32::MAX ==> altitude(decimal(meters)) == Some(
                (meters * 1000) as i32,
            )
        }),
{
    let whole = decimal(meters);
    let rest = seq![0x2Eu8] + fraction;
    let text = whole + seq![0x2Eu8] + fraction;
    law_decimal_reads_back(meters);
    assert(is_digit(whole[0]));
    assert(text =~= whole + rest);
    lemma_point(whole, rest, 0);
    assert(text.take(whole.len() as int) =~= whole);
    assert(text.skip(whole.len() as int) =~= rest);
    assert(rest.drop_first() =~= fraction);
    lemma_scaled_places(fraction);
    assert(text[0] == whole[0]);
    let minus = seq![0x2Du8] + text;
    assert(minus[0] == 0x2D);
    assert(minus.drop_first() =~= text);
    assert(0 <= scaled(fraction, 100) < 1000) by {
        if fraction.len() > 0 {
            assert(is_digit(fraction[0]));
        }
        if fraction.len() > 1 {
            assert(is_digit(fraction[1]));
        }
        if fraction.len() > 2 {
            assert(is_digit(fraction[2]));
        }
    }
    let bare = whole + Seq::<u8>::empty();
    lemma_point(whole, Seq::empty(), 0);
    assert(bare =~= whole);
    assert(whole.take(whole.len() as int) =~= whole);
    assert(whole.skip(whole.len() as int) =~= Seq::empty());
}

} // verus!
