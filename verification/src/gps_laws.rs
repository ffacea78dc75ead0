//! What the GPS receiver does with sentences, times and its own state.
use crate::gps::{
    crlf, degrees_text, fed, gga_result, initialized, kind_of, last_byte_before, next_sentence,
    polled, rmc_result, shut_down, GpsError, GpsHwOps, GpsModel, GpsPosition, GpsState, GpsTime,
    SentenceKind, READ_CHUNK,
};
use crate::nmea::{gga_reading, rmc_reading, NmeaError};
use crate::text::{all_digits, ascii, digits_value, first_word, has_word, lemma_first_word_is};
use crate::text_laws::{law_decimal_reads_back, law_padding_keeps_the_number};
use vstd::prelude::*;

verus! {

broadcast use vstd::string::group_string_axioms;

// ---------------------------------------------------------------------------
// Sentences
// ---------------------------------------------------------------------------

/// Whether a sentence is of a type of the GPS or of combined systems.
pub open spec fn talks_of(s: Seq<u8>, a: u8, b: u8, c: u8) -> bool {
    s.len() >= 6 && s[1] == 0x47 && (s[2] == 0x50 || s[2] == 0x4E) && s[3] == a && s[4] == b
        && s[5] == c
}

proof fn lemma_kind(s: Seq<u8>)
    ensures
        kind_of(s) == SentenceKind::Gga <==> talks_of(s, 0x47, 0x47, 0x41),
        kind_of(s) == SentenceKind::Rmc <==> talks_of(s, 0x52, 0x4D, 0x43),
{
    if s.len() >= 6 {
        let f = s.subrange(1, 6);
        assert(f =~= seq![s[1], s[2], s[3], s[4], s[5]]);
        let a = seq![0x47u8, 0x50, 0x47, 0x47, 0x41];
        let b = seq![0x47u8, 0x4E, 0x47, 0x47, 0x41];
        let c = seq![0x47u8, 0x50, 0x52, 0x4D, 0x43];
        let d = seq![0x47u8, 0x4E, 0x52, 0x4D, 0x43];
        assert(a[1] == 0x50 && a[2] == 0x47 && a[3] == 0x47 && a[4] == 0x41 && a[0] == 0x47);
        assert(b[1] == 0x4E && b[2] == 0x47 && b[3] == 0x47 && b[4] == 0x41 && b[0] == 0x47);
        assert(c[1] == 0x50 && c[2] == 0x52 && c[3] == 0x4D && c[4] == 0x43 && c[0] == 0x47);
        assert(d[1] == 0x4E && d[2] == 0x52 && d[3] == 0x4D && d[4] == 0x43 && d[0] == 0x47);
        if talks_of(s, 0x47, 0x47, 0x41) {
            assert(f =~= a || f =~= b);
        }
        if talks_of(s, 0x52, 0x4D, 0x43) {
            assert(f =~= c || f =~= d);
            assert(f[2] != a[2] && f[2] != b[2]);
        }
    }
}

/// Law: a GGA sentence of the GPS or of combined systems that is accepted becomes the
/// position, and the time stays; an RMC sentence becomes position and time. Either is a
/// fix. Nothing else changes anything.
pub proof fn law_accepted_sentences_become_the_fix<V>(m: GpsModel<V>, s: Seq<u8>)
    ensures
        ({
            let r = m.informed(s);
            &&& r.hw == m.hw
            &&& r.buf == m.buf
            &&& talks_of(s, 0x47, 0x47, 0x41) ==> match gga_result(s) {
                Ok(p) => r.position == Some(p) && r.time == m.time && r.state
                    == GpsState::FixAcquired,
                Err(_) => r == m,
            }
            &&& talks_of(s, 0x52, 0x4D, 0x43) ==> match rmc_result(s) {
                Ok((p, t)) => r.position == Some(p) && r.time == Some(t) && r.state
                    == GpsState::FixAcquired,
                Err(_) => r == m,
            }
            &&& !talks_of(s, 0x47, 0x47, 0x41) && !talks_of(s, 0x52, 0x4D, 0x43) ==> r == m
        }),
{
    lemma_kind(s);
}

proof fn lemma_last_dollar(d: Seq<u8>, end: int, p: int)
    requires
        0 <= p < end <= d.len(),
        d[p] == 0x24,
        forall|i: int| p < i < end ==> #[trigger] d[i] != 0x24,
    ensures
        last_byte_before(d, 0x24, end) == Some(p),
    decreases end,
{
    if p < end - 1 {
        lemma_last_dollar(d, end - 1, p);
    }
}

/// Law: a sentence that is followed by CR LF comes out of the buffer whole, whatever rubbish
/// without a line end stands in front of it, and what stands behind it stays.
pub proof fn law_sentences_come_out_whole(front: Seq<u8>, s: Seq<u8>, rest: Seq<u8>)
    requires
        s.len() > 0,
        s[0] == 0x24,
        forall|i: int| 0 < i < s.len() ==> #[trigger] s[i] != 0x24,
        forall|i: int| 0 <= i < s.len() ==> #[trigger] s[i] != 0x0D,
        forall|i: int| 0 <= i < front.len() ==> #[trigger] front[i] != 0x0D,
    ensures
        next_sentence(front + s + seq![0x0Du8, 0x0Au8] + rest) == Some((s, rest)),
{
    let d = front + s + seq![0x0Du8, 0x0Au8] + rest;
    let p = front.len() as int;
    let end = p + s.len();
    assert(d.subrange(end, end + 2) =~= crlf());
    assert forall|q: int| 0 <= q < end implies !#[trigger] has_word(d, q, crlf()) by {
        if has_word(d, q, crlf()) {
            assert(d.subrange(q, q + 2)[0] == d[q]);
            assert(crlf()[0] == 0x0D);
            if q < p {
                assert(d[q] == front[q]);
            } else {
                assert(d[q] == s[q - p]);
            }
        }
    }
    lemma_first_word_is(d, crlf(), 0, end);
    assert(d[p] == s[0]);
    assert forall|i: int| p < i < end implies #[trigger] d[i] != 0x24 by {
        assert(d[i] == s[i - p]);
    }
    lemma_last_dollar(d, end, p);
    assert(d.subrange(p, end) =~= s);
    assert(d.skip(end + 2) =~= rest);
}

/// Law: without a line end nothing comes out.
pub proof fn law_nothing_comes_out_before_the_line_end(buf: Seq<u8>)
    requires
        forall|i: int| 0 <= i < buf.len() ==> #[trigger] buf[i] != 0x0D,
    ensures
        next_sentence(buf) is None,
{
    crate::text::lemma_first_word(buf, crlf(), 0);
    if let Some(p) = first_word(buf, crlf(), 0) {
        assert(buf.subrange(p, p + 2)[0] == buf[p]);
        assert(crlf()[0] == 0x0D);
    }
}

/// Law: what is fed goes behind what is there, unless it is too much; then the newest bytes
/// stay, eighty-two of them.
pub proof fn law_feeding_appends(buf: Seq<u8>, data: Seq<u8>)
    ensures
        buf.len() + data.len() <= 256 ==> fed(buf, data) == buf + data,
        buf.len() + data.len() > 256 ==> fed(buf, data).len() == 82 && fed(buf, data) == (buf
            + data).skip(buf.len() + data.len() - 82),
{
}

// ---------------------------------------------------------------------------
// Lifecycle
// ---------------------------------------------------------------------------

/// Law: only a receiver that is off starts, and it searches where the hardware came up and
/// stays off where it did not; the hardware's answer is passed on.
pub proof fn law_only_an_idle_receiver_starts<H: GpsHwOps>(m: GpsModel<H::V>)
    ensures
        m.state != GpsState::Off ==> initialized::<H>(m) == (
            m,
            Err::<(), GpsError>(GpsError::InvalidState),
        ),
        m.state == GpsState::Off ==> {
            let (r, outcome) = initialized::<H>(m);
            &&& outcome == H::powered_on(m.hw).1
            &&& r.hw == H::powered_on(m.hw).0
            &&& outcome is Ok ==> r.state == GpsState::Searching
            &&& outcome is Err ==> r.state == GpsState::Off
            &&& r.buf == m.buf && r.position == m.position && r.time == m.time
        },
{
}

/// Law: a receiver that is off or has failed reads nothing and keeps what it knows. One that
/// searches or has a fix reads once; without news it keeps position and time.
pub proof fn law_only_a_started_receiver_reads<H: GpsHwOps>(m: GpsModel<H::V>)
    ensures
        m.state == GpsState::Off || m.state is Error ==> polled::<H>(m) == m,
        (m.state == GpsState::Searching || m.state == GpsState::FixAcquired) && H::read(
            m.hw,
            READ_CHUNK,
        ).1.len() == 0 && next_sentence(m.buf) is None ==> polled::<H>(m) == (GpsModel {
            hw: H::read(m.hw, READ_CHUNK).0,
            ..m
        }),
{
}

/// Law: a sentence that arrives in one piece at a receiver with an empty buffer is taken in
/// by the same poll, with nothing left over.
pub proof fn law_a_poll_takes_the_sentence_in<H: GpsHwOps>(m: GpsModel<H::V>, s: Seq<u8>)
    requires
        m.state == GpsState::Searching || m.state == GpsState::FixAcquired,
        m.buf.len() == 0,
        s.len() > 0,
        s.len() + 2 <= 256,
        s[0] == 0x24,
        forall|i: int| 0 < i < s.len() ==> #[trigger] s[i] != 0x24,
        forall|i: int| 0 <= i < s.len() ==> #[trigger] s[i] != 0x0D,
        H::read(m.hw, READ_CHUNK).1 == s + seq![0x0Du8, 0x0Au8],
    ensures
        polled::<H>(m) == (GpsModel { hw: H::read(m.hw, READ_CHUNK).0, buf: Seq::empty(), ..m }).informed(
            s,
        ),
{
    let data = s + seq![0x0Du8, 0x0Au8];
    let hw = H::read(m.hw, READ_CHUNK).0;
    law_sentences_come_out_whole(Seq::empty(), s, Seq::empty());
    assert(Seq::<u8>::empty() + s + seq![0x0Du8, 0x0Au8] + Seq::<u8>::empty() =~= data);
    assert(m.buf + data =~= data);
    let start = GpsModel { hw, buf: data, ..m };
    assert(fed(m.buf, data) == data);
    let next = (GpsModel { buf: Seq::<u8>::empty(), ..start }).informed(s);
    law_nothing_comes_out_before_the_line_end(next.buf);
    reveal_with_fuel(GpsModel::drained, 3);
    assert(start.drained() == next.drained());
    assert(next.drained() == next);
}

/// Law: a shutdown that worked leaves nothing of what was known; one that did not leaves all
/// of it.
pub proof fn law_a_shutdown_forgets<H: GpsHwOps>(m: GpsModel<H::V>)
    ensures
        ({
            let (r, outcome) = shut_down::<H>(m);
            &&& outcome == H::powered_off(m.hw).1
            &&& r.hw == H::powered_off(m.hw).0
            &&& outcome is Ok ==> r.state == GpsState::Off && r.buf.len() == 0 && r.position
                is None && r.time is None
            &&& outcome is Err ==> r.state == m.state && r.buf == m.buf && r.position == m.position
                && r.time == m.time
        }),
{
}

// ---------------------------------------------------------------------------
// Texts and times
// ---------------------------------------------------------------------------

/// Law: microdegrees are written as a sign for the south and west only, whole degrees, a
/// point and exactly six digits, and read back as the same number.
pub proof fn law_degrees_read_back(v: int)
    ensures
        exists|whole: Seq<u8>, fraction: Seq<u8>|
            all_digits(whole) && all_digits(fraction) && fraction.len() == 6 && whole.len() >= 1
                && #[trigger] degrees_text(v) == (if v < 0 {
                "-"@
            } else {
                Seq::empty()
            }) + #[trigger] ascii(whole) + "."@ + #[trigger] ascii(fraction) && (digits_value(whole)
                * 1_000_000 + digits_value(fraction) == if v < 0 {
                -v
            } else {
                v
            }),
{
    let size: nat = if v < 0 {
        (-v) as nat
    } else {
        v as nat
    };
    let whole = crate::text::decimal(size / 1_000_000);
    let fraction = crate::text::padded(size % 1_000_000, 6);
    law_decimal_reads_back(size / 1_000_000);
    law_padding_keeps_the_number(size % 1_000_000, 6);
    lemma_six_digits(size % 1_000_000);
    reveal_strlit("");
    assert(""@ =~= Seq::empty());
    assert(degrees_text(v) == (if v < 0 {
        "-"@
    } else {
        Seq::empty()
    }) + ascii(whole) + "."@ + ascii(fraction));
}

proof fn lemma_six_digits(n: nat)
    requires
        n < 1_000_000,
    ensures
        crate::text::decimal(n).len() <= 6,
{
    reveal_with_fuel(crate::text::decimal, 7);
}

/// Law: the estimate starts at zero with 1970. A second later is one more, a minute sixty, an
/// hour three thousand six hundred, a day twenty-four of those; a month counts for thirty
/// days, and four years for one day more than four times three hundred sixty-five.
pub proof fn law_estimate_counts_in_steps(t: GpsTime)
    ensures
        ({
            let e = t.estimated_epoch();
            let z = (GpsTime { hour: 0, minute: 0, second: 0, ..t }).estimated_epoch();
            let first = (GpsTime { day: 1, month: 1, ..t }).estimated_epoch();
            &&& e == z + t.hour * 3_600 + t.minute * 60 + t.second
            &&& t.day >= 1 && t.month >= 1 ==> e == first + (t.day - 1) * 86_400 + (t.month - 1)
                * 2_592_000
            &&& t.year >= 1970 && t.year <= 65_531 ==> (GpsTime {
                year: (t.year + 4) as u16,
                ..t
            }).estimated_epoch() == e + 1_461 * 86_400
        }),
        (GpsTime { year: 1970, month: 1, day: 1, hour: 0, minute: 0, second: 0 }).estimated_epoch()
            == 0,
        (GpsTime { year: 1971, month: 1, day: 1, hour: 0, minute: 0, second: 0 }).estimated_epoch()
            == 31_536_000,
        (GpsTime { year: 1973, month: 1, day: 1, hour: 0, minute: 0, second: 0 }).estimated_epoch()
            == 94_608_000,
{
}

// ---------------------------------------------------------------------------
// Positions
// ---------------------------------------------------------------------------

/// Law: the position of a sentence has the coordinates, the altitude, the quality and the
/// satellites that it tells, and the time its date and time of day; a sentence that cannot be
/// read is refused for the reason that it cannot be read for.
pub proof fn law_positions_are_what_the_sentence_tells(s: Seq<u8>)
    ensures
        match gga_reading(s) {
            Ok(f) => gga_result(s) matches Ok(p) && p.latitude == f.lat_udeg && p.longitude
                == f.lon_udeg && p.altitude_mm == f.altitude_mm && p.fix_quality == f.quality
                && p.satellite_count == f.satellite_count,
            Err(e) => gga_result(s) == Err::<GpsPosition, GpsError>(
                match e {
                    NmeaError::NoFix => GpsError::NoFix,
                    NmeaError::ChecksumMismatch => GpsError::ChecksumMismatch,
                    NmeaError::Malformed => GpsError::ParseError,
                },
            ),
        },
        match rmc_reading(s) {
            Ok((f, d)) => rmc_result(s) matches Ok((p, t)) && p.latitude == f.lat_udeg
                && p.longitude == f.lon_udeg && p.altitude_mm == f.altitude_mm && p.fix_quality
                == f.quality && p.satellite_count == f.satellite_count && t.year == d.year
                && t.month == d.month && t.day == d.day && t.hour == d.hour && t.minute == d.minute
                && t.second == d.second,
            Err(e) => rmc_result(s) == Err::<(GpsPosition, GpsTime), GpsError>(
                match e {
                    NmeaError::NoFix => GpsError::NoFix,
                    NmeaError::ChecksumMismatch => GpsError::ChecksumMismatch,
                    NmeaError::Malformed => GpsError::ParseError,
                },
            ),
        },
{
}

/// Law: a receiver that listens takes in whatever came, be it a single byte, and then every
/// whole sentence it has; one that does not listen stays as it is.
pub proof fn law_a_poll_takes_in_whatever_came<H: GpsHwOps>(m: GpsModel<H::V>)
    ensures
        ({
            let (hw, data) = H::read(m.hw, READ_CHUNK);
            let listens = m.state == GpsState::Searching || m.state == GpsState::FixAcquired;
            &&& !listens ==> polled::<H>(m) == m
            &&& listens && data.len() == 0 ==> polled::<H>(m) == (GpsModel { hw, ..m }).drained()
            &&& listens && data.len() > 0 ==> polled::<H>(m) == (GpsModel {
                hw,
                buf: fed(m.buf, data),
                ..m
            }).drained()
        }),
{
}

} // verus!
