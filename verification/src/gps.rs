//! GPS kernel adapter.
//!
//! - Sentence buffer: accumulate bytes until CR LF, then hand out the sentence
//! - Classification of sentences: GGA (fix data) and RMC (recommended minimum)
//! - GPS position and time
//! - Hardware abstraction via [`GpsHwOps`]
//!
//! The contents of a sentence are read in [`crate::nmea`]. There is no floating-point
//! arithmetic: latitude and longitude are microdegrees.
use crate::nmea::{
    gga_reading, read_gga, read_rmc, rmc_reading, DateTime, Fix, FixQuality, NmeaError,
};
use crate::text::{
    ascii, byte_range, copy_bytes, decimal, find_word, first_word, has_word, padded, push_decimal,
    push_padded, push_two_digits, two_digits,
};
use vstd::prelude::*;

verus! {

broadcast use vstd::string::group_string_axioms;

/// Maximum NMEA sentence length (with `$` and the checksum and CR LF).
pub const MAX_SENTENCE_LEN: usize = 82;

/// Sentence buffer capacity.
pub const SENTENCE_BUF_CAPACITY: usize = 256;

/// The most bytes that one poll reads.
pub const READ_CHUNK: usize = 128;

/// GPS subsystem errors.
#[derive(Debug, Clone, Copy, PartialEq, Eq, Structural)]
pub enum GpsError {
    /// Hardware did not respond or returned an error status.
    HardwareTimeout,
    /// The GPS hardware is not initialized.
    NotInitialized,
    /// GPS receiver has no fix (insufficient satellites).
    NoFix,
    /// NMEA sentence parse error.
    ParseError,
    /// NMEA checksum mismatch.
    ChecksumMismatch,
    /// Invalid state for the requested operation.
    InvalidState,
}

impl GpsError {
    /// The diagnostic text of the error.
    pub open spec fn message(self) -> Seq<char> {
        match self {
            GpsError::HardwareTimeout => "hardware timeout"@,
            GpsError::NotInitialized => "GPS not initialized"@,
            GpsError::NoFix => "no GPS fix"@,
            GpsError::ParseError => "NMEA parse error"@,
            GpsError::ChecksumMismatch => "NMEA checksum mismatch"@,
            GpsError::InvalidState => "invalid GPS state"@,
        }
    }

    /// The diagnostic text of the error.
    pub fn to_string(&self) -> (r: String)
        ensures
            r@ == self.message(),
    {
        match self {
            GpsError::HardwareTimeout => "hardware timeout".to_owned(),
            GpsError::NotInitialized => "GPS not initialized".to_owned(),
            GpsError::NoFix => "no GPS fix".to_owned(),
            GpsError::ParseError => "NMEA parse error".to_owned(),
            GpsError::ChecksumMismatch => "NMEA checksum mismatch".to_owned(),
            GpsError::InvalidState => "invalid GPS state".to_owned(),
        }
    }
}

/// The error of the subsystem for a refused sentence.
pub open spec fn refusal(e: NmeaError) -> GpsError {
    match e {
        NmeaError::NoFix => GpsError::NoFix,
        NmeaError::ChecksumMismatch => GpsError::ChecksumMismatch,
        NmeaError::Malformed => GpsError::ParseError,
    }
}

impl From<NmeaError> for GpsError {
    fn from(e: NmeaError) -> Self {
        match e {
            NmeaError::NoFix => GpsError::NoFix,
            NmeaError::ChecksumMismatch => GpsError::ChecksumMismatch,
            NmeaError::Malformed => GpsError::ParseError,
        }
    }
}

impl vstd::std_specs::convert::FromSpecImpl<NmeaError> for GpsError {
    open spec fn obeys_from_spec() -> bool {
        true
    }

    open spec fn from_spec(e: NmeaError) -> Self {
        refusal(e)
    }
}

/// GPS receiver lifecycle state machine.
#[derive(Debug, Clone, Copy, PartialEq, Eq, Structural)]
pub enum GpsState {
    /// GPS radio is off.
    Off,
    /// Searching for satellites (no fix yet).
    Searching,
    /// Fix acquired, position available.
    FixAcquired,
    /// A fatal error occurred.
    Error(GpsError),
}

impl Default for GpsState {
    fn default() -> (r: Self)
        ensures
            r == GpsState::Off,
    {
        GpsState::Off
    }
}

impl GpsState {
    /// The state in a word.
    pub fn to_string(&self) -> (r: String)
        ensures
            r@ == (match *self {
                GpsState::Off => "off"@,
                GpsState::Searching => "searching"@,
                GpsState::FixAcquired => "fix acquired"@,
                GpsState::Error(e) => "error: "@ + e.message(),
            }),
    {
        match self {
            GpsState::Off => "off".to_owned(),
            GpsState::Searching => "searching".to_owned(),
            GpsState::FixAcquired => "fix acquired".to_owned(),
            GpsState::Error(e) => {
                let mut out = "error: ".to_owned();
                out.append(e.to_string().as_str());
                out
            },
        }
    }
}

// ---------------------------------------------------------------------------
// Position and time
// ---------------------------------------------------------------------------

/// GPS position with fixed-point coordinates.
#[derive(Debug, Clone, Copy, PartialEq, Eq, Structural)]
pub struct GpsPosition {
    /// Latitude in microdegrees. Positive = North, negative = South.
    pub latitude: i64,
    /// Longitude in microdegrees. Positive = East, negative = West.
    pub longitude: i64,
    /// Altitude above mean sea level in millimeters. `None` when the sentence's
    /// altitude field was absent or malformed, distinct from sea level.
    pub altitude_mm: Option<i32>,
    /// Fix quality indicator.
    pub fix_quality: FixQuality,
    /// Number of satellites in use.
    pub satellite_count: u8,
}

impl Default for GpsPosition {
    fn default() -> (r: Self)
        ensures
            r == (GpsPosition {
                latitude: 0,
                longitude: 0,
                altitude_mm: None,
                fix_quality: FixQuality::NoFix,
                satellite_count: 0,
            }),
    {
        GpsPosition {
            latitude: 0,
            longitude: 0,
            altitude_mm: None,
            fix_quality: FixQuality::NoFix,
            satellite_count: 0,
        }
    }
}

/// The position of a fix.
pub open spec fn position_of(fix: Fix) -> GpsPosition {
    GpsPosition {
        latitude: fix.lat_udeg,
        longitude: fix.lon_udeg,
        altitude_mm: fix.altitude_mm,
        fix_quality: fix.quality,
        satellite_count: fix.satellite_count,
    }
}

impl From<Fix> for GpsPosition {
    fn from(fix: Fix) -> Self {
        GpsPosition {
            latitude: fix.lat_udeg,
            longitude: fix.lon_udeg,
            altitude_mm: fix.altitude_mm,
            fix_quality: fix.quality,
            satellite_count: fix.satellite_count,
        }
    }
}

impl vstd::std_specs::convert::FromSpecImpl<Fix> for GpsPosition {
    open spec fn obeys_from_spec() -> bool {
        true
    }

    open spec fn from_spec(fix: Fix) -> Self {
        position_of(fix)
    }
}

/// The size of a number without its sign.
pub open spec fn magnitude(v: int) -> nat {
    if v < 0 {
        (-v) as nat
    } else {
        v as nat
    }
}

/// Microdegrees as degrees with six decimals.
pub open spec fn degrees_text(v: int) -> Seq<char> {
    let whole = magnitude(v) / 1_000_000;
    let sign = if v < 0 {
        "-"@
    } else {
        ""@
    };
    sign + ascii(decimal(whole)) + "."@ + ascii(padded(magnitude(v) % 1_000_000, 6))
}

/// Append microdegrees as degrees with six decimals.
fn push_degrees(out: &mut String, v: i64)
    ensures
        final(out)@ == old(out)@ + degrees_text(v as int),
{
    let size: u64 = if v < 0 {
        (-(v + 1)) as u64 + 1
    } else {
        v as u64
    };
    let whole: u64 = size / 1_000_000;
    let ghost before = out@;
    proof {
        reveal_strlit("");
    }
    if v < 0 {
        out.append("-");
    }
    push_decimal(out, whole);
    out.append(".");
    push_padded(out, size % 1_000_000, 6);
    assert(out@ =~= before + degrees_text(v as int));
}

impl GpsPosition {
    /// Degrees with six decimal places (microdegree precision).
    pub fn to_string(&self) -> (r: String)
        ensures
            r@ == degrees_text(self.latitude as int) + ", "@ + degrees_text(self.longitude as int),
    {
        let mut out = String::new();
        push_degrees(&mut out, self.latitude);
        assert(out@ =~= degrees_text(self.latitude as int));
        out.append(", ");
        push_degrees(&mut out, self.longitude);
        out
    }
}

/// UTC date and time extracted from RMC sentences.
#[derive(Debug, Clone, Copy, PartialEq, Eq, Structural)]
pub struct GpsTime {
    /// Year (full, e.g., 2026).
    pub year: u16,
    /// Month (1-12).
    pub month: u8,
    /// Day of month (1-31).
    pub day: u8,
    /// Hour (0-23).
    pub hour: u8,
    /// Minute (0-59).
    pub minute: u8,
    /// Second (0-59).
    pub second: u8,
}

impl Default for GpsTime {
    fn default() -> (r: Self)
        ensures
            r == (GpsTime { year: 0, month: 0, day: 0, hour: 0, minute: 0, second: 0 }),
    {
        GpsTime { year: 0, month: 0, day: 0, hour: 0, minute: 0, second: 0 }
    }
}

/// The time of a date and time.
pub open spec fn time_of(dt: DateTime) -> GpsTime {
    GpsTime {
        year: dt.year,
        month: dt.month,
        day: dt.day,
        hour: dt.hour,
        minute: dt.minute,
        second: dt.second,
    }
}

impl From<DateTime> for GpsTime {
    fn from(dt: DateTime) -> Self {
        GpsTime {
            year: dt.year,
            month: dt.month,
            day: dt.day,
            hour: dt.hour,
            minute: dt.minute,
            second: dt.second,
        }
    }
}

impl vstd::std_specs::convert::FromSpecImpl<DateTime> for GpsTime {
    open spec fn obeys_from_spec() -> bool {
        true
    }

    open spec fn from_spec(dt: DateTime) -> Self {
        time_of(dt)
    }
}

/// What a GGA sentence tells the receiver.
pub open spec fn gga_result(sentence: Seq<u8>) -> Result<GpsPosition, GpsError> {
    match gga_reading(sentence) {
        Ok(fix) => Ok(position_of(fix)),
        Err(e) => Err(refusal(e)),
    }
}

/// What an RMC sentence tells the receiver.
pub open spec fn rmc_result(sentence: Seq<u8>) -> Result<(GpsPosition, GpsTime), GpsError> {
    match rmc_reading(sentence) {
        Ok((fix, time)) => Ok((position_of(fix), time_of(time))),
        Err(e) => Err(refusal(e)),
    }
}

/// Parse a GGA sentence (Global Positioning System Fix Data).
pub fn parse_gga(sentence: &[u8]) -> (r: Result<GpsPosition, GpsError>)
    ensures
        r == gga_result(sentence@),
{
    match read_gga(sentence) {
        Ok(fix) => Ok(GpsPosition::from(fix)),
        Err(e) => Err(GpsError::from(e)),
    }
}

/// Parse an RMC sentence (Recommended Minimum Navigation Information).
pub fn parse_rmc(sentence: &[u8]) -> (r: Result<(GpsPosition, GpsTime), GpsError>)
    ensures
        r == rmc_result(sentence@),
{
    match read_rmc(sentence) {
        Ok((fix, time)) => Ok((GpsPosition::from(fix), GpsTime::from(time))),
        Err(e) => Err(GpsError::from(e)),
    }
}

/// A number less another one, but not below zero.
pub open spec fn monus(a: int, b: int) -> int {
    if a >= b {
        a - b
    } else {
        0
    }
}

impl GpsTime {
    /// The estimated days since 1970-01-01: 365 for each year and one more for
    /// every fourth, 30 for each month.
    pub open spec fn estimated_days(self) -> int {
        let years = monus(self.year as int, 1970);
        years * 365 + years / 4 + monus(self.month as int, 1) * 30 + monus(self.day as int, 1)
    }

    /// The estimated Unix epoch.
    pub open spec fn estimated_epoch(self) -> int {
        self.estimated_days() * 86_400 + self.hour * 3_600 + self.minute * 60 + self.second
    }

    /// Convert to a rough Unix epoch seconds estimate, accurate enough to order
    /// clock sources.
    pub fn to_epoch_secs(self) -> (r: u64)
        ensures
            r == self.estimated_epoch(),
    {
        let years: u64 = self.year.saturating_sub(1970) as u64;
        let months: u64 = self.month.saturating_sub(1) as u64;
        let days: u64 = self.day.saturating_sub(1) as u64;
        let total_days: u64 = years * 365 + years / 4 + months * 30 + days;
        total_days * 86_400 + self.hour as u64 * 3_600 + self.minute as u64 * 60
            + self.second as u64
    }

    /// The time in the form `YYYY-MM-DDThh:mm:ssZ`.
    pub fn to_string(&self) -> (r: String)
        ensures
            r@ == ascii(padded(self.year as nat, 4)) + "-"@ + ascii(two_digits(self.month as nat))
                + "-"@ + ascii(two_digits(self.day as nat)) + "T"@ + ascii(
                two_digits(self.hour as nat),
            ) + ":"@ + ascii(two_digits(self.minute as nat)) + ":"@ + ascii(
                two_digits(self.second as nat),
            ) + "Z"@,
    {
        let mut out = String::new();
        push_padded(&mut out, self.year as u64, 4);
        assert(out@ =~= ascii(padded(self.year as nat, 4)));
        out.append("-");
        push_two_digits(&mut out, self.month as u64);
        out.append("-");
        push_two_digits(&mut out, self.day as u64);
        out.append("T");
        push_two_digits(&mut out, self.hour as u64);
        out.append(":");
        push_two_digits(&mut out, self.minute as u64);
        out.append(":");
        push_two_digits(&mut out, self.second as u64);
        out.append("Z");
        out
    }
}

/// Law: the estimate orders times within a day, and later days of a month come
/// later, so clock sources compare as their times do.
pub proof fn law_estimate_grows_within_a_month(a: GpsTime, b: GpsTime)
    requires
        a.year == b.year,
        a.month == b.month,
        a.hour < 24,
        a.minute < 60,
        a.second < 60,
        b.hour < 24,
        b.minute < 60,
        b.second < 60,
        1 <= a.day,
        1 <= b.day,
        a.day < b.day || (a.day == b.day && (a.hour < b.hour || (a.hour == b.hour && (a.minute
            < b.minute || (a.minute == b.minute && a.second < b.second))))),
    ensures
        a.estimated_epoch() < b.estimated_epoch(),
{
}

// ---------------------------------------------------------------------------
// Sentence buffer
// ---------------------------------------------------------------------------

/// The end of a sentence: CR LF.
pub open spec fn crlf() -> Seq<u8> {
    seq![0x0Du8, 0x0A]
}

/// The last position before `end` at which a byte stands.
pub open spec fn last_byte_before(d: Seq<u8>, b: u8, end: int) -> Option<int>
    decreases end,
{
    if end <= 0 {
        None
    } else if d[end - 1] == b {
        Some(end - 1)
    } else {
        last_byte_before(d, b, end - 1)
    }
}

/// Find the last position before `end` at which a byte stands.
fn find_last_before(d: &[u8], b: u8, end: usize) -> (r: Option<usize>)
    requires
        end <= d@.len(),
    ensures
        match last_byte_before(d@, b, end as int) {
            Some(p) => r is Some && r->0 == p && p < end,
            None => r is None,
        },
{
    let mut i: usize = end;
    while i > 0
        invariant
            i <= end <= d@.len(),
            last_byte_before(d@, b, end as int) == last_byte_before(d@, b, i as int),
        decreases i,
    {
        if d[i - 1] == b {
            return Some(i - 1);
        }
        i -= 1;
    }
    None
}

/// The contents of the buffer after bytes were fed: on overflow only the newest
/// bytes stay, as many as one sentence takes.
pub open spec fn fed(buf: Seq<u8>, data: Seq<u8>) -> Seq<u8> {
    let all = buf + data;
    if all.len() > SENTENCE_BUF_CAPACITY {
        all.skip(all.len() - MAX_SENTENCE_LEN)
    } else {
        all
    }
}

/// The first sentence that ends at or behind a position, and the contents behind it:
/// what stands between the last `$` in front of a CR LF and that CR LF. A line without
/// `$` is no sentence; the next line is looked at.
pub open spec fn sentence_from(buf: Seq<u8>, from: int) -> Option<(Seq<u8>, Seq<u8>)>
    decreases buf.len() - from,
{
    match first_word(buf, crlf(), from) {
        None => None,
        Some(end) => match last_byte_before(buf, 0x24, end) {
            None => if 0 <= from <= end && end + 2 <= buf.len() {
                sentence_from(buf, end + 2)
            } else {
                None
            },
            Some(start) => Some((buf.subrange(start, end), buf.skip(end + 2))),
        },
    }
}

/// The next sentence of a buffer and the contents behind it.
pub open spec fn next_sentence(buf: Seq<u8>) -> Option<(Seq<u8>, Seq<u8>)> {
    sentence_from(buf, 0)
}

/// Accumulates incoming bytes until a complete NMEA sentence (CR LF) is found.
pub struct SentenceBuffer {
    /// Internal byte buffer.
    buf: Vec<u8>,
}

impl View for SentenceBuffer {
    type V = Seq<u8>;

    closed spec fn view(&self) -> Seq<u8> {
        self.buf@
    }
}

impl SentenceBuffer {
    /// Create a new empty sentence buffer.
    pub fn new() -> (r: Self)
        ensures
            r@ == Seq::<u8>::empty(),
    {
        SentenceBuffer { buf: Vec::with_capacity(SENTENCE_BUF_CAPACITY) }
    }

    /// Feed bytes into the buffer. Where it overflows, the oldest bytes are
    /// discarded.
    pub fn feed(&mut self, data: &[u8])
        ensures
            final(self)@ == fed(old(self)@, data@),
    {
        self.buf.extend_from_slice(data);
        assert(self.buf@ =~= old(self)@ + data@);
        if self.buf.len() > SENTENCE_BUF_CAPACITY {
            let keep_from: usize = self.buf.len() - MAX_SENTENCE_LEN;
            let kept = copy_bytes(
                byte_range(self.buf.as_slice(), keep_from, self.buf.len()),
            );
            assert(kept@ =~= self.buf@.skip(keep_from as int));
            self.buf = kept;
        }
    }

    /// Extract the next complete sentence, if available.
    ///
    /// A sentence starts with `$` and ends with CR LF. Returns the sentence bytes
    /// (with `$` and checksum) and removes them from the buffer, with what stands in
    /// front of them.
    pub fn take_sentence(&mut self) -> (r: Option<Vec<u8>>)
        ensures
            match next_sentence(old(self)@) {
                Some((sentence, rest)) => r matches Some(v) && v@ == sentence && final(self)@
                    == rest,
                None => r is None && final(self)@ == old(self)@,
            },
            r is Some ==> final(self)@.len() < old(self)@.len(),
    {
        let end_of_line: [u8; 2] = [0x0D, 0x0A];
        assert(end_of_line@ =~= crlf());
        let mut from: usize = 0;
        while from <= self.buf.len()
            invariant
                from <= self.buf@.len(),
                *self == *old(self),
                end_of_line@ == crlf(),
                next_sentence(self.buf@) == sentence_from(self.buf@, from as int),
            decreases self.buf@.len() - from,
        {
            let end: usize = match find_word(self.buf.as_slice(), end_of_line.as_slice(), from) {
                Some(p) => p,
                None => {
                    return None;
                },
            };
            if let Some(start) = find_last_before(self.buf.as_slice(), 0x24, end) {
                let sentence = copy_bytes(byte_range(self.buf.as_slice(), start, end));
                let rest = copy_bytes(byte_range(self.buf.as_slice(), end + 2, self.buf.len()));
                assert(rest@ =~= self.buf@.skip(end + 2));
                self.buf = rest;
                return Some(sentence);
            }
            from = end + 2;
        }
        None
    }

    /// Return the current buffer length.
    pub fn len(&self) -> (r: usize)
        ensures
            r == self@.len(),
    {
        self.buf.len()
    }

    /// Return true if the buffer is empty.
    pub fn is_empty(&self) -> (r: bool)
        ensures
            r == (self@.len() == 0),
    {
        self.buf.len() == 0
    }
}

proof fn lemma_last_byte_before(d: Seq<u8>, b: u8, end: int)
    requires
        0 <= end <= d.len(),
    ensures
        last_byte_before(d, b, end) matches Some(p) ==> 0 <= p < end && d[p] == b && forall|i: int|
            p < i < end ==> #[trigger] d[i] != b,
        last_byte_before(d, b, end) is None ==> forall|i: int| 0 <= i < end ==> #[trigger] d[i] != b,
    decreases end,
{
    if end > 0 && d[end - 1] != b {
        lemma_last_byte_before(d, b, end - 1);
    }
}

/// A sentence starts with a `$` and is followed by a CR LF, has no other `$` and no CR LF
/// in it, and what is left starts behind it.
pub open spec fn is_framed(buf: Seq<u8>, sentence: Seq<u8>, rest: Seq<u8>) -> bool {
    &&& sentence.len() > 0
    &&& sentence[0] == 0x24
    &&& forall|i: int| 0 < i < sentence.len() ==> #[trigger] sentence[i] != 0x24
    &&& forall|i: int| 0 <= i < sentence.len() - 1 ==> !#[trigger] has_word(sentence, i, crlf())
    &&& rest.len() < buf.len()
    &&& exists|front: Seq<u8>| buf == #[trigger] (front + (sentence + crlf() + rest))
}

proof fn lemma_sentence_from(buf: Seq<u8>, from: int)
    requires
        0 <= from <= buf.len(),
        forall|i: int| 0 <= i < from ==> #[trigger] buf[i] != 0x24,
    ensures
        sentence_from(buf, from) matches Some((sentence, rest)) ==> is_framed(buf, sentence, rest),
    decreases buf.len() - from,
{
    crate::text::lemma_first_word(buf, crlf(), from);
    if let Some(end) = first_word(buf, crlf(), from) {
        lemma_last_byte_before(buf, 0x24, end);
        assert(buf.subrange(end, end + 2) == crlf());
        if let Some(start) = last_byte_before(buf, 0x24, end) {
            let sentence = buf.subrange(start, end);
            let rest = buf.skip(end + 2);
            assert forall|i: int| 0 < i < sentence.len() implies #[trigger] sentence[i] != 0x24 by {
                assert(sentence[i] == buf[start + i]);
            }
            assert forall|i: int| 0 <= i < sentence.len() - 1 implies !#[trigger] has_word(
                sentence,
                i,
                crlf(),
            ) by {
                if has_word(sentence, i, crlf()) {
                    assert(sentence.subrange(i, i + 2) =~= buf.subrange(start + i, start + i + 2));
                    assert(has_word(buf, start + i, crlf()));
                }
            }
            assert(buf =~= buf.take(start) + (sentence + crlf() + rest));
        } else {
            assert forall|i: int| 0 <= i < end + 2 implies #[trigger] buf[i] != 0x24 by {
                if i >= end {
                    assert(buf[i] == buf.subrange(end, end + 2)[i - end]);
                }
            }
            lemma_sentence_from(buf, end + 2);
        }
    }
}

/// Law: a sentence starts with the only `$` in it, holds no CR LF and is followed by one;
/// what is left is all that stands behind that.
pub proof fn law_sentences_are_framed(buf: Seq<u8>)
    requires
        next_sentence(buf) is Some,
    ensures
        is_framed(buf, next_sentence(buf)->Some_0.0, next_sentence(buf)->Some_0.1),
{
    lemma_sentence_from(buf, 0);
}

proof fn lemma_first_word_behind(a: Seq<u8>, b: Seq<u8>, from: int)
    requires
        0 <= from <= b.len(),
    ensures
        first_word(a + b, crlf(), a.len() + from) == (match first_word(b, crlf(), from) {
            Some(p) => Some(a.len() + p),
            None => None,
        }),
{
    let all = a + b;
    crate::text::lemma_first_word(b, crlf(), from);
    crate::text::lemma_first_word(all, crlf(), a.len() + from);
    assert forall|q: int| 0 <= q implies has_word(b, q, crlf()) == #[trigger] has_word(
        all,
        a.len() + q,
        crlf(),
    ) by {
        if q + 2 <= b.len() {
            assert(b.subrange(q, q + 2) =~= all.subrange(a.len() + q, a.len() + q + 2));
        }
    }
    if let Some(p) = first_word(b, crlf(), from) {
        assert(has_word(all, a.len() + p, crlf()));
        assert forall|q: int| a.len() + from <= q < a.len() + p implies !#[trigger] has_word(
            all,
            q,
            crlf(),
        ) by {
            assert(has_word(b, q - a.len(), crlf()) == has_word(all, a.len() + (q - a.len()), crlf()));
        }
        crate::text::lemma_first_word_is(all, crlf(), a.len() + from, a.len() + p);
    } else if let Some(p) = first_word(all, crlf(), a.len() + from) {
        assert(has_word(b, p - a.len(), crlf()) == has_word(all, a.len() + (p - a.len()), crlf()));
    }
}

proof fn lemma_last_byte_behind(a: Seq<u8>, b: Seq<u8>, end: int)
    requires
        0 <= end <= b.len(),
        forall|i: int| 0 <= i < a.len() ==> #[trigger] a[i] != 0x24,
    ensures
        last_byte_before(a + b, 0x24, a.len() + end) == (match last_byte_before(b, 0x24, end) {
            Some(p) => Some(a.len() + p),
            None => None,
        }),
{
    lemma_last_byte_before(b, 0x24, end);
    lemma_last_byte_before(a + b, 0x24, a.len() + end);
    let all = a + b;
    match (last_byte_before(b, 0x24, end), last_byte_before(all, 0x24, a.len() + end)) {
        (Some(p), Some(q)) => {
            assert(all[a.len() + p] == 0x24);
            if q < a.len() {
                assert(a[q] == all[q]);
            } else {
                assert(b[q - a.len()] == all[q]);
            }
        },
        (Some(p), None) => {
            assert(all[a.len() + p] == 0x24);
        },
        (None, Some(q)) => {
            if q < a.len() {
                assert(a[q] == all[q]);
            } else {
                assert(b[q - a.len()] == all[q]);
            }
        },
        (None, None) => {},
    }
}

proof fn lemma_sentence_behind(a: Seq<u8>, b: Seq<u8>, from: int)
    requires
        0 <= from <= b.len(),
        forall|i: int| 0 <= i < a.len() ==> #[trigger] a[i] != 0x24,
    ensures
        sentence_from(a + b, a.len() + from) == sentence_from(b, from),
    decreases b.len() - from,
{
    let all = a + b;
    lemma_first_word_behind(a, b, from);
    crate::text::lemma_first_word(b, crlf(), from);
    if let Some(end) = first_word(b, crlf(), from) {
        lemma_last_byte_behind(a, b, end);
        lemma_last_byte_before(b, 0x24, end);
        match last_byte_before(b, 0x24, end) {
            Some(start) => {
                assert(all.subrange(a.len() + start, a.len() + end) =~= b.subrange(start, end));
                assert(all.skip(a.len() + end + 2) =~= b.skip(end + 2));
            },
            None => {
                lemma_sentence_behind(a, b, end + 2);
            },
        }
    }
}

/// Law: a line without `$` does not stand in the way of the sentences behind it.
pub proof fn law_other_lines_are_passed_over(line: Seq<u8>, buf: Seq<u8>)
    requires
        first_word(line + crlf(), crlf(), 0) == Some(line.len() as int),
        forall|i: int| 0 <= i < line.len() ==> #[trigger] line[i] != 0x24,
    ensures
        next_sentence(line + crlf() + buf) == next_sentence(buf),
{
    let a = line + crlf();
    let all = a + buf;
    let n = line.len() as int;
    crate::text::lemma_first_word(a, crlf(), 0);
    assert(all.subrange(n, n + 2) =~= crlf());
    assert forall|q: int| 0 <= q < n implies !#[trigger] has_word(all, q, crlf()) by {
        assert(!has_word(a, q, crlf()));
        assert(all.subrange(q, q + 2) =~= a.subrange(q, q + 2));
    }
    crate::text::lemma_first_word_is(all, crlf(), 0, n);
    lemma_last_byte_before(all, 0x24, n);
    if let Some(p) = last_byte_before(all, 0x24, n) {
        assert(all[p] == line[p]);
    }
    assert forall|i: int| 0 <= i < a.len() implies #[trigger] a[i] != 0x24 by {
        if i < n {
            assert(a[i] == line[i]);
        }
    }
    lemma_sentence_behind(a, buf, 0);
}

/// Law: a sentence arrives however its bytes are cut up. Feeding two pieces leaves
/// the same contents as feeding both at once, as long as nothing overflows.
pub proof fn law_pieces_add_up(buf: Seq<u8>, a: Seq<u8>, b: Seq<u8>)
    requires
        buf.len() + a.len() + b.len() <= SENTENCE_BUF_CAPACITY,
    ensures
        fed(fed(buf, a), b) == fed(buf, a + b),
{
    assert((buf + a) + b =~= buf + (a + b));
}

/// Law: the buffer never exceeds its capacity, and overflow discards the oldest
/// bytes: the newest ones always stay, as many as one sentence takes.
pub proof fn law_overflow_keeps_the_newest(buf: Seq<u8>, data: Seq<u8>)
    ensures
        fed(buf, data).len() <= SENTENCE_BUF_CAPACITY,
        forall|k: int|
            1 <= k <= data.len() && k <= MAX_SENTENCE_LEN ==> #[trigger] fed(buf, data)[fed(
                buf,
                data,
            ).len() - k] == data[data.len() - k],
{
}

// ---------------------------------------------------------------------------
// Hardware abstraction
// ---------------------------------------------------------------------------

/// Hardware operations for the GPS driver. The view of a backend is its state; each
/// operation leads from a state to the next one.
pub trait GpsHwOps: Sized + View {
    /// The state and the outcome after powering on.
    spec fn powered_on(hw: Self::V) -> (Self::V, Result<(), GpsError>);

    /// The state and the outcome after powering off.
    spec fn powered_off(hw: Self::V) -> (Self::V, Result<(), GpsError>);

    /// The state and the bytes after reading at most `max` bytes.
    spec fn read(hw: Self::V, max: usize) -> (Self::V, Seq<u8>);

    /// Read at most `max` bytes from the GPS data path.
    fn read_data(&mut self, max: usize) -> (r: Vec<u8>)
        ensures
            (final(self)@, r@) == Self::read(old(self)@, max),
            r@.len() <= max,
    ;

    /// Power on the GPS subsystem within the combo chip.
    fn power_on(&mut self) -> (r: Result<(), GpsError>)
        ensures
            (final(self)@, r) == Self::powered_on(old(self)@),
    ;

    /// Power off the GPS subsystem.
    fn power_off(&mut self) -> (r: Result<(), GpsError>)
        ensures
            (final(self)@, r) == Self::powered_off(old(self)@),
    ;
}

/// The GPS hardware of the board. Without a transport to the combo chip it never
/// claims to be powered on, and has no data.
#[derive(Debug)]
pub struct GpsHw;

impl View for GpsHw {
    type V = ();

    open spec fn view(&self) -> () {
        ()
    }
}

impl GpsHw {
    /// Create a new GPS hardware handle.
    pub fn new() -> (r: Self)
        ensures
            r@ == (),
    {
        GpsHw
    }
}

impl GpsHwOps for GpsHw {
    open spec fn powered_on(hw: ()) -> ((), Result<(), GpsError>) {
        ((), Err(GpsError::HardwareTimeout))
    }

    open spec fn powered_off(hw: ()) -> ((), Result<(), GpsError>) {
        ((), Ok(()))
    }

    open spec fn read(hw: (), max: usize) -> ((), Seq<u8>) {
        ((), Seq::empty())
    }

    fn read_data(&mut self, max: usize) -> (r: Vec<u8>) {
        let r: Vec<u8> = Vec::new();
        assert(r@ =~= Seq::empty());
        r
    }

    fn power_on(&mut self) -> (r: Result<(), GpsError>) {
        Err(GpsError::HardwareTimeout)
    }

    fn power_off(&mut self) -> (r: Result<(), GpsError>) {
        Ok(())
    }
}

/// Mock GPS hardware.
#[derive(Debug)]
pub struct MockGpsHw {
    /// Data to return from `read_data`.
    pub data_queue: Vec<u8>,
    /// Whether `power_on` succeeds.
    pub power_on_ok: bool,
}

/// What a [`MockGpsHw`] stands for.
#[verifier::ext_equal]
pub ghost struct MockGpsModel {
    pub data: Seq<u8>,
    pub power_on_ok: bool,
}

impl View for MockGpsHw {
    type V = MockGpsModel;

    open spec fn view(&self) -> MockGpsModel {
        MockGpsModel { data: self.data_queue@, power_on_ok: self.power_on_ok }
    }
}

/// How many bytes a read takes.
pub open spec fn taken(ready: Seq<u8>, max: usize) -> int {
    if ready.len() < max {
        ready.len() as int
    } else {
        max as int
    }
}

impl MockGpsHw {
    /// Create a new mock with default settings.
    pub fn new() -> (r: Self)
        ensures
            r@ == (MockGpsModel { data: Seq::empty(), power_on_ok: true }),
    {
        let r = MockGpsHw { data_queue: Vec::new(), power_on_ok: true };
        assert(r@ =~= MockGpsModel { data: Seq::empty(), power_on_ok: true });
        r
    }
}

impl GpsHwOps for MockGpsHw {
    open spec fn powered_on(hw: MockGpsModel) -> (MockGpsModel, Result<(), GpsError>) {
        if hw.power_on_ok {
            (hw, Ok(()))
        } else {
            (hw, Err(GpsError::HardwareTimeout))
        }
    }

    open spec fn powered_off(hw: MockGpsModel) -> (MockGpsModel, Result<(), GpsError>) {
        (hw, Ok(()))
    }

    open spec fn read(hw: MockGpsModel, max: usize) -> (MockGpsModel, Seq<u8>) {
        let n = taken(hw.data, max);
        (MockGpsModel { data: hw.data.skip(n), ..hw }, hw.data.take(n))
    }

    fn read_data(&mut self, max: usize) -> (r: Vec<u8>) {
        let n: usize = if self.data_queue.len() < max {
            self.data_queue.len()
        } else {
            max
        };
        let r = copy_bytes(byte_range(self.data_queue.as_slice(), 0, n));
        let rest = copy_bytes(
            byte_range(self.data_queue.as_slice(), n, self.data_queue.len()),
        );
        assert(r@ =~= self.data_queue@.take(n as int));
        assert(rest@ =~= self.data_queue@.skip(n as int));
        self.data_queue = rest;
        r
    }

    fn power_on(&mut self) -> (r: Result<(), GpsError>) {
        if self.power_on_ok {
            Ok(())
        } else {
            Err(GpsError::HardwareTimeout)
        }
    }

    fn power_off(&mut self) -> (r: Result<(), GpsError>) {
        Ok(())
    }
}

// ---------------------------------------------------------------------------
// GPS receiver
// ---------------------------------------------------------------------------

/// The type of a sentence.
#[derive(Debug, Clone, Copy, PartialEq, Eq, Structural)]
pub enum SentenceKind {
    /// Fix data.
    Gga,
    /// Recommended minimum navigation information.
    Rmc,
    /// Anything else.
    Other,
}

/// The type of a sentence, by the talker and type field behind its first byte.
pub open spec fn kind_of(sentence: Seq<u8>) -> SentenceKind {
    if sentence.len() < 6 {
        SentenceKind::Other
    } else {
        let field = sentence.subrange(1, 6);
        if field == seq![0x47u8, 0x50, 0x47, 0x47, 0x41] || field == seq![
            0x47u8,
            0x4E,
            0x47,
            0x47,
            0x41,
        ] {
            SentenceKind::Gga
        } else if field == seq![0x47u8, 0x50, 0x52, 0x4D, 0x43] || field == seq![
            0x47u8,
            0x4E,
            0x52,
            0x4D,
            0x43,
        ] {
            SentenceKind::Rmc
        } else {
            SentenceKind::Other
        }
    }
}

/// Determine the type of a sentence: `GPGGA` and `GNGGA`, `GPRMC` and `GNRMC`.
pub fn sentence_kind(sentence: &[u8]) -> (r: SentenceKind)
    ensures
        r == kind_of(sentence@),
{
    if sentence.len() < 6 {
        return SentenceKind::Other;
    }
    let ghost field = sentence@.subrange(1, 6);
    assert(field =~= seq![sentence@[1], sentence@[2], sentence@[3], sentence@[4], sentence@[5]]);
    let gp_gga: [u8; 5] = [0x47, 0x50, 0x47, 0x47, 0x41];
    let gn_gga: [u8; 5] = [0x47, 0x4E, 0x47, 0x47, 0x41];
    let gp_rmc: [u8; 5] = [0x47, 0x50, 0x52, 0x4D, 0x43];
    let gn_rmc: [u8; 5] = [0x47, 0x4E, 0x52, 0x4D, 0x43];
    assert(gp_gga@ =~= seq![0x47u8, 0x50, 0x47, 0x47, 0x41]);
    assert(gn_gga@ =~= seq![0x47u8, 0x4E, 0x47, 0x47, 0x41]);
    assert(gp_rmc@ =~= seq![0x47u8, 0x50, 0x52, 0x4D, 0x43]);
    assert(gn_rmc@ =~= seq![0x47u8, 0x4E, 0x52, 0x4D, 0x43]);
    let type_field = byte_range(sentence, 1, 6);
    if crate::text::same_bytes(type_field, gp_gga.as_slice()) || crate::text::same_bytes(
        type_field,
        gn_gga.as_slice(),
    ) {
        SentenceKind::Gga
    } else if crate::text::same_bytes(type_field, gp_rmc.as_slice()) || crate::text::same_bytes(
        type_field,
        gn_rmc.as_slice(),
    ) {
        SentenceKind::Rmc
    } else {
        SentenceKind::Other
    }
}

/// GPS receiver managing the GPS data path from the combo chip.
pub struct GpsReceiver<H: GpsHwOps> {
    /// Current receiver state.
    state: GpsState,
    /// Hardware abstraction.
    hw: H,
    /// NMEA sentence accumulator.
    sentence_buf: SentenceBuffer,
    /// Most recent position fix.
    last_position: Option<GpsPosition>,
    /// Most recent time fix.
    last_time: Option<GpsTime>,
}

/// What a receiver knows, and the state of its hardware.
#[verifier::ext_equal]
pub ghost struct GpsModel<V> {
    pub state: GpsState,
    pub hw: V,
    pub buf: Seq<u8>,
    pub position: Option<GpsPosition>,
    pub time: Option<GpsTime>,
}

impl<H: GpsHwOps> View for GpsReceiver<H> {
    type V = GpsModel<H::V>;

    closed spec fn view(&self) -> GpsModel<H::V> {
        GpsModel {
            state: self.state,
            hw: self.hw@,
            buf: self.sentence_buf@,
            position: self.last_position,
            time: self.last_time,
        }
    }
}

impl<V> GpsModel<V> {
    /// A receiver that is off and knows nothing.
    pub open spec fn off(hw: V) -> GpsModel<V> {
        GpsModel { state: GpsState::Off, hw, buf: Seq::empty(), position: None, time: None }
    }

    /// Whether the receiver listens.
    pub open spec fn listens(self) -> bool {
        self.state == GpsState::Searching || self.state == GpsState::FixAcquired
    }

    /// The receiver after a sentence. One that could not be read changes nothing.
    pub open spec fn informed(self, sentence: Seq<u8>) -> GpsModel<V> {
        match kind_of(sentence) {
            SentenceKind::Gga => match gga_result(sentence) {
                Ok(position) => GpsModel {
                    position: Some(position),
                    state: GpsState::FixAcquired,
                    ..self
                },
                Err(_) => self,
            },
            SentenceKind::Rmc => match rmc_result(sentence) {
                Ok((position, time)) => GpsModel {
                    position: Some(position),
                    time: Some(time),
                    state: GpsState::FixAcquired,
                    ..self
                },
                Err(_) => self,
            },
            SentenceKind::Other => self,
        }
    }

    /// The receiver after all complete sentences of its buffer, one after the other.
    pub open spec fn drained(self) -> GpsModel<V>
        decreases self.buf.len(),
    {
        match next_sentence(self.buf) {
            Some((sentence, rest)) => if rest.len() < self.buf.len() {
                (GpsModel { buf: rest, ..self }).informed(sentence).drained()
            } else {
                self
            },
            None => self,
        }
    }
}

/// The receiver and the outcome after initialization: the hardware is powered on where the
/// receiver was off, and it searches where that worked.
pub open spec fn initialized<H: GpsHwOps>(m: GpsModel<H::V>) -> (
    GpsModel<H::V>,
    Result<(), GpsError>,
) {
    if m.state != GpsState::Off {
        (m, Err(GpsError::InvalidState))
    } else {
        let (hw, r) = H::powered_on(m.hw);
        (
            GpsModel {
                hw,
                state: if r is Ok {
                    GpsState::Searching
                } else {
                    GpsState::Off
                },
                ..m
            },
            r,
        )
    }
}

/// The receiver after a poll: a listening one reads once and takes in all complete
/// sentences that it then has.
pub open spec fn polled<H: GpsHwOps>(m: GpsModel<H::V>) -> GpsModel<H::V> {
    if !m.listens() {
        m
    } else {
        let (hw, data) = H::read(m.hw, READ_CHUNK);
        (GpsModel {
            hw,
            buf: if data.len() > 0 {
                fed(m.buf, data)
            } else {
                m.buf
            },
            ..m
        }).drained()
    }
}

/// The receiver and the outcome after a shutdown: the hardware is powered off, and where
/// that worked nothing of what was known is left.
pub open spec fn shut_down<H: GpsHwOps>(m: GpsModel<H::V>) -> (
    GpsModel<H::V>,
    Result<(), GpsError>,
) {
    let (hw, r) = H::powered_off(m.hw);
    (
        if r is Ok {
            GpsModel::off(hw)
        } else {
            GpsModel { hw, ..m }
        },
        r,
    )
}

impl<H: GpsHwOps> GpsReceiver<H> {
    /// Create a new GPS receiver with the given hardware backend.
    pub fn new(hw: H) -> (r: Self)
        ensures
            r@ == GpsModel::off(hw@),
    {
        GpsReceiver {
            state: GpsState::Off,
            hw,
            sentence_buf: SentenceBuffer::new(),
            last_position: None,
            last_time: None,
        }
    }

    /// Return the current receiver state.
    pub fn state(&self) -> (r: GpsState)
        ensures
            r == self@.state,
    {
        self.state
    }

    /// Return the most recent position fix, if available.
    pub fn position(&self) -> (r: Option<&GpsPosition>)
        ensures
            r == (match self@.position {
                Some(p) => Some(&p),
                None => None::<&GpsPosition>,
            }),
    {
        self.last_position.as_ref()
    }

    /// Return the most recent GPS time, if available.
    pub fn time(&self) -> (r: Option<&GpsTime>)
        ensures
            r == (match self@.time {
                Some(t) => Some(&t),
                None => None::<&GpsTime>,
            }),
    {
        self.last_time.as_ref()
    }

    /// Initialize the GPS receiver: power on and begin searching.
    pub fn init(&mut self) -> (r: Result<(), GpsError>)
        ensures
            (final(self)@, r) == initialized::<H>(old(self)@),
    {
        match self.state {
            GpsState::Off => {},
            _ => {
                return Err(GpsError::InvalidState);
            },
        }
        let r = self.hw.power_on();
        if r.is_ok() {
            self.state = GpsState::Searching;
        }
        r
    }

    /// Poll for new NMEA data and parse any complete sentences.
    ///
    /// Should be called periodically. Updates the position and time fields when valid
    /// sentences are received.
    pub fn poll(&mut self)
        ensures
            final(self)@ == polled::<H>(old(self)@),
    {
        match self.state {
            GpsState::Searching => {},
            GpsState::FixAcquired => {},
            _ => {
                return ;
            },
        }
        let data = self.hw.read_data(READ_CHUNK);
        if data.len() > 0 {
            self.sentence_buf.feed(data.as_slice());
        }
        let ghost start = self@;
        let mut next = self.sentence_buf.take_sentence();
        let ghost mut before: GpsModel<H::V> = start;
        while next.is_some()
            invariant
                before.drained() == start.drained(),
                match next_sentence(before.buf) {
                    Some((sentence, rest)) => next matches Some(v) && v@ == sentence && self@ == (
                    GpsModel { buf: rest, ..before }),
                    None => next is None && self@ == before,
                },
                next is Some ==> self@.buf.len() < before.buf.len(),
            decreases before.buf.len(),
        {
            if let Some(sentence) = next {
                self.process_sentence(sentence.as_slice());
                proof {
                    before = self@;
                }
            }
            next = self.sentence_buf.take_sentence();
        }
    }

    /// Process a single NMEA sentence.
    pub fn process_sentence(&mut self, sentence: &[u8])
        ensures
            final(self)@ == old(self)@.informed(sentence@),
    {
        match sentence_kind(sentence) {
            SentenceKind::Gga => {
                if let Ok(position) = parse_gga(sentence) {
                    self.last_position = Some(position);
                    self.state = GpsState::FixAcquired;
                }
            },
            SentenceKind::Rmc => {
                if let Ok((position, time)) = parse_rmc(sentence) {
                    self.last_position = Some(position);
                    self.last_time = Some(time);
                    self.state = GpsState::FixAcquired;
                }
            },
            SentenceKind::Other => {},
        }
    }

    /// Shut down the GPS receiver.
    ///
    /// Clears the last known position and time and any partially accumulated bytes,
    /// so that a later [`GpsReceiver::init`] does not resume with stale data.
    pub fn shutdown(&mut self) -> (r: Result<(), GpsError>)
        ensures
            (final(self)@, r) == shut_down::<H>(old(self)@),
    {
        let r = self.hw.power_off();
        if r.is_ok() {
            self.state = GpsState::Off;
            self.last_position = None;
            self.last_time = None;
            self.sentence_buf = SentenceBuffer::new();
        }
        r
    }
}

/// Law: only a sentence that was read gives a fix: a refused one leaves position,
/// time and state as they were.
pub proof fn law_refused_sentence_changes_nothing<V>(m: GpsModel<V>, sentence: Seq<u8>)
    requires
        gga_result(sentence) is Err,
        rmc_result(sentence) is Err,
    ensures
        m.informed(sentence) == m,
{
}

/// Law: polling reaches its end with no complete sentence left.
pub proof fn law_polling_drains_the_buffer<V>(m: GpsModel<V>)
    ensures
        next_sentence(m.drained().buf) is None,
    decreases m.buf.len(),
{
    if let Some((sentence, rest)) = next_sentence(m.buf) {
        law_sentences_are_framed(m.buf);
        law_polling_drains_the_buffer((GpsModel { buf: rest, ..m }).informed(sentence));
    }
}

} // verus!
