//! What errors and choices are called in diagnostics.
use crate::firewall::{Action, Direction, Protocol};
use crate::fm_radio::FmError;
use crate::gps::GpsError;
use crate::gpt::GptError;
use crate::http_client::HttpError;
use crate::json_mini::JsonError;
use crate::security::SleepTier;
use vstd::prelude::*;

verus! {

/// Law: each error of the receiver and of the radio has its own words.
pub proof fn law_radio_errors_have_their_words()
    ensures
        GpsError::HardwareTimeout.message() == "hardware timeout"@,
        GpsError::NotInitialized.message() == "GPS not initialized"@,
        GpsError::NoFix.message() == "no GPS fix"@,
        GpsError::ParseError.message() == "NMEA parse error"@,
        GpsError::ChecksumMismatch.message() == "NMEA checksum mismatch"@,
        GpsError::InvalidState.message() == "invalid GPS state"@,
        FmError::HardwareError.message() == "FM hardware error"@,
        FmError::NotPowered.message() == "FM radio not powered"@,
        FmError::FrequencyOutOfRange.message() == "frequency out of FM band range"@,
        FmError::NoStationFound.message() == "no FM station found"@,
        FmError::InvalidPreset.message() == "invalid preset index"@,
        FmError::InvalidState.message() == "FM radio in invalid state"@,
{
}

/// Law: each error of a partition table has its own words.
pub proof fn law_partition_errors_have_their_words()
    ensures
        GptError::BadSignature.message() == "GPT signature missing"@,
        GptError::HeaderCrcMismatch.message() == "GPT header CRC mismatch"@,
        GptError::EntriesCrcMismatch.message() == "GPT entries CRC mismatch"@,
        GptError::Malformed.message() == "GPT malformed structure"@,
        GptError::NotFound.message() == "GPT partition not found"@,
        GptError::Io.message() == "GPT block I/O error"@,
{
}

/// Law: each error of a request, a response and a document has its own words.
pub proof fn law_text_errors_have_their_words()
    ensures
        HttpError::Incomplete.message() == "incomplete HTTP response"@,
        HttpError::MalformedStatusLine.message() == "malformed HTTP status line"@,
        HttpError::MalformedHeader.message() == "malformed HTTP header"@,
        HttpError::InvalidStatusCode.message() == "invalid HTTP status code"@,
        HttpError::TooManyHeaders.message() == "too many response headers"@,
        HttpError::HeaderBlockTooLarge.message() == "header block too large"@,
        HttpError::InvalidContentLength.message() == "invalid Content-Length value"@,
        HttpError::BodyTooLarge.message() == "response body too large"@,
        HttpError::EmptyHost.message() == "empty host in HTTP request"@,
        HttpError::EmptyPath.message() == "empty path in HTTP request"@,
        HttpError::InvalidPath.message() == "path contains CR or LF (CRLF injection)"@,
        HttpError::InvalidHost.message() == "host contains CR or LF (CRLF injection)"@,
        HttpError::InvalidHeader.message() == "header contains CR or LF (CRLF injection)"@,
        JsonError::Empty.message() == "empty JSON input"@,
        JsonError::UnexpectedChar.message() == "unexpected character"@,
        JsonError::UnterminatedString.message() == "unterminated string"@,
        JsonError::InvalidEscape.message() == "invalid escape sequence"@,
        JsonError::InvalidUnicodeEscape.message() == "invalid unicode escape"@,
        JsonError::InvalidNumber.message() == "invalid number"@,
        JsonError::InvalidLiteral.message() == "invalid literal"@,
        JsonError::TooDeep.message() == "nesting too deep"@,
        JsonError::ExpectedColon.message() == "expected colon after key"@,
        JsonError::ExpectedCommaOrEnd.message() == "expected comma or closing bracket"@,
        JsonError::TrailingData.message() == "trailing data after JSON value"@,
        JsonError::KeyNotString.message() == "object key must be a string"@,
{
}

/// Law: the verdicts, directions and protocols of the packet filter and the depths of sleep have
/// their own names.
pub proof fn law_choices_have_their_names()
    ensures
        Action::Allow.name() == "allow"@,
        Action::Deny.name() == "deny"@,
        Action::Log.name() == "log"@,
        Direction::Inbound.name() == "inbound"@,
        Direction::Outbound.name() == "outbound"@,
        Protocol::Tcp.name() == "Tcp"@,
        Protocol::Udp.name() == "Udp"@,
        Protocol::Icmp.name() == "Icmp"@,
        SleepTier::Short.name() == "Short"@,
        SleepTier::Long.name() == "Long"@,
{
}

} // verus!
