//! GPS receiver and NMEA sentences.
use thumos::gps::{
    parse_gga, parse_rmc, sentence_kind, GpsError, GpsHw, GpsPosition, GpsReceiver, GpsState,
    GpsTime, MockGpsHw, SentenceBuffer, SentenceKind, MAX_SENTENCE_LEN,
};
use thumos::nmea::{compute_checksum, FixQuality};

#[test]
fn parse_gga_extracts_position() {
    let sentence = b"$GPGGA,092750.000,5321.6802,N,00630.3372,W,1,8,1.03,61.7,M,55.2,M,,*76";
    let pos = parse_gga(sentence);
    assert!(pos.is_ok(), "valid GGA sentence must parse successfully");
    let pos = pos.unwrap_or_default();
    assert_eq!(
        pos.fix_quality,
        FixQuality::Gps,
        "fix quality must be GPS"
    );
    assert_eq!(pos.satellite_count, 8, "satellite count must be 8");
    assert!(
        (pos.latitude - 53_361_336).abs() < 100,
        "latitude must be ~53361336 microdegrees, got {}",
        pos.latitude
    );
    assert!(pos.longitude < 0, "longitude must be negative for West");
    assert_eq!(
        pos.altitude_mm,
        Some(61_700),
        "altitude must parse to Some(61700) mm"
    );
}

#[test]
fn parse_gga_rejects_bad_checksum() {
    let sentence = b"$GPGGA,092750.000,5321.6802,N,00630.3372,W,1,8,1.03,61.7,M,55.2,M,,*FF";
    assert_eq!(
        parse_gga(sentence),
        Err(GpsError::ChecksumMismatch),
        "a corrupted checksum must propagate as GpsError::ChecksumMismatch"
    );
}

#[test]
fn parse_gga_rejects_undefined_and_overflowing_quality_code() {
    let sentence =
        nmea_sentence(b"GPGGA,092750.000,5321.6802,N,00630.3372,W,264,8,1.03,61.7,M,55.2,M,,");
    assert_eq!(
        parse_gga(&sentence),
        Err(GpsError::NoFix),
        "a quality field of 264 must never resolve to a defined (accepted) fix"
    );
}

#[test]
fn parse_rmc_extracts_time() {
    let sentence = b"$GPRMC,092750.000,A,5321.6802,N,00630.3372,W,0.02,31.66,280511,,,A*43";
    let result = parse_rmc(sentence);
    assert!(result.is_ok(), "valid RMC sentence must parse successfully");
    let (_, time) = result.unwrap_or_default();
    assert_eq!(time.hour, 9, "hour must be 09");
    assert_eq!(time.minute, 27, "minute must be 27");
    assert_eq!(time.second, 50, "second must be 50");
    assert_eq!(time.day, 28, "day must be 28");
    assert_eq!(time.month, 5, "month must be 05");
    assert_eq!(time.year, 2011, "year must be 2011");
}

#[test]
fn parse_rmc_void_status_returns_no_fix() {
    let sentence =
        nmea_sentence(b"GPRMC,092750.000,V,5321.6802,N,00630.3372,W,0.02,31.66,280511,,,A");
    let result = parse_rmc(&sentence);
    assert_eq!(
        result,
        Err(GpsError::NoFix),
        "RMC status 'V' (void) must return NoFix"
    );
}

#[test]
fn parse_gga_returns_error_on_no_fix() {
    let sentence = b"$GPGGA,092750.000,,,,,,0,0,,,,,,,*6D";
    let result = parse_gga(sentence);
    assert_eq!(
        result,
        Err(GpsError::NoFix),
        "GGA with fix quality 0 must return NoFix error"
    );
}

const HEX: &[u8; 16] = b"0123456789ABCDEF";

fn nmea_sentence(body: &[u8]) -> Vec<u8> {
    let checksum = compute_checksum(body);
    let mut sentence = Vec::new();
    sentence.push(b'$');
    sentence.extend_from_slice(body);
    sentence.push(b'*');
    sentence.push(HEX[(checksum >> 4) as usize]);
    sentence.push(HEX[(checksum & 0xF) as usize]);
    sentence
}

#[test]
fn parse_gga_rejects_fewer_than_ten_fields() {
    let sentence = nmea_sentence(b"GPGGA,1,2,3");
    let result = parse_gga(&sentence);
    assert_eq!(
        result,
        Err(GpsError::ParseError),
        "a GGA sentence with fewer than 10 fields must be ParseError"
    );
}

#[test]
fn parse_rmc_rejects_fewer_than_ten_fields() {
    let sentence = nmea_sentence(b"GPRMC,1,A,2");
    let result = parse_rmc(&sentence);
    assert_eq!(
        result,
        Err(GpsError::ParseError),
        "an RMC sentence with fewer than 10 fields must be ParseError"
    );
}

#[test]
fn sentence_buffer_accumulates_bytes() {
    let mut buf = SentenceBuffer::new();
    assert!(buf.is_empty(), "new buffer must be empty");

    buf.feed(b"$GPGGA,0927");
    assert_eq!(buf.len(), 11, "buffer must accumulate 11 bytes");
    assert!(
        buf.take_sentence().is_none(),
        "incomplete sentence must not be returned"
    );

    buf.feed(b"50.000,5321.6802,N,00630.3372,W,1,8,1.03,61.7,M,55.2,M,,*76\r\n");
    let sentence = buf.take_sentence();
    assert!(sentence.is_some(), "complete sentence must be returned");
    let sentence = sentence.unwrap_or_default();
    assert!(
        sentence.starts_with(b"$GPGGA"),
        "sentence must start with $GPGGA"
    );
}

#[test]
fn sentence_buffer_handles_multiple_sentences() {
    let mut buf = SentenceBuffer::new();
    buf.feed(
        b"$GPGGA,1,2,N,3,E,1,4,1.0,10.0,M,0,M,,*53\r\n$GPRMC,1,A,2,N,3,E,0,0,010170,,,A*00\r\n",
    );

    let first = buf.take_sentence();
    assert!(first.is_some(), "first sentence must be extractable");

    let second = buf.take_sentence();
    assert!(second.is_some(), "second sentence must be extractable");
}

#[test]
fn sentence_buffer_feed_truncates_and_preserves_newest_bytes() {
    let mut buf = SentenceBuffer::new();

    let filler = [b'X'; 300];
    buf.feed(&filler);
    assert_eq!(
        buf.len(),
        MAX_SENTENCE_LEN,
        "feed() must truncate to MAX_SENTENCE_LEN once SENTENCE_BUF_CAPACITY is exceeded"
    );

    buf.feed(b"$GPGGA,1,2,N,3,E,1,4,1.0,10.0,M,0,M,,*53\r\n");
    let sentence = buf.take_sentence();
    assert!(
        sentence.is_some(),
        "a sentence fed after overflow-truncation must still be extractable, \
         proving the truncation discarded the oldest bytes, not the newest"
    );
}

#[test]
fn receiver_starts_off() {
    let hw = MockGpsHw::new();
    let receiver = GpsReceiver::new(hw);
    assert_eq!(
        receiver.state(),
        GpsState::Off,
        "new receiver must start in Off state"
    );
    assert!(receiver.position().is_none(), "no position before init");
}

#[test]
fn receiver_init_transitions_to_searching() {
    let hw = MockGpsHw::new();
    let mut receiver = GpsReceiver::new(hw);
    let result = receiver.init();
    assert!(result.is_ok(), "init must succeed");
    assert_eq!(
        receiver.state(),
        GpsState::Searching,
        "state must be Searching after init"
    );
}

#[test]
fn gps_time_to_epoch_is_nonzero_for_2011() {
    let time = GpsTime {
        year: 2011,
        month: 5,
        day: 28,
        hour: 9,
        minute: 27,
        second: 50,
    };
    let epoch = time.to_epoch_secs();
    assert!(
        epoch > 1_300_000_000 && epoch < 1_320_000_000,
        "epoch for 2011-05-28 must be approximately 1306573670, got {}",
        epoch
    );
}

#[test]
fn init_on_failed_hw_returns_timeout() {
    let mut hw = MockGpsHw::new();
    hw.power_on_ok = false;
    let mut receiver = GpsReceiver::new(hw);
    let result = receiver.init();
    assert_eq!(
        result,
        Err(GpsError::HardwareTimeout),
        "init with failing hardware must return HardwareTimeout"
    );
}

#[test]
fn production_gps_hw_fails_closed_without_wmt_transport() {
    let mut receiver = GpsReceiver::new(GpsHw::new());
    assert!(
        receiver.init().is_err(),
        "GpsHw::power_on must fail closed until the WMT power command exists"
    );
    assert_eq!(
        receiver.state(),
        GpsState::Off,
        "a failed power_on must leave the receiver Off, never Searching"
    );
}

#[test]
fn process_in_wrong_state_returns_invalid_state() {
    let hw = MockGpsHw::new();
    let mut receiver = GpsReceiver::new(hw);
    receiver.init().expect("first init must succeed");
    let result = receiver.init();
    assert_eq!(
        result,
        Err(GpsError::InvalidState),
        "init while already initialized must return InvalidState"
    );
}

#[test]
fn shutdown_clears_stale_position_and_time() {
    let hw = MockGpsHw::new();
    let mut receiver = GpsReceiver::new(hw);
    receiver.init().expect("init must succeed");
    receiver.process_sentence(
        b"$GPGGA,092750.000,5321.6802,N,00630.3372,W,1,8,1.03,61.7,M,55.2,M,,*76",
    );
    assert!(
        receiver.position().is_some(),
        "position must be set after processing a valid GGA sentence"
    );

    receiver.shutdown().expect("shutdown must succeed");
    assert!(
        receiver.position().is_none(),
        "shutdown must clear the last known position"
    );
    assert!(
        receiver.time().is_none(),
        "shutdown must clear the last known time"
    );
}

#[test]
fn poll_reads_hw_data_and_updates_position_end_to_end() {
    let mut hw = MockGpsHw::new();
    hw.data_queue =
        b"$GPGGA,092750.000,5321.6802,N,00630.3372,W,1,8,1.03,61.7,M,55.2,M,,*76\r\n".to_vec();
    let mut receiver = GpsReceiver::new(hw);
    receiver.init().expect("init must succeed");
    assert_eq!(receiver.state(), GpsState::Searching);

    receiver.poll();

    assert_eq!(
        receiver.state(),
        GpsState::FixAcquired,
        "poll() must drive the full read -> buffer -> parse -> state pipeline"
    );
    assert!(
        receiver.position().is_some(),
        "poll() must populate the position fix from hardware data end-to-end"
    );
}

#[test]
fn rmc_also_tells_the_position() {
    let sentence = b"$GPRMC,092750.000,A,5321.6802,N,00630.3372,W,0.02,31.66,280511,,,A*43";
    let (pos, _) = parse_rmc(sentence).expect("a valid sentence");
    assert_eq!(pos.latitude, 53_361_336);
    assert_eq!(pos.longitude, -6_505_620);
    assert_eq!(pos.altitude_mm, None);
    assert_eq!(pos.fix_quality, FixQuality::Gps);
}

#[test]
fn malformed_frames_are_parse_errors() {
    for sentence in [
        &b""[..],
        b"$*",
        b"GPGGA*00",
        b"$GPGGA,1,2",
        b"$GPGGA*7",
        b"$GPGGA*GG",
        b"$GPGGA*000",
    ] {
        assert_eq!(parse_gga(sentence), Err(GpsError::ParseError));
    }
}

#[test]
fn coordinates_beyond_the_globe_are_refused() {
    for body in [
        &b"GPGGA,092750,9000.0001,N,00630.3372,W,1,8,1.03,61.7,M"[..],
        b"GPGGA,092750,5321.6802,N,18000.0001,W,1,8,1.03,61.7,M",
        b"GPGGA,092750,5360.0000,N,00630.3372,W,1,8,1.03,61.7,M",
        b"GPGGA,092750,5321.6802,E,00630.3372,W,1,8,1.03,61.7,M",
        b"GPGGA,092750,5321.6802,N,00630.3372,N,1,8,1.03,61.7,M",
        b"GPGGA,092750,5321x6802,N,00630.3372,W,1,8,1.03,61.7,M",
        b"GPGGA,092750,53,N,00630.3372,W,1,8,1.03,61.7,M",
    ] {
        assert_eq!(parse_gga(&nmea_sentence(body)), Err(GpsError::ParseError));
    }
    let pole = nmea_sentence(b"GPGGA,092750,9000.0000,S,18000,E,2,8,1.03,61.7,M");
    let pos = parse_gga(&pole).expect("the south pole");
    assert_eq!(pos.latitude, -90_000_000);
    assert_eq!(pos.longitude, 180_000_000);
    assert_eq!(pos.fix_quality, FixQuality::DifferentialGps);
}

#[test]
fn altitudes_may_be_negative_or_missing() {
    let with = |altitude: &str| {
        let body = format!("GNGGA,092750,5321.6802,N,00630.3372,W,1,8,1.03,{altitude},M");
        parse_gga(&nmea_sentence(body.as_bytes())).map(|p| p.altitude_mm)
    };
    assert_eq!(with("-28.25"), Ok(Some(-28_250)));
    assert_eq!(with("0"), Ok(Some(0)));
    assert_eq!(with("8848.8612"), Ok(Some(8_848_861)));
    assert_eq!(with(""), Ok(None));
    assert_eq!(with("high"), Ok(None));
    assert_eq!(with("-"), Ok(None));
    assert_eq!(with("9999999"), Ok(None));
    assert_eq!(with("2147483.647"), Ok(Some(i32::MAX)));
    assert_eq!(with("2147483.648"), Ok(None));
    assert_eq!(with("-2147483.648"), Ok(Some(i32::MIN)));
    assert_eq!(with("-2147483.649"), Ok(None));
}

#[test]
fn impossible_clocks_are_refused() {
    for (time, date) in [
        ("240000", "280511"),
        ("096000", "280511"),
        ("092760", "280511"),
        ("092750", "000511"),
        ("092750", "321011"),
        ("092750", "281311"),
        ("0927", "280511"),
        ("092750", "2805"),
    ] {
        let body = format!("GPRMC,{time},A,5321.6802,N,00630.3372,W,0.02,31.66,{date},,,A");
        assert_eq!(
            parse_rmc(&nmea_sentence(body.as_bytes())),
            Err(GpsError::ParseError),
            "{time} {date}"
        );
    }
}

#[test]
fn one_changed_byte_breaks_the_checksum() {
    let mut sentence =
        b"$GPGGA,092750.000,5321.6802,N,00630.3372,W,1,8,1.03,61.7,M,55.2,M,,*76".to_vec();
    assert!(parse_gga(&sentence).is_ok());
    sentence[20] ^= 1;
    assert_eq!(parse_gga(&sentence), Err(GpsError::ChecksumMismatch));
}

#[test]
fn sentences_are_told_apart_by_their_type() {
    assert_eq!(sentence_kind(b"$GPGGA,1"), SentenceKind::Gga);
    assert_eq!(sentence_kind(b"$GNGGA"), SentenceKind::Gga);
    assert_eq!(sentence_kind(b"$GPRMC,1"), SentenceKind::Rmc);
    assert_eq!(sentence_kind(b"$GNRMC"), SentenceKind::Rmc);
    assert_eq!(sentence_kind(b"$GPGSV,1"), SentenceKind::Other);
    assert_eq!(sentence_kind(b"$GPGG"), SentenceKind::Other);
}

#[test]
fn a_line_without_a_start_is_passed_over() {
    let mut buf = SentenceBuffer::new();
    buf.feed(b"noise\r\n\r\nmore\r\n$GPGGA,1*00\r\n$tail");
    assert_eq!(buf.take_sentence(), Some(b"$GPGGA,1*00".to_vec()));
    assert_eq!(buf.len(), 5);
    assert!(buf.take_sentence().is_none());

    let mut short = SentenceBuffer::new();
    short.feed(b"x\r\n$A*41\r\n");
    assert_eq!(short.take_sentence(), Some(b"$A*41".to_vec()));
    assert!(short.is_empty());

    let mut noise = SentenceBuffer::new();
    noise.feed(b"x\r\ny\r\n$A");
    assert!(noise.take_sentence().is_none());
    assert_eq!(noise.len(), 8, "without a sentence nothing is removed");
}

#[test]
fn a_sentence_starts_at_the_last_dollar() {
    let mut buf = SentenceBuffer::new();
    buf.feed(b"$GPG$GPGGA,1*00\r\n$tail");
    assert_eq!(buf.take_sentence(), Some(b"$GPGGA,1*00".to_vec()));
    assert_eq!(buf.len(), 5);
}

#[test]
fn bytes_may_arrive_in_pieces() {
    let mut hw = MockGpsHw::new();
    let mut stream = b"$GPGSV,3,1,11,03,03,111,00,04,15,270,00,06,01,010,00*74\r\n".to_vec();
    stream.extend_from_slice(
        b"$GPRMC,092750.000,A,5321.6802,N,00630.3372,W,0.02,31.66,280511,,,A*43\r\n",
    );
    hw.data_queue = stream;
    let mut receiver = GpsReceiver::new(hw);
    receiver.poll();
    assert_eq!(receiver.state(), GpsState::Off, "nothing is read while off");
    receiver.init().expect("init");
    receiver.poll();
    receiver.poll();
    assert_eq!(receiver.state(), GpsState::FixAcquired);
    assert_eq!(receiver.time().map(|t| t.year), Some(2011));
}

#[test]
fn texts_of_positions_times_states_and_errors() {
    let pos = GpsPosition {
        latitude: 53_361_336,
        longitude: -6_005_620,
        ..GpsPosition::default()
    };
    assert_eq!(pos.to_string(), "53.361336, -6.005620");
    let near = GpsPosition {
        latitude: -500_000,
        longitude: i64::MIN,
        ..GpsPosition::default()
    };
    assert_eq!(near.to_string(), "-0.500000, -9223372036854.775808");
    let time = GpsTime {
        year: 2026,
        month: 1,
        day: 2,
        hour: 3,
        minute: 4,
        second: 5,
    };
    assert_eq!(time.to_string(), "2026-01-02T03:04:05Z");
    assert_eq!(GpsTime::default().to_string(), "0000-00-00T00:00:00Z");
    assert_eq!(GpsState::default().to_string(), "off");
    assert_eq!(GpsState::Searching.to_string(), "searching");
    assert_eq!(GpsState::FixAcquired.to_string(), "fix acquired");
    assert_eq!(
        GpsState::Error(GpsError::HardwareTimeout).to_string(),
        "error: hardware timeout"
    );
    assert_eq!(GpsError::NotInitialized.to_string(), "GPS not initialized");
    assert_eq!(GpsError::NoFix.to_string(), "no GPS fix");
    assert_eq!(GpsError::ParseError.to_string(), "NMEA parse error");
    assert_eq!(
        GpsError::ChecksumMismatch.to_string(),
        "NMEA checksum mismatch"
    );
    assert_eq!(GpsError::InvalidState.to_string(), "invalid GPS state");
}

#[test]
fn epoch_estimate_is_exact_in_its_own_terms() {
    let time = GpsTime {
        year: 2011,
        month: 5,
        day: 28,
        hour: 9,
        minute: 27,
        second: 50,
    };
    // 41 years and 10 leap days, 4 months of 30 days, 27 days.
    let days = 41 * 365 + 10 + 4 * 30 + 27;
    assert_eq!(
        time.to_epoch_secs(),
        days * 86_400 + 9 * 3_600 + 27 * 60 + 50
    );
    assert_eq!(GpsTime::default().to_epoch_secs(), 0);
}
