//! GSM 03.38 text.
use thumos::gsm7::{
    char_to_septet, count_gsm7_septets, decode_gsm7, encode_gsm7, ext_to_unicode, gsm_to_unicode,
    pack_septets,
};
use thumos::sms::SmsError;

#[test]
fn encode_gsm7_ascii_text() {
    let encoded = encode_gsm7("Hello").unwrap_or_default();
    assert_eq!(
        encoded,
        &[0xC8, 0x32, 0x9B, 0xFD, 0x06],
        "'Hello' must pack to the canonical GSM-7 byte sequence"
    );
}

#[test]
fn decode_gsm7_round_trips() {
    let text = "Testing 123";
    let encoded = encode_gsm7(text).unwrap_or_default();
    let decoded = decode_gsm7(&encoded, text.len()).unwrap_or_default();
    assert_eq!(decoded, text, "GSM-7 round-trip must be lossless for ASCII text");
}

#[test]
fn encode_gsm7_handles_at_sign() {
    let encoded = encode_gsm7("@").unwrap_or_default();
    assert_eq!(
        encoded,
        &[0x00],
        "'@' must encode to septet 0x00 (single zero byte)"
    );
    let decoded = decode_gsm7(&encoded, 1).unwrap_or_default();
    assert_eq!(decoded, "@", "round-trip for '@' (septet 0x00) must succeed");
}

#[test]
fn gsm7_extension_euro_round_trips() {
    let encoded = encode_gsm7("\u{20AC}").unwrap_or_default();
    assert_eq!(encoded.len(), 2, "euro must encode to 2 bytes");
    let decoded = decode_gsm7(&encoded, 2).unwrap_or_default();
    assert_eq!(decoded, "\u{20AC}", "euro must survive round-trip");
}

#[test]
fn count_septets_includes_extensions() {
    let count = count_gsm7_septets("{").unwrap_or(0);
    assert_eq!(count, 2, "extension char '{{' must count as 2 septets");

    let count = count_gsm7_septets("Hi").unwrap_or(0);
    assert_eq!(count, 2, "'Hi' must count as 2 septets");
}

#[test]
fn characters_outside_the_alphabet_are_named() {
    assert_eq!(
        encode_gsm7("a\u{65E5}"),
        Err(SmsError::Gsm7Encode(0x65E5))
    );
    assert_eq!(
        count_gsm7_septets("\u{1F600}"),
        Err(SmsError::Gsm7Encode(0x1F600))
    );
}

#[test]
fn every_septet_round_trips() {
    for septet in 0..128u8 {
        if septet == 0x1B {
            continue;
        }
        let c = gsm_to_unicode(septet);
        let text = c.to_string();
        let packed = encode_gsm7(&text).expect("a character of the alphabet");
        assert_eq!(decode_gsm7(&packed, 1), Ok(text));
    }
}

#[test]
fn packing_fills_seven_bytes_with_eight_septets() {
    assert_eq!(
        pack_septets(&[0x7F; 8]),
        vec![0xFF, 0xFF, 0xFF, 0xFF, 0xFF, 0xFF, 0xFF]
    );
    assert_eq!(pack_septets(&[]), Vec::<u8>::new());
    assert_eq!(pack_septets(&[0x01, 0x01]), vec![0x81, 0x00]);
}

#[test]
fn too_few_bytes_are_refused() {
    assert_eq!(decode_gsm7(&[0x41], 1).as_deref(), Ok("A"));
    assert_eq!(decode_gsm7(&[0x41], 2), Err(SmsError::PduDecode));
    assert_eq!(decode_gsm7(&[0x00], 3), Err(SmsError::PduDecode));
    let packed = [0xC8, 0x32, 0x9B, 0xFD, 0x06];
    assert_eq!(decode_gsm7(&packed, 5).as_deref(), Ok("Hello"));
    assert_eq!(decode_gsm7(&packed[..4], 5), Err(SmsError::PduDecode));
    assert_eq!(decode_gsm7(&[0xFF; 7], 8).map(|t| t.chars().count()), Ok(8));
    assert_eq!(decode_gsm7(&[0xFF; 7], 9), Err(SmsError::PduDecode));
    assert_eq!(decode_gsm7(&[], 0), Ok(String::new()));
}

#[test]
fn extension_characters_have_an_escape() {
    assert_eq!(ext_to_unicode(0x65), Some('\u{20AC}'));
    assert!(char_to_septet('A').is_some());
    let text = "[a]{b}\\~^|";
    let packed = encode_gsm7(text).expect("all in the alphabet");
    let septets = count_gsm7_septets(text).expect("all in the alphabet");
    assert_eq!(septets, 18);
    assert_eq!(decode_gsm7(&packed, septets).as_deref(), Ok(text));
}
