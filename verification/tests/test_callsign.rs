use aprs::error::AprsError;
use aprs::functions::{parse_callsign, parse_callsign_ax25, parse_callsign_text, parse_ssid};
use aprs::structs::Callsign;

fn callsign(call: &str, ssid: u8, digi: bool) -> Callsign {
    Callsign { callsign: call.to_string(), ssid, digi }
}

#[test]
fn encode_w2gmd() {
    let encoded = callsign("W2GMD", 0, false).encode_ax25();
    assert_eq!(encoded, vec![0xAE, 0x64, 0x8E, 0x9A, 0x88, 0x40, 0x60]);
}

#[test]
fn encode_sets_ssid_and_repeated_bits() {
    assert_eq!(
        callsign("WIDE2", 1, true).encode_ax25(),
        vec![0xAE, 0x92, 0x88, 0x8A, 0x64, 0x40, 0xE2]
    );
    assert_eq!(
        callsign("KF4MKT", 15, true).encode_ax25(),
        vec![0x96, 0x8C, 0x68, 0x9A, 0x96, 0xA8, 0xFE]
    );
    assert_eq!(
        callsign("APRS", 0, false).encode_ax25(),
        vec![0x82, 0xA0, 0xA4, 0xA6, 0x40, 0x40, 0x60]
    );
}

#[test]
fn encode_of_empty_callsign_is_padding() {
    assert_eq!(Callsign::new().encode_ax25(), vec![0x40, 0x40, 0x40, 0x40, 0x40, 0x40, 0x60]);
}

#[test]
fn setters_change_one_field() {
    let mut c = Callsign::new();
    c.set_callsign("N0CALL".to_string());
    c.set_ssid(7);
    c.set_digi(true);
    assert_eq!(c, callsign("N0CALL", 7, true));
}

#[test]
fn round_trip_without_kiss() {
    let samples = [
        callsign("W2GMD", 0, false),
        callsign("W2GMD", 1, true),
        callsign("KF4MKT", 15, true),
        callsign("abc", 9, false),
    ];
    for c in samples.iter() {
        assert_eq!(parse_callsign_ax25(&c.encode_ax25(), false), Ok(c.clone()));
    }
}

#[test]
fn round_trip_with_kiss() {
    let samples = [callsign("W2GMD", 0, false), callsign("APRS", 12, false)];
    for c in samples.iter() {
        assert_eq!(parse_callsign_ax25(&c.encode_ax25(), true), Ok(c.clone()));
    }
}

#[test]
fn kiss_decoding_never_sees_the_repeated_bit() {
    let c = callsign("WIDE2", 1, true);
    assert_eq!(parse_callsign_ax25(&c.encode_ax25(), true), Ok(callsign("WIDE2", 1, false)));
}

#[test]
fn ax25_decoding_drops_what_is_not_alphanumeric() {
    let field = [0xAE, 0x64, 0x40, 0x54, 0x88, 0x40, 0x6E];
    assert_eq!(parse_callsign_ax25(&field, false), Ok(callsign("W2D", 7, false)));
}

#[test]
fn ax25_decoding_needs_seven_octets() {
    assert_eq!(
        parse_callsign_ax25(&[0xAE, 0x64, 0x8E, 0x9A, 0x88, 0x40], false),
        Err(AprsError::MalformedAddressing)
    );
    assert_eq!(parse_callsign_ax25(&[], true), Err(AprsError::MalformedAddressing));
}

#[test]
fn text_decoding() {
    assert_eq!(parse_callsign_text(b"W2GMD"), Ok(callsign("W2GMD", 0, false)));
    assert_eq!(parse_callsign_text(b"W2GMD-1"), Ok(callsign("W2GMD", 1, false)));
    assert_eq!(parse_callsign_text(b"KF4LZA-15"), Ok(callsign("KF4LZA", 15, false)));
    assert_eq!(parse_callsign_text(b"W2GMD*"), Ok(callsign("W2GMD", 0, true)));
    assert_eq!(parse_callsign_text(b"WIDE2-1*"), Ok(callsign("WIDE2", 1, true)));
    assert_eq!(parse_callsign_text(b" W2GMD-07 "), Ok(callsign("W2GMD", 7, false)));
    assert_eq!(parse_callsign(b"APRS"), Ok(callsign("APRS", 0, false)));
}

#[test]
fn text_decoding_rejects() {
    let rejected: [&[u8]; 9] = [
        b"",
        b"W2GMD-16",
        b"W2GMD--1",
        b"W*GMD",
        b"W2GMD-A",
        b"W2GMD-",
        b"W",
        b"W2GMD-123",
        b"TOOLONG",
    ];
    for text in rejected.iter() {
        assert_eq!(parse_callsign_text(text), Err(AprsError::InvalidCallsign));
    }
}

#[test]
fn text_decoding_reads_the_ssid_as_a_number() {
    assert_eq!(parse_callsign_text(b"W2GMD-007"), Ok(callsign("W2GMD", 7, false)));
    assert_eq!(parse_callsign_text(b"W2GMD-0000015"), Ok(callsign("W2GMD", 15, false)));
    assert_eq!(parse_callsign_text(b"W2GMD-0000016"), Err(AprsError::InvalidCallsign));
    assert_eq!(parse_callsign_text(b"W2GMD-+7"), Err(AprsError::InvalidCallsign));
    assert_eq!(parse_callsign_text(b"W2GMD-300"), Err(AprsError::InvalidCallsign));
}

#[test]
fn ssid_digits() {
    assert_eq!(parse_ssid(b"0"), Some(0));
    assert_eq!(parse_ssid(b"9"), Some(9));
    assert_eq!(parse_ssid(b"15"), Some(15));
    assert_eq!(parse_ssid(b"16"), None);
    assert_eq!(parse_ssid(b"015"), Some(15));
    assert_eq!(parse_ssid(b""), None);
    assert_eq!(parse_ssid(b"1a"), None);
    assert_eq!(parse_ssid(b"99999999999999999999"), None);
}

#[test]
fn text_decoding_strips_the_star_only_at_the_end() {
    assert_eq!(parse_callsign_text(b"*W2GMD"), Err(AprsError::InvalidCallsign));
    assert_eq!(parse_callsign_text(b"W2GMD *"), Ok(callsign("W2GMD", 0, true)));
    assert_eq!(parse_callsign_text(b"\tW2GMD-3* \n"), Ok(callsign("W2GMD", 3, true)));
    assert_eq!(parse_callsign_text(b"W2GMD**"), Ok(callsign("W2GMD", 0, true)));
}

#[test]
fn decoding_tells_similar_fields_apart() {
    let field = [0xAE, 0x64, 0x6C, 0x8C, 0x9A, 0x40, 0x60];
    assert_eq!(parse_callsign_ax25(&field, false), Ok(callsign("W26FM", 0, false)));
    let other = [0xAE, 0x64, 0x8E, 0x9A, 0x88, 0x40, 0x60];
    assert_eq!(parse_callsign_ax25(&other, false), Ok(callsign("W2GMD", 0, false)));
}
