use aprs::constants::{AX25_CONTROL_FIELD, AX25_FLAG, AX25_PROTOCOL_ID, KISS_DATA_FRAME};
use aprs::error::AprsError;
use aprs::functions::{
    default_data_handler, detect_mode, find_delim, kiss_strip, lookup_category, parse_frame,
    parse_frame_ax25, parse_frame_text, parse_info_field, FrameMode,
};
use aprs::structs::{Callsign, Category, Frame, InformationField};

fn station(call: &str, ssid: u8, digi: bool) -> Callsign {
    Callsign { callsign: call.to_string(), ssid, digi }
}

fn ax25_sample() -> Vec<u8> {
    let mut bytes = Vec::new();
    bytes.extend(station("APRS", 0, false).encode_ax25());
    bytes.extend(station("W2GMD", 1, false).encode_ax25());
    bytes.extend(station("WIDE2", 1, true).encode_ax25());
    bytes.extend(station("RELAY", 0, false).encode_ax25());
    bytes.push(AX25_CONTROL_FIELD);
    bytes.push(AX25_PROTOCOL_ID);
    bytes.extend(b">hello");
    bytes
}

fn sample_frame(info: &[u8], category: Category) -> Frame {
    Frame {
        source: station("W2GMD", 1, false),
        destination: station("APRS", 0, false),
        path: vec![station("WIDE2", 1, true), station("RELAY", 0, false)],
        info: InformationField { data: info.to_vec(), data_type: category, safe: true },
    }
}

#[test]
fn text_frame() {
    let frame = parse_frame(b"W2GMD>APRS,WIDE2-1:!3746.44N/12225.88W>test").unwrap();
    assert_eq!(frame.source.callsign, "W2GMD");
    assert_eq!(frame.source.ssid, 0);
    assert_eq!(frame.destination.callsign, "APRS");
    assert_eq!(frame.path, vec![station("WIDE2", 1, false)]);
    assert_eq!(frame.info.data_type, Category::PositionNoTsNoMsg);
    assert_eq!(frame.info.data, b"!3746.44N/12225.88W>test".to_vec());
    assert!(frame.info.safe);
}

#[test]
fn text_frame_without_path() {
    let frame = parse_frame_text(b"KF4MKT-9>APRS:>on the air").unwrap();
    assert_eq!(frame.source, station("KF4MKT", 9, false));
    assert_eq!(frame.destination, station("APRS", 0, false));
    assert!(frame.path.is_empty());
    assert_eq!(frame.info.data_type, Category::Status);
}

#[test]
fn text_frame_keeps_path_order() {
    let frame = parse_frame_text(b"W2GMD>APRS,RELAY*,WIDE2-2,TRACE3-3:T#001").unwrap();
    assert_eq!(
        frame.path,
        vec![station("RELAY", 0, true), station("WIDE2", 2, false), station("TRACE3", 3, false)]
    );
    assert_eq!(frame.info.data_type, Category::Telemetry);
}

#[test]
fn text_frame_errors() {
    assert_eq!(parse_frame_text(b"W2GMD APRS:>x"), Err(AprsError::MalformedText));
    assert_eq!(parse_frame_text(b"W2GMD>APRS >x"), Err(AprsError::MalformedText));
    assert_eq!(parse_frame_text(b"W2GMD:APRS>x"), Err(AprsError::MalformedText));
    assert_eq!(parse_frame_text(b""), Err(AprsError::MalformedText));
    assert_eq!(parse_frame_text(b"W>APRS:>x"), Err(AprsError::InvalidCallsign));
    assert_eq!(parse_frame_text(b"W2GMD>APRS,:>x"), Err(AprsError::InvalidCallsign));
    assert_eq!(parse_frame_text(b"W2GMD>APRS,WIDE2-99:>x"), Err(AprsError::InvalidCallsign));
    assert_eq!(parse_frame_text(b"W2GMD>:>x"), Err(AprsError::InvalidCallsign));
    assert_eq!(parse_frame_text(b"W2GMD>APRS:"), Err(AprsError::UnknownInformationCategory));
    assert_eq!(parse_frame_text(b"W2GMD>APRS:zzz"), Err(AprsError::UnknownInformationCategory));
}

#[test]
fn text_frame_reports_the_information_field_before_the_address_list() {
    assert_eq!(parse_frame_text(b"W2GMD>X:zzz"), Err(AprsError::UnknownInformationCategory));
    assert_eq!(parse_frame_text(b"W>X:zzz"), Err(AprsError::InvalidCallsign));
}

#[test]
fn ax25_frame() {
    let frame = parse_frame(&ax25_sample()).unwrap();
    assert_eq!(frame, sample_frame(b">hello", Category::Status));
}

#[test]
fn ax25_frame_in_kiss_wrapping() {
    let mut bytes = vec![KISS_DATA_FRAME];
    bytes.extend(ax25_sample());
    bytes.push(KISS_DATA_FRAME);
    bytes.push(KISS_DATA_FRAME);
    let frame = parse_frame_ax25(&bytes).unwrap();
    assert_eq!(frame.source, station("W2GMD", 1, false));
    assert_eq!(frame.destination, station("APRS", 0, false));
    assert_eq!(frame.path, vec![station("WIDE2", 1, true), station("RELAY", 0, false)]);
    assert_eq!(frame.info.data, b">hello".to_vec());
}

#[test]
fn kiss_changes_where_the_repeated_bit_is_read() {
    let mut plain = Vec::new();
    plain.extend(station("APRS", 0, true).encode_ax25());
    plain.extend(station("W2GMD", 1, true).encode_ax25());
    plain.extend(&[AX25_CONTROL_FIELD, AX25_PROTOCOL_ID]);
    plain.extend(b"=x");
    let direct = parse_frame_ax25(&plain).unwrap();
    assert!(direct.source.digi);
    assert!(direct.destination.digi);
    let mut wrapped = vec![KISS_DATA_FRAME];
    wrapped.extend(plain);
    let through_kiss = parse_frame_ax25(&wrapped).unwrap();
    assert!(!through_kiss.source.digi);
    assert!(!through_kiss.destination.digi);
    assert_eq!(through_kiss.info.data_type, Category::PositionNoTsMsg);
}

#[test]
fn ax25_frame_loses_the_trailing_sentinel() {
    let mut bytes = ax25_sample();
    bytes.extend(&[0xFF, 0x07]);
    let frame = parse_frame_ax25(&bytes).unwrap();
    assert_eq!(frame.info.data, b">hello".to_vec());
}

#[test]
fn ax25_frame_errors() {
    assert_eq!(parse_frame_ax25(b""), Err(AprsError::MalformedAddressing));
    assert_eq!(parse_frame_ax25(b"no delimiter here"), Err(AprsError::MalformedAddressing));
    assert_eq!(parse_frame_ax25(&[0x03, 0xF0, 0x3E]), Err(AprsError::MalformedAddressing));
    let mut short = station("APRS", 0, false).encode_ax25();
    short.extend(&[0x03, 0xF0, 0x3E]);
    assert_eq!(parse_frame_ax25(&short), Err(AprsError::MalformedAddressing));
    let mut ragged = Vec::new();
    ragged.extend(station("APRS", 0, false).encode_ax25());
    ragged.extend(station("W2GMD", 0, false).encode_ax25());
    ragged.extend(&[0xAE, 0x92, 0x88]);
    ragged.extend(&[0x03, 0xF0, 0x3E]);
    assert_eq!(parse_frame_ax25(&ragged), Err(AprsError::MalformedAddressing));
    let mut untagged = Vec::new();
    untagged.extend(station("APRS", 0, false).encode_ax25());
    untagged.extend(station("W2GMD", 0, false).encode_ax25());
    untagged.extend(&[0x03, 0xF0]);
    assert_eq!(parse_frame_ax25(&untagged), Err(AprsError::UnknownInformationCategory));
    untagged.push(b'?');
    assert_eq!(parse_frame_ax25(&untagged), Err(AprsError::UnknownInformationCategory));
}

#[test]
fn delimiter_inside_text_means_ax25() {
    let mut bytes = b"W2GMD>APRS:>abc".to_vec();
    bytes.extend(&[0x03, 0xF0]);
    bytes.extend(b"def");
    assert_eq!(detect_mode(&bytes), FrameMode::AX25Mode);
    assert_eq!(parse_frame(&bytes), parse_frame_ax25(&bytes));
    assert!(parse_frame_text(&bytes).is_ok());
    assert_eq!(parse_frame(&bytes), Err(AprsError::MalformedAddressing));
}

#[test]
fn detection() {
    assert_eq!(detect_mode(b"W2GMD>APRS:>abc"), FrameMode::TextMode);
    assert_eq!(detect_mode(b""), FrameMode::TextMode);
    assert_eq!(detect_mode(&[0x03]), FrameMode::TextMode);
    assert_eq!(detect_mode(&[0xF0, 0x03]), FrameMode::TextMode);
    assert_eq!(detect_mode(&[0x03, 0xF0]), FrameMode::AX25Mode);
    assert_eq!(detect_mode(&ax25_sample()), FrameMode::AX25Mode);
}

#[test]
fn delimiter_position() {
    assert_eq!(find_delim(&[0x01, 0x03, 0xF0, 0x03, 0xF0]), 1);
    assert_eq!(find_delim(&[0x01, 0x03, 0x03]), 3);
    assert_eq!(find_delim(&ax25_sample()), 28);
}

#[test]
fn kiss_stripping() {
    assert_eq!(kiss_strip(&[0x00, 0x00, 0x41, 0x00, 0x42, 0x00]), (&[0x41, 0x00, 0x42][..], true));
    assert_eq!(kiss_strip(&[0x41, 0x42]), (&[0x41, 0x42][..], false));
    assert_eq!(kiss_strip(&[0x41, 0x00]), (&[0x41][..], true));
    assert_eq!(kiss_strip(&[0x00, 0x00]), (&[][..], true));
    assert_eq!(kiss_strip(&[]), (&[][..], false));
}

#[test]
fn symbol_table() {
    assert_eq!(lookup_category(b'>'), Some(Category::Status));
    assert_eq!(lookup_category(b'!'), Some(Category::PositionNoTsNoMsg));
    assert_eq!(lookup_category(b'='), Some(Category::PositionNoTsMsg));
    assert_eq!(lookup_category(b'T'), Some(Category::Telemetry));
    assert_eq!(lookup_category(b';'), Some(Category::Object));
    assert_eq!(lookup_category(b'`'), Some(Category::OldMice));
    assert_eq!(lookup_category(b'x'), None);
}

#[test]
fn information_field_from_the_wire() {
    let field = parse_info_field(b";object").unwrap();
    assert_eq!(field.data, b";object".to_vec());
    assert_eq!(field.data_type, Category::Object);
    assert!(field.safe);
    assert_eq!(parse_info_field(b""), Err(AprsError::UnknownInformationCategory));
    assert_eq!(parse_info_field(b"?"), Err(AprsError::UnknownInformationCategory));
}

#[test]
fn information_field_from_a_producer() {
    let field = default_data_handler(b"anything", b'`');
    assert_eq!(field.data, b"anything".to_vec());
    assert_eq!(field.data_type, Category::OldMice);
    assert!(!field.safe);
    let unknown = default_data_handler(b"anything", b'x');
    assert_eq!(unknown.data_type, Category::Unknown);
    assert!(!unknown.safe);
}

#[test]
fn information_field_setters() {
    let mut field = InformationField::new();
    assert_eq!(field.data, Vec::<u8>::new());
    assert_eq!(field.data_type, Category::Unknown);
    assert!(!field.safe);
    field.set_data(b"=pos");
    field.set_data_type(Category::PositionNoTsMsg);
    field.set_safe(true);
    assert_eq!(
        field,
        InformationField { data: b"=pos".to_vec(), data_type: Category::PositionNoTsMsg, safe: true }
    );
}

#[test]
fn frame_setters() {
    let mut frame = Frame::new();
    assert_eq!(frame.source, Callsign::new());
    assert!(frame.path.is_empty());
    assert_eq!(frame.set_source(b"W2GMD-1"), Ok(()));
    assert_eq!(frame.set_destination(b"APRS"), Ok(()));
    assert_eq!(frame.set_path(vec![b"WIDE2-1*".to_vec(), b"RELAY".to_vec()]), Ok(()));
    assert_eq!(frame.set_info(b">hello"), Ok(()));
    assert_eq!(frame, sample_frame(b">hello", Category::Status));
    assert_eq!(frame.set_path(vec![b"TRACE".to_vec()]), Ok(()));
    assert_eq!(frame.path.len(), 3);
    assert_eq!(frame.path[2], station("TRACE", 0, false));
}

#[test]
fn frame_setters_reject_without_changing() {
    let mut frame = sample_frame(b">hello", Category::Status);
    let before = frame.clone();
    assert_eq!(frame.set_source(b"W2GMD-16"), Err(AprsError::InvalidCallsign));
    assert_eq!(frame.set_destination(b""), Err(AprsError::InvalidCallsign));
    assert_eq!(
        frame.set_path(vec![b"RELAY".to_vec(), b"W*GMD".to_vec()]),
        Err(AprsError::InvalidCallsign)
    );
    assert_eq!(frame.set_info(b"zzz"), Err(AprsError::UnknownInformationCategory));
    assert_eq!(frame, before);
}

#[test]
fn frame_encoding() {
    let frame = sample_frame(b">hello", Category::Status);
    let mut expected = vec![AX25_FLAG];
    expected.extend(&[0x82, 0xA0, 0xA4, 0xA6, 0x40, 0x40, 0x60]);
    expected.extend(&[0xAE, 0x64, 0x8E, 0x9A, 0x88, 0x40, 0x62]);
    expected.extend(&[0xAE, 0x92, 0x88, 0x8A, 0x64, 0x40, 0xE2]);
    expected.extend(station("RELAY", 0, false).encode_ax25());
    expected.extend(b">hello");
    assert_eq!(frame.encode_ax25(), expected);
    assert_eq!(frame.encode_ax25().len(), 1 + 4 * 7 + 6);
}

#[test]
fn frame_encoding_of_the_empty_frame() {
    let mut expected = vec![0x7E];
    expected.extend(&[0x40, 0x40, 0x40, 0x40, 0x40, 0x40, 0x60]);
    expected.extend(&[0x40, 0x40, 0x40, 0x40, 0x40, 0x40, 0x60]);
    assert_eq!(Frame::new().encode_ax25(), expected);
}

#[test]
fn category_names() {
    assert_eq!(Category::Status.name(), "status");
    assert_eq!(Category::PositionNoTsNoMsg.name(), "position_nots_nomsg");
    assert_eq!(Category::PositionNoTsMsg.name(), "position_nots_msg");
    assert_eq!(Category::Telemetry.name(), "telemetry");
    assert_eq!(Category::Object.name(), "object");
    assert_eq!(Category::OldMice.name(), "old_mice");
    assert_eq!(Category::Unknown.name(), "unknown");
}
