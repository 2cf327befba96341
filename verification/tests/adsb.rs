use adsb_decoder::adsb::{
    adsb_frame, aircraft_category, callsign, df_ca, icao, mode_s_beast_header, parse_adsb_frame,
    typecode, AdsbMessage, DecodeError,
};

#[test]
fn test_parse_df_ca() {
    let input = [0x8d];
    assert!(matches!(df_ca(&input), Some((17, 5))));
}

#[test]
fn test_parse_icao() {
    let input = [0x84, 0x1b, 0xd1];
    assert_eq!(icao(&input).unwrap(), "841bd1");
}

#[test]
fn test_parse_tc_ca() {
    let input = [0x20];
    assert!(matches!(typecode(&input), Some(4)));
}

#[test]
fn test_parse_callsign() {
    let input = [0x2C, 0xC3, 0x71, 0xC3, 0x2C, 0xE0];
    assert_eq!(callsign(&input).unwrap(), "KLM1023");
}

#[test]
fn test_parse_adsb_frame() {
    let input = [
        0x1a, 0x33, 0x00, 0x00, 0x00, 0x00, 0x00, 0x00, 0x00, 0x8d, 0x84, 0x1b, 0xd1, 0x20, 0x2C,
        0xC3, 0x71, 0xC3, 0x2C, 0xE0,
    ];
    let result = adsb_frame(&input);
    assert!(result.is_ok());
    let frame = result.unwrap();
    assert_eq!(frame.downlink_format, 17);
    assert_eq!(frame.capability, 5);
    assert_eq!(frame.icao, "841bd1");
    assert_eq!(
        frame.payload,
        AdsbMessage::Identification(String::from("KLM1023"))
    );
}

#[test]
fn test_decode_is_idempotent() {
    let input = [
        0x1a, 0x33, 0x00, 0x00, 0x00, 0x00, 0x00, 0x00, 0x00, 0x8d, 0x84, 0x1b, 0xd1, 0x20, 0x2C,
        0xC3, 0x71, 0xC3, 0x2C, 0xE0,
    ];
    let first = parse_adsb_frame(&input).unwrap();
    let second = parse_adsb_frame(&input).unwrap();
    assert_eq!(first, second);
}

#[test]
fn test_header_matches() {
    let input = [0x1a, 0x33, 0x01, 0x02, 0x03, 0x04, 0x05, 0x06, 0x07];
    assert!(mode_s_beast_header(&input).is_ok());
}

#[test]
fn test_header_wrong_sync_byte() {
    let input = [0x1b, 0x33, 0x00, 0x00, 0x00, 0x00, 0x00, 0x00, 0x00];
    assert_eq!(mode_s_beast_header(&input), Err(DecodeError::NotAFrame));
}

#[test]
fn test_header_wrong_type_byte() {
    let input = [0x1a, 0x34, 0x00, 0x00, 0x00, 0x00, 0x00, 0x00, 0x00];
    assert_eq!(mode_s_beast_header(&input), Err(DecodeError::NotAFrame));
}

#[test]
fn test_header_exhausted() {
    let input = [0x1a, 0x33, 0x00];
    assert_eq!(mode_s_beast_header(&input), Err(DecodeError::TooShort));
}

#[test]
fn test_parse_rejects_downlink_format_zero() {
    let input = [
        0x1a, 0x33, 0x00, 0x00, 0x00, 0x00, 0x00, 0x00, 0x00, 0x05, 0x84, 0x1b, 0xd1, 0x20, 0x2C,
        0xC3, 0x71, 0xC3, 0x2C, 0xE0,
    ];
    assert_eq!(parse_adsb_frame(&input), Err(DecodeError::InvalidFormat));
}

#[test]
fn test_parse_rejects_downlink_format_sixteen() {
    let input = [
        0x1a, 0x33, 0x00, 0x00, 0x00, 0x00, 0x00, 0x00, 0x00, 0x85, 0x84, 0x1b, 0xd1, 0x20, 0x2C,
        0xC3, 0x71, 0xC3, 0x2C, 0xE0,
    ];
    assert_eq!(parse_adsb_frame(&input), Err(DecodeError::InvalidFormat));
}

#[test]
fn test_parse_accepts_downlink_format_eighteen() {
    let input = [
        0x1a, 0x33, 0x00, 0x00, 0x00, 0x00, 0x00, 0x00, 0x00, 0x95, 0x84, 0x1b, 0xd1, 0x20, 0x2C,
        0xC3, 0x71, 0xC3, 0x2C, 0xE0,
    ];
    let frame = parse_adsb_frame(&input).unwrap();
    assert_eq!(frame.downlink_format, 18);
    assert_eq!(frame.capability, 5);
}

#[test]
fn test_parse_not_a_frame() {
    let input = [0u8; 20];
    assert_eq!(parse_adsb_frame(&input), Err(DecodeError::NotAFrame));
}

#[test]
fn test_parse_empty_buffer() {
    let input: [u8; 0] = [];
    assert_eq!(parse_adsb_frame(&input), Err(DecodeError::TooShort));
}

#[test]
fn test_parse_truncated_after_header() {
    let input = [0x1a, 0x33, 0x00, 0x00, 0x00, 0x00, 0x00, 0x00, 0x00];
    assert_eq!(parse_adsb_frame(&input), Err(DecodeError::TooShort));
}

#[test]
fn test_parse_truncated_address() {
    let input = [
        0x1a, 0x33, 0x00, 0x00, 0x00, 0x00, 0x00, 0x00, 0x00, 0x8d, 0x84, 0x1b,
    ];
    assert_eq!(parse_adsb_frame(&input), Err(DecodeError::TooShort));
}

#[test]
fn test_parse_truncated_callsign() {
    let input = [
        0x1a, 0x33, 0x00, 0x00, 0x00, 0x00, 0x00, 0x00, 0x00, 0x8d, 0x84, 0x1b, 0xd1, 0x20, 0x2C,
        0xC3,
    ];
    assert_eq!(parse_adsb_frame(&input), Err(DecodeError::TooShort));
}

#[test]
fn test_parse_barometric_altitude() {
    // type code 11, then a 12-bit raw altitude field of 0xc8d
    let input = [
        0x1a, 0x33, 0x00, 0x00, 0x00, 0x00, 0x00, 0x00, 0x00, 0x8d, 0x84, 0x1b, 0xd1, 0x58, 0xc8,
        0xd0,
    ];
    let frame = parse_adsb_frame(&input).unwrap();
    assert_eq!(frame.payload, AdsbMessage::BarometricAltitude(0xc8d));
}

#[test]
fn test_parse_gnss_altitude() {
    // type code 20, same on-wire layout as the barometric shape
    let input = [
        0x1a, 0x33, 0x00, 0x00, 0x00, 0x00, 0x00, 0x00, 0x00, 0x8d, 0x84, 0x1b, 0xd1, 0xa0, 0xc8,
        0xd0,
    ];
    let frame = parse_adsb_frame(&input).unwrap();
    assert_eq!(frame.payload, AdsbMessage::GnssAltitude(0xc8d));
}

#[test]
fn test_parse_unknown_typecode_zero() {
    let input = [
        0x1a, 0x33, 0x00, 0x00, 0x00, 0x00, 0x00, 0x00, 0x00, 0x8d, 0x84, 0x1b, 0xd1, 0x07,
    ];
    let frame = parse_adsb_frame(&input).unwrap();
    assert_eq!(frame.payload, AdsbMessage::Unknown(0));
}

#[test]
fn test_parse_unknown_typecode_twentythree() {
    let input = [
        0x1a, 0x33, 0x00, 0x00, 0x00, 0x00, 0x00, 0x00, 0x00, 0x8d, 0x84, 0x1b, 0xd1, 0xb8,
    ];
    let frame = parse_adsb_frame(&input).unwrap();
    assert_eq!(frame.payload, AdsbMessage::Unknown(23));
}

#[test]
fn test_icao_zero_padded() {
    let input = [0x00, 0x0a, 0xff];
    assert_eq!(icao(&input).unwrap(), "000aff");
}

#[test]
fn test_icao_too_short() {
    let input = [0x84, 0x1b];
    assert!(icao(&input).is_none());
}

#[test]
fn test_aircraft_category() {
    // 0x25 = 00100 101: type code 4, category 5
    let input = [0x25];
    assert!(matches!(aircraft_category(&input), Some(5)));
}

#[test]
fn test_callsign_all_fill_trims_to_empty() {
    // eight 6-bit codes of 32 (space): 100000 repeated
    let input = [0x82, 0x08, 0x20, 0x82, 0x08, 0x20];
    assert_eq!(callsign(&input).unwrap(), "");
}

#[test]
fn test_callsign_too_short() {
    let input = [0x2C, 0xC3, 0x71];
    assert!(callsign(&input).is_none());
}
