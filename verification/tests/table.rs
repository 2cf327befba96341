use adsb_decoder::adsb::{parse_adsb_frame, ADSBFrame, AdsbMessage};
use adsb_decoder::table::Table;

fn frame(icao: &str, payload: AdsbMessage) -> ADSBFrame {
    ADSBFrame {
        downlink_format: 17,
        capability: 5,
        icao: String::from(icao),
        payload,
    }
}

#[test]
fn test_identification_then_altitude_populates_both() {
    let mut table = Table::new();
    table.insert(frame(
        "841bd1",
        AdsbMessage::Identification(String::from("KLM1023")),
    ));
    table.insert(frame("841bd1", AdsbMessage::BarometricAltitude(500)));
    let entry = table.lookup(&String::from("841bd1")).unwrap();
    assert_eq!(entry.0, "KLM1023");
    assert_eq!(entry.1, 500);
}

#[test]
fn test_altitude_then_identification_populates_both() {
    let mut table = Table::new();
    table.insert(frame("841bd1", AdsbMessage::GnssAltitude(1200)));
    table.insert(frame(
        "841bd1",
        AdsbMessage::Identification(String::from("KLM1023")),
    ));
    let entry = table.lookup(&String::from("841bd1")).unwrap();
    assert_eq!(entry.0, "KLM1023");
    assert_eq!(entry.1, 1200);
}

#[test]
fn test_updates_do_not_touch_other_addresses() {
    let mut table = Table::new();
    table.insert(frame(
        "111111",
        AdsbMessage::Identification(String::from("AAA")),
    ));
    table.insert(frame("222222", AdsbMessage::BarometricAltitude(900)));
    let first = table.lookup(&String::from("111111")).unwrap();
    assert_eq!(first.0, "AAA");
    assert_eq!(first.1, 0);
    let second = table.lookup(&String::from("222222")).unwrap();
    assert_eq!(second.0, "");
    assert_eq!(second.1, 900);
}

#[test]
fn test_unknown_payload_is_a_no_op() {
    let mut table = Table::new();
    table.insert(frame("841bd1", AdsbMessage::Unknown(7)));
    assert!(table.lookup(&String::from("841bd1")).is_none());
    assert_eq!(table.render(), "");
}

#[test]
fn test_lookup_unseen_address() {
    let table = Table::new();
    assert!(table.lookup(&String::from("841bd1")).is_none());
}

#[test]
fn test_render_sorts_ascending_by_altitude() {
    let mut table = Table::new();
    table.insert(frame("aaaaaa", AdsbMessage::BarometricAltitude(500)));
    table.insert(frame("bbbbbb", AdsbMessage::BarometricAltitude(100)));
    table.insert(frame("cccccc", AdsbMessage::BarometricAltitude(300)));
    let report = table.render();
    let lines: Vec<&str> = report.lines().collect();
    assert_eq!(lines.len(), 3);
    assert_eq!(lines[0], "bbbbbb\tN/A\t100m");
    assert_eq!(lines[1], "cccccc\tN/A\t300m");
    assert_eq!(lines[2], "aaaaaa\tN/A\t500m");
}

#[test]
fn test_render_hides_fully_unset_entry() {
    let mut table = Table::new();
    table.insert(frame("aaaaaa", AdsbMessage::Identification(String::new())));
    table.insert(frame(
        "bbbbbb",
        AdsbMessage::Identification(String::from("KLM1023")),
    ));
    let report = table.render();
    let lines: Vec<&str> = report.lines().collect();
    assert_eq!(lines.len(), 1);
    assert_eq!(lines[0], "bbbbbb\tKLM1023\tN/A");
}

#[test]
fn test_render_empty_table() {
    let table = Table::new();
    assert_eq!(table.render(), "");
}

#[test]
fn test_render_shows_both_fields_when_set() {
    let mut table = Table::new();
    table.insert(frame(
        "841bd1",
        AdsbMessage::Identification(String::from("KLM1023")),
    ));
    table.insert(frame("841bd1", AdsbMessage::BarometricAltitude(4095)));
    assert_eq!(table.render(), "841bd1\tKLM1023\t4095m");
}

#[test]
fn test_decoded_frame_feeds_table() {
    let input = [
        0x1a, 0x33, 0x00, 0x00, 0x00, 0x00, 0x00, 0x00, 0x00, 0x8d, 0x84, 0x1b, 0xd1, 0x20, 0x2C,
        0xC3, 0x71, 0xC3, 0x2C, 0xE0,
    ];
    let decoded = parse_adsb_frame(&input).unwrap();
    let mut table = Table::new();
    table.insert(decoded);
    let entry = table.lookup(&String::from("841bd1")).unwrap();
    assert_eq!(entry.0, "KLM1023");
    assert_eq!(entry.1, 0);
}

#[test]
fn test_altitude_variants_share_the_field() {
    let mut table = Table::new();
    table.insert(frame("841bd1", AdsbMessage::BarometricAltitude(500)));
    table.insert(frame("841bd1", AdsbMessage::GnssAltitude(750)));
    let entry = table.lookup(&String::from("841bd1")).unwrap();
    assert_eq!(entry.1, 750);
}
