use salle_bot::calendar::{group_by_building, Interval, Room, RoomError};
use salle_bot::calendar_sync::fetch::{ingest, CalEntry};

fn codes(rooms: &[Room]) -> Vec<String> {
    rooms.iter().map(|r| r.to_string()).collect()
}

#[test]
fn parse_keeps_only_the_code() {
    assert_eq!(Room::parse("DLST-A101-extra").unwrap().to_string(), "A101");
    assert_eq!(Room::parse("E042").unwrap().to_string(), "E042");
    assert_eq!(Room::parse("salle F2 bis").unwrap().to_string(), "F2");
}

#[test]
fn parse_prefers_the_long_code_at_the_same_place() {
    assert_eq!(Room::parse("F123").unwrap().to_string(), "F123");
    assert_eq!(Room::parse("F12").unwrap().to_string(), "F1");
}

#[test]
fn parse_takes_the_leftmost_code() {
    assert_eq!(Room::parse("x B200 then C300").unwrap().to_string(), "B200");
    assert_eq!(Room::parse("F7 and A100").unwrap().to_string(), "F7");
}

#[test]
fn parse_fails_without_a_code() {
    assert_eq!(Room::parse("Cafeteria"), Err(RoomError::MalformedRoomLabel));
    assert_eq!(Room::parse(""), Err(RoomError::MalformedRoomLabel));
    assert_eq!(Room::parse("G123 a12 A12"), Err(RoomError::MalformedRoomLabel));
}

#[test]
fn bat_is_first_character_of_code() {
    assert_eq!(Room::parse("DLST-C204").unwrap().bat(), 'C');
    assert_eq!(Room::parse("F3").unwrap().bat(), 'F');
}

#[test]
fn interval_bounds_are_included() {
    let s = 1704099600;
    let e = 1704103200;
    let iv = Interval { start: s, end: e };
    assert!(iv.contains(s));
    assert!(iv.contains(e));
    assert!(iv.contains(s + 1800));
    assert!(!iv.contains(s - 1));
    assert!(!iv.contains(e + 1));
}

#[test]
fn group_by_building_keeps_order() {
    let rooms: Vec<Room> = ["A101", "B200", "A102", "F1", "B201"]
        .iter()
        .map(|c| Room::parse(c).unwrap())
        .collect();
    let groups = group_by_building(&rooms);
    let got: Vec<(char, Vec<String>)> = groups
        .entries()
        .iter()
        .map(|(b, rs)| (b.tag, codes(rs)))
        .collect();
    assert_eq!(
        got,
        vec![
            ('A', vec!["A101".to_string(), "A102".to_string()]),
            ('B', vec!["B200".to_string(), "B201".to_string()]),
            ('F', vec!["F1".to_string()]),
        ]
    );
}

#[test]
fn cal_entry_from_parts_checks_prefix_and_code() {
    let e = CalEntry::from_parts(Some(10), Some(20), Some("DLST-B105")).unwrap();
    assert_eq!(e.room().to_string(), "B105");
    assert_eq!(e.span(), Interval { start: 10, end: 20 });
    assert!(CalEntry::from_parts(Some(10), Some(20), Some("B105")).is_err());
    assert!(CalEntry::from_parts(Some(10), Some(20), Some("DLST-Hall")).is_err());
    assert!(CalEntry::from_parts(None, Some(20), Some("DLST-B105")).is_err());
    assert!(CalEntry::from_parts(Some(10), None, Some("DLST-B105")).is_err());
    assert!(CalEntry::from_parts(Some(10), Some(20), None).is_err());
}

#[test]
fn free_rooms_of_empty_calendar_is_empty() {
    let feed = "BEGIN:VCALENDAR\r\nVERSION:2.0\r\nEND:VCALENDAR\r\n".as_bytes().to_vec();
    let rooms = ingest(&feed).unwrap();
    assert!(rooms.rooms().is_empty());
    assert!(rooms.free_rooms(0).is_empty());
}

#[test]
fn cal_entry_from_parts_drops_start_after_end() {
    assert!(CalEntry::from_parts(Some(20), Some(10), Some("DLST-A101")).is_err());
    let e = CalEntry::from_parts(Some(10), Some(10), Some("DLST-A101")).unwrap();
    assert_eq!(e.span(), Interval { start: 10, end: 10 });
}
