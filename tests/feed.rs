use salle_bot::calendar::{Interval, Room, Rooms};
use salle_bot::calendar_sync::fetch::{find_prop, has_prefix, ingest, CalEntry, Error, Event, Property};
use salle_bot::calendar_sync::CalendarSync;

const NINE: i64 = 1704099600;
const TEN: i64 = 1704103200;
const NINE_THIRTY: i64 = 1704101400;
const TEN_THIRTY: i64 = 1704105000;

fn event(start: &str, end: &str, location: &str) -> String {
    format!(
        "BEGIN:VEVENT\r\nUID:{}-{}\r\nDTSTART:{}\r\nDTEND:{}\r\nLOCATION:{}\r\nEND:VEVENT\r\n",
        start, location, start, end, location
    )
}

fn calendar(events: &[String]) -> Vec<u8> {
    let mut s = String::from("BEGIN:VCALENDAR\r\nVERSION:2.0\r\nPRODID:-//rooms//EN\r\n");
    for e in events {
        s.push_str(e);
    }
    s.push_str("END:VCALENDAR\r\n");
    s.into_bytes()
}

fn codes(rooms: &[Room]) -> Vec<String> {
    rooms.iter().map(|r| r.to_string()).collect()
}

fn table(rooms: &Rooms) -> Vec<(String, Vec<Interval>)> {
    rooms
        .rooms_and_timetable()
        .iter()
        .map(|(r, ivs)| (r.to_string(), ivs.clone()))
        .collect()
}

fn total(rooms: &Rooms) -> usize {
    rooms.rooms_and_timetable().iter().map(|(_, ivs)| ivs.len()).sum()
}

#[test]
fn one_booking_makes_one_room() {
    let feed = calendar(&[event("20240101T090000Z", "20240101T100000Z", "DLST-A101-extra")]);
    let rooms = ingest(&feed).unwrap();
    assert_eq!(
        table(&rooms),
        vec![("A101".to_string(), vec![Interval { start: NINE, end: TEN }])]
    );
    assert!(codes(&rooms.free_rooms(NINE_THIRTY)).is_empty());
    assert_eq!(codes(&rooms.free_rooms(TEN_THIRTY)), vec!["A101".to_string()]);
}

#[test]
fn location_without_prefix_is_dropped() {
    let feed = calendar(&[event("20240101T090000Z", "20240101T100000Z", "Cafeteria")]);
    let rooms = ingest(&feed).unwrap();
    assert!(rooms.rooms().is_empty());
}

#[test]
fn booking_bounds_are_included() {
    let feed = calendar(&[event("20240101T090000Z", "20240101T100000Z", "DLST-A101")]);
    let rooms = ingest(&feed).unwrap();
    assert!(rooms.free_rooms(NINE).is_empty());
    assert!(rooms.free_rooms(TEN).is_empty());
    assert_eq!(codes(&rooms.free_rooms(NINE - 1)), vec!["A101".to_string()]);
    assert_eq!(codes(&rooms.free_rooms(TEN + 1)), vec!["A101".to_string()]);
}

#[test]
fn malformed_events_are_passed_over() {
    let feed = calendar(&[
        event("20240101T090000Z", "20240101T100000Z", "DLST-A101"),
        event("2024-01-01 09:00", "20240101T100000Z", "DLST-A102"),
        event("20240101T090000Z", "20240101T100000", "DLST-A103"),
        event("20240101T090000Z", "20240101T100000Z", "DLST-Hall"),
        event("20240101T090000Z", "20240101T100000Z", "Cafeteria"),
        "BEGIN:VEVENT\r\nUID:x\r\nDTSTART:20240101T090000Z\r\nDTEND:20240101T100000Z\r\nEND:VEVENT\r\n"
            .to_string(),
        event("20240101T110000Z", "20240101T120000Z", "DLST-B200"),
        event("20240101T130000Z", "20240101T140000Z", "DLST-A101"),
    ]);
    let rooms = ingest(&feed).unwrap();
    assert_eq!(total(&rooms), 3);
    assert_eq!(
        table(&rooms),
        vec![
            (
                "A101".to_string(),
                vec![
                    Interval { start: NINE, end: TEN },
                    Interval { start: 1704114000, end: 1704117600 }
                ]
            ),
            ("B200".to_string(), vec![Interval { start: 1704106800, end: 1704110400 }]),
        ]
    );
}

#[test]
fn ingesting_twice_gives_equal_rooms() {
    let feed = calendar(&[
        event("20240101T090000Z", "20240101T100000Z", "DLST-A101"),
        event("20240102T090000Z", "20240102T100000Z", "DLST-F2"),
    ]);
    let a = ingest(&feed).unwrap();
    let b = ingest(&feed).unwrap();
    assert_eq!(table(&a), table(&b));
}

#[test]
fn free_rooms_are_known_rooms_not_booked() {
    let feed = calendar(&[
        event("20240101T090000Z", "20240101T100000Z", "DLST-A101"),
        event("20240101T093000Z", "20240101T110000Z", "DLST-B200"),
        event("20240101T120000Z", "20240101T130000Z", "DLST-C300"),
        event("20240101T080000Z", "20240101T083000Z", "DLST-A101"),
    ]);
    let rooms = ingest(&feed).unwrap();
    assert_eq!(codes(&rooms.rooms()), vec!["A101", "B200", "C300"]);
    assert_eq!(codes(&rooms.free_rooms(NINE_THIRTY)), vec!["C300"]);
    assert_eq!(codes(&rooms.free_rooms(TEN_THIRTY)), vec!["A101", "C300"]);
}

#[test]
fn feed_without_calendar_is_parse_none() {
    assert!(matches!(ingest(&Vec::new()), Err(Error::ParseNone)));
}

#[test]
fn malformed_feed_is_parse_error() {
    assert!(matches!(ingest(&b"hello\r\n".to_vec()), Err(Error::Parse(_))));
}

#[test]
fn failed_resync_keeps_snapshot() {
    let d1 = ingest(&calendar(&[event("20240101T090000Z", "20240101T100000Z", "DLST-A101")])).unwrap();
    let before = table(&d1);
    let mut sync = CalendarSync::new("http://localhost/cal.ics".to_string(), d1);
    let r = sync.resync(ingest(&b"broken".to_vec()));
    assert!(r.is_err());
    assert_eq!(table(&sync.get()), before);
    assert_eq!(sync.url(), "http://localhost/cal.ics");
}

#[test]
fn resync_replaces_snapshot_and_old_one_stays() {
    let d1 = ingest(&calendar(&[event("20240101T090000Z", "20240101T100000Z", "DLST-A101")])).unwrap();
    let mut sync = CalendarSync::new("http://localhost/cal.ics".to_string(), d1);
    let old = sync.get();
    let d2 = ingest(&calendar(&[event("20240101T090000Z", "20240101T100000Z", "DLST-B200")])).unwrap();
    assert!(sync.resync::<Error>(Ok(d2)).is_ok());
    assert_eq!(codes(&sync.get().rooms()), vec!["B200"]);
    assert_eq!(codes(&old.rooms()), vec!["A101"]);
}

#[test]
fn find_prop_takes_the_first_property_of_the_name() {
    let ev = Event {
        properties: vec![
            Property { name: "LOCATION".to_string(), value: Some("DLST-A101".to_string()) },
            Property { name: "LOCATION".to_string(), value: Some("DLST-B200".to_string()) },
            Property { name: "DTEND".to_string(), value: None },
        ],
    };
    assert_eq!(find_prop(&ev, "LOCATION").map(|s| s.as_str()), Some("DLST-A101"));
    assert_eq!(find_prop(&ev, "DTEND"), None);
    assert_eq!(find_prop(&ev, "DTSTART"), None);
}

#[test]
fn try_from_reads_the_event() {
    let ev = Event {
        properties: vec![
            Property { name: "DTSTART".to_string(), value: Some("20240101T090000Z".to_string()) },
            Property { name: "DTEND".to_string(), value: Some("20240101T100000Z".to_string()) },
            Property { name: "LOCATION".to_string(), value: Some("DLST-F3".to_string()) },
        ],
    };
    let e = CalEntry::try_from(&ev).unwrap();
    assert_eq!(e.room().to_string(), "F3");
    assert_eq!(e.span(), Interval { start: NINE, end: TEN });
}

#[test]
fn has_prefix_cases() {
    assert!(has_prefix("DLST-A101", "DLST-"));
    assert!(!has_prefix("DLS", "DLST-"));
    assert!(!has_prefix("XLST-A101", "DLST-"));
    assert!(has_prefix("", ""));
}

#[test]
fn booking_ending_before_it_starts_is_dropped() {
    let feed = calendar(&[
        event("20240101T100000Z", "20240101T090000Z", "DLST-A101"),
        event("20240101T090000Z", "20240101T090000Z", "DLST-B200"),
    ]);
    let rooms = ingest(&feed).unwrap();
    assert_eq!(
        table(&rooms),
        vec![("B200".to_string(), vec![Interval { start: NINE, end: NINE }])]
    );
    assert_eq!(codes(&rooms.free_rooms(NINE_THIRTY)), vec!["B200"]);
}
