use crate::calendar::{
    Interval, Room, Rooms, bookings_wf, first_room_code, lemma_map_insert_keeps_bookings_wf,
    lemma_room_obeys_view_eq,
};
use crate::hash_map_vec::{HashMapVec, has_key, lemma_map_insert_cases, map_insert};
use vstd::laws_eq::obeys_view_eq;
use vstd::prelude::*;
use vstd::string::StrSliceExecFns;

verus! {

/// The format of `DTSTART` and `DTEND`: `YYYYMMDDTHHMMSSZ`, read as UTC.
pub const DATE_FORMAT: &'static str = "%Y%m%dT%H%M%SZ";

/// The start of every location that names a room of the building.
pub const ROOM_PREFIX: &'static str = "DLST-";

pub const DTSTART: &'static str = "DTSTART";

pub const DTEND: &'static str = "DTEND";

pub const LOCATION: &'static str = "LOCATION";

/// The seconds since the Unix epoch of the instant that `s` writes in `format`, read as UTC.
pub uninterp spec fn parsed_timestamp(s: Seq<char>, format: Seq<char>) -> Option<int>;

/// The events of the first calendar of a feed, each as its properties (name and value):
/// `None` when the feed holds no calendar, `Some(None)` when that calendar is malformed.
pub uninterp spec fn first_calendar_events(feed: Seq<u8>) -> Option<
    Option<Seq<Seq<(Seq<char>, Option<Seq<char>>)>>>,
>;

/// One property of an event: its name and, if it has one, its value.
#[derive(Debug, Clone)]
pub struct Property {
    pub name: String,
    pub value: Option<String>,
}

impl View for Property {
    type V = (Seq<char>, Option<Seq<char>>);

    open spec fn view(&self) -> (Seq<char>, Option<Seq<char>>) {
        (
            self.name@,
            match self.value {
                Some(v) => Some(v@),
                None => None,
            },
        )
    }
}

/// An event of a calendar, as the list of its properties.
#[derive(Debug, Clone)]
pub struct Event {
    pub properties: Vec<Property>,
}

impl View for Event {
    type V = Seq<(Seq<char>, Option<Seq<char>>)>;

    open spec fn view(&self) -> Seq<(Seq<char>, Option<Seq<char>>)> {
        self.properties@.map_values(|p: Property| p@)
    }
}

/// Relies on chrono::NaiveDateTime::parse_from_str and on the Unix timestamp of that date
/// and time read as UTC.
#[verifier::external_body]
fn parse_timestamp(s: &str, format: &str) -> (r: Option<i64>)
    ensures
        match r {
            Some(t) => parsed_timestamp(s@, format@) == Some(t as int),
            None => parsed_timestamp(s@, format@) is None,
        },
{
    chrono::NaiveDateTime::parse_from_str(s, format).ok().map(|d| d.and_utc().timestamp())
}

/// Relies on ical::IcalParser::next: the first calendar of the feed, with its events.
#[verifier::external_body]
fn first_calendar(feed: &Vec<u8>) -> (r: Option<Result<Vec<Event>, ical::parser::ParserError>>)
    ensures
        match r {
            None => first_calendar_events(feed@) is None,
            Some(Err(_)) => first_calendar_events(feed@) == Some(
                None::<Seq<Seq<(Seq<char>, Option<Seq<char>>)>>>,
            ),
            Some(Ok(evs)) => first_calendar_events(feed@) == Some(
                Some(evs@.map_values(|e: Event| e@)),
            ),
        },
{
    ical::IcalParser::new(feed.as_slice()).next().map(|cal| cal.map(|c| c.events.into_iter().map(
        |e| Event {
            properties: e.properties.into_iter().map(|p| Property { name: p.name, value: p.value }).collect(),
        },
    ).collect()))
}

#[verifier::external_type_specification]
#[verifier::external_body]
pub struct ExParserError(ical::parser::ParserError);

/// The value of the first property of `ev` named `name`.
pub open spec fn find_prop_from(ev: Seq<(Seq<char>, Option<Seq<char>>)>, name: Seq<char>, i: nat) -> Option<
    Seq<char>,
>
    decreases ev.len() - i,
{
    if i >= ev.len() {
        None
    } else if ev[i as int].0 == name {
        ev[i as int].1
    } else {
        find_prop_from(ev, name, i + 1)
    }
}

pub open spec fn find_prop_spec(ev: Seq<(Seq<char>, Option<Seq<char>>)>, name: Seq<char>) -> Option<
    Seq<char>,
> {
    find_prop_from(ev, name, 0)
}

/// The value of the first property of `event` named `property`, if it has one.
pub fn find_prop<'a>(event: &'a Event, property: &str) -> (r: Option<&'a String>)
    ensures
        match r {
            Some(v) => find_prop_spec(event@, property@) == Some(v@),
            None => find_prop_spec(event@, property@) is None,
        },
{
    let name = property.to_owned();
    let props = &event.properties;
    let mut i: usize = 0;
    while i < props.len()
        invariant
            i <= props@.len(),
            name@ == property@,
            event@ == props@.map_values(|p: Property| p@),
            find_prop_spec(event@, property@) == find_prop_from(event@, property@, i as nat),
        decreases props.len() - i,
    {
        if props[i].name == name {
            return match &props[i].value {
                Some(v) => Some(v),
                None => None,
            };
        }
        i += 1;
    }
    None
}

/// Whether `s` starts with `prefix`.
pub fn has_prefix(s: &str, prefix: &str) -> (r: bool)
    ensures
        r == prefix@.is_prefix_of(s@),
{
    let n = prefix.unicode_len();
    if s.unicode_len() < n {
        return false;
    }
    let mut i: usize = 0;
    while i < n
        invariant
            n == prefix@.len(),
            n <= s@.len(),
            i <= n,
            forall|j: int| 0 <= j < i ==> prefix@[j] == s@[j],
        decreases n - i,
    {
        if prefix.get_char(i) != s.get_char(i) {
            return false;
        }
        i += 1;
    }
    true
}

pub open spec fn as_int(t: Option<i64>) -> Option<int> {
    match t {
        Some(x) => Some(x as int),
        None => None,
    }
}

/// The booking that a start, an end and a location make: both instants are known, the start
/// comes no later than the end, and the location is a room of the building with a code in it.
pub open spec fn entry_from_parts(
    start: Option<int>,
    end: Option<int>,
    location: Option<Seq<char>>,
) -> Option<(Seq<char>, Interval)> {
    match (start, end, location) {
        (Some(s), Some(e), Some(l)) => if s <= e && ROOM_PREFIX@.is_prefix_of(l) && first_room_code(
            l,
        ) is Some {
            Some((first_room_code(l)->Some_0, Interval { start: s as i64, end: e as i64 }))
        } else {
            None
        },
        _ => None,
    }
}

pub open spec fn timestamp_prop(ev: Seq<(Seq<char>, Option<Seq<char>>)>, name: Seq<char>) -> Option<
    int,
> {
    match find_prop_spec(ev, name) {
        Some(s) => parsed_timestamp(s, DATE_FORMAT@),
        None => None,
    }
}

/// The booking that an event records, if it is a well-formed booking of a room.
pub open spec fn entry_of(ev: Seq<(Seq<char>, Option<Seq<char>>)>) -> Option<(Seq<char>, Interval)> {
    entry_from_parts(
        timestamp_prop(ev, DTSTART@),
        timestamp_prop(ev, DTEND@),
        find_prop_spec(ev, LOCATION@),
    )
}

/// The bookings that the events record, in order.
pub open spec fn entries_of(evs: Seq<Seq<(Seq<char>, Option<Seq<char>>)>>) -> Seq<(Seq<char>, Interval)>
    decreases evs.len(),
{
    if evs.len() == 0 {
        Seq::empty()
    } else {
        let prev = entries_of(evs.drop_last());
        match entry_of(evs.last()) {
            Some(e) => prev.push(e),
            None => prev,
        }
    }
}

/// The bookings grouped by room, rooms in order of first appearance.
pub open spec fn group_entries(es: Seq<(Seq<char>, Interval)>) -> Seq<(Seq<char>, Seq<Interval>)>
    decreases es.len(),
{
    if es.len() == 0 {
        Seq::empty()
    } else {
        map_insert(group_entries(es.drop_last()), es.last().0, es.last().1)
    }
}

/// The rooms that the events of a calendar book.
pub open spec fn directory_of(evs: Seq<Seq<(Seq<char>, Option<Seq<char>>)>>) -> Seq<
    (Seq<char>, Seq<Interval>),
> {
    group_entries(entries_of(evs))
}

/// A booking of a room.
#[derive(Debug)]
pub struct CalEntry {
    span: Interval,
    room: Room,
}

impl View for CalEntry {
    type V = (Seq<char>, Interval);

    closed spec fn view(&self) -> (Seq<char>, Interval) {
        (self.room@, self.span)
    }
}

impl Clone for CalEntry {
    fn clone(&self) -> (r: CalEntry)
        ensures
            r@ == self@,
    {
        proof {
            use_type_invariant(self);
        }
        CalEntry { span: self.span, room: self.room.clone() }
    }
}

impl CalEntry {
    #[verifier::type_invariant]
    spec fn inv(&self) -> bool {
        self.span.wf()
    }

    pub fn span(&self) -> (r: Interval)
        ensures
            r == self@.1,
            r.wf(),
    {
        proof {
            use_type_invariant(self);
        }
        self.span
    }

    pub fn room(&self) -> (r: &Room)
        ensures
            r@ == self@.0,
    {
        &self.room
    }

    /// The booking that a start, an end and a location make, if they make one.
    pub fn from_parts(start: Option<i64>, end: Option<i64>, location: Option<&str>) -> (r: Result<
        CalEntry,
        (),
    >)
        ensures
            match r {
                Ok(e) => entry_from_parts(
                    as_int(start),
                    as_int(end),
                    match location {
                        Some(l) => Some(l@),
                        None => None,
                    },
                ) == Some(e@),
                Err(_) => entry_from_parts(
                    as_int(start),
                    as_int(end),
                    match location {
                        Some(l) => Some(l@),
                        None => None,
                    },
                ) is None,
            },
    {
        match (start, end, location) {
            (Some(s), Some(e), Some(l)) => {
                if s > e || !has_prefix(l, ROOM_PREFIX) {
                    return Err(());
                }
                match Room::parse(l) {
                    Ok(room) => Ok(CalEntry { span: Interval { start: s, end: e }, room }),
                    Err(_) => Err(()),
                }
            },
            _ => Err(()),
        }
    }

    /// The booking that `src` records, if it is a well-formed booking of a room.
    pub fn try_from(src: &Event) -> (r: Result<CalEntry, ()>)
        ensures
            match r {
                Ok(e) => entry_of(src@) == Some(e@),
                Err(_) => entry_of(src@) is None,
            },
    {
        let start = match find_prop(src, DTSTART) {
            Some(s) => parse_timestamp(s.as_str(), DATE_FORMAT),
            None => None,
        };
        let end = match find_prop(src, DTEND) {
            Some(s) => parse_timestamp(s.as_str(), DATE_FORMAT),
            None => None,
        };
        let location = match find_prop(src, LOCATION) {
            Some(l) => Some(l.as_str()),
            None => None,
        };
        CalEntry::from_parts(start, end, location)
    }
}

/// The bookings that the events record, in order; the other events are passed over.
pub fn cal_entries(events: &Vec<Event>) -> (r: Vec<CalEntry>)
    ensures
        r@.map_values(|e: CalEntry| e@) == entries_of(events@.map_values(|e: Event| e@)),
{
    let ghost evs = events@.map_values(|e: Event| e@);
    let mut r: Vec<CalEntry> = Vec::new();
    let mut i: usize = 0;
    while i < events.len()
        invariant
            i <= events@.len(),
            evs == events@.map_values(|e: Event| e@),
            r@.map_values(|e: CalEntry| e@) == entries_of(evs.take(i as int)),
        decreases events.len() - i,
    {
        assert(evs.take(i + 1).drop_last() =~= evs.take(i as int));
        assert(evs.take(i + 1).last() == events@[i as int]@);
        match CalEntry::try_from(&events[i]) {
            Ok(e) => {
                r.push(e);
                assert(r@.map_values(|e: CalEntry| e@) =~= entries_of(evs.take(i + 1)));
            },
            Err(_) => {},
        }
        i += 1;
    }
    assert(evs.take(i as int) =~= evs);
    r
}

impl Rooms {
    /// The bookings grouped by room, rooms in order of first appearance.
    pub fn from_entries(entries: &Vec<CalEntry>) -> (r: Rooms)
        ensures
            r.wf(),
            r@ == group_entries(entries@.map_values(|e: CalEntry| e@)),
    {
        let ghost es = entries@.map_values(|e: CalEntry| e@);
        proof {
            lemma_room_obeys_view_eq();
        }
        let mut rooms: HashMapVec<Room, Interval> = HashMapVec::new();
        let mut i: usize = 0;
        while i < entries.len()
            invariant
                i <= entries@.len(),
                es == entries@.map_values(|e: CalEntry| e@),
                rooms.wf(),
                bookings_wf(rooms@),
                rooms@ == group_entries(es.take(i as int)),
                obeys_view_eq::<Room>(),
            decreases entries.len() - i,
        {
            assert(es.take(i + 1).drop_last() =~= es.take(i as int));
            assert(es.take(i + 1).last() == entries@[i as int]@);
            let room = entries[i].room().clone();
            let span = entries[i].span();
            proof {
                lemma_map_insert_keeps_bookings_wf(rooms@, room@, span);
            }
            rooms.insert(room, span);
            i += 1;
        }
        assert(es.take(i as int) =~= es);
        Rooms { rooms }
    }
}

/// Why a feed gave no rooms.
#[derive(Debug)]
pub enum Error {
    /// The feed holds no calendar.
    ParseNone,
    /// The calendar of the feed is malformed.
    Parse(ical::parser::ParserError),
}

/// The rooms that a feed books: `None` when the feed holds no well-formed calendar.
pub open spec fn ingest_spec(feed: Seq<u8>) -> Option<Seq<(Seq<char>, Seq<Interval>)>> {
    match first_calendar_events(feed) {
        Some(Some(evs)) => Some(directory_of(evs)),
        _ => None,
    }
}

/// The rooms that the first calendar of `feed` books, each with its bookings in feed order.
/// Events that are no well-formed booking of a room of the building are passed over.
pub fn ingest(feed: &Vec<u8>) -> (r: Result<Rooms, Error>)
    ensures
        match first_calendar_events(feed@) {
            None => r matches Err(Error::ParseNone),
            Some(None) => r matches Err(Error::Parse(_)),
            Some(Some(evs)) => r matches Ok(rooms) && rooms.wf() && rooms@ == directory_of(evs),
        },
        match r {
            Ok(rooms) => ingest_spec(feed@) == Some(rooms@),
            Err(_) => ingest_spec(feed@) is None,
        },
{
    match first_calendar(feed) {
        None => Err(Error::ParseNone),
        Some(Err(e)) => Err(Error::Parse(e)),
        Some(Ok(events)) => {
            let entries = cal_entries(&events);
            Ok(Rooms::from_entries(&entries))
        },
    }
}

/// The number of events that are well-formed bookings of a room of the building.
pub open spec fn well_formed_count(evs: Seq<Seq<(Seq<char>, Option<Seq<char>>)>>) -> nat
    decreases evs.len(),
{
    if evs.len() == 0 {
        0
    } else {
        well_formed_count(evs.drop_last()) + if entry_of(evs.last()) is Some {
            1nat
        } else {
            0nat
        }
    }
}

/// The number of bookings over all rooms.
pub open spec fn total_bookings(m: Seq<(Seq<char>, Seq<Interval>)>) -> nat
    decreases m.len(),
{
    if m.len() == 0 {
        0
    } else {
        total_bookings(m.drop_last()) + m.last().1.len()
    }
}

proof fn lemma_total_bookings_update(
    m: Seq<(Seq<char>, Seq<Interval>)>,
    i: int,
    x: (Seq<char>, Seq<Interval>),
)
    requires
        0 <= i < m.len(),
    ensures
        total_bookings(m.update(i, x)) + m[i].1.len() == total_bookings(m) + x.1.len(),
    decreases m.len(),
{
    if i == m.len() - 1 {
        assert(m.update(i, x).drop_last() =~= m.drop_last());
    } else {
        assert(m.update(i, x).drop_last() =~= m.drop_last().update(i, x));
        lemma_total_bookings_update(m.drop_last(), i, x);
    }
}

proof fn lemma_total_bookings_insert(m: Seq<(Seq<char>, Seq<Interval>)>, k: Seq<char>, v: Interval)
    ensures
        total_bookings(map_insert(m, k, v)) == total_bookings(m) + 1,
{
    if has_key(m, k) {
        lemma_map_insert_cases(m, k, v);
        let i = choose|i: int|
            0 <= i < m.len() && m[i].0 == k && map_insert(m, k, v) == m.update(
                i,
                (k, m[i].1.push(v)),
            );
        lemma_total_bookings_update(m, i, (k, m[i].1.push(v)));
    } else {
        let n = map_insert(m, k, v);
        assert(n.drop_last() =~= m);
        assert(n.last().1 == seq![v]);
        assert(total_bookings(n) == total_bookings(n.drop_last()) + n.last().1.len());
    }
}

proof fn lemma_grouping_keeps_count(es: Seq<(Seq<char>, Interval)>)
    ensures
        total_bookings(group_entries(es)) == es.len(),
    decreases es.len(),
{
    if es.len() > 0 {
        lemma_grouping_keeps_count(es.drop_last());
        lemma_total_bookings_insert(group_entries(es.drop_last()), es.last().0, es.last().1);
    }
}

proof fn lemma_entries_count(evs: Seq<Seq<(Seq<char>, Option<Seq<char>>)>>)
    ensures
        entries_of(evs).len() == well_formed_count(evs),
    decreases evs.len(),
{
    if evs.len() > 0 {
        lemma_entries_count(evs.drop_last());
    }
}

/// The rooms read from a calendar hold as many bookings in all as the calendar has events that
/// are well-formed bookings of a room of the building; the other events add none.
pub proof fn law_ingest_counts_well_formed_bookings(evs: Seq<Seq<(Seq<char>, Option<Seq<char>>)>>)
    ensures
        total_bookings(directory_of(evs)) == well_formed_count(evs),
{
    lemma_grouping_keeps_count(entries_of(evs));
    lemma_entries_count(evs);
}

/// Reading the same feed twice gives the same rooms, each with the same bookings.
pub proof fn law_ingest_is_deterministic(feed1: Seq<u8>, feed2: Seq<u8>)
    requires
        feed1 == feed2,
    ensures
        ingest_spec(feed1) == ingest_spec(feed2),
{
}

} // verus!
