use crate::hash_map_vec::{HashMapVec, has_key, lemma_map_insert_cases, map_insert};
use vstd::laws_eq::obeys_view_eq;
use vstd::prelude::*;
use vstd::string::StrSliceExecFns;

verus! {

/// The pattern of a room code: a letter from A to F and three digits, or F and one digit.
pub const ROOM_PATTERN: &'static str = "[A-F][0-9]{3}|F[0-9]";

pub open spec fn is_digit(c: char) -> bool {
    '0' <= c && c <= '9'
}

/// A letter from A to F followed by three digits starts at `i`.
pub open spec fn long_code_at(t: Seq<char>, i: int) -> bool {
    &&& 0 <= i
    &&& i + 4 <= t.len()
    &&& 'A' <= t[i] && t[i] <= 'F'
    &&& is_digit(t[i + 1])
    &&& is_digit(t[i + 2])
    &&& is_digit(t[i + 3])
}

/// `F` followed by one digit starts at `i`.
pub open spec fn short_code_at(t: Seq<char>, i: int) -> bool {
    &&& 0 <= i
    &&& i + 2 <= t.len()
    &&& t[i] == 'F'
    &&& is_digit(t[i + 1])
}

pub open spec fn code_at(t: Seq<char>, i: int) -> bool {
    long_code_at(t, i) || short_code_at(t, i)
}

/// The code that starts at `i`, the first alternative of the pattern taking precedence.
pub open spec fn code_starting_at(t: Seq<char>, i: int) -> Seq<char> {
    if long_code_at(t, i) {
        t.subrange(i, i + 4)
    } else {
        t.subrange(i, i + 2)
    }
}

/// The leftmost code in `t` at or after position `i`.
pub open spec fn first_code_from(t: Seq<char>, i: nat) -> Option<Seq<char>>
    decreases t.len() - i,
{
    if i >= t.len() {
        None
    } else if code_at(t, i as int) {
        Some(code_starting_at(t, i as int))
    } else {
        first_code_from(t, i + 1)
    }
}

/// The leftmost room code embedded in a location label.
pub open spec fn first_room_code(t: Seq<char>) -> Option<Seq<char>> {
    first_code_from(t, 0)
}

/// A canonical room code: the whole text is one code.
pub open spec fn is_room_code(c: Seq<char>) -> bool {
    (c.len() == 4 && long_code_at(c, 0)) || (c.len() == 2 && short_code_at(c, 0))
}

proof fn lemma_first_code_from_is_room_code(t: Seq<char>, i: nat)
    ensures
        first_code_from(t, i) matches Some(c) ==> is_room_code(c),
    decreases t.len() - i,
{
    if i < t.len() {
        if code_at(t, i as int) {
            let c = code_starting_at(t, i as int);
            let i = i as int;
            if long_code_at(t, i as int) {
                assert(c[0] == t[i] && c[1] == t[i + 1] && c[2] == t[i + 2] && c[3] == t[i + 3]);
            } else {
                assert(c[0] == t[i] && c[1] == t[i + 1]);
            }
        } else {
            lemma_first_code_from_is_room_code(t, i + 1);
        }
    }
}

proof fn lemma_first_code_from_skips(t: Seq<char>, i: nat, k: int)
    requires
        i <= k,
        k < t.len(),
        code_at(t, k),
        forall|j: int| i <= j < k ==> !code_at(t, j),
    ensures
        first_code_from(t, i) == Some(code_starting_at(t, k)),
    decreases k - i,
{
    if i < k {
        lemma_first_code_from_skips(t, i + 1, k);
    }
}

proof fn lemma_first_code_from_none(t: Seq<char>, i: nat)
    requires
        forall|j: int| i <= j < t.len() ==> !code_at(t, j),
    ensures
        first_code_from(t, i) is None,
    decreases t.len() - i,
{
    if i < t.len() {
        lemma_first_code_from_none(t, i + 1);
    }
}

/// A label in which exactly one position starts a room code gives that code, and a label in
/// which no position does gives none.
pub proof fn law_parse_finds_the_embedded_code(t: Seq<char>)
    ensures
        forall|k: int|
            0 <= k < t.len() && code_at(t, k) && (forall|j: int|
                0 <= j < t.len() && j != k ==> !code_at(t, j)) ==> first_room_code(t) == Some(
                code_starting_at(t, k),
            ),
        (forall|j: int| 0 <= j < t.len() ==> !code_at(t, j)) ==> first_room_code(t) is None,
{
    assert forall|k: int|
        0 <= k < t.len() && code_at(t, k) && (forall|j: int|
            0 <= j < t.len() && j != k ==> !code_at(t, j)) implies first_room_code(t) == Some(
        code_starting_at(t, k),
    ) by {
        lemma_first_code_from_skips(t, 0, k);
    }
    if forall|j: int| 0 <= j < t.len() ==> !code_at(t, j) {
        lemma_first_code_from_none(t, 0);
    }
}

/// Relies on regex::Regex::new, which accepts `ROOM_PATTERN`, and regex::Regex::find, which
/// gives the leftmost match, the first alternative of the pattern taking precedence there.
#[verifier::external_body]
fn find_room_code(pattern: &str, text: &str) -> (r: Option<String>)
    requires
        pattern@ == ROOM_PATTERN@,
    ensures
        match r {
            Some(m) => first_room_code(text@) == Some(m@),
            None => first_room_code(text@) is None,
        },
{
    regex::Regex::new(pattern).unwrap().find(text).map(|m| m.as_str().to_string())
}

#[derive(Debug, Clone, Copy, PartialEq, Eq)]
pub enum RoomError {
    /// The label holds no room code.
    MalformedRoomLabel,
}

/// A room, named by its canonical code.
#[derive(Debug, Eq, Hash)]
pub struct Room {
    name: String,
}

impl View for Room {
    type V = Seq<char>;

    closed spec fn view(&self) -> Seq<char> {
        self.name@
    }
}

impl PartialEq for Room {
    fn eq(&self, o: &Room) -> (r: bool)
        ensures
            r == (self@ == o@),
    {
        self.name == o.name
    }
}

impl vstd::std_specs::cmp::PartialEqSpecImpl for Room {
    open spec fn obeys_eq_spec() -> bool {
        true
    }

    open spec fn eq_spec(&self, o: &Room) -> bool {
        self@ == o@
    }
}

pub proof fn lemma_room_obeys_view_eq()
    ensures
        obeys_view_eq::<Room>(),
{
    reveal(obeys_view_eq);
}

impl Room {
    #[verifier::type_invariant]
    spec fn inv(&self) -> bool {
        is_room_code(self.name@)
    }

    /// The leftmost room code embedded in `name`; what surrounds it is dropped.
    pub fn parse(name: &str) -> (r: Result<Room, RoomError>)
        ensures
            match first_room_code(name@) {
                Some(c) => r matches Ok(room) && room@ == c && is_room_code(c),
                None => r == Err::<Room, RoomError>(RoomError::MalformedRoomLabel),
            },
    {
        match find_room_code(ROOM_PATTERN, name) {
            Some(code) => {
                proof {
                    lemma_first_code_from_is_room_code(name@, 0);
                }
                Ok(Room { name: code })
            },
            None => Err(RoomError::MalformedRoomLabel),
        }
    }

    /// The building of the room: the first character of its code.
    pub fn bat(&self) -> (r: char)
        ensures
            is_room_code(self@),
            r == self@[0],
    {
        proof {
            use_type_invariant(self);
        }
        self.name.as_str().get_char(0)
    }

    /// The canonical code.
    pub fn to_string(&self) -> (r: String)
        ensures
            r@ == self@,
    {
        self.name.clone()
    }

}

impl Clone for Room {
    fn clone(&self) -> (r: Room)
        ensures
            r@ == self@,
    {
        proof {
            use_type_invariant(self);
        }
        Room { name: self.name.clone() }
    }
}

/// A booking: from `start` to `end`, both included, in seconds since the Unix epoch (UTC).
#[derive(Debug, Clone, Copy, PartialEq, Eq)]
pub struct Interval {
    pub start: i64,
    pub end: i64,
}

impl View for Interval {
    type V = Interval;

    open spec fn view(&self) -> Interval {
        *self
    }
}

impl Interval {
    /// A booking ends no earlier than it starts.
    pub open spec fn wf(self) -> bool {
        self.start <= self.end
    }

    pub open spec fn holds(self, t: int) -> bool {
        self.start <= t && t <= self.end
    }

    /// Whether the instant `t` falls within the booking, both bounds included.
    pub fn contains(&self, t: i64) -> (r: bool)
        ensures
            r == self.holds(t as int),
            r <==> self.start <= t && t <= self.end,
    {
        self.start <= t && t <= self.end
    }
}

/// Some booking of `ivs` holds at `t`.
pub open spec fn booked_at(ivs: Seq<Interval>, t: int) -> bool {
    exists|i: int| 0 <= i < ivs.len() && ivs[i].holds(t)
}

/// The codes of the rooms of `m` that no booking holds at `t`, in the order of `m`.
pub open spec fn free_codes(m: Seq<(Seq<char>, Seq<Interval>)>, t: int) -> Seq<Seq<char>>
    decreases m.len(),
{
    if m.len() == 0 {
        Seq::empty()
    } else {
        let prev = free_codes(m.drop_last(), t);
        if booked_at(m.last().1, t) {
            prev
        } else {
            prev.push(m.last().0)
        }
    }
}

pub open spec fn room_codes(m: Seq<(Seq<char>, Seq<Interval>)>) -> Seq<Seq<char>> {
    m.map_values(|e: (Seq<char>, Seq<Interval>)| e.0)
}

/// Every booking of `m` ends no earlier than it starts.
pub open spec fn bookings_wf(m: Seq<(Seq<char>, Seq<Interval>)>) -> bool {
    forall|i: int, j: int| 0 <= i < m.len() && 0 <= j < m[i].1.len() ==> #[trigger] m[i].1[j].wf()
}

pub proof fn lemma_map_insert_keeps_bookings_wf(
    m: Seq<(Seq<char>, Seq<Interval>)>,
    k: Seq<char>,
    v: Interval,
)
    requires
        bookings_wf(m),
        v.wf(),
    ensures
        bookings_wf(map_insert(m, k, v)),
{
    lemma_map_insert_cases(m, k, v);
    let n = map_insert(m, k, v);
    if has_key(m, k) {
        let i = choose|i: int|
            0 <= i < m.len() && m[i].0 == k && map_insert(m, k, v) == m.update(
                i,
                (k, m[i].1.push(v)),
            );
        assert forall|a: int, b: int| 0 <= a < n.len() && 0 <= b < n[a].1.len() implies #[trigger] n[a].1[b].wf() by {
            if a == i && b == m[i].1.len() {
            } else {
                assert(n[a].1[b] == m[a].1[b]);
            }
        }
    } else {
        assert forall|a: int, b: int| 0 <= a < n.len() && 0 <= b < n[a].1.len() implies #[trigger] n[a].1[b].wf() by {
            if a < m.len() {
                assert(n[a].1[b] == m[a].1[b]);
            }
        }
    }
}

/// The rooms of a calendar, each with its bookings, in order of first appearance.
pub struct Rooms {
    pub rooms: HashMapVec<Room, Interval>,
}

impl View for Rooms {
    type V = Seq<(Seq<char>, Seq<Interval>)>;

    open spec fn view(&self) -> Seq<(Seq<char>, Seq<Interval>)> {
        self.rooms@
    }
}

fn is_booked(ivs: &Vec<Interval>, t: i64) -> (r: bool)
    ensures
        r == booked_at(ivs@, t as int),
{
    let mut i: usize = 0;
    while i < ivs.len()
        invariant
            i <= ivs@.len(),
            forall|j: int| 0 <= j < i ==> !ivs@[j].holds(t as int),
        decreases ivs.len() - i,
    {
        if ivs[i].contains(t) {
            return true;
        }
        i += 1;
    }
    false
}

impl Rooms {
    pub open spec fn wf(&self) -> bool {
        self.rooms.wf() && bookings_wf(self@)
    }

    /// Every room that has a booking.
    pub fn rooms(&self) -> (r: Vec<Room>)
        ensures
            r@.map_values(|x: Room| x@) == room_codes(self@),
    {
        let entries = self.rooms.entries();
        let mut r: Vec<Room> = Vec::new();
        let mut i: usize = 0;
        while i < entries.len()
            invariant
                i <= entries@.len(),
                entries@.map_values(|e: (Room, Vec<Interval>)| (e.0@, e.1@.map_values(|v: Interval| v@))) == self@,
                r@.map_values(|x: Room| x@) == room_codes(self@).take(i as int),
            decreases entries.len() - i,
        {
            assert(self@[i as int].0 == entries@[i as int].0@);
            assert(room_codes(self@).take(i + 1) =~= room_codes(self@).take(i as int).push(
                self@[i as int].0,
            ));
            let room = entries[i].0.clone();
            r.push(room);
            i += 1;
            assert(r@.map_values(|x: Room| x@) =~= room_codes(self@).take(i as int));
        }
        assert(room_codes(self@).take(i as int) =~= room_codes(self@));
        r
    }

    /// Every room, each with its bookings.
    pub fn rooms_and_timetable(&self) -> (r: &Vec<(Room, Vec<Interval>)>)
        ensures
            r@.map_values(|e: (Room, Vec<Interval>)| (e.0@, e.1@.map_values(|v: Interval| v@))) == self@,
    {
        self.rooms.entries()
    }

    /// The rooms that no booking holds at `at`.
    pub fn free_rooms(&self, at: i64) -> (r: Vec<Room>)
        ensures
            r@.map_values(|x: Room| x@) == free_codes(self@, at as int),
    {
        let entries = self.rooms.entries();
        let mut r: Vec<Room> = Vec::new();
        let mut i: usize = 0;
        while i < entries.len()
            invariant
                i <= entries@.len(),
                entries@.map_values(|e: (Room, Vec<Interval>)| (e.0@, e.1@.map_values(|v: Interval| v@))) == self@,
                r@.map_values(|x: Room| x@) == free_codes(self@.take(i as int), at as int),
            decreases entries.len() - i,
        {
            assert(self@.take(i + 1).drop_last() =~= self@.take(i as int));
            assert(self@[i as int].0 == entries@[i as int].0@);
            assert(self@[i as int].1 =~= entries@[i as int].1@);
            if !is_booked(&entries[i].1, at) {
                let room = entries[i].0.clone();
                r.push(room);
            }
            i += 1;
            assert(r@.map_values(|x: Room| x@) =~= free_codes(self@.take(i as int), at as int));
        }
        assert(self@.take(i as int) =~= self@);
        r
    }
}

proof fn lemma_free_codes_members(m: Seq<(Seq<char>, Seq<Interval>)>, t: int, c: Seq<char>)
    ensures
        free_codes(m, t).contains(c) <==> exists|i: int|
            0 <= i < m.len() && m[i].0 == c && !booked_at(m[i].1, t),
    decreases m.len(),
{
    if m.len() > 0 {
        let p = m.drop_last();
        lemma_free_codes_members(p, t, c);
        if free_codes(m, t).contains(c) {
            if free_codes(p, t).contains(c) {
                let i = choose|i: int| 0 <= i < p.len() && p[i].0 == c && !booked_at(p[i].1, t);
                assert(m[i] == p[i]);
            } else {
                assert(free_codes(m, t) == free_codes(p, t).push(m.last().0));
                let k = choose|k: int| 0 <= k < free_codes(m, t).len() && free_codes(m, t)[k] == c;
                assert(k == free_codes(p, t).len());
                assert(m[m.len() - 1] == m.last());
            }
        }
        if exists|i: int| 0 <= i < m.len() && m[i].0 == c && !booked_at(m[i].1, t) {
            let i = choose|i: int| 0 <= i < m.len() && m[i].0 == c && !booked_at(m[i].1, t);
            if i < m.len() - 1 {
                assert(p[i] == m[i]);
                let k = choose|k: int| 0 <= k < free_codes(p, t).len() && free_codes(p, t)[k] == c;
                assert(free_codes(m, t)[k] == c);
            } else {
                let f = free_codes(m, t);
                assert(f[f.len() - 1] == c);
            }
        }
    }
}

/// A room is free at `t` exactly when it is one of the rooms of the calendar and none of its
/// bookings holds at `t`: the free rooms are the known rooms less those booked at `t`.
pub proof fn law_free_rooms_are_known_rooms_not_booked(rooms: Rooms, t: int, c: Seq<char>)
    requires
        rooms.wf(),
    ensures
        free_codes(rooms@, t).contains(c) <==> (room_codes(rooms@).contains(c) && forall|i: int|
            0 <= i < rooms@.len() && rooms@[i].0 == c ==> forall|j: int|
                0 <= j < rooms@[i].1.len() ==> !rooms@[i].1[j].holds(t)),
{
    let m = rooms@;
    lemma_free_codes_members(m, t, c);
    if free_codes(m, t).contains(c) {
        let i = choose|i: int| 0 <= i < m.len() && m[i].0 == c && !booked_at(m[i].1, t);
        assert(room_codes(m)[i] == c);
        assert forall|k: int| 0 <= k < m.len() && m[k].0 == c implies forall|j: int|
            0 <= j < m[k].1.len() ==> !m[k].1[j].holds(t) by {
            if k != i {
                assert(m[k].0 == m[i].0);
            }
        }
    }
    if room_codes(m).contains(c) && forall|i: int|
        0 <= i < m.len() && m[i].0 == c ==> forall|j: int|
            0 <= j < m[i].1.len() ==> !m[i].1[j].holds(t) {
        let k = choose|k: int| 0 <= k < room_codes(m).len() && room_codes(m)[k] == c;
        assert(m[k].0 == c);
        assert(!booked_at(m[k].1, t));
    }
}

/// Groups rooms under their building, in order of first appearance.
pub open spec fn group_spec(rooms: Seq<Seq<char>>) -> Seq<(char, Seq<Seq<char>>)>
    decreases rooms.len(),
{
    if rooms.len() == 0 {
        Seq::empty()
    } else {
        map_insert(group_spec(rooms.drop_last()), rooms.last()[0], rooms.last())
    }
}

/// The tag of a building: the first character of the codes of its rooms.
#[derive(Debug, Clone, Copy, Eq, Hash)]
pub struct Building {
    pub tag: char,
}

impl View for Building {
    type V = char;

    open spec fn view(&self) -> char {
        self.tag
    }
}

impl PartialEq for Building {
    fn eq(&self, o: &Building) -> (r: bool)
        ensures
            r == (self@ == o@),
    {
        self.tag == o.tag
    }
}

impl vstd::std_specs::cmp::PartialEqSpecImpl for Building {
    open spec fn obeys_eq_spec() -> bool {
        true
    }

    open spec fn eq_spec(&self, o: &Building) -> bool {
        self@ == o@
    }
}

/// The rooms grouped by building; within a group the rooms keep their order.
pub fn group_by_building(rooms: &Vec<Room>) -> (r: HashMapVec<Building, Room>)
    ensures
        r.wf(),
        r@ == group_spec(rooms@.map_values(|x: Room| x@)),
{
    proof {
        reveal(obeys_view_eq);
    }
    let mut r: HashMapVec<Building, Room> = HashMapVec::new();
    let mut i: usize = 0;
    while i < rooms.len()
        invariant
            i <= rooms@.len(),
            r.wf(),
            r@ == group_spec(rooms@.map_values(|x: Room| x@).take(i as int)),
            obeys_view_eq::<Building>(),
        decreases rooms.len() - i,
    {
        assert(rooms@.map_values(|x: Room| x@).take(i + 1).drop_last() =~= rooms@.map_values(
            |x: Room| x@,
        ).take(i as int));
        let room = rooms[i].clone();
        let tag = room.bat();
        r.insert(Building { tag }, room);
        i += 1;
    }
    assert(rooms@.map_values(|x: Room| x@).take(i as int) =~= rooms@.map_values(|x: Room| x@));
    r
}

} // verus!
