pub mod fetch;

use crate::calendar::Rooms;
use std::sync::Arc;
use vstd::prelude::*;

verus! {

/// Relies on Arc::clone: a new handle to the same value.
#[verifier::external_body]
fn share(rooms: &Arc<Rooms>) -> (r: Arc<Rooms>)
    ensures
        *r == **rooms,
{
    Arc::clone(rooms)
}

/// The rooms of the calendar at a feed, as last read: a snapshot that is replaced whole.
pub struct CalendarSync {
    url: String,
    rooms: Arc<Rooms>,
}

impl CalendarSync {
    /// The rooms currently installed.
    pub closed spec fn snapshot(&self) -> Rooms {
        *self.rooms
    }

    pub closed spec fn url_spec(&self) -> Seq<char> {
        self.url@
    }

    /// Starts from the rooms of a first reading of the feed at `url`.
    pub fn new(url: String, rooms: Rooms) -> (r: CalendarSync)
        ensures
            r.url_spec() == url@,
            r.snapshot() == rooms,
    {
        CalendarSync { url, rooms: Arc::new(rooms) }
    }

    /// The feed that the rooms are read from.
    pub fn url(&self) -> (r: &String)
        ensures
            r@ == self.url_spec(),
    {
        &self.url
    }

    /// The rooms currently installed; later replacements leave the returned snapshot as it is.
    pub fn get(&self) -> (r: Arc<Rooms>)
        ensures
            *r == self.snapshot(),
    {
        share(&self.rooms)
    }

    /// Installs the rooms of a new reading of the feed; a failed reading keeps the rooms
    /// installed before and hands its error back.
    pub fn resync<E>(&mut self, fetched: Result<Rooms, E>) -> (r: Result<(), E>)
        ensures
            final(self).url_spec() == old(self).url_spec(),
            match fetched {
                Ok(rooms) => r is Ok && final(self).snapshot() == rooms,
                Err(e) => r == Err::<(), E>(e) && final(self).snapshot() == old(self).snapshot(),
            },
    {
        match fetched {
            Ok(rooms) => {
                self.rooms = Arc::new(rooms);
                Ok(())
            },
            Err(e) => Err(e),
        }
    }
}

} // verus!
