//! The rows of the store's tables and the values that operations hand back.
use vstd::prelude::*;

verus! {

/// An opaque 128-bit identifier of a row.
pub type Id = u128;

/// The largest rating value: ratings are given in hundredths on a scale from 0 to 10.
pub const MAX_RATING: u32 = 1000;

/// Why an operation did not succeed.
#[derive(Clone, Copy, Debug, PartialEq, Eq, Structural)]
pub enum StoreError {
    /// A referenced row does not exist.
    NotFound,
    /// An input lies outside what the operation accepts.
    ValidationFailure,
    /// A foreign key or uniqueness rule of the store was broken.
    ConstraintViolation,
    /// The store could not hand out a connection in time.
    ResourceExhaustion,
    /// An internal invariant was found broken.
    ConsistencyViolation,
    /// The store failed for a reason unrelated to the request.
    TransientStoreFailure,
}

/// The arithmetic mean of `count` rating values summing to `total`.
#[derive(Clone, Copy, Debug, PartialEq, Eq, Structural)]
pub struct Mean {
    pub total: u128,
    pub count: u64,
}

#[derive(Debug)]
pub struct Movie {
    pub id: Id,
    pub name: String,
    pub tagline: Option<String>,
    pub cover_url: Option<String>,
    pub description: Option<String>,
    pub year_of_publication: Option<i32>,
    pub trailer_url: Option<String>,
    pub memento_id: Option<i64>,
    pub actors: Option<String>,
    pub duration: Option<i32>,
}

#[derive(Debug)]
pub struct Person {
    pub id: Id,
    pub name: String,
}

#[derive(Debug)]
pub struct Night {
    pub id: Id,
    pub movie: Id,
    /// Milliseconds since the Unix epoch.
    pub time: i64,
    pub description: Option<String>,
}

/// One person watching the movie of one night.
#[derive(Clone, Copy, Debug, PartialEq, Eq, Structural)]
pub struct MovieView {
    pub id: Id,
    pub night: Id,
    pub person: Id,
}

/// A score given to a view, in hundredths.
#[derive(Clone, Copy, Debug, PartialEq, Eq, Structural)]
pub struct Rating {
    pub id: Id,
    pub view: Id,
    pub value: u32,
    pub time: i64,
}

#[derive(Debug)]
pub struct Watchlist {
    pub id: Id,
    pub name: String,
    pub description: Option<String>,
    pub owner: Option<Id>,
}

#[derive(Clone, Copy, Debug, PartialEq, Eq, Structural)]
pub struct WatchlistEntry {
    pub watchlist: Id,
    pub movie: Id,
    pub idx: i32,
}

#[derive(Debug)]
pub struct MovieStub {
    pub id: Id,
    pub name: String,
}

/// A copy of an optional string.
pub fn copy_text(o: &Option<String>) -> (r: Option<String>)
    ensures
        r == *o,
{
    match o {
        Some(s) => Some(s.clone()),
        None => None,
    }
}

impl Movie {
    /// A movie with a name and nothing else known.
    pub fn named(id: Id, name: String) -> (r: Movie)
        ensures
            r.id == id,
            r.name == name,
            r.tagline is None,
            r.cover_url is None,
            r.description is None,
            r.year_of_publication is None,
            r.trailer_url is None,
            r.memento_id is None,
            r.actors is None,
            r.duration is None,
    {
        Movie {
            id,
            name,
            tagline: None,
            cover_url: None,
            description: None,
            year_of_publication: None,
            trailer_url: None,
            memento_id: None,
            actors: None,
            duration: None,
        }
    }

    pub fn copy(&self) -> (r: Movie)
        ensures
            r == *self,
    {
        Movie {
            id: self.id,
            name: self.name.clone(),
            tagline: copy_text(&self.tagline),
            cover_url: copy_text(&self.cover_url),
            description: copy_text(&self.description),
            year_of_publication: self.year_of_publication,
            trailer_url: copy_text(&self.trailer_url),
            memento_id: self.memento_id,
            actors: copy_text(&self.actors),
            duration: self.duration,
        }
    }
}

impl Person {
    pub fn copy(&self) -> (r: Person)
        ensures
            r == *self,
    {
        Person { id: self.id, name: self.name.clone() }
    }
}

impl Night {
    pub fn copy(&self) -> (r: Night)
        ensures
            r == *self,
    {
        Night {
            id: self.id,
            movie: self.movie,
            time: self.time,
            description: copy_text(&self.description),
        }
    }
}

impl Watchlist {
    pub fn copy(&self) -> (r: Watchlist)
        ensures
            r == *self,
    {
        Watchlist {
            id: self.id,
            name: self.name.clone(),
            description: copy_text(&self.description),
            owner: self.owner,
        }
    }
}

} // verus!
