//! The store's tables, the lookups on them, and the write paths for entities,
//! nights and ratings.
use vstd::prelude::*;
use crate::clock::{fresh_id, now_millis};
use crate::model::{
    Id, MAX_RATING, Movie, MovieView, Night, Person, Rating, StoreError, Watchlist,
    WatchlistEntry,
};

verus! {

/// All tables of the store. Rows are kept in the order they were inserted.
///
/// The tables are open for reading. Every operation requires `wf()`, which the
/// store's own write operations keep, starting from `Store::new()`. Writing to a
/// table directly keeps it only where no id, reference or watchlist index changes.
pub struct Store {
    pub movies: Vec<Movie>,
    pub persons: Vec<Person>,
    pub nights: Vec<Night>,
    pub views: Vec<MovieView>,
    pub ratings: Vec<Rating>,
    pub watchlists: Vec<Watchlist>,
    pub entries: Vec<WatchlistEntry>,
}

/// The pairing of one participant with the view recorded for them.
#[derive(Clone, Copy, Debug, PartialEq, Eq, Structural)]
pub struct PersonView {
    pub person: Id,
    pub view: Id,
}

/// What recording a night created: the night's id and one view per participant.
#[derive(Debug)]
pub struct RecordedNight {
    pub night: Id,
    pub views: Vec<PersonView>,
}

pub open spec fn has_movie(movies: Seq<Movie>, id: Id) -> bool {
    exists|k: int| 0 <= k < movies.len() && (#[trigger] movies[k]).id == id
}

pub open spec fn has_person(persons: Seq<Person>, id: Id) -> bool {
    exists|k: int| 0 <= k < persons.len() && (#[trigger] persons[k]).id == id
}

pub open spec fn has_night(nights: Seq<Night>, id: Id) -> bool {
    exists|k: int| 0 <= k < nights.len() && (#[trigger] nights[k]).id == id
}

pub open spec fn has_view(views: Seq<MovieView>, id: Id) -> bool {
    exists|k: int| 0 <= k < views.len() && (#[trigger] views[k]).id == id
}

pub open spec fn has_rating(ratings: Seq<Rating>, id: Id) -> bool {
    exists|k: int| 0 <= k < ratings.len() && (#[trigger] ratings[k]).id == id
}

pub open spec fn has_watchlist(watchlists: Seq<Watchlist>, id: Id) -> bool {
    exists|k: int| 0 <= k < watchlists.len() && (#[trigger] watchlists[k]).id == id
}

/// A movie known only by its name.
pub open spec fn bare_movie(id: Id, name: String) -> Movie {
    Movie {
        id,
        name,
        tagline: None,
        cover_url: None,
        description: None,
        year_of_publication: None,
        trailer_url: None,
        memento_id: None,
        actors: None,
        duration: None,
    }
}

/// The views that recording a night creates, one per participant, in order.
pub open spec fn night_views(night: Id, view_ids: Seq<Id>, persons: Seq<Id>) -> Seq<MovieView> {
    Seq::new(persons.len(), |i: int| MovieView { id: view_ids[i], night, person: persons[i] })
}

/// The pairings that recording a night hands back.
pub open spec fn night_pairs(view_ids: Seq<Id>, persons: Seq<Id>) -> Seq<PersonView> {
    Seq::new(persons.len(), |i: int| PersonView { person: persons[i], view: view_ids[i] })
}

/// Participant `i`'s view can be inserted once those before it are: the person
/// exists, and its view id is neither in the table nor taken by an earlier participant.
pub open spec fn view_insertable(
    s: Store,
    view_ids: Seq<Id>,
    persons: Seq<Id>,
    i: int,
) -> bool {
    &&& has_person(s.persons@, persons[i])
    &&& !has_view(s.views@, view_ids[i])
    &&& forall|j: int| 0 <= j < i ==> view_ids[j] != view_ids[i]
}

/// Whether no id occurs twice in `ids`.
pub open spec fn ids_distinct(ids: Seq<Id>) -> bool {
    forall|i: int, j: int| 0 <= i < j < ids.len() ==> (#[trigger] ids[i]) != (#[trigger] ids[j])
}

/// Whether no id occurs twice in `ids`.
pub fn all_distinct(ids: &Vec<Id>) -> (b: bool)
    ensures
        b == ids_distinct(ids@),
{
    let mut j: usize = 0;
    while j < ids.len()
        invariant
            j <= ids@.len(),
            forall|a: int, b: int| 0 <= a < b < j ==> (#[trigger] ids@[a]) != (#[trigger] ids@[b]),
        decreases ids@.len() - j,
    {
        let mut i: usize = 0;
        while i < j
            invariant
                i <= j < ids@.len(),
                forall|a: int| 0 <= a < i ==> (#[trigger] ids@[a]) != ids@[j as int],
            decreases j - i,
        {
            if ids[i] == ids[j] {
                assert(!ids_distinct(ids@)) by {
                    assert(ids@[i as int] == ids@[j as int]);
                }
                return false;
            }
            i += 1;
        }
        j += 1;
    }
    true
}

/// Whether a night and all of its views can be recorded in `s`.
pub open spec fn night_recordable(
    s: Store,
    night: Id,
    view_ids: Seq<Id>,
    persons: Seq<Id>,
    movie: Id,
) -> bool {
    &&& !has_night(s.nights@, night)
    &&& has_movie(s.movies@, movie)
    &&& forall|i: int| 0 <= i < persons.len() ==> view_insertable(s, view_ids, persons, i)
}

/// Whether `b` starts with all of `a`.
pub open spec fn prefix_of<T>(a: Seq<T>, b: Seq<T>) -> bool {
    a.len() <= b.len() && forall|i: int| 0 <= i < a.len() ==> #[trigger] b[i] == a[i]
}

/// A row found in a table is still found once rows are appended.
pub proof fn lemma_has_grows(s: Store, t: Store)
    requires
        prefix_of(s.movies@, t.movies@),
        prefix_of(s.persons@, t.persons@),
        prefix_of(s.nights@, t.nights@),
        prefix_of(s.views@, t.views@),
        prefix_of(s.watchlists@, t.watchlists@),
    ensures
        forall|id: Id| has_movie(s.movies@, id) ==> #[trigger] has_movie(t.movies@, id),
        forall|id: Id| has_person(s.persons@, id) ==> #[trigger] has_person(t.persons@, id),
        forall|id: Id| has_night(s.nights@, id) ==> #[trigger] has_night(t.nights@, id),
        forall|id: Id| has_view(s.views@, id) ==> #[trigger] has_view(t.views@, id),
        forall|id: Id| has_watchlist(s.watchlists@, id) ==> #[trigger] has_watchlist(t.watchlists@, id),
{
    assert forall|id: Id| has_movie(s.movies@, id) implies #[trigger] has_movie(t.movies@, id) by {
        let k = choose|k: int| 0 <= k < s.movies@.len() && (#[trigger] s.movies@[k]).id == id;
        assert(t.movies@[k] == s.movies@[k]);
    }
    assert forall|id: Id| has_person(s.persons@, id) implies #[trigger] has_person(t.persons@, id) by {
        let k = choose|k: int| 0 <= k < s.persons@.len() && (#[trigger] s.persons@[k]).id == id;
        assert(t.persons@[k] == s.persons@[k]);
    }
    assert forall|id: Id| has_night(s.nights@, id) implies #[trigger] has_night(t.nights@, id) by {
        let k = choose|k: int| 0 <= k < s.nights@.len() && (#[trigger] s.nights@[k]).id == id;
        assert(t.nights@[k] == s.nights@[k]);
    }
    assert forall|id: Id| has_view(s.views@, id) implies #[trigger] has_view(t.views@, id) by {
        let k = choose|k: int| 0 <= k < s.views@.len() && (#[trigger] s.views@[k]).id == id;
        assert(t.views@[k] == s.views@[k]);
    }
    assert forall|id: Id| has_watchlist(s.watchlists@, id) implies #[trigger] has_watchlist(t.watchlists@, id) by {
        let k = choose|k: int| 0 <= k < s.watchlists@.len() && (#[trigger] s.watchlists@[k]).id == id;
        assert(t.watchlists@[k] == s.watchlists@[k]);
    }
}

/// The night with id `id`; in a well-formed store there is at most one.
pub open spec fn night_with(s: Store, id: Id) -> Night {
    s.nights@[choose|j: int| 0 <= j < s.nights@.len() && (#[trigger] s.nights@[j]).id == id]
}

/// The movie with id `id`; in a well-formed store there is at most one.
pub open spec fn movie_with(s: Store, id: Id) -> Movie {
    s.movies@[choose|j: int| 0 <= j < s.movies@.len() && (#[trigger] s.movies@[j]).id == id]
}

/// The view with id `id`; in a well-formed store there is at most one.
pub open spec fn view_with(s: Store, id: Id) -> MovieView {
    s.views@[choose|j: int| 0 <= j < s.views@.len() && (#[trigger] s.views@[j]).id == id]
}

/// The person with id `id`; in a well-formed store there is at most one.
pub open spec fn person_with(s: Store, id: Id) -> Person {
    s.persons@[choose|j: int| 0 <= j < s.persons@.len() && (#[trigger] s.persons@[j]).id == id]
}

/// In a well-formed store the row found under an id is the one of that id.
pub proof fn lemma_rows_with(s: Store)
    requires
        s.wf(),
    ensures
        forall|j: int| 0 <= j < s.nights@.len() ==> night_with(s, (#[trigger] s.nights@[j]).id) == s.nights@[j],
        forall|j: int| 0 <= j < s.movies@.len() ==> movie_with(s, (#[trigger] s.movies@[j]).id) == s.movies@[j],
        forall|j: int| 0 <= j < s.views@.len() ==> view_with(s, (#[trigger] s.views@[j]).id) == s.views@[j],
        forall|j: int| 0 <= j < s.persons@.len() ==> person_with(s, (#[trigger] s.persons@[j]).id) == s.persons@[j],
{
    assert forall|j: int| 0 <= j < s.nights@.len() implies night_with(s, (#[trigger] s.nights@[j]).id) == s.nights@[j] by {
        let id = s.nights@[j].id;
        let c = choose|c: int| 0 <= c < s.nights@.len() && (#[trigger] s.nights@[c]).id == id;
        assert(c == j);
    }
    assert forall|j: int| 0 <= j < s.movies@.len() implies movie_with(s, (#[trigger] s.movies@[j]).id) == s.movies@[j] by {
        let id = s.movies@[j].id;
        let c = choose|c: int| 0 <= c < s.movies@.len() && (#[trigger] s.movies@[c]).id == id;
        assert(c == j);
    }
    assert forall|j: int| 0 <= j < s.views@.len() implies view_with(s, (#[trigger] s.views@[j]).id) == s.views@[j] by {
        let id = s.views@[j].id;
        let c = choose|c: int| 0 <= c < s.views@.len() && (#[trigger] s.views@[c]).id == id;
        assert(c == j);
    }
    assert forall|j: int| 0 <= j < s.persons@.len() implies person_with(s, (#[trigger] s.persons@[j]).id) == s.persons@[j] by {
        let id = s.persons@[j].id;
        let c = choose|c: int| 0 <= c < s.persons@.len() && (#[trigger] s.persons@[c]).id == id;
        assert(c == j);
    }
}

impl Store {
    /// Every reference names an existing row: a night its movie, a view its night
    /// and person, a rating its view, an entry its watchlist and movie.
    pub open spec fn refs_valid(self) -> bool {
        &&& forall|i: int|
            0 <= i < self.nights@.len() ==> has_movie(self.movies@, (#[trigger] self.nights@[i]).movie)
        &&& forall|i: int|
            0 <= i < self.views@.len() ==> has_night(self.nights@, (#[trigger] self.views@[i]).night)
                && has_person(self.persons@, self.views@[i].person)
        &&& forall|i: int|
            0 <= i < self.ratings@.len() ==> has_view(self.views@, (#[trigger] self.ratings@[i]).view)
        &&& forall|i: int|
            0 <= i < self.entries@.len() ==> has_watchlist(
                self.watchlists@,
                (#[trigger] self.entries@[i]).watchlist,
            ) && has_movie(self.movies@, self.entries@[i].movie)
    }

    /// No two rows of one table share an id, no two entries of one watchlist share
    /// an index, no person has two views of one night, and every reference names an
    /// existing row.
    pub open spec fn wf(self) -> bool {
        &&& self.refs_valid()
        &&& forall|i: int, j: int|
            0 <= i < j < self.views@.len() ==> !((#[trigger] self.views@[i]).night == (
            #[trigger] self.views@[j]).night && self.views@[i].person == self.views@[j].person)
        &&& forall|i: int, j: int|
            0 <= i < j < self.movies@.len() ==> (#[trigger] self.movies@[i]).id != (
            #[trigger] self.movies@[j]).id
        &&& forall|i: int, j: int|
            0 <= i < j < self.persons@.len() ==> (#[trigger] self.persons@[i]).id != (
            #[trigger] self.persons@[j]).id
        &&& forall|i: int, j: int|
            0 <= i < j < self.nights@.len() ==> (#[trigger] self.nights@[i]).id != (
            #[trigger] self.nights@[j]).id
        &&& forall|i: int, j: int|
            0 <= i < j < self.views@.len() ==> (#[trigger] self.views@[i]).id != (
            #[trigger] self.views@[j]).id
        &&& forall|i: int, j: int|
            0 <= i < j < self.ratings@.len() ==> (#[trigger] self.ratings@[i]).id != (
            #[trigger] self.ratings@[j]).id
        &&& forall|i: int, j: int|
            0 <= i < j < self.watchlists@.len() ==> (#[trigger] self.watchlists@[i]).id != (
            #[trigger] self.watchlists@[j]).id
        &&& forall|i: int, j: int|
            0 <= i < j < self.entries@.len() ==> !((#[trigger] self.entries@[i]).watchlist == (
            #[trigger] self.entries@[j]).watchlist && self.entries@[i].idx == self.entries@[j].idx)
    }

    /// Every table of `self` holds the same rows as that of `other`.
    pub open spec fn same_tables(self, other: Store) -> bool {
        &&& self.nights@ == other.nights@
        &&& self.views@ == other.views@
        &&& self.same_except_nights_views(other)
    }

    /// Only the nights and views may differ between `self` and `other`.
    pub open spec fn same_except_nights_views(self, other: Store) -> bool {
        &&& self.movies@ == other.movies@
        &&& self.persons@ == other.persons@
        &&& self.ratings@ == other.ratings@
        &&& self.watchlists@ == other.watchlists@
        &&& self.entries@ == other.entries@
    }

    pub fn new() -> (r: Store)
        ensures
            r.movies@.len() == 0,
            r.persons@.len() == 0,
            r.nights@.len() == 0,
            r.views@.len() == 0,
            r.ratings@.len() == 0,
            r.watchlists@.len() == 0,
            r.entries@.len() == 0,
            r.wf(),
    {
        Store {
            movies: Vec::new(),
            persons: Vec::new(),
            nights: Vec::new(),
            views: Vec::new(),
            ratings: Vec::new(),
            watchlists: Vec::new(),
            entries: Vec::new(),
        }
    }

    pub fn find_movie(&self, id: Id) -> (r: Option<usize>)
        ensures
            r matches Some(k) ==> k < self.movies@.len() && self.movies@[k as int].id == id,
            r is None <==> !has_movie(self.movies@, id),
    {
        let mut i: usize = 0;
        while i < self.movies.len()
            invariant
                i <= self.movies@.len(),
                forall|k: int| 0 <= k < i ==> (#[trigger] self.movies@[k]).id != id,
            decreases self.movies@.len() - i,
        {
            if self.movies[i].id == id {
                return Some(i);
            }
            i += 1;
        }
        None
    }

    pub fn find_person(&self, id: Id) -> (r: Option<usize>)
        ensures
            r matches Some(k) ==> k < self.persons@.len() && self.persons@[k as int].id == id,
            r is None <==> !has_person(self.persons@, id),
    {
        let mut i: usize = 0;
        while i < self.persons.len()
            invariant
                i <= self.persons@.len(),
                forall|k: int| 0 <= k < i ==> (#[trigger] self.persons@[k]).id != id,
            decreases self.persons@.len() - i,
        {
            if self.persons[i].id == id {
                return Some(i);
            }
            i += 1;
        }
        None
    }

    pub fn find_night(&self, id: Id) -> (r: Option<usize>)
        ensures
            r matches Some(k) ==> k < self.nights@.len() && self.nights@[k as int].id == id,
            r is None <==> !has_night(self.nights@, id),
    {
        let mut i: usize = 0;
        while i < self.nights.len()
            invariant
                i <= self.nights@.len(),
                forall|k: int| 0 <= k < i ==> (#[trigger] self.nights@[k]).id != id,
            decreases self.nights@.len() - i,
        {
            if self.nights[i].id == id {
                return Some(i);
            }
            i += 1;
        }
        None
    }

    pub fn find_view(&self, id: Id) -> (r: Option<usize>)
        ensures
            r matches Some(k) ==> k < self.views@.len() && self.views@[k as int].id == id,
            r is None <==> !has_view(self.views@, id),
    {
        let mut i: usize = 0;
        while i < self.views.len()
            invariant
                i <= self.views@.len(),
                forall|k: int| 0 <= k < i ==> (#[trigger] self.views@[k]).id != id,
            decreases self.views@.len() - i,
        {
            if self.views[i].id == id {
                return Some(i);
            }
            i += 1;
        }
        None
    }

    pub fn find_rating(&self, id: Id) -> (r: Option<usize>)
        ensures
            r matches Some(k) ==> k < self.ratings@.len() && self.ratings@[k as int].id == id,
            r is None <==> !has_rating(self.ratings@, id),
    {
        let mut i: usize = 0;
        while i < self.ratings.len()
            invariant
                i <= self.ratings@.len(),
                forall|k: int| 0 <= k < i ==> (#[trigger] self.ratings@[k]).id != id,
            decreases self.ratings@.len() - i,
        {
            if self.ratings[i].id == id {
                return Some(i);
            }
            i += 1;
        }
        None
    }

    pub fn find_watchlist(&self, id: Id) -> (r: Option<usize>)
        ensures
            r matches Some(k) ==> k < self.watchlists@.len() && self.watchlists@[k as int].id
                == id,
            r is None <==> !has_watchlist(self.watchlists@, id),
    {
        let mut i: usize = 0;
        while i < self.watchlists.len()
            invariant
                i <= self.watchlists@.len(),
                forall|k: int| 0 <= k < i ==> (#[trigger] self.watchlists@[k]).id != id,
            decreases self.watchlists@.len() - i,
        {
            if self.watchlists[i].id == id {
                return Some(i);
            }
            i += 1;
        }
        None
    }

    /// Records a night showing `movie`, with one view per participant, under the
    /// given ids. Either the night and all of its views are recorded, or nothing is.
    /// A participant named twice is refused with `ValidationFailure`: a person has at
    /// most one view of a night.
    pub fn record_night_with(
        &mut self,
        night: Id,
        view_ids: &Vec<Id>,
        persons: &Vec<Id>,
        movie: Id,
        time: i64,
        description: Option<String>,
    ) -> (r: Result<RecordedNight, StoreError>)
        requires
            old(self).wf(),
        ensures
            final(self).wf(),
            persons@.len() != view_ids@.len() || !ids_distinct(persons@) ==> r == Err::<
                RecordedNight,
                StoreError,
            >(StoreError::ValidationFailure),
            persons@.len() == view_ids@.len() && ids_distinct(persons@) ==> (r is Ok
                <==> night_recordable(
                *old(self),
                night,
                view_ids@,
                persons@,
                movie,
            )),
            persons@.len() == view_ids@.len() && ids_distinct(persons@) && !night_recordable(
                *old(self),
                night,
                view_ids@,
                persons@,
                movie,
            ) ==> r == Err::<RecordedNight, StoreError>(StoreError::ConstraintViolation),
            r is Err ==> final(self).same_tables(*old(self)),
            r matches Ok(rec) ==> {
                &&& rec.night == night
                &&& rec.views@ == night_pairs(view_ids@, persons@)
                &&& final(self).nights@ == old(self).nights@.push(
                    Night { id: night, movie, time, description },
                )
                &&& final(self).views@ == old(self).views@ + night_views(
                    night,
                    view_ids@,
                    persons@,
                )
                &&& final(self).same_except_nights_views(*old(self))
            },
    {
        if persons.len() != view_ids.len() || !all_distinct(persons) {
            return Err(StoreError::ValidationFailure);
        }
        if self.find_night(night).is_some() || self.find_movie(movie).is_none() {
            return Err(StoreError::ConstraintViolation);
        }
        let ghost pre = *self;
        let night_count = self.nights.len();
        let view_count = self.views.len();
        self.nights.push(Night { id: night, movie, time, description });
        proof {
            lemma_has_grows(pre, *self);
        }
        let mut pairs: Vec<PersonView> = Vec::new();
        let mut i: usize = 0;
        while i < persons.len()
            invariant
                i <= persons@.len(),
                persons@.len() == view_ids@.len(),
                pre == *old(self),
                pre.wf(),
                ids_distinct(persons@),
                self.wf(),
                !has_night(pre.nights@, night),
                has_movie(pre.movies@, movie),
                night_count == pre.nights@.len(),
                view_count == pre.views@.len(),
                self.nights@ == pre.nights@.push(Night { id: night, movie, time, description }),
                self.views@ == pre.views@ + night_views(night, view_ids@, persons@).subrange(
                    0,
                    i as int,
                ),
                pairs@ == night_pairs(view_ids@, persons@).subrange(0, i as int),
                self.same_except_nights_views(pre),
                forall|j: int| 0 <= j < i ==> view_insertable(pre, view_ids@, persons@, j),
            decreases persons@.len() - i,
        {
            let person = persons[i];
            let view = view_ids[i];
            let ok = self.find_person(person).is_some() && self.find_view(view).is_none();
            proof {
                let added = night_views(night, view_ids@, persons@).subrange(0, i as int);
                if ok {
                    assert forall|j: int| 0 <= j < i implies view_ids@[j] != view_ids@[i as int] by {
                        assert(self.views@[view_count + j] == added[j]);
                    }
                    assert(!has_view(pre.views@, view)) by {
                        if has_view(pre.views@, view) {
                            let k = choose|k: int| 0 <= k < pre.views@.len() && (#[trigger] pre.views@[k]).id == view;
                            assert(self.views@[k] == pre.views@[k]);
                        }
                    }
                    assert(view_insertable(pre, view_ids@, persons@, i as int));
                } else if !has_person(pre.persons@, person) {
                    assert(!view_insertable(pre, view_ids@, persons@, i as int));
                } else {
                    let k = choose|k: int| 0 <= k < self.views@.len() && (#[trigger] self.views@[k]).id == view;
                    if k >= view_count {
                        assert(self.views@[k] == added[k - view_count]);
                        assert(view_ids@[k - view_count] == view_ids@[i as int]);
                        assert(!view_insertable(pre, view_ids@, persons@, i as int));
                    } else {
                        assert(self.views@[k] == pre.views@[k]);
                        assert(!view_insertable(pre, view_ids@, persons@, i as int));
                    }
                }
            }
            if !ok {
                assert(!view_insertable(pre, view_ids@, persons@, i as int));
                self.nights.truncate(night_count);
                self.views.truncate(view_count);
                proof {
                    assert(self.nights@ =~= pre.nights@);
                    assert(self.views@ =~= pre.views@);
                }
                return Err(StoreError::ConstraintViolation);
            }
            let ghost mid = *self;
            proof {
                let added = night_views(night, view_ids@, persons@).subrange(0, i as int);
                assert forall|k: int| 0 <= k < self.views@.len() implies !((#[trigger] self.views@[k]).night
                    == night && self.views@[k].person == person) by {
                    if k < view_count {
                        assert(self.views@[k] == pre.views@[k]);
                        assert(has_night(pre.nights@, pre.views@[k].night));
                    } else {
                        assert(self.views@[k] == added[k - view_count]);
                        assert(persons@[k - view_count] != persons@[i as int]);
                    }
                }
            }
            self.views.push(MovieView { id: view, night, person });
            pairs.push(PersonView { person, view });
            proof {
                lemma_has_grows(mid, *self);
                assert(self.nights@[night_count as int].id == night);
                assert(has_night(self.nights@, night));
            }
            i += 1;
            proof {
                assert(self.views@ =~= pre.views@ + night_views(night, view_ids@, persons@).subrange(
                    0,
                    i as int,
                ));
                assert(pairs@ =~= night_pairs(view_ids@, persons@).subrange(0, i as int));
            }
        }
        proof {
            assert(self.views@ =~= pre.views@ + night_views(night, view_ids@, persons@));
            assert(pairs@ =~= night_pairs(view_ids@, persons@));
        }
        Ok(RecordedNight { night, views: pairs })
    }

    /// Only the ratings may differ between `self` and `other`.
    pub open spec fn same_except_ratings(self, other: Store) -> bool {
        &&& self.movies@ == other.movies@
        &&& self.persons@ == other.persons@
        &&& self.nights@ == other.nights@
        &&& self.views@ == other.views@
        &&& self.watchlists@ == other.watchlists@
        &&& self.entries@ == other.entries@
    }

    /// Only the watchlist entries may differ between `self` and `other`.
    pub open spec fn same_except_entries(self, other: Store) -> bool {
        &&& self.movies@ == other.movies@
        &&& self.persons@ == other.persons@
        &&& self.nights@ == other.nights@
        &&& self.views@ == other.views@
        &&& self.ratings@ == other.ratings@
        &&& self.watchlists@ == other.watchlists@
    }

    /// Only the watchlists may differ between `self` and `other`.
    pub open spec fn same_except_watchlists(self, other: Store) -> bool {
        &&& self.movies@ == other.movies@
        &&& self.persons@ == other.persons@
        &&& self.nights@ == other.nights@
        &&& self.views@ == other.views@
        &&& self.ratings@ == other.ratings@
        &&& self.entries@ == other.entries@
    }

    /// Only the movies and persons may differ between `self` and `other`.
    pub open spec fn same_except_entities(self, other: Store) -> bool {
        &&& self.nights@ == other.nights@
        &&& self.views@ == other.views@
        &&& self.ratings@ == other.ratings@
        &&& self.watchlists@ == other.watchlists@
        &&& self.entries@ == other.entries@
    }

    /// Records a night showing `movie` with one view per participant, under freshly
    /// drawn ids; without a `time` the night is dated now. Either the night and all of
    /// its views are recorded, or nothing is.
    /// A participant named twice is refused with `ValidationFailure`. On a store
    /// without nights, with at most one participant, no drawn id can collide and the
    /// night is recorded wherever its movie and participant exist.
    /// Drawing ids panics where the operating system has no random bytes to give, and
    /// reading the clock panics where it is set before 1970.
    pub fn record_night(
        &mut self,
        persons: &Vec<Id>,
        movie: Id,
        time: Option<i64>,
        description: Option<String>,
    ) -> (r: Result<RecordedNight, StoreError>)
        requires
            old(self).wf(),
        ensures
            final(self).wf(),
            ids_distinct(persons@) && persons@.len() <= 1 && old(self).nights@.len() == 0
                && has_movie(old(self).movies@, movie) && (forall|i: int|
                0 <= i < persons@.len() ==> has_person(old(self).persons@, #[trigger] persons@[i]))
                ==> r is Ok,
            r is Err ==> final(self).same_tables(*old(self)),
            !ids_distinct(persons@) ==> r == Err::<RecordedNight, StoreError>(
                StoreError::ValidationFailure,
            ),
            ids_distinct(persons@) ==> (r matches Err(e) ==> e == StoreError::ConstraintViolation),
            !has_movie(old(self).movies@, movie) ==> r is Err,
            (exists|i: int| 0 <= i < persons@.len() && !has_person(old(self).persons@, persons@[i]))
                ==> r is Err,
            r matches Ok(rec) ==> {
                let n = final(self).nights@.last();
                &&& rec.views@.len() == persons@.len()
                &&& forall|i: int| 0 <= i < persons@.len() ==> (#[trigger] rec.views@[i]).person == persons@[i]
                &&& final(self).nights@ == old(self).nights@.push(n)
                &&& n.id == rec.night
                &&& n.movie == movie
                &&& n.description == description
                &&& (time matches Some(t) ==> n.time == t)
                &&& final(self).views@ == old(self).views@ + night_views(
                    rec.night,
                    rec.views@.map_values(|p: PersonView| p.view),
                    persons@,
                )
                &&& final(self).same_except_nights_views(*old(self))
            },
    {
        let night = fresh_id();
        let mut view_ids: Vec<Id> = Vec::new();
        let mut i: usize = 0;
        while i < persons.len()
            invariant
                i <= persons@.len(),
                view_ids@.len() == i,
            decreases persons@.len() - i,
        {
            view_ids.push(fresh_id());
            i += 1;
        }
        let when = match time {
            Some(t) => t,
            None => now_millis(),
        };
        let ghost d = description;
        let r = self.record_night_with(night, &view_ids, persons, movie, when, description);
        proof {
            if r is Ok {
                let rec = r->Ok_0;
                assert(self.nights@.last() == Night { id: night, movie, time: when, description: d });
                assert(rec.views@.map_values(|p: PersonView| p.view) =~= view_ids@);
            }
            if exists|i: int| 0 <= i < persons@.len() && !has_person(old(self).persons@, persons@[i]) {
                let i = choose|i: int| 0 <= i < persons@.len() && !has_person(old(self).persons@, persons@[i]);
                assert(!view_insertable(*old(self), view_ids@, persons@, i));
            }
        }
        r
    }

    /// Records a rating of `value` for the view `view` under the given id.
    pub fn record_rating_with(&mut self, id: Id, view: Id, value: u32, time: i64) -> (r: Result<
        Id,
        StoreError,
    >)
        requires
            old(self).wf(),
        ensures
            final(self).wf(),
            value > MAX_RATING ==> r == Err::<Id, StoreError>(StoreError::ValidationFailure),
            value <= MAX_RATING && (!has_view(old(self).views@, view) || has_rating(
                old(self).ratings@,
                id,
            )) ==> r == Err::<Id, StoreError>(StoreError::ConstraintViolation),
            value <= MAX_RATING && has_view(old(self).views@, view) && !has_rating(
                old(self).ratings@,
                id,
            ) ==> r == Ok::<Id, StoreError>(id),
            r is Err ==> final(self).same_tables(*old(self)),
            r is Ok ==> final(self).ratings@ == old(self).ratings@.push(
                Rating { id, view, value, time },
            ) && final(self).same_except_ratings(*old(self)),
    {
        if value > MAX_RATING {
            return Err(StoreError::ValidationFailure);
        }
        if self.find_view(view).is_none() || self.find_rating(id).is_some() {
            return Err(StoreError::ConstraintViolation);
        }
        self.ratings.push(Rating { id, view, value, time });
        Ok(id)
    }

    /// Records a rating of `value` for the view `view` under a freshly drawn id;
    /// without a `time` the rating is dated now. On a store without ratings no drawn
    /// id can collide, and a valid value for an existing view is recorded.
    /// Drawing the id panics where the operating system has no random bytes to give,
    /// and reading the clock panics where it is set before 1970.
    pub fn record_rating(&mut self, view: Id, value: u32, time: Option<i64>) -> (r: Result<
        Id,
        StoreError,
    >)
        requires
            old(self).wf(),
        ensures
            final(self).wf(),
            value <= MAX_RATING && has_view(old(self).views@, view) && old(self).ratings@.len()
                == 0 ==> r is Ok,
            value > MAX_RATING ==> r == Err::<Id, StoreError>(StoreError::ValidationFailure),
            value <= MAX_RATING && !has_view(old(self).views@, view) ==> r == Err::<
                Id,
                StoreError,
            >(StoreError::ConstraintViolation),
            r matches Err(e) ==> (e == StoreError::ValidationFailure <==> value > MAX_RATING),
            r matches Err(e) ==> (e == StoreError::ValidationFailure || e
                == StoreError::ConstraintViolation),
            r is Err ==> final(self).same_tables(*old(self)),
            r matches Ok(id) ==> {
                let n = final(self).ratings@.last();
                &&& final(self).ratings@ == old(self).ratings@.push(n)
                &&& n.id == id
                &&& n.view == view
                &&& n.value == value
                &&& (time matches Some(t) ==> n.time == t)
                &&& final(self).same_except_ratings(*old(self))
            },
    {
        let id = fresh_id();
        let when = match time {
            Some(t) => t,
            None => now_millis(),
        };
        self.record_rating_with(id, view, value, when)
    }

    /// Inserts a movie known only by its name under the given id.
    pub fn insert_movie(&mut self, id: Id, name: String) -> (r: Result<(), StoreError>)
        requires
            old(self).wf(),
        ensures
            final(self).wf(),
            r is Ok <==> !has_movie(old(self).movies@, id),
            r matches Err(e) ==> e == StoreError::ConstraintViolation && final(self).same_tables(
                *old(self),
            ),
            r is Ok ==> final(self).movies@ == old(self).movies@.push(bare_movie(id, name))
                && final(self).persons@ == old(self).persons@ && final(self).same_except_entities(
                *old(self),
            ),
    {
        if self.find_movie(id).is_some() {
            return Err(StoreError::ConstraintViolation);
        }
        let ghost pre = *self;
        self.movies.push(Movie::named(id, name));
        proof {
            lemma_has_grows(pre, *self);
        }
        Ok(())
    }

    /// Inserts a movie known only by its name under a freshly drawn id.
    /// Into an empty table it always succeeds: no drawn id can collide.
    /// Drawing the id panics where the operating system has no random bytes to give.
    pub fn add_movie(&mut self, name: String) -> (r: Result<Id, StoreError>)
        requires
            old(self).wf(),
        ensures
            final(self).wf(),
            old(self).movies@.len() == 0 ==> r is Ok,
            r matches Err(e) ==> e == StoreError::ConstraintViolation && final(self).same_tables(
                *old(self),
            ),
            r matches Ok(id) ==> final(self).movies@ == old(self).movies@.push(bare_movie(id, name))
                && final(self).persons@ == old(self).persons@ && final(self).same_except_entities(
                *old(self),
            ),
    {
        let id = fresh_id();
        match self.insert_movie(id, name) {
            Ok(()) => Ok(id),
            Err(e) => Err(e),
        }
    }

    /// Inserts a person under the given id.
    pub fn insert_person(&mut self, id: Id, name: String) -> (r: Result<(), StoreError>)
        requires
            old(self).wf(),
        ensures
            final(self).wf(),
            r is Ok <==> !has_person(old(self).persons@, id),
            r matches Err(e) ==> e == StoreError::ConstraintViolation && final(self).same_tables(
                *old(self),
            ),
            r is Ok ==> final(self).persons@ == old(self).persons@.push(Person { id, name })
                && final(self).movies@ == old(self).movies@ && final(self).same_except_entities(
                *old(self),
            ),
    {
        if self.find_person(id).is_some() {
            return Err(StoreError::ConstraintViolation);
        }
        let ghost pre = *self;
        self.persons.push(Person { id, name });
        proof {
            lemma_has_grows(pre, *self);
        }
        Ok(())
    }

    /// Inserts a person under a freshly drawn id.
    /// Into an empty table it always succeeds: no drawn id can collide.
    /// Drawing the id panics where the operating system has no random bytes to give.
    pub fn add_person(&mut self, name: String) -> (r: Result<Id, StoreError>)
        requires
            old(self).wf(),
        ensures
            final(self).wf(),
            old(self).persons@.len() == 0 ==> r is Ok,
            r matches Err(e) ==> e == StoreError::ConstraintViolation && final(self).same_tables(
                *old(self),
            ),
            r matches Ok(id) ==> final(self).persons@ == old(self).persons@.push(Person { id, name })
                && final(self).movies@ == old(self).movies@ && final(self).same_except_entities(
                *old(self),
            ),
    {
        let id = fresh_id();
        match self.insert_person(id, name) {
            Ok(()) => Ok(id),
            Err(e) => Err(e),
        }
    }
}

} // verus!
