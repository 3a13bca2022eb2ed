//! What a person attended, latest first, and the ratings given for a night in
//! the order they were given.
use vstd::prelude::*;
use crate::model::{Id, Person, StoreError};
use crate::ordering::{Duplicate, Keyed, ordered_prefix, rows_in_order};
use crate::store::{
    has_movie, has_night, has_person, has_view, lemma_rows_with, movie_with, night_with,
    person_with, view_with, Store,
};

verus! {

/// How many of a person's nights their details list.
pub const LATEST_NIGHTS: usize = 20;

/// A night a person attended, with the movie shown.
#[derive(Debug)]
pub struct PersonNight {
    pub night: Id,
    pub time: i64,
    pub movie: Id,
    pub movie_name: String,
}

#[derive(Debug)]
pub struct PersonDetails {
    pub person: Person,
    /// The latest nights the person attended, latest first.
    pub latest_nights: Vec<PersonNight>,
}

/// A rating given for a night, with who gave it.
#[derive(Debug)]
pub struct RatingByPerson {
    pub time: i64,
    pub value: u32,
    pub person: Id,
    pub person_name: String,
}

pub open spec fn person_night_row(r: PersonNight) -> (Id, i64, Id, Seq<char>) {
    (r.night, r.time, r.movie, r.movie_name@)
}

pub open spec fn rating_row(r: RatingByPerson) -> (i64, u32, Id, Seq<char>) {
    (r.time, r.value, r.person, r.person_name@)
}

/// The nights of `person`'s views among `views`, in the order of the views, each
/// joined with its movie; views whose night or movie is missing are skipped.
pub open spec fn attended(s: Store, views: Seq<crate::model::MovieView>, person: Id) -> Seq<
    (Id, i64, Id, Seq<char>),
>
    decreases views.len(),
{
    if views.len() == 0 {
        Seq::empty()
    } else {
        let prev = attended(s, views.drop_last(), person);
        let v = views.last();
        let n = night_with(s, v.night);
        if v.person == person && has_night(s.nights@, v.night) && has_movie(s.movies@, n.movie) {
            prev.push((n.id, n.time, n.movie, movie_with(s, n.movie).name@))
        } else {
            prev
        }
    }
}

/// The ratings among `ratings` given for views of `night` by existing persons, in
/// the order of the ratings.
pub open spec fn night_rating_rows(s: Store, ratings: Seq<crate::model::Rating>, night: Id) -> Seq<
    (i64, u32, Id, Seq<char>),
>
    decreases ratings.len(),
{
    if ratings.len() == 0 {
        Seq::empty()
    } else {
        let prev = night_rating_rows(s, ratings.drop_last(), night);
        let r = ratings.last();
        let v = view_with(s, r.view);
        if has_view(s.views@, r.view) && v.night == night && has_person(s.persons@, v.person) {
            prev.push((r.time, r.value, v.person, person_with(s, v.person).name@))
        } else {
            prev
        }
    }
}

/// Keys that order rows by time, latest first.
pub open spec fn latest_first_keys<T>(rows: Seq<(T, i64, Id, Seq<char>)>) -> Seq<Keyed> {
    Seq::new(rows.len(), |i: int| ((-(rows[i].1 as int)) as i128, i as usize))
}

/// Keys that order rows by time, earliest first.
pub open spec fn earliest_first_keys<T>(rows: Seq<(i64, T, Id, Seq<char>)>) -> Seq<Keyed> {
    Seq::new(rows.len(), |i: int| (rows[i].0 as i128, i as usize))
}

impl Duplicate for PersonNight {
    fn duplicate(&self) -> (r: PersonNight) {
        PersonNight {
            night: self.night,
            time: self.time,
            movie: self.movie,
            movie_name: self.movie_name.clone(),
        }
    }
}

impl Duplicate for RatingByPerson {
    fn duplicate(&self) -> (r: RatingByPerson) {
        RatingByPerson {
            time: self.time,
            value: self.value,
            person: self.person,
            person_name: self.person_name.clone(),
        }
    }
}

impl Store {
    /// A person with the latest nights they attended, latest first; nights on the
    /// same time keep the order of the views.
    pub fn person_details(&self, id: Id) -> (r: Result<PersonDetails, StoreError>)
        requires
            self.wf(),
        ensures
            r is Err <==> !has_person(self.persons@, id),
            r matches Err(e) ==> e == StoreError::NotFound,
            r matches Ok(d) ==> {
                let rows = attended(*self, self.views@, id);
                &&& d.person == person_with(*self, id)
                &&& d.latest_nights@.map_values(|n: PersonNight| person_night_row(n))
                    == ordered_prefix(rows, latest_first_keys(rows), LATEST_NIGHTS as int)
            },
    {
        proof {
            lemma_rows_with(*self);
        }
        let p = match self.find_person(id) {
            Some(p) => p,
            None => return Err(StoreError::NotFound),
        };
        let person = self.persons[p].copy();
        let mut rows: Vec<PersonNight> = Vec::new();
        let mut k: usize = 0;
        while k < self.views.len()
            invariant
                k <= self.views@.len(),
                self.wf(),
                forall|j: int| 0 <= j < self.nights@.len() ==> night_with(*self, (#[trigger] self.nights@[j]).id) == self.nights@[j],
                forall|j: int| 0 <= j < self.movies@.len() ==> movie_with(*self, (#[trigger] self.movies@[j]).id) == self.movies@[j],
                rows@.map_values(|n: PersonNight| person_night_row(n)) == attended(
                    *self,
                    self.views@.subrange(0, k as int),
                    id,
                ),
            decreases self.views@.len() - k,
        {
            let ghost before = rows@;
            proof {
                assert(self.views@.subrange(0, k + 1).drop_last() =~= self.views@.subrange(0, k as int));
            }
            let v = self.views[k];
            if v.person == id {
                match self.find_night(v.night) {
                    Some(j) => {
                        match self.find_movie(self.nights[j].movie) {
                            Some(m) => {
                                rows.push(
                                    PersonNight {
                                        night: self.nights[j].id,
                                        time: self.nights[j].time,
                                        movie: self.movies[m].id,
                                        movie_name: self.movies[m].name.clone(),
                                    },
                                );
                                proof {
                                    assert(rows@.map_values(|n: PersonNight| person_night_row(n))
                                        =~= before.map_values(|n: PersonNight| person_night_row(n)).push(
                                        person_night_row(rows@.last()),
                                    ));
                                }
                            },
                            None => {},
                        }
                    },
                    None => {},
                }
            }
            k += 1;
        }
        proof {
            assert(self.views@.subrange(0, k as int) =~= self.views@);
        }
        let ghost rs = rows@.map_values(|n: PersonNight| person_night_row(n));
        let mut keys: Vec<Keyed> = Vec::new();
        let mut i: usize = 0;
        while i < rows.len()
            invariant
                i <= rows@.len(),
                rs == rows@.map_values(|n: PersonNight| person_night_row(n)),
                keys@ == latest_first_keys(rs).subrange(0, i as int),
            decreases rows@.len() - i,
        {
            keys.push((-(rows[i].time as i128), i));
            i += 1;
            proof {
                assert(keys@ =~= latest_first_keys(rs).subrange(0, i as int));
            }
        }
        proof {
            assert(keys@ =~= latest_first_keys(rs));
        }
        let latest = rows_in_order(&rows, &keys, LATEST_NIGHTS);
        proof {
            assert(latest@.map_values(|n: PersonNight| person_night_row(n)) =~= ordered_prefix(
                rs,
                keys@,
                LATEST_NIGHTS as int,
            ));
        }
        Ok(PersonDetails { person, latest_nights: latest })
    }

    /// The ratings given for views of `night`, each with who gave it, earliest first;
    /// ratings given at the same time keep the order in which they were recorded.
    pub fn night_ratings(&self, night: Id) -> (r: Vec<RatingByPerson>)
        requires
            self.wf(),
        ensures
            ({
                let rows = night_rating_rows(*self, self.ratings@, night);
                r@.map_values(|x: RatingByPerson| rating_row(x)) == ordered_prefix(
                    rows,
                    earliest_first_keys(rows),
                    rows.len() as int,
                )
            }),
    {
        proof {
            lemma_rows_with(*self);
        }
        let mut rows: Vec<RatingByPerson> = Vec::new();
        let mut k: usize = 0;
        while k < self.ratings.len()
            invariant
                k <= self.ratings@.len(),
                self.wf(),
                forall|j: int| 0 <= j < self.views@.len() ==> view_with(*self, (#[trigger] self.views@[j]).id) == self.views@[j],
                forall|j: int| 0 <= j < self.persons@.len() ==> person_with(*self, (#[trigger] self.persons@[j]).id) == self.persons@[j],
                rows@.map_values(|x: RatingByPerson| rating_row(x)) == night_rating_rows(
                    *self,
                    self.ratings@.subrange(0, k as int),
                    night,
                ),
            decreases self.ratings@.len() - k,
        {
            let ghost before = rows@;
            proof {
                assert(self.ratings@.subrange(0, k + 1).drop_last() =~= self.ratings@.subrange(0, k as int));
            }
            let r = self.ratings[k];
            match self.find_view(r.view) {
                Some(v) => {
                    if self.views[v].night == night {
                        match self.find_person(self.views[v].person) {
                            Some(p) => {
                                rows.push(
                                    RatingByPerson {
                                        time: r.time,
                                        value: r.value,
                                        person: self.persons[p].id,
                                        person_name: self.persons[p].name.clone(),
                                    },
                                );
                                proof {
                                    assert(rows@.map_values(|x: RatingByPerson| rating_row(x))
                                        =~= before.map_values(|x: RatingByPerson| rating_row(x)).push(
                                        rating_row(rows@.last()),
                                    ));
                                }
                            },
                            None => {},
                        }
                    }
                },
                None => {},
            }
            k += 1;
        }
        proof {
            assert(self.ratings@.subrange(0, k as int) =~= self.ratings@);
        }
        let ghost rs = rows@.map_values(|x: RatingByPerson| rating_row(x));
        let mut keys: Vec<Keyed> = Vec::new();
        let mut i: usize = 0;
        while i < rows.len()
            invariant
                i <= rows@.len(),
                rs == rows@.map_values(|x: RatingByPerson| rating_row(x)),
                keys@ == earliest_first_keys(rs).subrange(0, i as int),
            decreases rows@.len() - i,
        {
            keys.push((rows[i].time as i128, i));
            i += 1;
            proof {
                assert(keys@ =~= earliest_first_keys(rs).subrange(0, i as int));
            }
        }
        proof {
            assert(keys@ =~= earliest_first_keys(rs));
        }
        let out = rows_in_order(&rows, &keys, rows.len());
        proof {
            assert(out@.map_values(|x: RatingByPerson| rating_row(x)) =~= ordered_prefix(
                rs,
                keys@,
                rows@.len() as int,
            ));
        }
        out
    }
}

} // verus!
