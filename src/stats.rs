//! Average ratings at the granularity of a movie, a night, and a person within a
//! night: each rating is followed through its view to the view's night, and from
//! there to the night's movie.
use vstd::prelude::*;
use crate::model::{Id, Mean, Movie, MovieStub, Night, Rating};
use crate::store::{has_movie, has_night, Store};

verus! {

/// Which ratings an average is taken over.
#[derive(Clone, Copy, Debug, PartialEq, Eq, Structural)]
pub enum Scope {
    /// Ratings of views of one night.
    Night(Id),
    /// Ratings of views of any night that showed one movie.
    Movie(Id),
    /// Ratings of one person's views of one night.
    NightPerson(Id, Id),
}

/// Whether some night with id `night` showed `movie`.
pub open spec fn night_shows(nights: Seq<Night>, night: Id, movie: Id) -> bool {
    exists|j: int| 0 <= j < nights.len() && (#[trigger] nights[j]).id == night && nights[j].movie == movie
}

/// Whether the view `v` lies within `scope`.
pub open spec fn view_in_scope(nights: Seq<Night>, v: crate::model::MovieView, scope: Scope) -> bool {
    match scope {
        Scope::Night(n) => v.night == n,
        Scope::Movie(m) => night_shows(nights, v.night, m),
        Scope::NightPerson(n, p) => v.night == n && v.person == p,
    }
}

/// Whether the rating `r` was given for a view within `scope`.
pub open spec fn rating_in_scope(s: Store, r: Rating, scope: Scope) -> bool {
    exists|k: int|
        0 <= k < s.views@.len() && (#[trigger] s.views@[k]).id == r.view && view_in_scope(
            s.nights@,
            s.views@[k],
            scope,
        )
}

/// The values of the ratings of `rs` that `keep` selects, in order.
pub open spec fn values_where(rs: Seq<Rating>, keep: spec_fn(Rating) -> bool) -> Seq<u32>
    decreases rs.len(),
{
    if rs.len() == 0 {
        Seq::empty()
    } else {
        let prev = values_where(rs.drop_last(), keep);
        if keep(rs.last()) {
            prev.push(rs.last().value)
        } else {
            prev
        }
    }
}

/// The values of all ratings of `s` within `scope`.
pub open spec fn scope_values(s: Store, scope: Scope) -> Seq<u32> {
    values_where(s.ratings@, |r: Rating| rating_in_scope(s, r, scope))
}

pub open spec fn sum(vs: Seq<u32>) -> int
    decreases vs.len(),
{
    if vs.len() == 0 {
        0
    } else {
        sum(vs.drop_last()) + vs.last()
    }
}

/// The mean of a nonempty sequence of values, as a total and a count.
pub open spec fn mean_spec(vs: Seq<u32>) -> Mean {
    Mean { total: sum(vs) as u128, count: vs.len() as u64 }
}

/// The mean of `vs`, or none for no values at all.
pub open spec fn mean_opt(vs: Seq<u32>) -> Option<Mean> {
    if vs.len() == 0 {
        None
    } else {
        Some(mean_spec(vs))
    }
}

/// A night of a movie with the mean of the ratings given that night, if any.
#[derive(Clone, Copy, Debug, PartialEq, Eq, Structural)]
pub struct NightRating {
    pub night: Id,
    pub time: i64,
    pub mean: Option<Mean>,
}

/// A participant of a night with the mean of their ratings for it.
#[derive(Debug)]
pub struct PersonRating {
    pub person: Id,
    pub name: String,
    pub mean: Mean,
}

#[derive(Debug)]
pub struct MovieDetails {
    pub movie: Movie,
    /// One entry per night that showed the movie, rated or not.
    pub nights: Vec<NightRating>,
    /// The mean over every rating of every night that showed the movie.
    pub mean: Option<Mean>,
}

#[derive(Debug)]
pub struct NightDetails {
    pub night: Night,
    pub movie: MovieStub,
    /// One entry per person with a rating for this night.
    pub persons: Vec<PersonRating>,
}

/// The nights of `nights` that showed `movie`, in order, each with the mean of its
/// ratings, or none for a night without ratings.
pub open spec fn movie_nights(s: Store, nights: Seq<Night>, movie: Id) -> Seq<NightRating>
    decreases nights.len(),
{
    if nights.len() == 0 {
        Seq::empty()
    } else {
        let prev = movie_nights(s, nights.drop_last(), movie);
        let n = nights.last();
        if n.movie == movie {
            prev.push(
                NightRating {
                    night: n.id,
                    time: n.time,
                    mean: mean_opt(scope_values(s, Scope::Night(n.id))),
                },
            )
        } else {
            prev
        }
    }
}

/// The persons of `persons` with a rating for `night`, in order, with their means.
pub open spec fn night_persons(s: Store, persons: Seq<crate::model::Person>, night: Id) -> Seq<
    (Id, Seq<char>, Mean),
>
    decreases persons.len(),
{
    if persons.len() == 0 {
        Seq::empty()
    } else {
        let prev = night_persons(s, persons.drop_last(), night);
        let p = persons.last();
        let vs = scope_values(s, Scope::NightPerson(night, p.id));
        if vs.len() > 0 {
            prev.push((p.id, p.name@, mean_spec(vs)))
        } else {
            prev
        }
    }
}

/// What a person's breakdown row says: its id, its name and its mean.
pub open spec fn person_row(r: PersonRating) -> (Id, Seq<char>, Mean) {
    (r.person, r.name@, r.mean)
}

impl Store {
    /// Whether the view `v` lies within `scope`.
    pub fn view_matches(&self, v: &crate::model::MovieView, scope: Scope) -> (b: bool)
        ensures
            b == view_in_scope(self.nights@, *v, scope),
    {
        match scope {
            Scope::Night(n) => v.night == n,
            Scope::NightPerson(n, p) => v.night == n && v.person == p,
            Scope::Movie(m) => {
                let mut j: usize = 0;
                while j < self.nights.len()
                    invariant
                        j <= self.nights@.len(),
                        scope == Scope::Movie(m),
                        forall|i: int|
                            0 <= i < j ==> !((#[trigger] self.nights@[i]).id == v.night
                                && self.nights@[i].movie == m),
                    decreases self.nights@.len() - j,
                {
                    if self.nights[j].id == v.night && self.nights[j].movie == m {
                        assert(self.nights@[j as int].id == v.night);
                        return true;
                    }
                    j += 1;
                }
                false
            },
        }
    }

    /// Whether the rating `r` was given for a view within `scope`.
    pub fn rating_matches(&self, r: &Rating, scope: Scope) -> (b: bool)
        ensures
            b == rating_in_scope(*self, *r, scope),
    {
        let mut k: usize = 0;
        while k < self.views.len()
            invariant
                k <= self.views@.len(),
                forall|i: int|
                    0 <= i < k ==> !((#[trigger] self.views@[i]).id == r.view && view_in_scope(
                        self.nights@,
                        self.views@[i],
                        scope,
                    )),
            decreases self.views@.len() - k,
        {
            if self.views[k].id == r.view && self.view_matches(&self.views[k], scope) {
                return true;
            }
            k += 1;
        }
        false
    }

    /// The mean of all ratings within `scope`, or none where there is no such rating.
    pub fn mean_over(&self, scope: Scope) -> (m: Option<Mean>)
        ensures
            m == mean_opt(scope_values(*self, scope)),
    {
        let ghost keep = |r: Rating| rating_in_scope(*self, r, scope);
        let mut total: u128 = 0;
        let mut count: u64 = 0;
        let mut i: usize = 0;
        while i < self.ratings.len()
            invariant
                i <= self.ratings@.len(),
                keep == (|r: Rating| rating_in_scope(*self, r, scope)),
                count == values_where(self.ratings@.subrange(0, i as int), keep).len(),
                total == sum(values_where(self.ratings@.subrange(0, i as int), keep)),
                count <= i,
                total <= count * 0xFFFF_FFFFu128,
            decreases self.ratings@.len() - i,
        {
            let r = self.ratings[i];
            let hit = self.rating_matches(&r, scope);
            proof {
                let prev = values_where(self.ratings@.subrange(0, i as int), keep);
                assert(self.ratings@.subrange(0, i + 1).drop_last() =~= self.ratings@.subrange(
                    0,
                    i as int,
                ));
                assert(prev.push(r.value).drop_last() =~= prev);
                assert(total + r.value <= (count + 1) * 0xFFFF_FFFFu128) by (nonlinear_arith)
                    requires
                        total <= count * 0xFFFF_FFFFu128,
                        r.value <= 0xFFFF_FFFFu32,
                ;
            }
            if hit {
                total = total + r.value as u128;
                count = count + 1;
            }
            i += 1;
        }
        proof {
            assert(self.ratings@.subrange(0, i as int) =~= self.ratings@);
        }
        if count == 0 {
            None
        } else {
            Some(Mean { total, count })
        }
    }

    /// A movie with its rated nights and the mean over all of its ratings.
    pub fn movie_details(&self, id: Id) -> (r: Result<MovieDetails, crate::model::StoreError>)
        requires
            self.wf(),
        ensures
            r is Err <==> !has_movie(self.movies@, id),
            r matches Err(e) ==> e == crate::model::StoreError::NotFound,
            r matches Ok(d) ==> {
                &&& d.movie.id == id
                &&& self.movies@.contains(d.movie)
                &&& d.nights@ == movie_nights(*self, self.nights@, id)
                &&& d.mean == mean_opt(scope_values(*self, Scope::Movie(id)))
            },
    {
        let k = match self.find_movie(id) {
            Some(k) => k,
            None => return Err(crate::model::StoreError::NotFound),
        };
        let movie = self.movies[k].copy();
        let mut nights: Vec<NightRating> = Vec::new();
        let mut j: usize = 0;
        while j < self.nights.len()
            invariant
                j <= self.nights@.len(),
                nights@ == movie_nights(*self, self.nights@.subrange(0, j as int), id),
            decreases self.nights@.len() - j,
        {
            proof {
                assert(self.nights@.subrange(0, j + 1).drop_last() =~= self.nights@.subrange(
                    0,
                    j as int,
                ));
            }
            if self.nights[j].movie == id {
                let night = self.nights[j].id;
                let mean = self.mean_over(Scope::Night(night));
                nights.push(NightRating { night, time: self.nights[j].time, mean });
            }
            j += 1;
        }
        proof {
            assert(self.nights@.subrange(0, j as int) =~= self.nights@);
            assert(self.movies@[k as int] == movie);
        }
        let mean = self.mean_over(Scope::Movie(id));
        Ok(MovieDetails { movie, nights, mean })
    }

    /// A night with its movie and, for each person with a rating for it, their mean.
    pub fn night_details(&self, id: Id) -> (r: Result<NightDetails, crate::model::StoreError>)
        requires
            self.wf(),
        ensures
            r is Err <==> !has_night(self.nights@, id) || exists|k: int|
                0 <= k < self.nights@.len() && (#[trigger] self.nights@[k]).id == id
                    && !has_movie(self.movies@, self.nights@[k].movie),
            r matches Err(e) ==> e == crate::model::StoreError::NotFound,
            r matches Ok(d) ==> {
                &&& d.night.id == id
                &&& self.nights@.contains(d.night)
                &&& d.movie.id == d.night.movie
                &&& exists|k: int|
                    0 <= k < self.movies@.len() && (#[trigger] self.movies@[k]).id == d.movie.id
                        && self.movies@[k].name == d.movie.name
                &&& d.persons@.map_values(|p: PersonRating| person_row(p)) == night_persons(
                    *self,
                    self.persons@,
                    id,
                )
            },
    {
        let k = match self.find_night(id) {
            Some(k) => k,
            None => return Err(crate::model::StoreError::NotFound),
        };
        let m = match self.find_movie(self.nights[k].movie) {
            Some(m) => m,
            None => return Err(crate::model::StoreError::NotFound),
        };
        let night = self.nights[k].copy();
        let movie = MovieStub { id: self.movies[m].id, name: self.movies[m].name.clone() };
        let mut persons: Vec<PersonRating> = Vec::new();
        let mut j: usize = 0;
        while j < self.persons.len()
            invariant
                j <= self.persons@.len(),
                persons@.map_values(|p: PersonRating| person_row(p)) == night_persons(
                    *self,
                    self.persons@.subrange(0, j as int),
                    id,
                ),
            decreases self.persons@.len() - j,
        {
            proof {
                assert(self.persons@.subrange(0, j + 1).drop_last() =~= self.persons@.subrange(
                    0,
                    j as int,
                ));
            }
            let person = self.persons[j].id;
            match self.mean_over(Scope::NightPerson(id, person)) {
                Some(mean) => {
                    let ghost before = persons@;
                    persons.push(PersonRating { person, name: self.persons[j].name.clone(), mean });
                    proof {
                        assert(persons@.map_values(|p: PersonRating| person_row(p)) =~= before.map_values(
                            |p: PersonRating| person_row(p),
                        ).push(person_row(persons@.last())));
                    }
                },
                None => {},
            }
            j += 1;
        }
        proof {
            assert(self.persons@.subrange(0, j as int) =~= self.persons@);
            assert(self.nights@[k as int] == night);
        }
        Ok(NightDetails { night, movie, persons })
    }
}

} // verus!
