//! Watchlists: named, ordered lists of movies. Each entry carries an integer
//! index that orders it within its list; an index is either given by the caller
//! or one past the largest index of the list.
use vstd::prelude::*;
use crate::clock::fresh_id;
use crate::model::{Id, MovieStub, StoreError, Watchlist, WatchlistEntry};
use crate::ordering::{Duplicate, Keyed, ordered_prefix, rows_in_order};
use crate::store::{has_movie, has_watchlist, lemma_has_grows, lemma_rows_with, movie_with, Store};

verus! {

/// The largest index of an entry of `watchlist` among `entries`, if there is one.
pub open spec fn max_index(entries: Seq<WatchlistEntry>, watchlist: Id) -> Option<int>
    decreases entries.len(),
{
    if entries.len() == 0 {
        None
    } else {
        let prev = max_index(entries.drop_last(), watchlist);
        let e = entries.last();
        if e.watchlist != watchlist {
            prev
        } else {
            match prev {
                Some(m) if m >= e.idx => Some(m),
                _ => Some(e.idx as int),
            }
        }
    }
}

/// The index that an entry added to `watchlist` without one receives.
pub open spec fn next_index(entries: Seq<WatchlistEntry>, watchlist: Id) -> int {
    match max_index(entries, watchlist) {
        Some(m) => m + 1,
        None => 0,
    }
}

/// Whether some entry of `watchlist` has index `idx`.
pub open spec fn index_taken(entries: Seq<WatchlistEntry>, watchlist: Id, idx: i32) -> bool {
    exists|k: int|
        0 <= k < entries.len() && (#[trigger] entries[k]).watchlist == watchlist && entries[k].idx
            == idx
}

/// How many entries of `entries` sit at index `idx` of `watchlist`.
pub open spec fn count_at(entries: Seq<WatchlistEntry>, watchlist: Id, idx: i32) -> nat
    decreases entries.len(),
{
    if entries.len() == 0 {
        0
    } else {
        let e = entries.last();
        count_at(entries.drop_last(), watchlist, idx) + if e.watchlist == watchlist && e.idx
            == idx {
            1nat
        } else {
            0nat
        }
    }
}

/// `entries` without those at index `idx` of `watchlist`, in order.
pub open spec fn without_index(entries: Seq<WatchlistEntry>, watchlist: Id, idx: i32) -> Seq<
    WatchlistEntry,
>
    decreases entries.len(),
{
    if entries.len() == 0 {
        Seq::empty()
    } else {
        let prev = without_index(entries.drop_last(), watchlist, idx);
        let e = entries.last();
        if e.watchlist == watchlist && e.idx == idx {
            prev
        } else {
            prev.push(e)
        }
    }
}

/// The entries of `watchlist` among `entries` whose movie exists, in order, each as
/// the movie's id and name and the entry's index.
pub open spec fn listed(s: Store, entries: Seq<WatchlistEntry>, watchlist: Id) -> Seq<
    (Id, Seq<char>, i32),
>
    decreases entries.len(),
{
    if entries.len() == 0 {
        Seq::empty()
    } else {
        let prev = listed(s, entries.drop_last(), watchlist);
        let e = entries.last();
        if e.watchlist == watchlist && has_movie(s.movies@, e.movie) {
            prev.push((e.movie, movie_with(s, e.movie).name@, e.idx))
        } else {
            prev
        }
    }
}

/// Keys that order listed entries by ascending index.
pub open spec fn index_keys(rows: Seq<(Id, Seq<char>, i32)>) -> Seq<Keyed> {
    Seq::new(rows.len(), |i: int| (rows[i].2 as i128, i as usize))
}

/// The outcome of removing by index, from how many entries sat at it: none is a
/// miss, one a removal, more a broken uniqueness of indices.
pub open spec fn removal_spec(matched: nat) -> Result<(), StoreError> {
    if matched == 0 {
        Err(StoreError::NotFound)
    } else if matched == 1 {
        Ok(())
    } else {
        Err(StoreError::ConsistencyViolation)
    }
}

/// An entry of a watchlist with its movie.
#[derive(Debug)]
pub struct ListedMovie {
    pub movie: MovieStub,
    pub idx: i32,
}

#[derive(Debug)]
pub struct WatchlistDetails {
    pub watchlist: Watchlist,
    /// The entries, by ascending index.
    pub entries: Vec<ListedMovie>,
}

pub open spec fn listed_row(l: ListedMovie) -> (Id, Seq<char>, i32) {
    (l.movie.id, l.movie.name@, l.idx)
}

impl Duplicate for ListedMovie {
    fn duplicate(&self) -> (r: ListedMovie) {
        ListedMovie { movie: MovieStub { id: self.movie.id, name: self.movie.name.clone() }, idx: self.idx }
    }
}

/// What removing by index reports, given how many entries it matched.
pub fn removal_outcome(matched: u64) -> (r: Result<(), StoreError>)
    ensures
        r == removal_spec(matched as nat),
{
    if matched == 0 {
        Err(StoreError::NotFound)
    } else if matched == 1 {
        Ok(())
    } else {
        Err(StoreError::ConsistencyViolation)
    }
}

proof fn lemma_max_index_bounds(entries: Seq<WatchlistEntry>, watchlist: Id)
    ensures
        forall|k: int|
            0 <= k < entries.len() && (#[trigger] entries[k]).watchlist == watchlist ==> (
            max_index(entries, watchlist) matches Some(m) && entries[k].idx <= m),
        max_index(entries, watchlist) matches Some(m) ==> i32::MIN <= m <= i32::MAX,
        max_index(entries, watchlist) is None ==> forall|k: int|
            0 <= k < entries.len() ==> (#[trigger] entries[k]).watchlist != watchlist,
    decreases entries.len(),
{
    if entries.len() > 0 {
        let d = entries.drop_last();
        lemma_max_index_bounds(d, watchlist);
        assert forall|k: int|
            0 <= k < entries.len() && (#[trigger] entries[k]).watchlist == watchlist implies (
            max_index(entries, watchlist) matches Some(m) && entries[k].idx <= m) by {
            if k < entries.len() - 1 {
                assert(entries[k] == d[k]);
            }
        }
        assert forall|k: int| 0 <= k < entries.len() && max_index(entries, watchlist) is None implies (
        #[trigger] entries[k]).watchlist != watchlist by {
            if k < entries.len() - 1 {
                assert(entries[k] == d[k]);
            }
        }
    }
}

/// No two entries of one watchlist share an index.
pub open spec fn indices_unique(s: Seq<WatchlistEntry>) -> bool {
    forall|i: int, j: int|
        0 <= i < j < s.len() ==> !((#[trigger] s[i]).watchlist == (#[trigger] s[j]).watchlist
            && s[i].idx == s[j].idx)
}

proof fn lemma_without_index_unique(entries: Seq<WatchlistEntry>, watchlist: Id, idx: i32)
    requires
        indices_unique(entries),
    ensures
        indices_unique(without_index(entries, watchlist, idx)),
        forall|x: WatchlistEntry|
            without_index(entries, watchlist, idx).contains(x) ==> entries.contains(x),
    decreases entries.len(),
{
    if entries.len() > 0 {
        let d = entries.drop_last();
        assert(indices_unique(d)) by {
            assert forall|i: int, j: int| 0 <= i < j < d.len() implies !((#[trigger] d[i]).watchlist
                == (#[trigger] d[j]).watchlist && d[i].idx == d[j].idx) by {
                assert(d[i] == entries[i] && d[j] == entries[j]);
            }
        }
        lemma_without_index_unique(d, watchlist, idx);
        let prev = without_index(d, watchlist, idx);
        let e = entries.last();
        let r = without_index(entries, watchlist, idx);
        assert forall|x: WatchlistEntry| r.contains(x) implies entries.contains(x) by {
            if prev.contains(x) {
                assert(d.contains(x));
                let q = choose|q: int| 0 <= q < d.len() && d[q] == x;
                assert(entries[q] == x);
            } else {
                assert(entries[entries.len() - 1] == x);
            }
        }
        if !(e.watchlist == watchlist && e.idx == idx) {
            assert forall|i: int, j: int| 0 <= i < j < r.len() implies !((#[trigger] r[i]).watchlist
                == (#[trigger] r[j]).watchlist && r[i].idx == r[j].idx) by {
                if j == r.len() - 1 {
                    assert(prev.contains(r[i]));
                    assert(d.contains(r[i]));
                    let q = choose|q: int| 0 <= q < d.len() && d[q] == r[i];
                    assert(entries[q] == r[i]);
                    assert(entries[entries.len() - 1] == r[j]);
                } else {
                    assert(r[i] == prev[i] && r[j] == prev[j]);
                }
            }
        }
    }
}

impl Store {
    /// Creates a watchlist under the given id.
    pub fn create_watchlist_with(
        &mut self,
        id: Id,
        name: String,
        description: Option<String>,
        owner: Option<Id>,
    ) -> (r: Result<(), StoreError>)
        requires
            old(self).wf(),
        ensures
            final(self).wf(),
            r is Ok <==> !has_watchlist(old(self).watchlists@, id),
            r matches Err(e) ==> e == StoreError::ConstraintViolation && final(self).same_tables(
                *old(self),
            ),
            r is Ok ==> final(self).watchlists@ == old(self).watchlists@.push(
                Watchlist { id, name, description, owner },
            ) && final(self).same_except_watchlists(*old(self)),
    {
        if self.find_watchlist(id).is_some() {
            return Err(StoreError::ConstraintViolation);
        }
        let ghost pre = *self;
        self.watchlists.push(Watchlist { id, name, description, owner });
        proof {
            lemma_has_grows(pre, *self);
        }
        Ok(())
    }

    /// Creates a watchlist under a freshly drawn id. Where there is no watchlist yet
    /// it always succeeds: no drawn id can collide.
    /// Drawing the id panics where the operating system has no random bytes to give.
    pub fn create_watchlist(
        &mut self,
        name: String,
        description: Option<String>,
        owner: Option<Id>,
    ) -> (r: Result<Id, StoreError>)
        requires
            old(self).wf(),
        ensures
            final(self).wf(),
            old(self).watchlists@.len() == 0 ==> r is Ok,
            r matches Err(e) ==> e == StoreError::ConstraintViolation && final(self).same_tables(
                *old(self),
            ),
            r matches Ok(id) ==> final(self).watchlists@ == old(self).watchlists@.push(
                Watchlist { id, name, description, owner },
            ) && final(self).same_except_watchlists(*old(self)),
    {
        let id = fresh_id();
        match self.create_watchlist_with(id, name, description, owner) {
            Ok(()) => Ok(id),
            Err(e) => Err(e),
        }
    }

    /// Whether some entry of `watchlist` has index `idx`.
    pub fn index_in_use(&self, watchlist: Id, idx: i32) -> (b: bool)
        ensures
            b == index_taken(self.entries@, watchlist, idx),
    {
        let mut k: usize = 0;
        while k < self.entries.len()
            invariant
                k <= self.entries@.len(),
                forall|j: int|
                    0 <= j < k ==> !((#[trigger] self.entries@[j]).watchlist == watchlist
                        && self.entries@[j].idx == idx),
            decreases self.entries@.len() - k,
        {
            if self.entries[k].watchlist == watchlist && self.entries[k].idx == idx {
                assert(self.entries@[k as int].watchlist == watchlist);
                return true;
            }
            k += 1;
        }
        false
    }

    /// The largest index of an entry of `watchlist`, if it has any.
    pub fn largest_index(&self, watchlist: Id) -> (r: Option<i32>)
        ensures
            r matches Some(m) ==> max_index(self.entries@, watchlist) == Some(m as int),
            r is None ==> max_index(self.entries@, watchlist) is None,
    {
        let mut best: Option<i32> = None;
        let mut k: usize = 0;
        while k < self.entries.len()
            invariant
                k <= self.entries@.len(),
                best matches Some(m) ==> max_index(self.entries@.subrange(0, k as int), watchlist)
                    == Some(m as int),
                best is None ==> max_index(self.entries@.subrange(0, k as int), watchlist) is None,
            decreases self.entries@.len() - k,
        {
            proof {
                assert(self.entries@.subrange(0, k + 1).drop_last() =~= self.entries@.subrange(
                    0,
                    k as int,
                ));
            }
            let e = self.entries[k];
            if e.watchlist == watchlist {
                best = match best {
                    Some(m) => if m >= e.idx {
                        Some(m)
                    } else {
                        Some(e.idx)
                    },
                    None => Some(e.idx),
                };
            }
            k += 1;
        }
        proof {
            assert(self.entries@.subrange(0, k as int) =~= self.entries@);
        }
        best
    }

    /// Adds `movie` to `watchlist` at index `idx`, or, without one, one past the
    /// largest index of the list (0 for an empty list). Returns the index used.
    ///
    /// Indices are unique within a list: an index already in use is refused with
    /// `ConstraintViolation`, and so is a missing watchlist or movie. Where the
    /// largest index is `i32::MAX`, no index is left to hand out and the add fails
    /// with `ValidationFailure`.
    pub fn add_watchlist_entry(&mut self, watchlist: Id, movie: Id, idx: Option<i32>) -> (r:
        Result<i32, StoreError>)
        requires
            old(self).wf(),
        ensures
            final(self).wf(),
            !has_watchlist(old(self).watchlists@, watchlist) || !has_movie(old(self).movies@, movie)
                ==> r == Err::<i32, StoreError>(StoreError::ConstraintViolation),
            has_watchlist(old(self).watchlists@, watchlist) && has_movie(old(self).movies@, movie)
                ==> match idx {
                Some(i) => if index_taken(old(self).entries@, watchlist, i) {
                    r == Err::<i32, StoreError>(StoreError::ConstraintViolation)
                } else {
                    r == Ok::<i32, StoreError>(i)
                },
                None => if next_index(old(self).entries@, watchlist) > i32::MAX {
                    r == Err::<i32, StoreError>(StoreError::ValidationFailure)
                } else {
                    r == Ok::<i32, StoreError>(next_index(old(self).entries@, watchlist) as i32)
                },
            },
            r is Err ==> final(self).same_tables(*old(self)),
            r matches Ok(i) ==> final(self).entries@ == old(self).entries@.push(
                WatchlistEntry { watchlist, movie, idx: i },
            ) && final(self).same_except_entries(*old(self)),
    {
        if self.find_watchlist(watchlist).is_none() || self.find_movie(movie).is_none() {
            return Err(StoreError::ConstraintViolation);
        }
        let chosen: i32 = match idx {
            Some(i) => {
                if self.index_in_use(watchlist, i) {
                    return Err(StoreError::ConstraintViolation);
                }
                i
            },
            None => match self.largest_index(watchlist) {
                Some(m) => {
                    if m == i32::MAX {
                        return Err(StoreError::ValidationFailure);
                    }
                    m + 1
                },
                None => 0,
            },
        };
        proof {
            lemma_max_index_bounds(self.entries@, watchlist);
        }
        self.entries.push(WatchlistEntry { watchlist, movie, idx: chosen });
        Ok(chosen)
    }

    /// Removes the entry at index `idx` of `watchlist`. Exactly one entry must sit
    /// there: none is reported as not found, more as a broken invariant, and in
    /// either case nothing changes.
    pub fn remove_watchlist_entry(&mut self, watchlist: Id, idx: i32) -> (r: Result<(), StoreError>)
        requires
            old(self).wf(),
        ensures
            final(self).wf(),
            r == removal_spec(count_at(old(self).entries@, watchlist, idx)),
            r is Err ==> final(self).same_tables(*old(self)),
            r is Ok ==> final(self).entries@ == without_index(old(self).entries@, watchlist, idx)
                && final(self).same_except_entries(*old(self)),
    {
        let mut kept: Vec<WatchlistEntry> = Vec::new();
        let mut matched: u64 = 0;
        let mut k: usize = 0;
        while k < self.entries.len()
            invariant
                k <= self.entries@.len(),
                matched == count_at(self.entries@.subrange(0, k as int), watchlist, idx),
                matched <= k,
                kept@ == without_index(self.entries@.subrange(0, k as int), watchlist, idx),
            decreases self.entries@.len() - k,
        {
            proof {
                assert(self.entries@.subrange(0, k + 1).drop_last() =~= self.entries@.subrange(
                    0,
                    k as int,
                ));
            }
            let e = self.entries[k];
            if e.watchlist == watchlist && e.idx == idx {
                matched = matched + 1;
            } else {
                kept.push(e);
            }
            k += 1;
        }
        proof {
            assert(self.entries@.subrange(0, k as int) =~= self.entries@);
        }
        let r = removal_outcome(matched);
        if r.is_ok() {
            proof {
                lemma_without_index_unique(self.entries@, watchlist, idx);
            }
            let ghost pre = *self;
            self.entries = kept;
            proof {
                assert forall|i: int| 0 <= i < self.entries@.len() implies has_watchlist(
                    self.watchlists@,
                    (#[trigger] self.entries@[i]).watchlist,
                ) && has_movie(self.movies@, self.entries@[i].movie) by {
                    let x = self.entries@[i];
                    assert(self.entries@.contains(x));
                    assert(pre.entries@.contains(x));
                    let k = choose|k: int| 0 <= k < pre.entries@.len() && pre.entries@[k] == x;
                    assert(has_watchlist(pre.watchlists@, pre.entries@[k].watchlist));
                }
            }
        }
        r
    }

    /// A watchlist with its entries by ascending index, each joined with its movie.
    pub fn watchlist_details(&self, id: Id) -> (r: Result<WatchlistDetails, StoreError>)
        requires
            self.wf(),
        ensures
            r is Err <==> !has_watchlist(self.watchlists@, id),
            r matches Err(e) ==> e == StoreError::NotFound,
            r matches Ok(d) ==> {
                let rows = listed(*self, self.entries@, id);
                &&& d.watchlist.id == id
                &&& self.watchlists@.contains(d.watchlist)
                &&& d.entries@.map_values(|l: ListedMovie| listed_row(l)) == ordered_prefix(
                    rows,
                    index_keys(rows),
                    rows.len() as int,
                )
            },
    {
        proof {
            lemma_rows_with(*self);
        }
        let w = match self.find_watchlist(id) {
            Some(w) => w,
            None => return Err(StoreError::NotFound),
        };
        let watchlist = self.watchlists[w].copy();
        let mut rows: Vec<ListedMovie> = Vec::new();
        let mut k: usize = 0;
        while k < self.entries.len()
            invariant
                k <= self.entries@.len(),
                forall|j: int| 0 <= j < self.movies@.len() ==> movie_with(*self, (#[trigger] self.movies@[j]).id) == self.movies@[j],
                rows@.map_values(|l: ListedMovie| listed_row(l)) == listed(
                    *self,
                    self.entries@.subrange(0, k as int),
                    id,
                ),
            decreases self.entries@.len() - k,
        {
            let ghost before = rows@;
            proof {
                assert(self.entries@.subrange(0, k + 1).drop_last() =~= self.entries@.subrange(0, k as int));
            }
            let e = self.entries[k];
            if e.watchlist == id {
                match self.find_movie(e.movie) {
                    Some(m) => {
                        rows.push(
                            ListedMovie {
                                movie: MovieStub { id: e.movie, name: self.movies[m].name.clone() },
                                idx: e.idx,
                            },
                        );
                        proof {
                            assert(rows@.map_values(|l: ListedMovie| listed_row(l)) =~= before.map_values(
                                |l: ListedMovie| listed_row(l),
                            ).push(listed_row(rows@.last())));
                        }
                    },
                    None => {},
                }
            }
            k += 1;
        }
        proof {
            assert(self.entries@.subrange(0, k as int) =~= self.entries@);
        }
        let ghost rs = rows@.map_values(|l: ListedMovie| listed_row(l));
        let mut keys: Vec<Keyed> = Vec::new();
        let mut i: usize = 0;
        while i < rows.len()
            invariant
                i <= rows@.len(),
                rs == rows@.map_values(|l: ListedMovie| listed_row(l)),
                keys@ == index_keys(rs).subrange(0, i as int),
            decreases rows@.len() - i,
        {
            keys.push((rows[i].idx as i128, i));
            i += 1;
            proof {
                assert(keys@ =~= index_keys(rs).subrange(0, i as int));
            }
        }
        proof {
            assert(keys@ =~= index_keys(rs));
        }
        let entries = rows_in_order(&rows, &keys, rows.len());
        proof {
            assert(entries@.map_values(|l: ListedMovie| listed_row(l)) =~= ordered_prefix(
                rs,
                keys@,
                rows@.len() as int,
            ));
            assert(self.watchlists@[w as int] == watchlist);
        }
        Ok(WatchlistDetails { watchlist, entries })
    }

    /// Every watchlist's id and name, in the order they were created.
    pub fn watchlists(&self) -> (r: Vec<(Id, String)>)
        ensures
            r@.len() == self.watchlists@.len(),
            forall|i: int|
                0 <= i < r@.len() ==> (#[trigger] r@[i]).0 == self.watchlists@[i].id && r@[i].1
                    == self.watchlists@[i].name,
    {
        let mut out: Vec<(Id, String)> = Vec::new();
        let mut i: usize = 0;
        while i < self.watchlists.len()
            invariant
                i <= self.watchlists@.len(),
                out@.len() == i,
                forall|j: int|
                    0 <= j < i ==> (#[trigger] out@[j]).0 == self.watchlists@[j].id && out@[j].1
                        == self.watchlists@[j].name,
            decreases self.watchlists@.len() - i,
        {
            out.push((self.watchlists[i].id, self.watchlists[i].name.clone()));
            i += 1;
        }
        out
    }
}

} // verus!
