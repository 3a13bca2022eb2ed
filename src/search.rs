//! Listing movies and persons one page at a time, optionally keeping only rows
//! whose text contains a query, compared in upper case.
use vstd::prelude::*;
use crate::model::{Id, MovieStub, Person, StoreError};
use crate::store::Store;

verus! {

/// The upper-case form of a text, as `str::to_uppercase` computes it.
pub uninterp spec fn upper_of(s: Seq<char>) -> Seq<char>;

/// Relies on `str::to_uppercase`: the upper-case form of a text depends on its
/// characters alone.
#[verifier::external_body]
fn uppercase(s: &str) -> (r: String)
    ensures
        r@ == upper_of(s@),
{
    s.to_uppercase()
}

/// Whether `needle` occurs in `hay` as a run of consecutive characters.
pub open spec fn has_infix(hay: Seq<char>, needle: Seq<char>) -> bool {
    exists|i: int|
        0 <= i <= hay.len() - needle.len() && #[trigger] hay.subrange(i, i + needle.len())
            == needle
}

/// Whether a row's text passes the filter `query`: without a query every row
/// does; with one, a row passes where its text contains the query, both in upper
/// case, and a row without text does not.
pub open spec fn passes(text: Option<Seq<char>>, query: Option<Seq<char>>) -> bool {
    match query {
        None => true,
        Some(q) => match text {
            Some(t) => has_infix(upper_of(t), upper_of(q)),
            None => false,
        },
    }
}

/// The positions among `texts` whose text passes `query`, in order.
pub open spec fn passing(texts: Seq<Option<Seq<char>>>, query: Option<Seq<char>>) -> Seq<int>
    decreases texts.len(),
{
    if texts.len() == 0 {
        Seq::empty()
    } else {
        let prev = passing(texts.drop_last(), query);
        if passes(texts.last(), query) {
            prev.push(texts.len() - 1)
        } else {
            prev
        }
    }
}

/// The part of `rows` that a page at `offset` of at most `limit` rows shows.
pub open spec fn page_of<T>(rows: Seq<T>, offset: int, limit: int) -> Seq<T> {
    let start = if offset < rows.len() { offset } else { rows.len() as int };
    let end = if offset + limit < rows.len() { offset + limit } else { rows.len() as int };
    rows.subrange(start, end)
}

/// Whether page `page` of `per_page` rows can be asked for: neither is negative and
/// the page's offset fits in an `i32`.
pub open spec fn paging_valid(page: i32, per_page: i32) -> bool {
    page >= 0 && per_page >= 0 && page * per_page <= i32::MAX
}

pub open spec fn opt_view(o: Option<String>) -> Option<Seq<char>> {
    match o {
        Some(s) => Some(s@),
        None => None,
    }
}

/// The characters of `s`, in order.
pub fn chars_of(s: &str) -> (r: Vec<char>)
    ensures
        r@ == s@,
{
    let mut out: Vec<char> = Vec::new();
    for c in it: s.chars()
        invariant
            it.seq() == s@,
            out@ == it.seq().subrange(0, it.index() as int),
    {
        out.push(c);
        proof {
            assert(out@ =~= it.seq().subrange(0, it.index() + 1));
        }
    }
    proof {
        assert(out@ =~= s@);
    }
    out
}

/// Whether `needle` occurs in `hay`.
pub fn contains_text(hay: &str, needle: &str) -> (b: bool)
    ensures
        b == has_infix(hay@, needle@),
{
    let h = chars_of(hay);
    let n = chars_of(needle);
    if n.len() > h.len() {
        return false;
    }
    let mut i: usize = 0;
    while i <= h.len() - n.len()
        invariant
            h@ == hay@,
            n@ == needle@,
            n@.len() <= h@.len(),
            i <= h@.len() - n@.len() + 1,
            forall|k: int| 0 <= k < i ==> #[trigger] h@.subrange(k, k + n@.len()) != n@,
        decreases h@.len() - n@.len() + 1 - i,
    {
        let hl = h.len();
        let mut j: usize = 0;
        while j < n.len()
            invariant
                hl == h@.len(),
                n@.len() <= h@.len(),
                i <= h@.len() - n@.len(),
                j <= n@.len(),
                forall|q: int| 0 <= q < j ==> h@[i + q] == n@[q],
            ensures
                j <= n@.len(),
                forall|q: int| 0 <= q < j ==> h@[i + q] == n@[q],
                j < n@.len() ==> h@[i + j] != n@[j as int],
            decreases n@.len() - j,
        {
            if h[i + j] != n[j] {
                break;
            }
            j += 1;
        }
        if j == n.len() {
            assert(h@.subrange(i as int, i + n@.len()) =~= n@);
            return true;
        }
        assert(h@.subrange(i as int, i + n@.len())[j as int] != n@[j as int]);
        i += 1;
    }
    false
}

/// Whether a row's text passes the filter `query`, given both in upper case.
pub fn passes_folded(text: &Option<String>, query: &Option<String>) -> (b: bool)
    ensures
        b == match *query {
            None => true,
            Some(q) => match *text {
                Some(t) => has_infix(t@, q@),
                None => false,
            },
        },
{
    match query {
        None => true,
        Some(q) => match text {
            Some(t) => contains_text(t.as_str(), q.as_str()),
            None => false,
        },
    }
}

/// The positions among `texts` whose text passes `query`.
pub fn passing_rows(texts: &Vec<Option<String>>, query: &Option<String>) -> (r: Vec<usize>)
    ensures
        r@.map_values(|p: usize| p as int) == passing(
            texts@.map_values(|t: Option<String>| opt_view(t)),
            opt_view(*query),
        ),
{
    let folded_query = match query {
        Some(q) => Some(uppercase(q.as_str())),
        None => None,
    };
    let ghost tv = texts@.map_values(|t: Option<String>| opt_view(t));
    let mut out: Vec<usize> = Vec::new();
    let mut i: usize = 0;
    while i < texts.len()
        invariant
            i <= texts@.len(),
            tv == texts@.map_values(|t: Option<String>| opt_view(t)),
            match *query {
                Some(q) => folded_query matches Some(f) && f@ == upper_of(q@),
                None => folded_query is None,
            },
            out@.map_values(|p: usize| p as int) == passing(tv.subrange(0, i as int), opt_view(*query)),
        decreases texts@.len() - i,
    {
        let folded_text = match &texts[i] {
            Some(t) => Some(uppercase(t.as_str())),
            None => None,
        };
        let hit = passes_folded(&folded_text, &folded_query);
        proof {
            assert(tv.subrange(0, i + 1).drop_last() =~= tv.subrange(0, i as int));
        }
        if hit {
            let ghost before = out@;
            out.push(i);
            proof {
                assert(out@.map_values(|p: usize| p as int) =~= before.map_values(|p: usize| p as int).push(i as int));
            }
        }
        i += 1;
    }
    proof {
        assert(tv.subrange(0, i as int) =~= tv);
    }
    out
}

/// The offset and the limit of page `page` of `per_page` rows.
pub fn paging(page: i32, per_page: i32) -> (r: Result<(usize, usize), StoreError>)
    ensures
        r is Ok <==> paging_valid(page, per_page),
        r matches Ok((offset, limit)) ==> offset == page * per_page && limit == per_page,
        r matches Err(e) ==> e == StoreError::ValidationFailure,
{
    if page < 0 || per_page < 0 {
        return Err(StoreError::ValidationFailure);
    }
    assert(0 <= page * per_page <= i32::MAX * i32::MAX) by (nonlinear_arith)
        requires
            0 <= page <= i32::MAX,
            0 <= per_page <= i32::MAX,
    ;
    let offset = (page as i64) * (per_page as i64);
    if offset > i32::MAX as i64 {
        return Err(StoreError::ValidationFailure);
    }
    Ok((offset as usize, per_page as usize))
}

/// The positions of the rows passing `query` that page `page` of `per_page` shows.
pub fn page_positions(
    texts: &Vec<Option<String>>,
    query: &Option<String>,
    page: i32,
    per_page: i32,
) -> (r: Result<Vec<usize>, StoreError>)
    ensures
        r is Ok <==> paging_valid(page, per_page),
        r matches Err(e) ==> e == StoreError::ValidationFailure,
        r matches Ok(v) ==> v@.map_values(|p: usize| p as int) == page_of(
            passing(texts@.map_values(|t: Option<String>| opt_view(t)), opt_view(*query)),
            page * per_page,
            per_page as int,
        ),
        r matches Ok(v) ==> forall|i: int| 0 <= i < v@.len() ==> (#[trigger] v@[i]) < texts@.len(),
{
    let (offset, limit) = match paging(page, per_page) {
        Ok(p) => p,
        Err(e) => return Err(e),
    };
    let rows = passing_rows(texts, query);
    let ghost all = passing(texts@.map_values(|t: Option<String>| opt_view(t)), opt_view(*query));
    proof {
        lemma_passing_bounds(texts@.map_values(|t: Option<String>| opt_view(t)), opt_view(*query));
    }
    let start = if offset < rows.len() { offset } else { rows.len() };
    let end = if limit <= rows.len() - start { start + limit } else { rows.len() };
    let mut out: Vec<usize> = Vec::new();
    let mut i: usize = start;
    while i < end
        invariant
            start <= i <= end,
            end <= rows@.len(),
            rows@.map_values(|p: usize| p as int) == all,
            forall|q: int| 0 <= q < all.len() ==> 0 <= #[trigger] all[q] < texts@.len(),
            out@.map_values(|p: usize| p as int) == all.subrange(start as int, i as int),
            forall|q: int| 0 <= q < out@.len() ==> (#[trigger] out@[q]) < texts@.len(),
        decreases end - i,
    {
        let ghost before = out@;
        assert(all[i as int] == rows@[i as int] as int);
        out.push(rows[i]);
        proof {
            assert(out@.map_values(|p: usize| p as int) =~= before.map_values(|p: usize| p as int).push(all[i as int]));
            assert(all.subrange(start as int, i + 1) =~= all.subrange(start as int, i as int).push(all[i as int]));
        }
        i += 1;
    }
    proof {
        assert(all.subrange(start as int, end as int) =~= page_of(all, page * per_page, per_page as int));
    }
    Ok(out)
}

proof fn lemma_passing_bounds(texts: Seq<Option<Seq<char>>>, query: Option<Seq<char>>)
    ensures
        forall|q: int| 0 <= q < passing(texts, query).len() ==> 0 <= #[trigger] passing(texts, query)[q] < texts.len(),
    decreases texts.len(),
{
    if texts.len() > 0 {
        lemma_passing_bounds(texts.drop_last(), query);
        let prev = passing(texts.drop_last(), query);
        let all = passing(texts, query);
        assert forall|q: int| 0 <= q < all.len() implies 0 <= #[trigger] all[q] < texts.len() by {
            if q < prev.len() {
                assert(all[q] == prev[q]);
            }
        }
    }
}

/// The texts of a column, one per row.
pub open spec fn names_of_movies(movies: Seq<crate::model::Movie>) -> Seq<Option<Seq<char>>> {
    movies.map_values(|m: crate::model::Movie| Some(m.name@))
}

pub open spec fn actors_of_movies(movies: Seq<crate::model::Movie>) -> Seq<Option<Seq<char>>> {
    movies.map_values(|m: crate::model::Movie| opt_view(m.actors))
}

pub open spec fn names_of_persons(persons: Seq<Person>) -> Seq<Option<Seq<char>>> {
    persons.map_values(|p: Person| Some(p.name@))
}

pub open spec fn stub_row(m: MovieStub) -> (Id, Seq<char>) {
    (m.id, m.name@)
}

/// Which column of the movies a search looks in.
#[derive(Clone, Copy, Debug, PartialEq, Eq, Structural)]
pub enum MovieColumn {
    Name,
    Actors,
}

pub open spec fn movie_texts(movies: Seq<crate::model::Movie>, column: MovieColumn) -> Seq<Option<Seq<char>>> {
    match column {
        MovieColumn::Name => names_of_movies(movies),
        MovieColumn::Actors => actors_of_movies(movies),
    }
}

impl Store {
    /// Page `page` of `per_page` movies, keeping those whose `column` contains
    /// `query`, compared in upper case.
    pub fn search_movies(
        &self,
        column: MovieColumn,
        query: &Option<String>,
        page: i32,
        per_page: i32,
    ) -> (r: Result<Vec<MovieStub>, StoreError>)
        ensures
            r is Ok <==> paging_valid(page, per_page),
            r matches Err(e) ==> e == StoreError::ValidationFailure,
            r matches Ok(v) ==> v@.map_values(|m: MovieStub| stub_row(m)) == page_of(
                passing(movie_texts(self.movies@, column), opt_view(*query)),
                page * per_page,
                per_page as int,
            ).map_values(|p: int| (self.movies@[p].id, self.movies@[p].name@)),
    {
        let mut texts: Vec<Option<String>> = Vec::new();
        let mut i: usize = 0;
        while i < self.movies.len()
            invariant
                i <= self.movies@.len(),
                texts@.map_values(|t: Option<String>| opt_view(t)) == movie_texts(
                    self.movies@,
                    column,
                ).subrange(0, i as int),
            decreases self.movies@.len() - i,
        {
            let ghost before = texts@;
            let text = match column {
                MovieColumn::Name => Some(self.movies[i].name.clone()),
                MovieColumn::Actors => crate::model::copy_text(&self.movies[i].actors),
            };
            texts.push(text);
            proof {
                assert(opt_view(text) == movie_texts(self.movies@, column)[i as int]);
                assert(texts@.map_values(|t: Option<String>| opt_view(t)) =~= before.map_values(
                    |t: Option<String>| opt_view(t),
                ).push(opt_view(text)));
            }
            i += 1;
            proof {
                assert(texts@.map_values(|t: Option<String>| opt_view(t)) =~= movie_texts(
                    self.movies@,
                    column,
                ).subrange(0, i as int));
            }
        }
        proof {
            assert(texts@.map_values(|t: Option<String>| opt_view(t)) =~= movie_texts(self.movies@, column));
        }
        let positions = match page_positions(&texts, query, page, per_page) {
            Ok(p) => p,
            Err(e) => return Err(e),
        };
        let ghost want = page_of(
            passing(movie_texts(self.movies@, column), opt_view(*query)),
            page * per_page,
            per_page as int,
        );
        let mut out: Vec<MovieStub> = Vec::new();
        let mut k: usize = 0;
        while k < positions.len()
            invariant
                k <= positions@.len(),
                texts@.len() == self.movies@.len(),
                positions@.map_values(|p: usize| p as int) == want,
                forall|q: int| 0 <= q < positions@.len() ==> (#[trigger] positions@[q]) < texts@.len(),
                out@.map_values(|m: MovieStub| stub_row(m)) == want.subrange(0, k as int).map_values(
                    |p: int| (self.movies@[p].id, self.movies@[p].name@),
                ),
            decreases positions@.len() - k,
        {
            let ghost before = out@;
            let p = positions[k];
            assert(positions@[k as int] < texts@.len());
            out.push(MovieStub { id: self.movies[p].id, name: self.movies[p].name.clone() });
            k += 1;
            proof {
                assert(want[k - 1] == p as int);
                assert(out@.map_values(|m: MovieStub| stub_row(m)) =~= before.map_values(|m: MovieStub| stub_row(m)).push(
                    (self.movies@[p as int].id, self.movies@[p as int].name@),
                ));
                assert(out@.map_values(|m: MovieStub| stub_row(m)) =~= want.subrange(0, k as int).map_values(
                    |p: int| (self.movies@[p].id, self.movies@[p].name@),
                ));
            }
        }
        proof {
            assert(want.subrange(0, k as int) =~= want);
        }
        Ok(out)
    }

    /// Page `page` of `per_page` persons, keeping those whose name contains `query`,
    /// compared in upper case.
    pub fn search_persons(&self, query: &Option<String>, page: i32, per_page: i32) -> (r: Result<
        Vec<Person>,
        StoreError,
    >)
        ensures
            r is Ok <==> paging_valid(page, per_page),
            r matches Err(e) ==> e == StoreError::ValidationFailure,
            r matches Ok(v) ==> v@ == page_of(
                passing(names_of_persons(self.persons@), opt_view(*query)),
                page * per_page,
                per_page as int,
            ).map_values(|p: int| self.persons@[p]),
    {
        let mut texts: Vec<Option<String>> = Vec::new();
        let mut i: usize = 0;
        while i < self.persons.len()
            invariant
                i <= self.persons@.len(),
                texts@.map_values(|t: Option<String>| opt_view(t)) == names_of_persons(
                    self.persons@,
                ).subrange(0, i as int),
            decreases self.persons@.len() - i,
        {
            let ghost before = texts@;
            let text = Some(self.persons[i].name.clone());
            texts.push(text);
            proof {
                assert(opt_view(text) == names_of_persons(self.persons@)[i as int]);
                assert(texts@.map_values(|t: Option<String>| opt_view(t)) =~= before.map_values(
                    |t: Option<String>| opt_view(t),
                ).push(opt_view(text)));
            }
            i += 1;
            proof {
                assert(texts@.map_values(|t: Option<String>| opt_view(t)) =~= names_of_persons(
                    self.persons@,
                ).subrange(0, i as int));
            }
        }
        proof {
            assert(texts@.map_values(|t: Option<String>| opt_view(t)) =~= names_of_persons(self.persons@));
        }
        let positions = match page_positions(&texts, query, page, per_page) {
            Ok(p) => p,
            Err(e) => return Err(e),
        };
        let ghost want = page_of(
            passing(names_of_persons(self.persons@), opt_view(*query)),
            page * per_page,
            per_page as int,
        );
        let mut out: Vec<Person> = Vec::new();
        let mut k: usize = 0;
        while k < positions.len()
            invariant
                k <= positions@.len(),
                texts@.len() == self.persons@.len(),
                positions@.map_values(|p: usize| p as int) == want,
                forall|q: int| 0 <= q < positions@.len() ==> (#[trigger] positions@[q]) < texts@.len(),
                out@ == want.subrange(0, k as int).map_values(|p: int| self.persons@[p]),
            decreases positions@.len() - k,
        {
            let p = positions[k];
            assert(positions@[k as int] < texts@.len());
            out.push(self.persons[p].copy());
            k += 1;
            proof {
                assert(want[k - 1] == p as int);
                assert(out@ =~= want.subrange(0, k as int).map_values(|p: int| self.persons@[p]));
            }
        }
        proof {
            assert(want.subrange(0, k as int) =~= want);
        }
        Ok(out)
    }
}

} // verus!
