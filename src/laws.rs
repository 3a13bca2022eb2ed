//! Properties that relate several operations of the store, stated over the spec
//! functions that the operations' contracts use.
use vstd::prelude::*;
use crate::model::{Id, Rating, WatchlistEntry};
use crate::stats::{
    mean_opt, night_shows, rating_in_scope, scope_values, sum, values_where, Scope,
};
use crate::store::{has_movie, Store};
use crate::watchlist::{count_at, max_index, next_index, without_index};

verus! {

/// Selecting by predicates that agree on every rating selects the same values.
proof fn lemma_values_where_agree(
    rs: Seq<Rating>,
    a: spec_fn(Rating) -> bool,
    b: spec_fn(Rating) -> bool,
)
    requires
        forall|r: Rating| #[trigger] a(r) == b(r),
    ensures
        values_where(rs, a) == values_where(rs, b),
    decreases rs.len(),
{
    if rs.len() > 0 {
        lemma_values_where_agree(rs.drop_last(), a, b);
    }
}

/// Selecting from ratings none of which is kept selects nothing.
proof fn lemma_values_where_none(rs: Seq<Rating>, keep: spec_fn(Rating) -> bool)
    requires
        forall|i: int| 0 <= i < rs.len() ==> !keep(#[trigger] rs[i]),
    ensures
        values_where(rs, keep).len() == 0,
    decreases rs.len(),
{
    if rs.len() > 0 {
        let d = rs.drop_last();
        assert forall|i: int| 0 <= i < d.len() implies !keep(#[trigger] d[i]) by {
            assert(d[i] == rs[i]);
        }
        lemma_values_where_none(d, keep);
        assert(!keep(rs[rs.len() - 1]));
    }
}

/// A rating recorded for an existing view counts towards every scope that holds
/// the view: the scope's values gain exactly the rating's value, at the end.
pub proof fn lemma_rating_counts(s: Store, t: Store, rating: Rating, scope: Scope)
    requires
        t.ratings@ == s.ratings@.push(rating),
        t.same_except_ratings(s),
        rating_in_scope(s, rating, scope),
    ensures
        scope_values(t, scope) == scope_values(s, scope).push(rating.value),
        sum(scope_values(t, scope)) == sum(scope_values(s, scope)) + rating.value,
        scope_values(t, scope).len() == scope_values(s, scope).len() + 1,
{
    let ks = |r: Rating| rating_in_scope(s, r, scope);
    let kt = |r: Rating| rating_in_scope(t, r, scope);
    assert forall|r: Rating| #[trigger] kt(r) == ks(r) by {
        assert(t.views@ == s.views@ && t.nights@ == s.nights@);
    }
    assert(t.ratings@.drop_last() =~= s.ratings@);
    lemma_values_where_agree(s.ratings@, kt, ks);
    let v = scope_values(s, scope).push(rating.value);
    assert(v.drop_last() =~= scope_values(s, scope));
}

/// A rating recorded for a view of a night counts towards that night and towards
/// the movie the night showed.
pub proof fn lemma_rating_reaches_night_and_movie(
    s: Store,
    t: Store,
    rating: Rating,
    k: int,
    movie: Id,
)
    requires
        t.ratings@ == s.ratings@.push(rating),
        t.same_except_ratings(s),
        0 <= k < s.views@.len(),
        s.views@[k].id == rating.view,
        night_shows(s.nights@, s.views@[k].night, movie),
    ensures
        scope_values(t, Scope::Night(s.views@[k].night)) == scope_values(
            s,
            Scope::Night(s.views@[k].night),
        ).push(rating.value),
        scope_values(t, Scope::Movie(movie)) == scope_values(s, Scope::Movie(movie)).push(
            rating.value,
        ),
{
    assert(rating_in_scope(s, rating, Scope::Night(s.views@[k].night)));
    assert(rating_in_scope(s, rating, Scope::Movie(movie)));
    lemma_rating_counts(s, t, rating, Scope::Night(s.views@[k].night));
    lemma_rating_counts(s, t, rating, Scope::Movie(movie));
}

/// Two ratings recorded for one view both count: the scope's values gain both, so
/// the mean is taken over both and not over the latest alone.
pub proof fn lemma_two_ratings_both_count(
    s: Store,
    t: Store,
    u: Store,
    first: Rating,
    second: Rating,
    scope: Scope,
)
    requires
        t.ratings@ == s.ratings@.push(first),
        t.same_except_ratings(s),
        u.ratings@ == t.ratings@.push(second),
        u.same_except_ratings(t),
        first.view == second.view,
        rating_in_scope(s, first, scope),
    ensures
        scope_values(u, scope) == scope_values(s, scope).push(first.value).push(second.value),
        mean_opt(scope_values(u, scope)) matches Some(m) && m.total == (sum(scope_values(s, scope))
            + first.value + second.value) as u128 && m.count == (scope_values(s, scope).len()
            + 2) as u64,
{
    lemma_rating_counts(s, t, first, scope);
    assert(rating_in_scope(t, second, scope)) by {
        let k = choose|k: int|
            0 <= k < s.views@.len() && (#[trigger] s.views@[k]).id == first.view && crate::stats::view_in_scope(
                s.nights@,
                s.views@[k],
                scope,
            );
        assert(t.views@[k] == s.views@[k]);
    }
    lemma_rating_counts(t, u, second, scope);
}

/// A movie none of whose nights has a rating has no mean: it is absent, not zero.
pub proof fn lemma_unrated_movie_has_no_mean(s: Store, movie: Id)
    requires
        has_movie(s.movies@, movie),
        forall|i: int| 0 <= i < s.ratings@.len() ==> !rating_in_scope(s, #[trigger] s.ratings@[i], Scope::Movie(movie)),
    ensures
        scope_values(s, Scope::Movie(movie)).len() == 0,
        mean_opt(scope_values(s, Scope::Movie(movie))) is None,
{
    let keep = |r: Rating| rating_in_scope(s, r, Scope::Movie(movie));
    assert forall|i: int| 0 <= i < s.ratings@.len() implies !keep(#[trigger] s.ratings@[i]) by {}
    lemma_values_where_none(s.ratings@, keep);
}

proof fn lemma_max_index_append(entries: Seq<WatchlistEntry>, more: Seq<WatchlistEntry>, watchlist: Id)
    requires
        max_index(entries, watchlist) == Some(0int),
        forall|j: int| 0 <= j < more.len() && (#[trigger] more[j]).watchlist == watchlist ==> more[j].idx <= 0,
    ensures
        max_index(entries + more, watchlist) == Some(0int),
    decreases more.len(),
{
    if more.len() == 0 {
        assert(entries + more =~= entries);
    } else {
        let d = more.drop_last();
        assert forall|j: int| 0 <= j < d.len() && (#[trigger] d[j]).watchlist == watchlist implies d[j].idx <= 0 by {
            assert(d[j] == more[j]);
        }
        lemma_max_index_append(entries, d, watchlist);
        assert((entries + more).drop_last() =~= entries + d);
        assert(more[more.len() - 1].watchlist == watchlist ==> more[more.len() - 1].idx <= 0);
    }
}

/// On a watchlist without entries, adding without an index yields 0, and the next
/// such add yields 1, whatever entries of other watchlists, or of this one at
/// indices not above 0, were added in between.
pub proof fn lemma_auto_index_from_zero(
    entries: Seq<WatchlistEntry>,
    watchlist: Id,
    movie: Id,
    between: Seq<WatchlistEntry>,
)
    requires
        forall|i: int| 0 <= i < entries.len() ==> (#[trigger] entries[i]).watchlist != watchlist,
        forall|j: int|
            0 <= j < between.len() && (#[trigger] between[j]).watchlist == watchlist ==> between[j].idx
                <= 0,
    ensures
        next_index(entries, watchlist) == 0,
        next_index(
            entries.push(WatchlistEntry { watchlist, movie, idx: 0 }) + between,
            watchlist,
        ) == 1,
{
    lemma_no_entries_no_max(entries, watchlist);
    let first = entries.push(WatchlistEntry { watchlist, movie, idx: 0 });
    assert(first.drop_last() =~= entries);
    lemma_max_index_append(first, between, watchlist);
}

proof fn lemma_no_entries_no_max(entries: Seq<WatchlistEntry>, watchlist: Id)
    requires
        forall|i: int| 0 <= i < entries.len() ==> (#[trigger] entries[i]).watchlist != watchlist,
    ensures
        max_index(entries, watchlist) is None,
    decreases entries.len(),
{
    if entries.len() > 0 {
        let d = entries.drop_last();
        assert forall|i: int| 0 <= i < d.len() implies (#[trigger] d[i]).watchlist != watchlist by {
            assert(d[i] == entries[i]);
        }
        lemma_no_entries_no_max(d, watchlist);
        assert(entries[entries.len() - 1].watchlist != watchlist);
    }
}

/// Removing by index drops exactly the entries at that index of that watchlist
/// and keeps every other entry.
pub proof fn lemma_removal_is_specific(entries: Seq<WatchlistEntry>, watchlist: Id, idx: i32)
    ensures
        without_index(entries, watchlist, idx).len() + count_at(entries, watchlist, idx)
            == entries.len(),
        forall|x: WatchlistEntry|
            without_index(entries, watchlist, idx).contains(x) <==> (entries.contains(x) && !(
            x.watchlist == watchlist && x.idx == idx)),
    decreases entries.len(),
{
    if entries.len() > 0 {
        let d = entries.drop_last();
        lemma_removal_is_specific(d, watchlist, idx);
        let r = without_index(entries, watchlist, idx);
        let p = without_index(d, watchlist, idx);
        let e = entries.last();
        assert forall|x: WatchlistEntry|
            r.contains(x) <==> (entries.contains(x) && !(x.watchlist == watchlist && x.idx
                == idx)) by {
            if r.contains(x) {
                let q = choose|q: int| 0 <= q < r.len() && r[q] == x;
                if q < p.len() {
                    assert(p[q] == x);
                    assert(p.contains(x));
                    assert(d.contains(x));
                    let w = choose|w: int| 0 <= w < d.len() && d[w] == x;
                    assert(entries[w] == x);
                } else {
                    assert(entries[entries.len() - 1] == x);
                }
            }
            if entries.contains(x) && !(x.watchlist == watchlist && x.idx == idx) {
                let w = choose|w: int| 0 <= w < entries.len() && entries[w] == x;
                if w < d.len() {
                    assert(d[w] == x);
                    assert(d.contains(x));
                    let q = choose|q: int| 0 <= q < p.len() && p[q] == x;
                    if !(e.watchlist == watchlist && e.idx == idx) {
                        assert(r[q] == x);
                    }
                } else {
                    assert(r[r.len() - 1] == x);
                }
            }
        }
    }
}

} // verus!
