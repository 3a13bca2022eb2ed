//! Stable ordering of rows by an integer key. Rows are represented by pairs of a
//! key and the row's position; equal keys keep the order of their positions.
use vstd::prelude::*;

verus! {

/// A key together with the position of the row it belongs to.
pub type Keyed = (i128, usize);

/// `s` with `x` placed before the first element whose key exceeds that of `x`.
pub open spec fn insert_sorted(s: Seq<Keyed>, x: Keyed) -> Seq<Keyed>
    decreases s.len(),
{
    if s.len() == 0 {
        seq![x]
    } else if x.0 < s[0].0 {
        seq![x] + s
    } else {
        seq![s[0]] + insert_sorted(s.drop_first(), x)
    }
}

/// The stable ordering of `s` by ascending key.
pub open spec fn sort_keys(s: Seq<Keyed>) -> Seq<Keyed>
    decreases s.len(),
{
    if s.len() == 0 {
        Seq::empty()
    } else {
        insert_sorted(sort_keys(s.drop_last()), s.last())
    }
}

pub open spec fn ascending(s: Seq<Keyed>) -> bool {
    forall|i: int, j: int| 0 <= i < j < s.len() ==> (#[trigger] s[i]).0 <= (#[trigger] s[j]).0
}

proof fn lemma_insert_at(s: Seq<Keyed>, x: Keyed, p: int)
    requires
        0 <= p <= s.len(),
        forall|q: int| 0 <= q < p ==> (#[trigger] s[q]).0 <= x.0,
        p < s.len() ==> x.0 < s[p].0,
    ensures
        insert_sorted(s, x) == s.insert(p, x),
    decreases p,
{
    if p == 0 {
        assert(insert_sorted(s, x) =~= s.insert(0, x));
    } else {
        assert(s[0].0 <= x.0);
        let t = s.drop_first();
        assert forall|q: int| 0 <= q < p - 1 implies (#[trigger] t[q]).0 <= x.0 by {
            assert(t[q] == s[q + 1]);
        }
        lemma_insert_at(t, x, p - 1);
        assert(insert_sorted(s, x) =~= s.insert(p, x));
    }
}

proof fn lemma_insert_ascending(s: Seq<Keyed>, x: Keyed)
    requires
        ascending(s),
    ensures
        ascending(insert_sorted(s, x)),
        insert_sorted(s, x).to_multiset() == s.to_multiset().insert(x),
    decreases s.len(),
{
    if s.len() == 0 {
        assert(insert_sorted(s, x) =~= seq![x]);
        assert(seq![x] == Seq::<Keyed>::empty().push(x));
        Seq::<Keyed>::empty().to_multiset_ensures();
        Seq::<Keyed>::empty().push(x).to_multiset_ensures();
        assert(s =~= Seq::<Keyed>::empty());
    } else if x.0 < s[0].0 {
        lemma_insert_at(s, x, 0);
        broadcast use vstd::seq_lib::group_to_multiset_ensures;
        s.insert(0, x).to_multiset_ensures();
        let r = s.insert(0, x);
        assert forall|i: int, j: int| 0 <= i < j < r.len() implies (#[trigger] r[i]).0 <= (
        #[trigger] r[j]).0 by {
            if i > 0 {
                assert(r[i] == s[i - 1]);
            }
            assert(r[j] == s[j - 1]);
        }
        vstd::seq_lib::lemma_multiset_commutative(seq![x], s);
        assert(r =~= seq![x] + s);
        assert(seq![x] =~= Seq::<Keyed>::empty().push(x));
        Seq::<Keyed>::empty().push(x).to_multiset_ensures();
        Seq::<Keyed>::empty().to_multiset_ensures();
        assert(s.to_multiset().insert(x) =~= seq![x].to_multiset().add(s.to_multiset()));
    } else {
        let t = s.drop_first();
        assert forall|i: int, j: int| 0 <= i < j < t.len() implies (#[trigger] t[i]).0 <= (
        #[trigger] t[j]).0 by {
            assert(t[i] == s[i + 1] && t[j] == s[j + 1]);
        }
        lemma_insert_ascending(t, x);
        let it = insert_sorted(t, x);
        let r = insert_sorted(s, x);
        assert(r == seq![s[0]] + it);
        assert forall|i: int| 0 <= i < it.len() implies s[0].0 <= (#[trigger] it[i]).0 by {
            it.to_multiset_ensures();
            t.to_multiset_ensures();
            assert(it.to_multiset().count(it[i]) > 0);
            assert(t.to_multiset().insert(x).count(it[i]) > 0);
            if it[i] != x {
                assert(t.contains(it[i]));
                let q = choose|q: int| 0 <= q < t.len() && t[q] == it[i];
                assert(t[q] == s[q + 1]);
            }
        }
        assert forall|i: int, j: int| 0 <= i < j < r.len() implies (#[trigger] r[i]).0 <= (
        #[trigger] r[j]).0 by {
            assert(r[j] == it[j - 1]);
            if i > 0 {
                assert(r[i] == it[i - 1]);
            }
        }
        vstd::seq_lib::lemma_multiset_commutative(seq![s[0]], it);
        vstd::seq_lib::lemma_multiset_commutative(seq![s[0]], t);
        assert(seq![s[0]] + t =~= s);
    }
}

/// The stable ordering of a sequence by key is ascending and holds the same pairs.
pub proof fn lemma_sort_keys(s: Seq<Keyed>)
    ensures
        ascending(sort_keys(s)),
        sort_keys(s).to_multiset() == s.to_multiset(),
    decreases s.len(),
{
    if s.len() == 0 {
        assert(ascending(sort_keys(s)));
        assert(s =~= Seq::<Keyed>::empty());
    } else {
        lemma_sort_keys(s.drop_last());
        lemma_insert_ascending(sort_keys(s.drop_last()), s.last());
        broadcast use vstd::seq_lib::group_to_multiset_ensures;
        assert(s.drop_last().push(s.last()) =~= s);
        s.drop_last().to_multiset_ensures();
    }
}

/// The pairs of `keys` in stable ascending order of their keys.
pub fn sort_by_key(keys: &Vec<Keyed>) -> (r: Vec<Keyed>)
    ensures
        r@ == sort_keys(keys@),
        ascending(r@),
        r@.to_multiset() == keys@.to_multiset(),
{
    let mut out: Vec<Keyed> = Vec::new();
    let mut i: usize = 0;
    while i < keys.len()
        invariant
            i <= keys@.len(),
            out@ == sort_keys(keys@.subrange(0, i as int)),
        decreases keys@.len() - i,
    {
        let x = keys[i];
        let mut p: usize = 0;
        while p < out.len() && out[p].0 <= x.0
            invariant
                p <= out@.len(),
                forall|q: int| 0 <= q < p ==> (#[trigger] out@[q]).0 <= x.0,
            decreases out@.len() - p,
        {
            p += 1;
        }
        proof {
            lemma_insert_at(out@, x, p as int);
            assert(keys@.subrange(0, i + 1).drop_last() =~= keys@.subrange(0, i as int));
        }
        out.insert(p, x);
        i += 1;
    }
    proof {
        assert(keys@.subrange(0, i as int) =~= keys@);
        lemma_sort_keys(keys@);
    }
    out
}

/// The first `n` rows of `rows` in the order that `keys` sort into.
pub open spec fn ordered_prefix<R>(rows: Seq<R>, keys: Seq<Keyed>, n: int) -> Seq<R> {
    let order = sort_keys(keys);
    Seq::new(if n < rows.len() { n as nat } else { rows.len() }, |i: int| rows[order[i].1 as int])
}

/// Each sorted pair names a position among the rows the keys were made for.
proof fn lemma_sorted_positions(keys: Seq<Keyed>)
    requires
        forall|i: int| 0 <= i < keys.len() ==> (#[trigger] keys[i]).1 == i,
    ensures
        sort_keys(keys).len() == keys.len(),
        forall|i: int| 0 <= i < keys.len() ==> (#[trigger] sort_keys(keys)[i]).1 < keys.len(),
{
    broadcast use vstd::seq_lib::group_to_multiset_ensures;
    lemma_sort_keys(keys);
    let o = sort_keys(keys);
    o.to_multiset_ensures();
    keys.to_multiset_ensures();
    assert(o.len() == keys.len());
    assert forall|i: int| 0 <= i < keys.len() implies (#[trigger] sort_keys(keys)[i]).1 < keys.len() by {
        assert(o.contains(o[i]));
        assert(o.to_multiset().count(o[i]) > 0);
        assert(keys.contains(o[i]));
        let q = choose|q: int| 0 <= q < keys.len() && keys[q] == o[i];
    }
}

/// A copy of a value that equals it.
pub trait Duplicate: Sized {
    fn duplicate(&self) -> (r: Self)
        ensures
            r == *self,
    ;
}

/// The first `n` of `rows` in the stable order of their `keys`, where the key of
/// each row names the row's own position.
pub fn rows_in_order<T: Duplicate>(rows: &Vec<T>, keys: &Vec<Keyed>, n: usize) -> (r: Vec<T>)
    requires
        keys@.len() == rows@.len(),
        forall|i: int| 0 <= i < keys@.len() ==> (#[trigger] keys@[i]).1 == i,
    ensures
        r@ == ordered_prefix(rows@, keys@, n as int),
        forall|i: int| 0 <= i < keys@.len() ==> (#[trigger] sort_keys(keys@)[i]).1 < keys@.len(),
{
    proof {
        lemma_sorted_positions(keys@);
    }
    let order = sort_by_key(keys);
    let m = if n < rows.len() { n } else { rows.len() };
    let mut out: Vec<T> = Vec::new();
    let mut i: usize = 0;
    while i < m
        invariant
            i <= m,
            m <= rows@.len(),
            m == ordered_prefix(rows@, keys@, n as int).len(),
            order@ == sort_keys(keys@),
            order@.len() == keys@.len(),
            keys@.len() == rows@.len(),
            forall|q: int| 0 <= q < keys@.len() ==> (#[trigger] sort_keys(keys@)[q]).1 < keys@.len(),
            out@ == ordered_prefix(rows@, keys@, n as int).subrange(0, i as int),
        decreases m - i,
    {
        let q = order[i].1;
        assert(order@[i as int].1 < keys@.len());
        out.push(rows[q].duplicate());
        i += 1;
        proof {
            assert(out@ =~= ordered_prefix(rows@, keys@, n as int).subrange(0, i as int));
        }
    }
    proof {
        assert(out@ =~= ordered_prefix(rows@, keys@, n as int));
    }
    out
}

} // verus!
