//! Stable ordering by a numeric rank, largest first.

use vstd::prelude::*;

verus! {

/// Values that are ordered by an integer rank.
pub trait Ranked: View + Sized {
    /// The rank of a value, given by its view.
    spec fn rank_of(v: Self::V) -> int;

    /// The rank of `self`.
    fn rank(&self) -> (r: i128)
        ensures
            r as int == Self::rank_of(self@),
    ;
}

/// The rank function of `T`, on views.
pub open spec fn rank_key<T: Ranked>() -> spec_fn(T::V) -> int {
    |v: T::V| T::rank_of(v)
}

/// The views of the elements of `s`.
pub open spec fn views<T: View>(s: Seq<T>) -> Seq<T::V> {
    s.map_values(|e: T| e@)
}

/// `x` placed into `s` after every element whose rank is at least its own.
pub open spec fn insert_by_rank<V>(s: Seq<V>, x: V, key: spec_fn(V) -> int) -> Seq<V>
    decreases s.len(),
{
    if s.len() == 0 {
        seq![x]
    } else if key(s[0]) >= key(x) {
        seq![s[0]] + insert_by_rank(s.drop_first(), x, key)
    } else {
        seq![x] + s
    }
}

/// `s` ordered by rank, largest first; elements of equal rank keep their
/// order in `s` (what a stable sort by descending rank gives).
pub open spec fn sort_by_rank_desc<V>(s: Seq<V>, key: spec_fn(V) -> int) -> Seq<V>
    decreases s.len(),
{
    if s.len() == 0 {
        seq![]
    } else {
        insert_by_rank(sort_by_rank_desc(s.drop_last(), key), s.last(), key)
    }
}

/// Ranks never increase along `s`.
pub open spec fn ranks_descending<V>(s: Seq<V>, key: spec_fn(V) -> int) -> bool {
    forall|i: int, j: int| 0 <= i < j < s.len() ==> key(s[i]) >= key(s[j])
}

/// The elements of `s` of rank `k`, in order.
pub open spec fn of_rank<V>(s: Seq<V>, key: spec_fn(V) -> int, k: int) -> Seq<V>
    decreases s.len(),
{
    if s.len() == 0 {
        seq![]
    } else if key(s.last()) == k {
        of_rank(s.drop_last(), key, k).push(s.last())
    } else {
        of_rank(s.drop_last(), key, k)
    }
}

proof fn lemma_insert_at<V>(s: Seq<V>, x: V, key: spec_fn(V) -> int, j: int)
    requires
        0 <= j <= s.len(),
        forall|k: int| 0 <= k < j ==> key(#[trigger] s[k]) >= key(x),
        j < s.len() ==> key(s[j]) < key(x),
    ensures
        insert_by_rank(s, x, key) == s.insert(j, x),
    decreases j,
{
    if j == 0 {
        if s.len() == 0 {
            assert(s.insert(0, x) == seq![x]);
        } else {
            assert(s.insert(0, x) == seq![x] + s);
        }
    } else {
        let t = s.drop_first();
        assert forall|k: int| 0 <= k < j - 1 implies key(#[trigger] t[k]) >= key(x) by {
            assert(t[k] == s[k + 1]);
        }
        lemma_insert_at(t, x, key, j - 1);
        assert(s.insert(j, x) == seq![s[0]] + t.insert(j - 1, x));
    }
}

proof fn lemma_insert_len<V>(s: Seq<V>, x: V, key: spec_fn(V) -> int)
    ensures
        insert_by_rank(s, x, key).len() == s.len() + 1,
    decreases s.len(),
{
    if s.len() > 0 && key(s[0]) >= key(x) {
        lemma_insert_len(s.drop_first(), x, key);
    }
}

/// The sorted sequence has as many elements as the input.
pub proof fn lemma_sort_len<V>(s: Seq<V>, key: spec_fn(V) -> int)
    ensures
        sort_by_rank_desc(s, key).len() == s.len(),
    decreases s.len(),
{
    if s.len() > 0 {
        lemma_sort_len(s.drop_last(), key);
        lemma_insert_len(sort_by_rank_desc(s.drop_last(), key), s.last(), key);
    }
}

/// Sorts `v` by rank, largest first, keeping the order of equal ranks.
pub fn sort_desc<T: Ranked>(v: Vec<T>) -> (r: Vec<T>)
    ensures
        views(r@) == sort_by_rank_desc(views(v@), rank_key::<T>()),
{
    let ghost orig = v@;
    let ghost key = rank_key::<T>();
    let mut input = v;
    let mut out: Vec<T> = Vec::new();
    let ghost mut i: int = 0;
    assert(views(orig).take(0) == Seq::<T::V>::empty());
    while input.len() > 0
        invariant
            0 <= i <= orig.len(),
            key == rank_key::<T>(),
            input@ == orig.skip(i),
            views(out@) == sort_by_rank_desc(views(orig).take(i), key),
            ranks_descending(views(out@), key),
        decreases input.len(),
    {
        let x = input.remove(0);
        let xr = x.rank();
        let mut j: usize = 0;
        while j < out.len() && out[j].rank() >= xr
            invariant
                j <= out.len(),
                xr as int == T::rank_of(x@),
                key == rank_key::<T>(),
                forall|k: int| 0 <= k < j ==> key(#[trigger] views(out@)[k]) >= key(x@),
            decreases out.len() - j,
        {
            assert(views(out@)[j as int] == out@[j as int]@);
            j = j + 1;
        }
        proof {
            if j < out.len() {
                assert(views(out@)[j as int] == out@[j as int]@);
                assert(key(views(out@)[j as int]) < key(x@));
            }
            assert(x == orig[i]);
            let sv = views(out@);
            lemma_insert_at(sv, x@, key, j as int);
            assert(views(orig).take(i + 1).drop_last() == views(orig).take(i));
            assert(views(orig).take(i + 1).last() == x@);
            assert(orig.skip(i).drop_first() == orig.skip(i + 1));
        }
        let ghost before = out@;
        out.insert(j, x);
        proof {
            assert(views(out@) == views(before).insert(j as int, x@));
            i = i + 1;
            let nv = views(out@);
            assert forall|a: int, b: int| 0 <= a < b < nv.len() implies key(nv[a]) >= key(nv[b]) by {
                let sv = views(before);
                if a < j && b < j {
                    assert(nv[a] == sv[a] && nv[b] == sv[b]);
                } else if a < j && b == j {
                    assert(nv[a] == sv[a]);
                } else if a < j {
                    assert(nv[a] == sv[a] && nv[b] == sv[b - 1]);
                } else if a == j {
                    assert(nv[b] == sv[b - 1]);
                    assert(key(sv[j as int]) < key(x@));
                    assert(key(sv[j as int]) >= key(sv[b - 1]));
                } else {
                    assert(nv[a] == sv[a - 1] && nv[b] == sv[b - 1]);
                }
            }
        }
    }
    assert(orig.skip(i).len() == 0);
    assert(views(orig).take(i) == views(orig));
    out
}


/// The index where `insert_by_rank` places `x`: the first element of lower rank.
pub open spec fn first_below<V>(s: Seq<V>, x: V, key: spec_fn(V) -> int) -> int
    decreases s.len(),
{
    if s.len() == 0 || key(s[0]) < key(x) {
        0
    } else {
        1 + first_below(s.drop_first(), x, key)
    }
}

proof fn lemma_first_below<V>(s: Seq<V>, x: V, key: spec_fn(V) -> int)
    ensures
        0 <= first_below(s, x, key) <= s.len(),
        forall|k: int| 0 <= k < first_below(s, x, key) ==> key(#[trigger] s[k]) >= key(x),
        first_below(s, x, key) < s.len() ==> key(s[first_below(s, x, key)]) < key(x),
    decreases s.len(),
{
    if s.len() > 0 && key(s[0]) >= key(x) {
        let t = s.drop_first();
        lemma_first_below(t, x, key);
        assert forall|k: int| 0 <= k < first_below(s, x, key) implies key(#[trigger] s[k]) >= key(x) by {
            if k > 0 {
                assert(s[k] == t[k - 1]);
            }
        }
    }
}

proof fn lemma_of_rank_concat<V>(a: Seq<V>, b: Seq<V>, key: spec_fn(V) -> int, k: int)
    ensures
        of_rank(a + b, key, k) == of_rank(a, key, k) + of_rank(b, key, k),
    decreases b.len(),
{
    if b.len() == 0 {
        assert(a + b == a);
    } else {
        lemma_of_rank_concat(a, b.drop_last(), key, k);
        assert((a + b).drop_last() == a + b.drop_last());
    }
}

proof fn lemma_of_rank_none<V>(s: Seq<V>, key: spec_fn(V) -> int, k: int)
    requires
        forall|i: int| 0 <= i < s.len() ==> key(#[trigger] s[i]) != k,
    ensures
        of_rank(s, key, k) == Seq::<V>::empty(),
    decreases s.len(),
{
    if s.len() > 0 {
        lemma_of_rank_none(s.drop_last(), key, k);
    }
}

proof fn lemma_insert_of_rank<V>(s: Seq<V>, x: V, key: spec_fn(V) -> int, k: int)
    requires
        ranks_descending(s, key),
    ensures
        of_rank(insert_by_rank(s, x, key), key, k)
            == if key(x) == k { of_rank(s, key, k).push(x) } else { of_rank(s, key, k) },
{
    let j = first_below(s, x, key);
    lemma_first_below(s, x, key);
    lemma_insert_at(s, x, key, j);
    let a = s.take(j);
    let b = s.skip(j);
    assert(s == a + b);
    assert(s.insert(j, x) == a + seq![x] + b);
    lemma_of_rank_concat(a + seq![x], b, key, k);
    lemma_of_rank_concat(a, seq![x], key, k);
    lemma_of_rank_concat(a, b, key, k);
    assert(seq![x].drop_last() == Seq::<V>::empty());
    assert(seq![x].last() == x);
    assert(of_rank(Seq::<V>::empty(), key, k) == Seq::<V>::empty());
    assert(of_rank(seq![x], key, k) == if key(x) == k { seq![x] } else { Seq::<V>::empty() });
    if key(x) == k {
        assert forall|i: int| 0 <= i < b.len() implies key(#[trigger] b[i]) != k by {
            assert(b[i] == s[j + i]);
            assert(key(s[j]) >= key(s[j + i]));
        }
        lemma_of_rank_none(b, key, k);
        assert(of_rank(s, key, k) == of_rank(a, key, k));
        assert(of_rank(a, key, k) + seq![x] + Seq::<V>::empty() == of_rank(a, key, k).push(x));
    } else {
        assert(of_rank(a, key, k) + Seq::<V>::empty() == of_rank(a, key, k));
    }
}

proof fn lemma_insert_head<V>(s: Seq<V>, x: V, key: spec_fn(V) -> int)
    ensures
        insert_by_rank(s, x, key).len() > 0,
        insert_by_rank(s, x, key)[0] == x || (s.len() > 0 && insert_by_rank(s, x, key)[0] == s[0]),
{
    lemma_insert_len(s, x, key);
}

proof fn lemma_insert_descending<V>(s: Seq<V>, x: V, key: spec_fn(V) -> int)
    requires
        ranks_descending(s, key),
    ensures
        ranks_descending(insert_by_rank(s, x, key), key),
    decreases s.len(),
{
    if s.len() > 0 && key(s[0]) >= key(x) {
        let t = s.drop_first();
        assert(ranks_descending(t, key)) by {
            assert forall|i: int, j: int| 0 <= i < j < t.len() implies key(t[i]) >= key(t[j]) by {
                assert(t[i] == s[i + 1] && t[j] == s[j + 1]);
            }
        }
        lemma_insert_descending(t, x, key);
        let u = insert_by_rank(t, x, key);
        lemma_insert_head(t, x, key);
        if t.len() > 0 {
            assert(key(s[0]) >= key(s[1]));
        }
        let r = insert_by_rank(s, x, key);
        assert(r == seq![s[0]] + u);
        assert forall|i: int, j: int| 0 <= i < j < r.len() implies key(r[i]) >= key(r[j]) by {
            assert(r[j] == u[j - 1]);
            if i == 0 {
                assert(key(u[0]) >= key(u[j - 1]) || j - 1 == 0);
            } else {
                assert(r[i] == u[i - 1]);
            }
        }
    }
}

/// The sorted sequence is ordered by rank, largest first.
pub proof fn lemma_sort_descending<V>(s: Seq<V>, key: spec_fn(V) -> int)
    ensures
        ranks_descending(sort_by_rank_desc(s, key), key),
    decreases s.len(),
{
    if s.len() > 0 {
        lemma_sort_descending(s.drop_last(), key);
        lemma_insert_descending(sort_by_rank_desc(s.drop_last(), key), s.last(), key);
    }
}

/// Sorting keeps, for every rank, exactly the elements of that rank in their
/// order in the input: nothing is lost or added, and equal ranks stay in order.
pub proof fn lemma_sort_stable<V>(s: Seq<V>, key: spec_fn(V) -> int, k: int)
    ensures
        of_rank(sort_by_rank_desc(s, key), key, k) == of_rank(s, key, k),
    decreases s.len(),
{
    if s.len() > 0 {
        lemma_sort_stable(s.drop_last(), key, k);
        lemma_sort_descending(s.drop_last(), key);
        lemma_insert_of_rank(sort_by_rank_desc(s.drop_last(), key), s.last(), key, k);
    }
}

} // verus!
