//! Stable sorting by a timestamp, newest first (what
//! `sort_by_key(|x| Reverse(stamp(x)))` does).

use vstd::prelude::*;

verus! {

/// Values ordered by a timestamp.
pub trait Stamped: View + Sized {
    spec fn stamp_of(v: Self::V) -> int;

    fn stamp(&self) -> (r: u64)
        ensures
            r as int == Self::stamp_of(self@),
    ;
}

pub open spec fn views<T: View>(s: Seq<T>) -> Seq<T::V> {
    s.map_values(|x: T| x@)
}

pub open spec fn stamp_key<T: Stamped>() -> spec_fn(T::V) -> int {
    |w: T::V| T::stamp_of(w)
}

/// Where a value with key `k` goes in `sorted` (non-increasing keys): after
/// every element whose key is at least `k`.
pub open spec fn split_desc<V>(sorted: Seq<V>, k: int, key: spec_fn(V) -> int) -> int
    decreases sorted.len(),
{
    if sorted.len() == 0 {
        0
    } else if key(sorted.last()) >= k {
        sorted.len() as int
    } else {
        split_desc(sorted.drop_last(), k, key)
    }
}

/// `s` sorted by non-increasing key; elements with equal keys keep their
/// order in `s`.
pub open spec fn sort_desc<V>(s: Seq<V>, key: spec_fn(V) -> int) -> Seq<V>
    decreases s.len(),
{
    if s.len() == 0 {
        s
    } else {
        let t = sort_desc(s.drop_last(), key);
        t.insert(split_desc(t, key(s.last()), key), s.last())
    }
}

pub open spec fn is_sorted_desc<V>(s: Seq<V>, key: spec_fn(V) -> int) -> bool {
    forall|i: int, j: int| 0 <= i < j < s.len() ==> key(#[trigger] s[i]) >= key(#[trigger] s[j])
}

proof fn lemma_split_desc_bounds<V>(sorted: Seq<V>, k: int, key: spec_fn(V) -> int)
    requires
        is_sorted_desc(sorted, key),
    ensures
        0 <= split_desc(sorted, k, key) <= sorted.len(),
        forall|i: int| 0 <= i < split_desc(sorted, k, key) ==> key(#[trigger] sorted[i]) >= k,
        forall|i: int| split_desc(sorted, k, key) <= i < sorted.len() ==> key(#[trigger] sorted[i]) < k,
    decreases sorted.len(),
{
    if sorted.len() > 0 {
        if key(sorted.last()) >= k {
            assert forall|i: int| 0 <= i < sorted.len() implies key(#[trigger] sorted[i]) >= k by {
                if i < sorted.len() - 1 {
                    assert(key(sorted[i]) >= key(sorted[sorted.len() - 1]));
                }
            }
        } else {
            let d = sorted.drop_last();
            assert(is_sorted_desc(d, key)) by {
                assert forall|i: int, j: int| 0 <= i < j < d.len() implies key(#[trigger] d[i]) >= key(
                    #[trigger] d[j],
                ) by {
                    assert(d[i] == sorted[i] && d[j] == sorted[j]);
                }
            }
            lemma_split_desc_bounds(d, k, key);
            assert forall|i: int| split_desc(sorted, k, key) <= i < sorted.len() implies key(
                #[trigger] sorted[i],
            ) < k by {
                if i < sorted.len() - 1 {
                    assert(sorted[i] == d[i]);
                }
            }
            assert forall|i: int| 0 <= i < split_desc(sorted, k, key) implies key(
                #[trigger] sorted[i],
            ) >= k by {
                assert(sorted[i] == d[i]);
            }
        }
    }
}

/// Law: the result of `sort_desc` is sorted newest first and is a
/// permutation of its input.
pub proof fn lemma_sort_desc<V>(s: Seq<V>, key: spec_fn(V) -> int)
    ensures
        is_sorted_desc(sort_desc(s, key), key),
        sort_desc(s, key).to_multiset() == s.to_multiset(),
        sort_desc(s, key).len() == s.len(),
    decreases s.len(),
{
    broadcast use vstd::multiset::group_multiset_axioms, vstd::seq_lib::group_to_multiset_ensures;

    if s.len() > 0 {
        let d = s.drop_last();
        let x = s.last();
        lemma_sort_desc(d, key);
        let t = sort_desc(d, key);
        let p = split_desc(t, key(x), key);
        lemma_split_desc_bounds(t, key(x), key);
        let r = t.insert(p, x);
        assert forall|i: int, j: int| 0 <= i < j < r.len() implies key(#[trigger] r[i]) >= key(
            #[trigger] r[j],
        ) by {
            let ii = if i < p { i } else if i == p { -1 } else { i - 1 };
            let jj = if j < p { j } else if j == p { -1 } else { j - 1 };
            if i == p {
                assert(r[i] == x);
                assert(r[j] == t[jj]);
            } else if j == p {
                assert(r[j] == x);
                assert(r[i] == t[ii]);
            } else {
                assert(r[i] == t[ii]);
                assert(r[j] == t[jj]);
            }
        }
        assert(s =~= d.push(x));
        assert(r.to_multiset() == t.to_multiset().insert(x));
        assert(d.push(x).to_multiset() == d.to_multiset().insert(x));
    }
}

/// Sorting keeps names distinct: when no two elements of `s` share a name,
/// no two elements of the sorted sequence do.
pub proof fn lemma_sort_desc_distinct<V>(s: Seq<V>, key: spec_fn(V) -> int, name: spec_fn(V) -> Seq<char>)
    requires
        forall|i: int, j: int| 0 <= i < j < s.len() ==> name(#[trigger] s[i]) != name(#[trigger] s[j]),
    ensures
        forall|i: int, j: int|
            0 <= i < j < sort_desc(s, key).len() ==> name(#[trigger] sort_desc(s, key)[i]) != name(
                #[trigger] sort_desc(s, key)[j],
            ),
    decreases s.len(),
{
    broadcast use vstd::multiset::group_multiset_axioms, vstd::seq_lib::group_to_multiset_ensures;

    if s.len() > 0 {
        let d = s.drop_last();
        let x = s.last();
        assert forall|i: int, j: int| 0 <= i < j < d.len() implies name(#[trigger] d[i]) != name(
            #[trigger] d[j],
        ) by {
            assert(d[i] == s[i] && d[j] == s[j]);
        }
        lemma_sort_desc_distinct(d, key, name);
        lemma_sort_desc(d, key);
        let t = sort_desc(d, key);
        let p = split_desc(t, key(x), key);
        lemma_split_desc_bounds(t, key(x), key);
        let r = t.insert(p, x);
        assert forall|k: int| 0 <= k < t.len() implies name(#[trigger] t[k]) != name(x) by {
            assert(t.contains(t[k]));
            assert(t.to_multiset().count(t[k]) > 0);
            assert(d.contains(t[k]));
            let m = choose|m: int| 0 <= m < d.len() && d[m] == t[k];
            assert(s[m] == d[m]);
            assert(s[s.len() - 1] == x);
        }
        assert forall|i: int, j: int| 0 <= i < j < r.len() implies name(#[trigger] r[i]) != name(
            #[trigger] r[j],
        ) by {
            let ii = if i < p { i } else { i - 1 };
            let jj = if j < p { j } else { j - 1 };
            if i == p {
                assert(r[i] == x);
                assert(r[j] == t[jj]);
            } else if j == p {
                assert(r[j] == x);
                assert(r[i] == t[ii]);
            } else {
                assert(r[i] == t[ii]);
                assert(r[j] == t[jj]);
            }
        }
    }
}

/// Sorts `v` by non-increasing stamp, stably.
pub fn sort_by_stamp_desc<T: Stamped>(v: Vec<T>) -> (r: Vec<T>)
    ensures
        views(r@) == sort_desc(views(v@), stamp_key::<T>()),
{
    let ghost orig = views(v@);
    let ghost key = stamp_key::<T>();
    let mut input = v;
    let mut out: Vec<T> = Vec::new();
    let ghost mut done: int = 0;
    assert(views(out@) =~= sort_desc(orig.take(0), key));
    while input.len() > 0
        invariant
            0 <= done <= orig.len(),
            views(input@) == orig.skip(done),
            views(out@) == sort_desc(orig.take(done), key),
            key == stamp_key::<T>(),
        decreases input@.len(),
    {
        let ghost before = views(out@);
        let ghost in_before = input@;
        proof {
            assert(views(in_before).len() == in_before.len());
            assert(done < orig.len());
            assert(views(in_before)[0] == orig.skip(done)[0]);
        }
        let x = input.remove(0);
        proof {
            assert(x == in_before[0]);
            assert(views(in_before)[0] == in_before[0]@);
            assert(x@ == orig[done]);
            assert(views(input@) =~= orig.skip(done + 1)) by {
                assert forall|i: int| 0 <= i < views(input@).len() implies views(input@)[i] == orig.skip(
                    done + 1,
                )[i] by {
                    assert(input@[i] == in_before[i + 1]);
                    assert(views(in_before)[i + 1] == orig.skip(done)[i + 1]);
                }
            }
        }
        let k = x.stamp();
        let mut j = out.len();
        assert(before.take(j as int) =~= before);
        while j > 0 && out[j - 1].stamp() < k
            invariant
                0 <= j <= out@.len(),
                views(out@) == before,
                split_desc(before, k as int, key) == split_desc(before.take(j as int), k as int, key),
                key == stamp_key::<T>(),
            decreases j,
        {
            proof {
                let tj = before.take(j as int);
                assert(tj.last() == out@[j - 1]@);
                assert(tj.drop_last() =~= before.take(j - 1));
            }
            j = j - 1;
        }
        proof {
            let tj = before.take(j as int);
            if j > 0 {
                assert(tj.last() == out@[j - 1]@);
            }
            assert(split_desc(tj, k as int, key) == j);
            let nd = orig.take(done + 1);
            assert(nd.drop_last() =~= orig.take(done));
            assert(nd.last() == x@);
        }
        let ghost old_out = out@;
        out.insert(j, x);
        proof {
            assert(views(out@) =~= before.insert(j as int, x@)) by {
                assert(out@ == old_out.insert(j as int, x));
            }
            done = done + 1;
        }
    }
    proof {
        assert(orig.skip(done).len() == 0);
        assert(orig.take(done) =~= orig);
    }
    out
}

} // verus!
