//! Rows kept in the order of their ids.
use vstd::prelude::*;

verus! {

/// The rows that are to be kept, in order.
pub open spec fn kept<T>(s: Seq<T>, keep: spec_fn(T) -> bool) -> Seq<T>
    decreases s.len(),
{
    if s.len() == 0 {
        Seq::empty()
    } else if keep(s.last()) {
        kept(s.drop_last(), keep).push(s.last())
    } else {
        kept(s.drop_last(), keep)
    }
}

/// One row more.
pub proof fn kept_grows<T>(s: Seq<T>, keep: spec_fn(T) -> bool, i: int)
    requires
        0 <= i < s.len(),
    ensures
        kept(s.take(i + 1), keep) == (if keep(s[i]) {
            kept(s.take(i), keep).push(s[i])
        } else {
            kept(s.take(i), keep)
        }),
{
    assert(s.take(i + 1).drop_last() =~= s.take(i));
}

/// What is kept meets the condition and is one of the rows.
pub proof fn kept_rows_meet<T>(s: Seq<T>, keep: spec_fn(T) -> bool)
    ensures
        kept(s, keep).len() <= s.len(),
        forall|k: int| 0 <= k < kept(s, keep).len() ==> keep(#[trigger] kept(s, keep)[k]) && s.contains(kept(s, keep)[k]),
    decreases s.len(),
{
    if s.len() > 0 {
        let d = s.drop_last();
        kept_rows_meet(d, keep);
        let r = kept(s, keep);
        assert forall|k: int| 0 <= k < r.len() implies keep(#[trigger] r[k]) && s.contains(r[k]) by {
            if k < kept(d, keep).len() {
                assert(r[k] == kept(d, keep)[k]);
                let m = d.index_of(r[k]);
                assert(s[m] == r[k]);
            } else {
                assert(s[s.len() - 1] == r[k]);
            }
        }
    }
}

/// A row that meets the condition is kept.
pub proof fn meeting_rows_are_kept<T>(s: Seq<T>, keep: spec_fn(T) -> bool, x: T)
    requires
        s.contains(x),
        keep(x),
    ensures
        kept(s, keep).contains(x),
    decreases s.len(),
{
    let d = s.drop_last();
    let r = kept(s, keep);
    if s.last() == x {
        assert(r[r.len() - 1] == x);
    } else {
        let m = s.index_of(x);
        assert(d[m] == x);
        meeting_rows_are_kept(d, keep, x);
        let k = kept(d, keep).index_of(x);
        assert(r[k] == x);
    }
}

/// Rows that are kept one by one are kept together.
pub proof fn kept_in_parts<T>(a: Seq<T>, b: Seq<T>, keep: spec_fn(T) -> bool)
    ensures
        kept(a + b, keep) == kept(a, keep) + kept(b, keep),
    decreases b.len(),
{
    if b.len() == 0 {
        assert(a + b =~= a);
        assert(kept(a, keep) + kept(b, keep) =~= kept(a, keep));
    } else {
        kept_in_parts(a, b.drop_last(), keep);
        assert((a + b).drop_last() =~= a + b.drop_last());
        assert(kept(a + b, keep) =~= kept(a, keep) + kept(b, keep));
    }
}

/// Where every row meets the condition, all are kept.
pub proof fn all_kept<T>(s: Seq<T>, keep: spec_fn(T) -> bool)
    requires
        forall|k: int| 0 <= k < s.len() ==> keep(#[trigger] s[k]),
    ensures
        kept(s, keep) == s,
    decreases s.len(),
{
    if s.len() > 0 {
        assert(keep(s[s.len() - 1]));
        assert forall|k: int| 0 <= k < s.drop_last().len() implies keep(#[trigger] s.drop_last()[k]) by {
            assert(s.drop_last()[k] == s[k]);
        }
        all_kept(s.drop_last(), keep);
        assert(s.drop_last().push(s.last()) =~= s);
    } else {
        assert(s =~= Seq::empty());
    }
}

/// Where no row meets the condition, none is kept.
pub proof fn none_kept<T>(s: Seq<T>, keep: spec_fn(T) -> bool)
    requires
        forall|k: int| 0 <= k < s.len() ==> !keep(#[trigger] s[k]),
    ensures
        kept(s, keep) == Seq::<T>::empty(),
    decreases s.len(),
{
    if s.len() > 0 {
        assert(!keep(s[s.len() - 1]));
        assert forall|k: int| 0 <= k < s.drop_last().len() implies !keep(#[trigger] s.drop_last()[k]) by {
            assert(s.drop_last()[k] == s[k]);
        }
        none_kept(s.drop_last(), keep);
    }
}

/// Keeping twice is keeping what meets both conditions.
pub proof fn kept_twice<T>(s: Seq<T>, first: spec_fn(T) -> bool, second: spec_fn(T) -> bool, both: spec_fn(T) -> bool)
    requires
        forall|x: T| #[trigger] both(x) <==> first(x) && second(x),
    ensures
        kept(kept(s, first), second) == kept(s, both),
    decreases s.len(),
{
    if s.len() > 0 {
        kept_twice(s.drop_last(), first, second, both);
        let x = s.last();
        assert(both(x) <==> first(x) && second(x));
        if first(x) {
            let f = kept(s.drop_last(), first);
            assert(f.push(x).drop_last() =~= f);
        }
    }
}

// ---------------------------------------------------------------------------
// The first row of a kind
// ---------------------------------------------------------------------------

/// The position of the first row that meets the condition, or the length where there is none.
pub open spec fn slot<T>(s: Seq<T>, wanted: spec_fn(T) -> bool) -> int
    decreases s.len(),
{
    if s.len() == 0 || wanted(s[0]) {
        0
    } else {
        1 + slot(s.drop_first(), wanted)
    }
}

/// The first row that meets the condition.
pub open spec fn first_row<T>(s: Seq<T>, wanted: spec_fn(T) -> bool) -> Option<T> {
    let i = slot(s, wanted);
    if i < s.len() {
        Some(s[i])
    } else {
        None
    }
}

/// No row before the slot meets the condition, and the one in it does.
pub proof fn slot_is_first<T>(s: Seq<T>, wanted: spec_fn(T) -> bool)
    ensures
        0 <= slot(s, wanted) <= s.len(),
        forall|k: int| 0 <= k < slot(s, wanted) ==> !wanted(#[trigger] s[k]),
        slot(s, wanted) < s.len() ==> wanted(s[slot(s, wanted)]),
    decreases s.len(),
{
    if s.len() > 0 && !wanted(s[0]) {
        let d = s.drop_first();
        slot_is_first(d, wanted);
        assert forall|k: int| 0 <= k < slot(s, wanted) implies !wanted(#[trigger] s[k]) by {
            if k > 0 {
                assert(d[k - 1] == s[k]);
            }
        }
    }
}

/// The slot is the first position that meets the condition.
pub proof fn slot_at<T>(s: Seq<T>, wanted: spec_fn(T) -> bool, i: int)
    requires
        0 <= i <= s.len(),
        forall|k: int| 0 <= k < i ==> !wanted(#[trigger] s[k]),
        i < s.len() ==> wanted(s[i]),
    ensures
        slot(s, wanted) == i,
{
    slot_is_first(s, wanted);
    let j = slot(s, wanted);
    if j < i {
        assert(!wanted(s[j]));
    } else if i < j {
        assert(!wanted(s[i]));
    }
}

/// A row added at the end leaves the first one where it was.
pub proof fn first_row_stays<T>(s: Seq<T>, wanted: spec_fn(T) -> bool, x: T)
    requires
        first_row(s, wanted) is Some,
    ensures
        first_row(s.push(x), wanted) == first_row(s, wanted),
{
    let i = slot(s, wanted);
    slot_is_first(s, wanted);
    let t = s.push(x);
    assert forall|k: int| 0 <= k < i implies !wanted(#[trigger] t[k]) by {
        assert(t[k] == s[k]);
    }
    slot_at(t, wanted, i);
}

/// Where rows meet the condition in the same places, the first is in the same place.
pub proof fn slots_alike<T>(s: Seq<T>, t: Seq<T>, wanted: spec_fn(T) -> bool)
    requires
        s.len() == t.len(),
        forall|k: int| 0 <= k < s.len() ==> wanted(#[trigger] s[k]) == wanted(t[k]),
    ensures
        slot(s, wanted) == slot(t, wanted),
{
    let i = slot(s, wanted);
    slot_is_first(s, wanted);
    assert forall|k: int| 0 <= k < i implies !wanted(#[trigger] t[k]) by {
        assert(!wanted(s[k]));
    }
    slot_at(t, wanted, i);
}

// ---------------------------------------------------------------------------
// Ids
// ---------------------------------------------------------------------------

/// The ids are positive, grow from row to row and stay below the next one.
pub open spec fn ids_grow(ids: Seq<i64>, next: int) -> bool {
    &&& 1 <= next
    &&& forall|i: int| 0 <= i < ids.len() ==> 1 <= #[trigger] ids[i] < next
    &&& forall|i: int, j: int| 0 <= i < j < ids.len() ==> #[trigger] ids[i] < #[trigger] ids[j]
}

/// A row under the next id keeps the order of the ids.
pub proof fn ids_grow_further(ids: Seq<i64>, next: i64)
    requires
        ids_grow(ids, next as int),
    ensures
        ids_grow(ids.push(next), next + 1),
{
    let t = ids.push(next);
    assert forall|i: int| 0 <= i < t.len() implies 1 <= #[trigger] t[i] < next + 1 by {
        if i < ids.len() {
            assert(1 <= ids[i] < next);
        }
    }
    assert forall|i: int, j: int| 0 <= i < j < t.len() implies #[trigger] t[i] < #[trigger] t[j] by {
        assert(1 <= ids[i] < next);
        if j < ids.len() {
            assert(ids[i] < ids[j]);
        }
    }
}

/// There are fewer rows than ids given out.
pub proof fn ids_bound_rows(ids: Seq<i64>, next: int)
    requires
        ids_grow(ids, next),
    ensures
        ids.len() < next,
    decreases ids.len(),
{
    if ids.len() > 0 {
        let d = ids.drop_last();
        let last = ids.last() as int;
        assert(1 <= ids[ids.len() - 1] < next);
        assert forall|i: int| 0 <= i < d.len() implies 1 <= #[trigger] d[i] < last by {
            assert(1 <= ids[i] < next);
            assert(ids[i] < ids[ids.len() - 1]);
        }
        assert forall|i: int, j: int| 0 <= i < j < d.len() implies #[trigger] d[i] < #[trigger] d[j] by {
            assert(ids[i] < ids[j]);
        }
        ids_bound_rows(d, last);
    }
}

/// Keeping some rows keeps the order of the ids.
pub proof fn kept_ids_grow<T>(s: Seq<T>, keep: spec_fn(T) -> bool, id: spec_fn(T) -> i64, next: int)
    requires
        ids_grow(s.map_values(id), next),
    ensures
        ids_grow(kept(s, keep).map_values(id), next),
    decreases s.len(),
{
    let ids = s.map_values(id);
    if s.len() > 0 {
        let d = s.drop_last();
        let last = id(s.last());
        assert(1 <= ids[s.len() - 1] < next);
        assert(ids[s.len() - 1] == last);
        let e = d.map_values(id);
        assert forall|i: int| 0 <= i < e.len() implies 1 <= #[trigger] e[i] < last by {
            assert(e[i] == ids[i]);
            assert(1 <= ids[i]);
            assert(ids[i] < ids[s.len() - 1]);
        }
        assert forall|i: int, j: int| 0 <= i < j < e.len() implies #[trigger] e[i] < #[trigger] e[j] by {
            assert(ids[i] < ids[j]);
        }
        kept_ids_grow(d, keep, id, last as int);
        let k = kept(d, keep).map_values(id);
        let r = kept(s, keep).map_values(id);
        assert(forall|i: int| 0 <= i < k.len() ==> 1 <= #[trigger] k[i] < last);
        if keep(s.last()) {
            assert(r =~= k.push(last));
            assert forall|i: int| 0 <= i < r.len() implies 1 <= #[trigger] r[i] < next by {
                if i < k.len() {
                    assert(1 <= k[i] < last);
                }
            }
            assert forall|i: int, j: int| 0 <= i < j < r.len() implies #[trigger] r[i] < #[trigger] r[j] by {
                assert(1 <= k[i] < last);
                if j < k.len() {
                    assert(k[i] < k[j]);
                }
            }
        } else {
            assert(r =~= k);
            assert forall|i: int| 0 <= i < r.len() implies 1 <= #[trigger] r[i] < next by {
                assert(1 <= k[i] < last);
            }
        }
    } else {
        assert(kept(s, keep).map_values(id) =~= ids);
    }
}

} // verus!
