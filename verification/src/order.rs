//! Stable ordering by pairs of integers, by texts, and by real numbers given as bits.
use crate::text::{chars_of, texts};
use vstd::prelude::*;

verus! {

// ---------------------------------------------------------------------------
// Pairs of integers
// ---------------------------------------------------------------------------

/// A sorting key: the first number decides, then the second.
pub type Key = (i128, i128);

/// The first key comes strictly before the second.
pub open spec fn key_before(a: Key, b: Key) -> bool {
    a.0 < b.0 || (a.0 == b.0 && a.1 < b.1)
}

/// The positions with one more, behind all whose keys do not come after its own.
pub open spec fn slotted(order: Seq<int>, keys: Seq<Key>, i: int) -> Seq<int>
    decreases order.len(),
{
    if order.len() == 0 || !key_before(keys[i], keys[order.last()]) {
        order.push(i)
    } else {
        slotted(order.drop_last(), keys, i).push(order.last())
    }
}

/// The first `n` positions, ordered by their keys; equal keys keep their order.
pub open spec fn sorted_order(keys: Seq<Key>, n: int) -> Seq<int>
    decreases n,
{
    if n <= 0 {
        Seq::empty()
    } else {
        slotted(sorted_order(keys, n - 1), keys, n - 1)
    }
}

/// The mathematical form of positions.
pub open spec fn positions(v: Seq<usize>) -> Seq<int> {
    v.map_values(|i: usize| i as int)
}

/// Whether the first key comes strictly before the second.
pub fn comes_before(a: Key, b: Key) -> (r: bool)
    ensures
        r == key_before(a, b),
{
    a.0 < b.0 || (a.0 == b.0 && a.1 < b.1)
}

proof fn slotted_splits(order: Seq<int>, keys: Seq<Key>, i: int, k: int)
    requires
        0 <= k <= order.len(),
        k > 0 ==> !key_before(keys[i], keys[order[k - 1]]),
        forall|j: int| k <= j < order.len() ==> key_before(keys[i], keys[#[trigger] order[j]]),
    ensures
        slotted(order, keys, i) == order.take(k).push(i) + order.skip(k),
    decreases order.len(),
{
    if k == order.len() {
        assert(order.take(k) =~= order);
        assert(order.take(k).push(i) + order.skip(k) =~= order.push(i));
    } else {
        assert(key_before(keys[i], keys[order[order.len() - 1]]));
        let d = order.drop_last();
        slotted_splits(d, keys, i, k);
        assert(d.take(k) =~= order.take(k));
        assert((d.take(k).push(i) + d.skip(k)).push(order.last()) =~= order.take(k).push(i)
            + order.skip(k));
    }
}

/// The positions of the keys, ordered by the keys; equal keys keep their order.
pub fn sort_order(keys: &Vec<Key>) -> (r: Vec<usize>)
    ensures
        positions(r@) == sorted_order(keys@, keys@.len() as int),
        forall|j: int| 0 <= j < r@.len() ==> #[trigger] r@[j] < keys@.len(),
        r@.len() == keys@.len(),
{
    let mut order: Vec<usize> = Vec::new();
    let mut i: usize = 0;
    assert(positions(order@) =~= sorted_order(keys@, 0));
    while i < keys.len()
        invariant
            i <= keys.len(),
            order@.len() == i,
            positions(order@) == sorted_order(keys@, i as int),
            forall|j: int| 0 <= j < order@.len() ==> #[trigger] order@[j] < i,
        decreases keys.len() - i,
    {
        let ghost before = positions(order@);
        let mut k: usize = order.len();
        while k > 0 && comes_before(keys[i], keys[order[k - 1]])
            invariant
                k <= order.len(),
                i < keys.len(),
                before == positions(order@),
                forall|j: int| 0 <= j < order@.len() ==> #[trigger] order@[j] < i,
                forall|j: int| k <= j < before.len() ==> key_before(keys@[i as int], keys@[#[trigger] before[j]]),
            decreases k,
        {
            k = k - 1;
        }
        proof {
            slotted_splits(before, keys@, i as int, k as int);
        }
        order.insert(k, i);
        assert(positions(order@) =~= before.take(k as int).push(i as int) + before.skip(k as int));
        i = i + 1;
    }
    order
}

/// The elements of a sequence at the given positions.
pub open spec fn picked<T>(s: Seq<T>, order: Seq<int>) -> Seq<T> {
    order.map_values(|i: int| s[i])
}

proof fn slotted_facts(order: Seq<int>, keys: Seq<Key>, i: int)
    requires
        !order.contains(i),
        order.no_duplicates(),
        forall|a: int, b: int|
            0 <= a < b < order.len() ==> !key_before(keys[#[trigger] order[b]], keys[#[trigger] order[a]]),
    ensures
        slotted(order, keys, i).len() == order.len() + 1,
        slotted(order, keys, i).no_duplicates(),
        forall|x: int| #[trigger] slotted(order, keys, i).contains(x) <==> x == i || order.contains(x),
        forall|a: int, b: int|
            0 <= a < b < slotted(order, keys, i).len() ==> !key_before(
                keys[#[trigger] slotted(order, keys, i)[b]],
                keys[#[trigger] slotted(order, keys, i)[a]],
            ),
    decreases order.len(),
{
    let r = slotted(order, keys, i);
    if order.len() == 0 || !key_before(keys[i], keys[order.last()]) {
        assert forall|x: int| #[trigger] r.contains(x) <==> x == i || order.contains(x) by {
            if r.contains(x) {
                let k = r.index_of(x);
                assert(r[k] == x);
                if k < order.len() {
                    assert(order[k] == x);
                }
            }
            if order.contains(x) {
                let k = order.index_of(x);
                assert(r[k] == x);
            }
            assert(r[order.len() as int] == i);
        }
        assert forall|a: int, b: int| 0 <= a < b < r.len() implies !key_before(
            keys[#[trigger] r[b]],
            keys[#[trigger] r[a]],
        ) by {
            if b == order.len() {
                if a < order.len() - 1 {
                    assert(!key_before(keys[order[order.len() - 1]], keys[order[a]]));
                }
            } else {
                assert(!key_before(keys[order[b]], keys[order[a]]));
            }
        }
        assert forall|a: int, b: int| 0 <= a < r.len() && 0 <= b < r.len() && a != b implies r[a] != r[b] by {
            if a == order.len() {
                assert(order.contains(order[b]));
            } else if b == order.len() {
                assert(order.contains(order[a]));
            }
        }
    } else {
        let d = order.drop_last();
        let last = order.last();
        assert(!d.contains(i)) by {
            if d.contains(i) {
                let k = d.index_of(i);
                assert(order[k] == i);
            }
        }
        assert forall|a: int, b: int| 0 <= a < b < d.len() implies !key_before(
            keys[#[trigger] d[b]],
            keys[#[trigger] d[a]],
        ) by {
            assert(d[a] == order[a] && d[b] == order[b]);
        }
        slotted_facts(d, keys, i);
        let s = slotted(d, keys, i);
        assert forall|x: int| s.contains(x) implies x != last && !key_before(keys[last], keys[x]) by {
            if x != i {
                let k = d.index_of(x);
                assert(d[k] == x);
                assert(order[k] == x);
                assert(!key_before(keys[order[order.len() - 1]], keys[order[k]]));
            } else {
                assert(order.contains(order[order.len() - 1]));
            }
        }
        assert forall|x: int| #[trigger] r.contains(x) <==> x == i || order.contains(x) by {
            if r.contains(x) {
                let k = r.index_of(x);
                assert(r[k] == x);
                if k < s.len() {
                    assert(s[k] == x);
                    assert(s.contains(x));
                    if x != i {
                        let m = d.index_of(x);
                        assert(order[m] == x);
                    }
                } else {
                    assert(order[order.len() - 1] == x);
                }
            }
            if x == i || order.contains(x) {
                if x == last {
                    assert(r[s.len() as int] == x);
                } else {
                    if x != i {
                        let m = order.index_of(x);
                        assert(d[m] == x);
                        assert(d.contains(x));
                    }
                    assert(s.contains(x));
                    let m = s.index_of(x);
                    assert(r[m] == x);
                }
            }
        }
        assert forall|a: int, b: int| 0 <= a < b < r.len() implies !key_before(
            keys[#[trigger] r[b]],
            keys[#[trigger] r[a]],
        ) by {
            if b == s.len() {
                assert(s.contains(s[a]));
            } else {
                assert(r[a] == s[a] && r[b] == s[b]);
            }
        }
        assert forall|a: int, b: int| 0 <= a < r.len() && 0 <= b < r.len() && a != b implies r[a] != r[b] by {
            if a == s.len() {
                assert(s.contains(s[b]));
            } else if b == s.len() {
                assert(s.contains(s[a]));
            }
        }
    }
}

/// Sorting keeps every position once and puts no key before a smaller one.
pub proof fn sorting_is_a_permutation(keys: Seq<Key>, n: int)
    requires
        0 <= n,
    ensures
        sorted_order(keys, n).len() == n,
        sorted_order(keys, n).no_duplicates(),
        forall|x: int| #[trigger] sorted_order(keys, n).contains(x) <==> 0 <= x < n,
        forall|a: int, b: int|
            0 <= a < b < n ==> !key_before(
                keys[#[trigger] sorted_order(keys, n)[b]],
                keys[#[trigger] sorted_order(keys, n)[a]],
            ),
    decreases n,
{
    if n > 0 {
        sorting_is_a_permutation(keys, n - 1);
        let before = sorted_order(keys, n - 1);
        assert(!before.contains(n - 1));
        slotted_facts(before, keys, n - 1);
    }
}

proof fn slotting_is_stable(order: Seq<int>, keys: Seq<Key>, i: int)
    requires
        forall|a: int| 0 <= a < order.len() ==> #[trigger] order[a] < i,
        forall|a: int, b: int|
            0 <= a < b < order.len() && keys[#[trigger] order[a]] == keys[#[trigger] order[b]] ==> order[a] < order[b],
    ensures
        forall|a: int| 0 <= a < slotted(order, keys, i).len() ==> #[trigger] slotted(order, keys, i)[a] <= i,
        forall|a: int|
            0 <= a < slotted(order, keys, i).len() ==> order.contains(#[trigger] slotted(order, keys, i)[a]) || slotted(
                order,
                keys,
                i,
            )[a] == i,
        forall|a: int, b: int|
            0 <= a < b < slotted(order, keys, i).len() && keys[#[trigger] slotted(order, keys, i)[a]] == keys[
            #[trigger] slotted(order, keys, i)[b]] ==> slotted(order, keys, i)[a] < slotted(order, keys, i)[b],
    decreases order.len(),
{
    let r = slotted(order, keys, i);
    if order.len() == 0 || !key_before(keys[i], keys[order.last()]) {
        assert forall|a: int| 0 <= a < r.len() implies order.contains(#[trigger] r[a]) || r[a] == i by {
            if a < order.len() {
                assert(order[a] == r[a]);
            }
        }
    } else {
        let d = order.drop_last();
        let w = slotted(d, keys, i);
        slotting_is_stable(d, keys, i);
        assert forall|a: int| 0 <= a < r.len() implies (order.contains(#[trigger] r[a]) || r[a] == i) && r[a] <= i by {
            if a < w.len() {
                assert(r[a] == w[a]);
                if w[a] != i {
                    let k = d.index_of(w[a]);
                    assert(order[k] == r[a]);
                }
            } else {
                assert(order[order.len() - 1] == r[a]);
            }
        }
        assert forall|a: int, b: int| 0 <= a < b < r.len() && keys[#[trigger] r[a]] == keys[#[trigger] r[b]] implies r[a]
            < r[b] by {
            assert(r[a] == w[a]);
            if b < w.len() {
                assert(r[b] == w[b]);
            } else {
                assert(r[b] == order.last());
                if w[a] != i {
                    let k = d.index_of(w[a]);
                    assert(order[k] == w[a]);
                    assert(order[order.len() - 1] == r[b]);
                }
            }
        }
    }
}

/// Sorting keeps positions with equal keys in their order.
pub proof fn sorting_is_stable(keys: Seq<Key>, n: int)
    requires
        0 <= n,
    ensures
        forall|a: int, b: int|
            0 <= a < b < n && keys[#[trigger] sorted_order(keys, n)[a]] == keys[#[trigger] sorted_order(keys, n)[b]]
                ==> sorted_order(keys, n)[a] < sorted_order(keys, n)[b],
    decreases n,
{
    sorting_is_a_permutation(keys, n);
    if n > 0 {
        let before = sorted_order(keys, n - 1);
        sorting_is_a_permutation(keys, n - 1);
        sorting_is_stable(keys, n - 1);
        assert forall|a: int| 0 <= a < before.len() implies #[trigger] before[a] < n - 1 by {
            assert(before.contains(before[a]));
        }
        slotting_is_stable(before, keys, n - 1);
    }
}

/// The elements of a sequence, ordered by their keys.
pub open spec fn sorted_rows<T>(s: Seq<T>, keys: Seq<Key>) -> Seq<T> {
    picked(s, sorted_order(keys, keys.len() as int))
}

/// The positions at the given places.
pub fn rearranged(at: &Vec<usize>, order: &Vec<usize>) -> (r: Vec<usize>)
    requires
        forall|j: int| 0 <= j < order@.len() ==> #[trigger] order@[j] < at@.len(),
    ensures
        positions(r@) == picked(positions(at@), positions(order@)),
        r@.len() == order@.len(),
        forall|j: int| 0 <= j < r@.len() ==> at@.contains(#[trigger] r@[j]),
{
    let mut r: Vec<usize> = Vec::new();
    let mut j: usize = 0;
    while j < order.len()
        invariant
            j <= order.len(),
            r@.len() == j,
            forall|x: int| 0 <= x < order@.len() ==> #[trigger] order@[x] < at@.len(),
            forall|x: int| 0 <= x < j ==> #[trigger] r@[x] == at@[order@[x] as int],
            forall|x: int| 0 <= x < j ==> at@.contains(#[trigger] r@[x]),
        decreases order.len() - j,
    {
        let k: usize = order[j];
        r.push(at[k]);
        assert(at@.contains(at@[k as int]));
        j = j + 1;
    }
    assert(positions(r@) =~= picked(positions(at@), positions(order@)));
    r
}

/// Picking from what was picked.
pub proof fn picked_twice<T>(s: Seq<T>, at: Seq<int>, order: Seq<int>)
    requires
        forall|j: int| 0 <= j < order.len() ==> 0 <= #[trigger] order[j] < at.len(),
    ensures
        picked(picked(s, at), order) == picked(s, picked(at, order)),
{
    assert(picked(picked(s, at), order) =~= picked(s, picked(at, order)));
}

// ---------------------------------------------------------------------------
// Texts
// ---------------------------------------------------------------------------

/// The first text comes before the second, character by character.
pub open spec fn text_before(a: Seq<char>, b: Seq<char>) -> bool
    decreases a.len(),
{
    if b.len() == 0 {
        false
    } else if a.len() == 0 {
        true
    } else if a[0] != b[0] {
        (a[0] as u32) < (b[0] as u32)
    } else {
        text_before(a.drop_first(), b.drop_first())
    }
}

/// Whether the first text comes before the second.
pub fn is_text_before(a: &str, b: &str) -> (r: bool)
    ensures
        r == text_before(a@, b@),
{
    let x = chars_of(a);
    let y = chars_of(b);
    let mut i: usize = 0;
    assert(x@.skip(0) =~= x@);
    assert(y@.skip(0) =~= y@);
    while i < x.len() && i < y.len()
        invariant
            i <= x.len(),
            i <= y.len(),
            x@ == a@,
            y@ == b@,
            text_before(x@, y@) == text_before(x@.skip(i as int), y@.skip(i as int)),
        decreases x.len() - i,
    {
        assert(x@.skip(i as int)[0] == x@[i as int]);
        assert(y@.skip(i as int)[0] == y@[i as int]);
        assert(x@.skip(i as int).drop_first() =~= x@.skip(i + 1));
        assert(y@.skip(i as int).drop_first() =~= y@.skip(i + 1));
        if x[i] != y[i] {
            return (x[i] as u32) < (y[i] as u32);
        }
        i = i + 1;
    }
    i < y.len()
}

/// How many of the texts come before a text.
pub open spec fn texts_before(list: Seq<Seq<char>>, t: Seq<char>) -> int
    decreases list.len(),
{
    if list.len() == 0 {
        0
    } else {
        texts_before(list.drop_last(), t) + (if text_before(list.last(), t) {
            1int
        } else {
            0
        })
    }
}

/// How many of the texts come before a text.
pub fn count_texts_before(list: &Vec<String>, t: &str) -> (r: usize)
    ensures
        r == texts_before(texts(list@), t@),
        r <= list@.len(),
{
    let ghost all = texts(list@);
    let mut n: usize = 0;
    let mut i: usize = 0;
    while i < list.len()
        invariant
            i <= list.len(),
            n <= i,
            all == texts(list@),
            n == texts_before(all.take(i as int), t@),
        decreases list.len() - i,
    {
        assert(all.take(i + 1).drop_last() =~= all.take(i as int));
        assert(all[i as int] == list@[i as int]@);
        if is_text_before(list[i].as_str(), t) {
            n = n + 1;
        }
        i = i + 1;
    }
    assert(all.take(i as int) =~= all);
    n
}

// ---------------------------------------------------------------------------
// Real numbers
// ---------------------------------------------------------------------------

/// A real number as the sixty-four bits of its binary form. The library never computes with one:
/// it carries it, and compares it.
#[derive(Debug, Clone, Copy, PartialEq, Eq, Structural)]
pub struct Real {
    pub bits: u64,
}

/// The number without its sign, as an integer that grows with it.
pub open spec fn magnitude(x: Real) -> int {
    if x.bits >= 0x8000_0000_0000_0000 {
        x.bits - 0x8000_0000_0000_0000
    } else {
        x.bits as int
    }
}

/// An integer that grows with the number; zero for both zeros. It says nothing of what is no
/// number at all.
pub open spec fn rank_of(x: Real) -> int {
    if x.bits >= 0x8000_0000_0000_0000 {
        -magnitude(x)
    } else {
        magnitude(x)
    }
}

impl Real {
    /// An integer that grows with the number.
    pub fn rank(&self) -> (r: i128)
        ensures
            r == rank_of(*self),
            -0x8000_0000_0000_0000 < r < 0x8000_0000_0000_0000,
    {
        if self.bits >= 0x8000_0000_0000_0000 {
            -((self.bits - 0x8000_0000_0000_0000) as i128)
        } else {
            self.bits as i128
        }
    }

    /// Whether the number is smaller than the other.
    pub fn less_than(&self, other: Real) -> (r: bool)
        ensures
            r == (rank_of(*self) < rank_of(other)),
    {
        self.rank() < other.rank()
    }
}

} // verus!
