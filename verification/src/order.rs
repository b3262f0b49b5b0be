//! Sorting: a stable order of items by what they rank by.
use crate::text;
use vstd::prelude::*;

verus! {

/// Something that items are ordered by.
pub trait Ranked: Sized {
    /// `self` ranks strictly before `other`.
    spec fn ranks_before(&self, other: &Self) -> bool;

    /// Whether `self` ranks strictly before `other`.
    fn goes_before(&self, other: &Self) -> (r: bool)
        ensures
            r == self.ranks_before(other),
    ;

    /// Nothing ranks both before and behind another.
    proof fn lemma_one_way(a: &Self, b: &Self)
        requires
            a.ranks_before(b),
        ensures
            !b.ranks_before(a),
    ;

    /// Not ranking before is passed on.
    proof fn lemma_chain(a: &Self, b: &Self, c: &Self)
        requires
            !b.ranks_before(a),
            !c.ranks_before(b),
        ensures
            !c.ranks_before(a),
    ;
}

/// `x` put into the sorted `s` of positions, behind everything that it does not rank before.
pub open spec fn slot_in<K: Ranked>(keys: Seq<K>, s: Seq<int>, x: int) -> Seq<int>
    decreases s.len(),
{
    if s.len() == 0 || !keys[x].ranks_before(&keys[s.last()]) {
        s.push(x)
    } else {
        slot_in(keys, s.drop_last(), x).push(s.last())
    }
}

/// The positions `0..n` of `keys`, sorted: lower ranks first, equal ranks in their given order.
pub open spec fn order_of<K: Ranked>(keys: Seq<K>, n: nat) -> Seq<int>
    decreases n,
{
    if n == 0 {
        Seq::empty()
    } else {
        slot_in(keys, order_of(keys, (n - 1) as nat), n - 1)
    }
}

/// The positions of `keys`, sorted.
pub open spec fn sorted_order<K: Ranked>(keys: Seq<K>) -> Seq<int> {
    order_of(keys, keys.len())
}

/// Positions as integers.
pub open spec fn ints(v: Seq<usize>) -> Seq<int> {
    v.map_values(|i: usize| i as int)
}

/// No position stands twice, all are below `n`, none is missing, and the ranks ascend; where two
/// rank alike the one given first comes first.
pub open spec fn in_order<K: Ranked>(keys: Seq<K>, s: Seq<int>, n: int) -> bool {
    &&& s.len() == n
    &&& forall|i: int| 0 <= i < s.len() ==> 0 <= #[trigger] s[i] < n
    &&& forall|i: int, j: int| 0 <= i < j < s.len() ==> #[trigger] s[i] != #[trigger] s[j]
    &&& forall|i: int, j: int|
        0 <= i < j < s.len() ==> !keys[#[trigger] s[j]].ranks_before(&keys[#[trigger] s[i]])
    &&& forall|i: int, j: int|
        0 <= i < j < s.len() && !keys[#[trigger] s[i]].ranks_before(&keys[#[trigger] s[j]]) ==> s[i]
            < s[j]
    &&& forall|x: int| 0 <= x < n ==> #[trigger] s.contains(x)
}

/// Slotting `x` in is inserting it at one place: what stands before that place `x` does not rank
/// before, what stands behind it `x` does rank before.
proof fn lemma_slot_place<K: Ranked>(keys: Seq<K>, s: Seq<int>, x: int) -> (p: int)
    requires
        forall|i: int, j: int|
            0 <= i < j < s.len() ==> !keys[#[trigger] s[j]].ranks_before(&keys[#[trigger] s[i]]),
    ensures
        0 <= p <= s.len(),
        slot_in(keys, s, x) == s.insert(p, x),
        forall|i: int| 0 <= i < p ==> !keys[x].ranks_before(&keys[#[trigger] s[i]]),
        forall|i: int| p <= i < s.len() ==> keys[x].ranks_before(&keys[#[trigger] s[i]]),
    decreases s.len(),
{
    if s.len() == 0 || !keys[x].ranks_before(&keys[s.last()]) {
        assert(s.insert(s.len() as int, x) =~= s.push(x));
        assert forall|i: int| 0 <= i < s.len() implies !keys[x].ranks_before(
            &keys[#[trigger] s[i]],
        ) by {
            if i < s.len() - 1 {
                K::lemma_chain(&keys[s[i]], &keys[s.last()], &keys[x]);
            }
        }
        s.len() as int
    } else {
        let t = s.drop_last();
        assert forall|i: int, j: int| 0 <= i < j < t.len() implies !keys[#[trigger] t[j]].ranks_before(
            &keys[#[trigger] t[i]],
        ) by {
            assert(t[i] == s[i] && t[j] == s[j]);
        }
        let p = lemma_slot_place(keys, t, x);
        assert(t.insert(p, x).push(s.last()) =~= s.insert(p, x));
        assert forall|i: int| 0 <= i < p implies !keys[x].ranks_before(&keys[#[trigger] s[i]]) by {
            assert(t[i] == s[i]);
        }
        assert forall|i: int| p <= i < s.len() implies keys[x].ranks_before(
            &keys[#[trigger] s[i]],
        ) by {
            if i < t.len() {
                assert(t[i] == s[i]);
            }
        }
        p
    }
}

/// The sorted order is an order: it holds every position once, ranks ascend, and items of one
/// rank keep the order they were given in.
pub proof fn law_sorted_order<K: Ranked>(keys: Seq<K>, n: nat)
    requires
        n <= keys.len(),
    ensures
        in_order(keys, order_of(keys, n), n as int),
    decreases n,
{
    if n > 0 {
        let m = (n - 1) as nat;
        let x = n - 1;
        law_sorted_order(keys, m);
        let s = order_of(keys, m);
        let p = lemma_slot_place(keys, s, x);
        let r = s.insert(p, x);
        assert forall|i: int| 0 <= i < r.len() implies 0 <= #[trigger] r[i] < n by {
            assert(i < p ==> r[i] == s[i]);
            assert(i > p ==> r[i] == s[i - 1]);
        }
        assert forall|i: int, j: int| 0 <= i < j < r.len() implies #[trigger] r[i] != #[trigger] r[j] by {
            assert(i < p ==> r[i] == s[i]);
            assert(i > p ==> r[i] == s[i - 1]);
            assert(j < p ==> r[j] == s[j]);
            assert(j > p ==> r[j] == s[j - 1]);
        }
        assert forall|i: int, j: int| 0 <= i < j < r.len() implies !keys[#[trigger] r[j]].ranks_before(
            &keys[#[trigger] r[i]],
        ) by {
            assert(i < p ==> r[i] == s[i]);
            assert(i > p ==> r[i] == s[i - 1]);
            assert(j < p ==> r[j] == s[j]);
            assert(j > p ==> r[j] == s[j - 1]);
            if i == p {
                K::lemma_one_way(&keys[x], &keys[s[j - 1]]);
            }
        }
        assert forall|i: int, j: int|
            0 <= i < j < r.len() && !keys[#[trigger] r[i]].ranks_before(&keys[#[trigger] r[j]]) implies r[i]
            < r[j] by {
            assert(i < p ==> r[i] == s[i]);
            assert(i > p ==> r[i] == s[i - 1]);
            assert(j < p ==> r[j] == s[j]);
            assert(j > p ==> r[j] == s[j - 1]);
        }
        assert forall|y: int| 0 <= y < n implies #[trigger] r.contains(y) by {
            if y == x {
                assert(r[p] == y);
            } else {
                assert(s.contains(y));
                let k = choose|k: int| 0 <= k < s.len() && s[k] == y;
                if k < p {
                    assert(r[k] == y);
                } else {
                    assert(r[k + 1] == y);
                }
            }
        }
    }
}

/// Sorts positions by the keys that stand at them; equal keys keep their order.
pub fn sort_order<K: Ranked>(keys: &Vec<K>) -> (out: Vec<usize>)
    ensures
        ints(out@) == sorted_order(keys@),
        in_order(keys@, ints(out@), keys@.len() as int),
        out@.len() == keys@.len(),
        forall|i: int| 0 <= i < out@.len() ==> #[trigger] out@[i] < keys@.len(),
{
    let mut out: Vec<usize> = Vec::new();
    let mut i: usize = 0;
    proof {
        assert(ints(out@) =~= Seq::<int>::empty());
    }
    while i < keys.len()
        invariant
            i <= keys@.len(),
            ints(out@) == order_of(keys@, i as nat),
            out@.len() == i,
            forall|k: int| 0 <= k < out@.len() ==> #[trigger] out@[k] < i,
        decreases keys@.len() - i,
    {
        let ghost sorted = ints(out@);
        let mut p: usize = out.len();
        proof {
            law_sorted_order(keys@, i as nat);
            assert(sorted.skip(p as int) =~= Seq::<int>::empty());
            assert(sorted.take(p as int) =~= sorted);
            assert(slot_in(keys@, sorted.take(p as int), i as int) + sorted.skip(p as int)
                =~= slot_in(keys@, sorted, i as int));
        }
        while p > 0 && keys[i].goes_before(&keys[out[p - 1]])
            invariant
                p <= out@.len(),
                i < keys@.len(),
                sorted == ints(out@),
                forall|k: int| 0 <= k < out@.len() ==> #[trigger] out@[k] < i,
                slot_in(keys@, sorted, i as int) == slot_in(keys@, sorted.take(p as int), i as int)
                    + sorted.skip(p as int),
            decreases p,
        {
            proof {
                let t = sorted.take(p as int);
                assert(t.last() == sorted[p - 1] == out@[p - 1] as int);
                assert(t.drop_last() =~= sorted.take(p - 1));
                assert(slot_in(keys@, sorted.take(p - 1), i as int).push(t.last()) + sorted.skip(
                    p as int,
                ) =~= slot_in(keys@, sorted.take(p - 1), i as int) + sorted.skip(p - 1));
            }
            p = p - 1;
        }
        proof {
            let t = sorted.take(p as int);
            if p > 0 {
                assert(t.last() == sorted[p - 1] == out@[p - 1] as int);
            }
            assert(slot_in(keys@, t, i as int) == t.push(i as int));
            assert(sorted.take(p as int).push(i as int) + sorted.skip(p as int) =~= ints(
                out@.insert(p as int, i),
            ));
        }
        out.insert(p, i);
        i = i + 1;
    }
    proof {
        law_sorted_order(keys@, keys@.len());
    }
    out
}

impl Ranked for String {
    open spec fn ranks_before(&self, other: &Self) -> bool {
        text::before(self@, other@)
    }

    fn goes_before(&self, other: &Self) -> (r: bool) {
        text::is_before(self.as_str(), other.as_str())
    }

    proof fn lemma_one_way(a: &Self, b: &Self) {
        if text::before(b@, a@) {
            text::lemma_before_transitive(a@, b@, a@);
            text::lemma_before_irreflexive(a@);
        }
    }

    proof fn lemma_chain(a: &Self, b: &Self, c: &Self) {
        if text::before(c@, a@) {
            text::lemma_before_total(a@, b@);
            text::lemma_before_total(b@, c@);
            if text::before(a@, b@) {
                text::lemma_before_transitive(c@, a@, b@);
            }
        }
    }
}

} // verus!
