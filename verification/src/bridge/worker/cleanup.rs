//! Which idle agents are ended.
use crate::chat::ThreadKey;
use crate::order::{self, Ranked};
use vstd::prelude::*;

verus! {

/// One agent that runs.
#[derive(Debug)]
pub struct IdleSnapshot {
    pub key: ThreadKey,
    /// How long ago it last worked.
    pub idle_ms: u64,
    /// Whether it may be ended. Not while it starts, owes an answer, waits for a person or is to end
    /// anyway, nor where nobody can tell how long it is idle.
    pub eligible: bool,
}

/// What an [`IdleSnapshot`] holds.
pub struct IdleView {
    pub key: Seq<char>,
    pub idle_ms: u64,
    pub eligible: bool,
}

impl View for IdleSnapshot {
    type V = IdleView;

    open spec fn view(&self) -> IdleView {
        IdleView { key: self.key@, idle_ms: self.idle_ms, eligible: self.eligible }
    }
}

impl Ranked for IdleSnapshot {
    open spec fn ranks_before(&self, other: &Self) -> bool {
        self.idle_ms > other.idle_ms
    }

    fn goes_before(&self, other: &Self) -> (r: bool) {
        self.idle_ms > other.idle_ms
    }

    proof fn lemma_one_way(a: &Self, b: &Self) {
    }

    proof fn lemma_chain(a: &Self, b: &Self, c: &Self) {
    }
}

/// How many agents may run, and how long they may be idle.
#[derive(Clone, Copy, Debug, PartialEq, Eq, Structural)]
pub struct CleanupPolicy {
    /// Idle for longer than this, an agent is cold.
    pub idle_ttl_ms: u64,
    /// How many may be cold.
    pub idle_slots: usize,
    /// Idle for longer than this, an agent is ended.
    pub idle_max_ms: u64,
    /// How many may run.
    pub max_concurrent: usize,
}

pub const IDLE_TTL_MS: u64 = 1_800_000;

pub const IDLE_SLOTS: usize = 5;

pub const IDLE_MAX_MS: u64 = 3_600_000;

pub const MAX_CONCURRENT: usize = 8;

impl CleanupPolicy {
    /// The policy the bridge runs with: half an hour, five, an hour, eight.
    pub fn standard() -> (p: CleanupPolicy)
        ensures
            p == (CleanupPolicy {
                idle_ttl_ms: IDLE_TTL_MS,
                idle_slots: IDLE_SLOTS,
                idle_max_ms: IDLE_MAX_MS,
                max_concurrent: MAX_CONCURRENT,
            }),
    {
        CleanupPolicy {
            idle_ttl_ms: IDLE_TTL_MS,
            idle_slots: IDLE_SLOTS,
            idle_max_ms: IDLE_MAX_MS,
            max_concurrent: MAX_CONCURRENT,
        }
    }
}

/// An agent may be ended, and has been idle for longer than a bound where there is one.
pub open spec fn may_go(s: IdleView, over_ms: Option<u64>) -> bool {
    s.eligible && match over_ms {
        Some(t) => s.idle_ms > t,
        None => true,
    }
}

/// The first of `s` that may go, at most `budget` of them, and the rest; both in their order.
pub open spec fn cut(s: Seq<IdleView>, budget: int, over_ms: Option<u64>) -> (
    Seq<IdleView>,
    Seq<IdleView>,
)
    decreases s.len(),
{
    if s.len() == 0 {
        (s, s)
    } else {
        let (out, kept) = cut(s.drop_last(), budget, over_ms);
        if may_go(s.last(), over_ms) && out.len() < budget {
            (out.push(s.last()), kept)
        } else {
            (out, kept.push(s.last()))
        }
    }
}

/// How many have been idle for longer than a bound.
pub open spec fn cold_count(s: Seq<IdleView>, over_ms: u64) -> nat
    decreases s.len(),
{
    if s.len() == 0 {
        0
    } else {
        cold_count(s.drop_last(), over_ms) + if s.last().idle_ms > over_ms {
            1nat
        } else {
            0nat
        }
    }
}

/// `a` less `b`, not below zero.
pub open spec fn less(a: int, b: int) -> int {
    if a > b {
        a - b
    } else {
        0
    }
}

/// The agents, longest idle first; those idle for equally long in their given order.
pub open spec fn coldest_first(s: Seq<IdleSnapshot>) -> Seq<IdleView> {
    order::sorted_order(s).map_values(|i: int| s[i]@)
}

/// The first rule: those idle for too long go, whatever room there is.
pub open spec fn first_cut(s: Seq<IdleView>, p: CleanupPolicy) -> (Seq<IdleView>, Seq<IdleView>) {
    cut(s, s.len() as int, Some(p.idle_max_ms))
}

/// The second rule: of those left, no more than the slots may be cold.
pub open spec fn second_cut(s: Seq<IdleView>, p: CleanupPolicy) -> (Seq<IdleView>, Seq<IdleView>) {
    let kept = first_cut(s, p).1;
    cut(
        kept,
        less(cold_count(kept, p.idle_ttl_ms) as int, p.idle_slots as int),
        Some(p.idle_ttl_ms),
    )
}

/// The third rule: of those left, no more than the limit may run, cold or not.
pub open spec fn third_cut(s: Seq<IdleView>, p: CleanupPolicy) -> (Seq<IdleView>, Seq<IdleView>) {
    let kept = second_cut(s, p).1;
    cut(kept, less(kept.len() as int, p.max_concurrent as int), None)
}

/// The agents that are ended, in the order of the rules.
pub open spec fn evicted(s: Seq<IdleView>, p: CleanupPolicy) -> Seq<IdleView> {
    first_cut(s, p).0 + second_cut(s, p).0 + third_cut(s, p).0
}

pub open spec fn idle_keys(s: Seq<IdleView>) -> Seq<Seq<char>> {
    s.map_values(|x: IdleView| x.key)
}

/// The snapshots at some positions.
pub open spec fn at(snaps: Seq<IdleSnapshot>, idx: Seq<usize>) -> Seq<IdleView> {
    idx.map_values(|i: usize| snaps[i as int]@)
}

fn cut_at(snaps: &Vec<IdleSnapshot>, idx: &Vec<usize>, budget: usize, over_ms: Option<u64>) -> (r: (
    Vec<usize>,
    Vec<usize>,
))
    requires
        forall|k: int| 0 <= k < idx@.len() ==> (#[trigger] idx@[k]) < snaps@.len(),
    ensures
        (at(snaps@, r.0@), at(snaps@, r.1@)) == cut(at(snaps@, idx@), budget as int, over_ms),
        forall|k: int| 0 <= k < r.0@.len() ==> (#[trigger] r.0@[k]) < snaps@.len(),
        forall|k: int| 0 <= k < r.1@.len() ==> (#[trigger] r.1@[k]) < snaps@.len(),
        r.0@.len() + r.1@.len() == idx@.len(),
{
    let ghost s = at(snaps@, idx@);
    let mut out: Vec<usize> = Vec::new();
    let mut kept: Vec<usize> = Vec::new();
    let mut i: usize = 0;
    proof {
        assert(s.take(0) =~= Seq::empty());
        assert(at(snaps@, out@) =~= Seq::empty());
    }
    while i < idx.len()
        invariant
            i <= idx@.len(),
            s == at(snaps@, idx@),
            (at(snaps@, out@), at(snaps@, kept@)) == cut(
                s.take(i as int),
                budget as int,
                over_ms,
            ),
            out@.len() + kept@.len() == i,
            forall|k: int| 0 <= k < idx@.len() ==> (#[trigger] idx@[k]) < snaps@.len(),
            forall|k: int| 0 <= k < out@.len() ==> (#[trigger] out@[k]) < snaps@.len(),
            forall|k: int| 0 <= k < kept@.len() ==> (#[trigger] kept@[k]) < snaps@.len(),
        decreases idx@.len() - i,
    {
        let x: usize = idx[i];
        let old_enough: bool = match over_ms {
            Some(t) => snaps[x].idle_ms > t,
            None => true,
        };
        proof {
            assert(s[i as int] == snaps@[x as int]@);
            assert(s.take(i + 1).drop_last() =~= s.take(i as int));
            assert(at(snaps@, out@).len() == out@.len());
        }
        if snaps[x].eligible && old_enough && out.len() < budget {
            let ghost before = at(snaps@, out@);
            out.push(x);
            proof {
                assert(at(snaps@, out@) =~= before.push(s[i as int]));
            }
        } else {
            let ghost before = at(snaps@, kept@);
            kept.push(x);
            proof {
                assert(at(snaps@, kept@) =~= before.push(s[i as int]));
            }
        }
        i = i + 1;
    }
    proof {
        assert(s.take(s.len() as int) =~= s);
    }
    (out, kept)
}

fn count_cold(snaps: &Vec<IdleSnapshot>, idx: &Vec<usize>, over_ms: u64) -> (n: usize)
    requires
        forall|k: int| 0 <= k < idx@.len() ==> (#[trigger] idx@[k]) < snaps@.len(),
    ensures
        n == cold_count(at(snaps@, idx@), over_ms),
{
    let ghost s = at(snaps@, idx@);
    let mut n: usize = 0;
    let mut i: usize = 0;
    proof {
        assert(s.take(0) =~= Seq::empty());
    }
    while i < idx.len()
        invariant
            i <= idx@.len(),
            n <= i,
            s == at(snaps@, idx@),
            n == cold_count(s.take(i as int), over_ms),
            forall|k: int| 0 <= k < idx@.len() ==> (#[trigger] idx@[k]) < snaps@.len(),
        decreases idx@.len() - i,
    {
        let x: usize = idx[i];
        proof {
            assert(s[i as int] == snaps@[x as int]@);
            assert(s.take(i + 1).drop_last() =~= s.take(i as int));
        }
        if snaps[x].idle_ms > over_ms {
            n = n + 1;
        }
        i = i + 1;
    }
    proof {
        assert(s.take(s.len() as int) =~= s);
    }
    n
}

fn minus(a: usize, b: usize) -> (r: usize)
    ensures
        r == less(a as int, b as int),
{
    if a > b {
        a - b
    } else {
        0
    }
}

fn push_keys(out: &mut Vec<ThreadKey>, snaps: &Vec<IdleSnapshot>, idx: &Vec<usize>)
    requires
        forall|k: int| 0 <= k < idx@.len() ==> (#[trigger] idx@[k]) < snaps@.len(),
    ensures
        final(out)@.map_values(|k: ThreadKey| k@) == old(out)@.map_values(|k: ThreadKey| k@)
            + idle_keys(at(snaps@, idx@)),
{
    let ghost first = out@.map_values(|k: ThreadKey| k@);
    let ghost all = idle_keys(at(snaps@, idx@));
    let mut i: usize = 0;
    proof {
        assert(first + all.take(0) =~= first);
    }
    while i < idx.len()
        invariant
            i <= idx@.len(),
            all == idle_keys(at(snaps@, idx@)),
            out@.map_values(|k: ThreadKey| k@) =~= first + all.take(i as int),
            forall|k: int| 0 <= k < idx@.len() ==> (#[trigger] idx@[k]) < snaps@.len(),
        decreases idx@.len() - i,
    {
        let x: usize = idx[i];
        let ghost before = out@;
        out.push(snaps[x].key.clone());
        proof {
            assert(all[i as int] == snaps@[x as int].key@);
            assert(out@.map_values(|k: ThreadKey| k@) =~= before.map_values(
                |k: ThreadKey| k@,
            ).push(all[i as int]));
        }
        i = i + 1;
    }
    proof {
        assert(all.take(all.len() as int) =~= all);
    }
}

/// The threads whose agents are ended. Three rules hold, one behind the other, each on what the one
/// before left, and each takes the longest idle first: who is idle for too long goes; beyond the
/// slots for cold agents the cold ones go; beyond the limit of agents any go. None is ended that may
/// not be.
pub fn select_cleanup_keys(snaps: Vec<IdleSnapshot>, p: &CleanupPolicy) -> (out: Vec<ThreadKey>)
    ensures
        out@.map_values(|k: ThreadKey| k@) == idle_keys(evicted(coldest_first(snaps@), *p)),
{
    let sorted: Vec<usize> = order::sort_order(&snaps);
    let ghost s = coldest_first(snaps@);
    proof {
        order::law_sorted_order(snaps@, snaps@.len());
        assert(at(snaps@, sorted@) =~= s) by {
            assert forall|k: int| 0 <= k < sorted@.len() implies #[trigger] at(snaps@, sorted@)[k]
                == s[k] by {
                assert(order::ints(sorted@)[k] == sorted@[k]);
            }
        }
        assert forall|k: int| 0 <= k < sorted@.len() implies (#[trigger] sorted@[k]) < snaps@.len() by {
            assert(order::ints(sorted@)[k] == sorted@[k]);
        }
    }
    let (out1, kept1) = cut_at(&snaps, &sorted, sorted.len(), Some(p.idle_max_ms));
    let cold: usize = count_cold(&snaps, &kept1, p.idle_ttl_ms);
    let surplus: usize = minus(cold, p.idle_slots);
    let (out2, kept2) = cut_at(&snaps, &kept1, surplus, Some(p.idle_ttl_ms));
    let over: usize = minus(kept2.len(), p.max_concurrent);
    let (out3, kept3) = cut_at(&snaps, &kept2, over, None);
    let mut out: Vec<ThreadKey> = Vec::new();
    proof {
        assert(out@.map_values(|k: ThreadKey| k@) =~= Seq::empty());
        assert(at(snaps@, kept2@).len() == kept2@.len());
        assert(s.len() == sorted@.len());
    }
    push_keys(&mut out, &snaps, &out1);
    push_keys(&mut out, &snaps, &out2);
    push_keys(&mut out, &snaps, &out3);
    proof {
        let a = first_cut(s, *p).0;
        let b = second_cut(s, *p).0;
        let c = third_cut(s, *p).0;
        assert(idle_keys(a + b + c) =~= Seq::<Seq<char>>::empty() + idle_keys(a) + idle_keys(b)
            + idle_keys(c));
    }
    out
}

// ── what holds of the choice ────────────────────────────────────────────────

proof fn lemma_cut(s: Seq<IdleView>, budget: int, over_ms: Option<u64>)
    requires
        budget >= 0,
    ensures
        ({
            let (out, kept) = cut(s, budget, over_ms);
            &&& out.len() <= budget
            &&& out.len() + kept.len() == s.len()
            &&& forall|i: int| 0 <= i < out.len() ==> may_go(#[trigger] out[i], over_ms)
            &&& forall|i: int| 0 <= i < out.len() ==> s.contains(#[trigger] out[i])
            &&& forall|i: int| 0 <= i < kept.len() ==> s.contains(#[trigger] kept[i])
            &&& out.len() < budget ==> forall|i: int|
                0 <= i < kept.len() ==> !may_go(#[trigger] kept[i], over_ms)
        }),
    decreases s.len(),
{
    if s.len() > 0 {
        let t = s.drop_last();
        lemma_cut(t, budget, over_ms);
        let (out, kept) = cut(s, budget, over_ms);
        let (o, k) = cut(t, budget, over_ms);
        assert(s.contains(s.last())) by {
            assert(s[s.len() - 1] == s.last());
        }
        assert forall|i: int| 0 <= i < out.len() implies s.contains(#[trigger] out[i]) by {
            if i < o.len() {
                assert(t.contains(o[i]));
                let j = choose|j: int| 0 <= j < t.len() && t[j] == o[i];
                assert(s[j] == o[i]);
            }
        }
        assert forall|i: int| 0 <= i < kept.len() implies s.contains(#[trigger] kept[i]) by {
            if i < k.len() {
                assert(t.contains(k[i]));
                let j = choose|j: int| 0 <= j < t.len() && t[j] == k[i];
                assert(s[j] == k[i]);
            }
        }
    }
}

/// An agent that may not be ended is not ended.
pub proof fn law_only_eligible_go(s: Seq<IdleView>, p: CleanupPolicy)
    ensures
        forall|i: int| 0 <= i < evicted(s, p).len() ==> (#[trigger] evicted(s, p)[i]).eligible,
{
    let kept1 = first_cut(s, p).1;
    let kept2 = second_cut(s, p).1;
    lemma_cut(s, s.len() as int, Some(p.idle_max_ms));
    lemma_cut(
        kept1,
        less(cold_count(kept1, p.idle_ttl_ms) as int, p.idle_slots as int),
        Some(p.idle_ttl_ms),
    );
    lemma_cut(kept2, less(kept2.len() as int, p.max_concurrent as int), None);
    let a = first_cut(s, p).0;
    let b = second_cut(s, p).0;
    let c = third_cut(s, p).0;
    assert forall|i: int| 0 <= i < evicted(s, p).len() implies (#[trigger] evicted(
        s,
        p,
    )[i]).eligible by {
        if i < a.len() {
            assert(may_go(a[i], Some(p.idle_max_ms)));
        } else if i < a.len() + b.len() {
            assert(may_go(b[i - a.len()], Some(p.idle_ttl_ms)));
        } else {
            assert(may_go(c[i - a.len() - b.len()], None));
        }
    }
}

proof fn lemma_no_cut(s: Seq<IdleView>, over_ms: Option<u64>)
    ensures
        cut(s, 0, over_ms) == (Seq::<IdleView>::empty(), s),
    decreases s.len(),
{
    if s.len() > 0 {
        lemma_no_cut(s.drop_last(), over_ms);
        assert(s.drop_last().push(s.last()) =~= s);
    } else {
        assert(s =~= Seq::empty());
    }
}

proof fn lemma_none_go(s: Seq<IdleView>, budget: int, over_ms: Option<u64>)
    requires
        forall|i: int| 0 <= i < s.len() ==> !may_go(#[trigger] s[i], over_ms),
    ensures
        cut(s, budget, over_ms) == (Seq::<IdleView>::empty(), s),
    decreases s.len(),
{
    if s.len() > 0 {
        let t = s.drop_last();
        assert forall|i: int| 0 <= i < t.len() implies !may_go(#[trigger] t[i], over_ms) by {
            assert(t[i] == s[i]);
        }
        lemma_none_go(t, budget, over_ms);
        assert(!may_go(s[s.len() - 1], over_ms));
        assert(t.push(s.last()) =~= s);
    } else {
        assert(s =~= Seq::empty());
    }
}

/// Within every limit no agent is ended.
pub proof fn law_within_limits_none_go(s: Seq<IdleView>, p: CleanupPolicy)
    requires
        forall|i: int| 0 <= i < s.len() ==> (#[trigger] s[i]).idle_ms <= p.idle_max_ms,
        cold_count(s, p.idle_ttl_ms) <= p.idle_slots,
        s.len() <= p.max_concurrent,
    ensures
        evicted(s, p).len() == 0,
{
    lemma_none_go(s, s.len() as int, Some(p.idle_max_ms));
    lemma_no_cut(s, Some(p.idle_ttl_ms));
    lemma_no_cut(s, None);
}

proof fn lemma_cold_left(s: Seq<IdleView>, budget: int, over_ms: u64)
    requires
        budget >= 0,
        forall|i: int| 0 <= i < s.len() ==> (#[trigger] s[i]).eligible,
    ensures
        cold_count(cut(s, budget, Some(over_ms)).1, over_ms) == cold_count(s, over_ms) - cut(
            s,
            budget,
            Some(over_ms),
        ).0.len(),
        cut(s, budget, Some(over_ms)).0.len() == if cold_count(s, over_ms) < budget {
            cold_count(s, over_ms) as int
        } else {
            budget
        },
    decreases s.len(),
{
    if s.len() > 0 {
        let t = s.drop_last();
        assert forall|i: int| 0 <= i < t.len() implies (#[trigger] t[i]).eligible by {
            assert(t[i] == s[i]);
        }
        lemma_cold_left(t, budget, over_ms);
        assert(s[s.len() - 1].eligible);
        let (out, kept) = cut(s, budget, Some(over_ms));
        let (o, k) = cut(t, budget, Some(over_ms));
        if !(may_go(s.last(), Some(over_ms)) && o.len() < budget) {
            assert(kept.drop_last() =~= k);
        }
    }
}

proof fn lemma_cold_shrinks(s: Seq<IdleView>, budget: int, over_ms: Option<u64>, ttl: u64)
    ensures
        cold_count(cut(s, budget, over_ms).1, ttl) <= cold_count(s, ttl),
    decreases s.len(),
{
    if s.len() > 0 {
        let t = s.drop_last();
        lemma_cold_shrinks(t, budget, over_ms, ttl);
        let (out, kept) = cut(s, budget, over_ms);
        let (o, k) = cut(t, budget, over_ms);
        if !(may_go(s.last(), over_ms) && o.len() < budget) {
            assert(kept.drop_last() =~= k);
        }
    }
}

proof fn lemma_all_go(s: Seq<IdleView>, budget: int)
    requires
        0 <= budget <= s.len(),
        forall|i: int| 0 <= i < s.len() ==> (#[trigger] s[i]).eligible,
    ensures
        cut(s, budget, None).0.len() == budget,
    decreases s.len(),
{
    if s.len() > 0 {
        let t = s.drop_last();
        assert forall|i: int| 0 <= i < t.len() implies (#[trigger] t[i]).eligible by {
            assert(t[i] == s[i]);
        }
        assert(s[s.len() - 1].eligible);
        if budget <= t.len() {
            lemma_all_go(t, budget);
        } else {
            lemma_cut(t, budget, None);
            lemma_all_out(t, budget);
        }
    }
}

proof fn lemma_all_out(s: Seq<IdleView>, budget: int)
    requires
        s.len() <= budget,
        forall|i: int| 0 <= i < s.len() ==> (#[trigger] s[i]).eligible,
    ensures
        cut(s, budget, None).0.len() == s.len(),
    decreases s.len(),
{
    if s.len() > 0 {
        let t = s.drop_last();
        assert forall|i: int| 0 <= i < t.len() implies (#[trigger] t[i]).eligible by {
            assert(t[i] == s[i]);
        }
        assert(s[s.len() - 1].eligible);
        lemma_all_out(t, budget);
    }
}

/// Where every agent may be ended, those left keep every limit: none is idle for too long, no more
/// than the slots are cold, and no more than the limit run.
pub proof fn law_limits_are_kept(s: Seq<IdleView>, p: CleanupPolicy)
    requires
        forall|i: int| 0 <= i < s.len() ==> (#[trigger] s[i]).eligible,
    ensures
        ({
            let left = third_cut(s, p).1;
            &&& left.len() <= p.max_concurrent
            &&& cold_count(left, p.idle_ttl_ms) <= p.idle_slots
            &&& forall|i: int| 0 <= i < left.len() ==> (#[trigger] left[i]).idle_ms <= p.idle_max_ms
            &&& left.len() + evicted(s, p).len() == s.len()
        }),
{
    let kept1 = first_cut(s, p).1;
    let kept2 = second_cut(s, p).1;
    let left = third_cut(s, p).1;
    let n = less(cold_count(kept1, p.idle_ttl_ms) as int, p.idle_slots as int);
    let m = less(kept2.len() as int, p.max_concurrent as int);
    lemma_cut(s, s.len() as int, Some(p.idle_max_ms));
    lemma_cut(kept1, n, Some(p.idle_ttl_ms));
    lemma_cut(kept2, m, None);
    assert forall|i: int| 0 <= i < kept1.len() implies (#[trigger] kept1[i]).eligible
        && kept1[i].idle_ms <= p.idle_max_ms by {
        assert(s.contains(kept1[i]));
        let j = choose|j: int| 0 <= j < s.len() && s[j] == kept1[i];
        assert(s[j].eligible);
        if kept1[i].idle_ms > p.idle_max_ms {
            assert(may_go(kept1[i], Some(p.idle_max_ms)));
        }
    }
    assert forall|i: int| 0 <= i < kept2.len() implies (#[trigger] kept2[i]).eligible
        && kept2[i].idle_ms <= p.idle_max_ms by {
        assert(kept1.contains(kept2[i]));
        let j = choose|j: int| 0 <= j < kept1.len() && kept1[j] == kept2[i];
        assert(kept1[j].eligible);
    }
    assert forall|i: int| 0 <= i < left.len() implies (#[trigger] left[i]).idle_ms
        <= p.idle_max_ms by {
        assert(kept2.contains(left[i]));
        let j = choose|j: int| 0 <= j < kept2.len() && kept2[j] == left[i];
        assert(kept2[j].eligible);
    }
    lemma_cold_left(kept1, n, p.idle_ttl_ms);
    lemma_all_go(kept2, m);
    lemma_cold_shrinks(kept2, m, None, p.idle_ttl_ms);
}

/// Each rule takes the longest idle first: whom it leaves, though that one might have gone, has been
/// idle for no longer than any it took.
pub proof fn law_coldest_go_first(s: Seq<IdleView>, budget: int, over_ms: Option<u64>)
    requires
        budget >= 0,
        forall|i: int, j: int|
            0 <= i < j < s.len() ==> (#[trigger] s[i]).idle_ms >= (#[trigger] s[j]).idle_ms,
    ensures
        ({
            let (out, kept) = cut(s, budget, over_ms);
            forall|i: int, j: int|
                0 <= i < out.len() && 0 <= j < kept.len() && may_go(#[trigger] kept[j], over_ms)
                    ==> (#[trigger] out[i]).idle_ms >= kept[j].idle_ms
        }),
    decreases s.len(),
{
    if s.len() > 0 {
        let t = s.drop_last();
        assert forall|i: int, j: int| 0 <= i < j < t.len() implies (#[trigger] t[i]).idle_ms >= (
        #[trigger] t[j]).idle_ms by {
            assert(t[i] == s[i] && t[j] == s[j]);
        }
        law_coldest_go_first(t, budget, over_ms);
        lemma_cut(t, budget, over_ms);
        let (out, kept) = cut(s, budget, over_ms);
        let (o, k) = cut(t, budget, over_ms);
        assert forall|i: int, j: int|
            0 <= i < out.len() && 0 <= j < kept.len() && may_go(
                #[trigger] kept[j],
                over_ms,
            ) implies (#[trigger] out[i]).idle_ms >= kept[j].idle_ms by {
            if i < o.len() && j >= k.len() {
                assert(t.contains(o[i]));
                let x = choose|x: int| 0 <= x < t.len() && t[x] == o[i];
                assert(s[x].idle_ms >= s[s.len() - 1].idle_ms);
            } else if i >= o.len() {
                assert(!may_go(k[j], over_ms));
            }
        }
    }
}

/// The agents are looked at longest idle first.
pub proof fn law_sorted_by_idle(s: Seq<IdleSnapshot>)
    ensures
        forall|i: int, j: int|
            0 <= i < j < coldest_first(s).len() ==> (#[trigger] coldest_first(s)[i]).idle_ms >= (
            #[trigger] coldest_first(s)[j]).idle_ms,
        coldest_first(s).len() == s.len(),
{
    order::law_sorted_order(s, s.len());
    let o = order::sorted_order(s);
    assert forall|i: int, j: int| 0 <= i < j < o.len() implies (#[trigger] coldest_first(
        s,
    )[i]).idle_ms >= (#[trigger] coldest_first(s)[j]).idle_ms by {
        assert(!s[o[j]].ranks_before(&s[o[i]]));
    }
}

} // verus!
