//! The watch for silence.
use crate::bridge::state::decide::StallAction;
use crate::bridge::state::ledger::{self, Ledger, LedgerView};
use crate::chat::slack::limits::SILENCE_MS;
use crate::chat::ThreadKey;
use crate::table::{self, Table};
use crate::text;
use vstd::prelude::*;

verus! {

/// One thread that is watched.
#[derive(Clone, Copy, Debug, PartialEq, Eq, Structural)]
pub struct Stall {
    /// When something last happened.
    pub last_activity_ms: u64,
    /// It is shown that the agent thinks.
    pub shown: bool,
    /// A person is asked for permission, so the agent is silent on purpose.
    pub awaiting_perm: bool,
}

/// What is done for a watched thread.
pub open spec fn act_for(s: Stall, owes: bool, now_ms: u64) -> StallAction {
    if !owes {
        StallAction::Settle
    } else if StallAction::is_due(
        s.last_activity_ms,
        now_ms,
        s.shown || s.awaiting_perm,
        true,
        SILENCE_MS,
    ) {
        StallAction::Fire
    } else {
        StallAction::Nothing
    }
}

/// What is done for the thread under a key.
pub open spec fn act_at(
    m: Map<Seq<char>, Stall>,
    l: LedgerView,
    k: Seq<char>,
    now_ms: u64,
) -> StallAction {
    act_for(m[k], l.at(k).len() > 0, now_ms)
}

/// The threads that are watched.
pub struct Stalls {
    rows: Table<Stall>,
}

impl View for Stalls {
    type V = Map<Seq<char>, Stall>;

    closed spec fn view(&self) -> Map<Seq<char>, Stall> {
        self.rows@
    }
}

/// A watched thread after a person was asked.
pub open spec fn suspended(s: Stall) -> Stall {
    Stall { awaiting_perm: true, shown: false, ..s }
}

/// A watched thread after a question was settled. Where a person answered, the silence is counted
/// anew; where nobody did it is not, until something happens.
pub open spec fn resumed(s: Stall, rearm: bool, now_ms: u64) -> Stall {
    Stall {
        awaiting_perm: false,
        shown: false,
        last_activity_ms: if rearm {
            now_ms
        } else {
            s.last_activity_ms
        },
    }
}

impl Stalls {
    /// No thread is watched.
    pub fn new() -> (s: Self)
        ensures
            s@ == Map::<Seq<char>, Stall>::empty(),
    {
        Stalls { rows: Table::new() }
    }

    /// Watches a thread.
    pub fn watch(&mut self, key: &ThreadKey, s: Stall)
        ensures
            final(self)@ == old(self)@.insert(key@, s),
    {
        let _ = self.rows.insert(key.as_str().to_owned(), s);
    }

    /// What is watched of a thread.
    pub fn get(&self, key: &ThreadKey) -> (r: Option<Stall>)
        ensures
            match r {
                Some(s) => self@.dom().contains(key@) && s == self@[key@],
                None => !self@.dom().contains(key@),
            },
    {
        match self.rows.get(key.as_str()) {
            Some(s) => Some(*s),
            None => None,
        }
    }

    /// Stops watching a thread; returns whether it was watched.
    pub fn stop(&mut self, key: &ThreadKey) -> (r: bool)
        ensures
            r == old(self)@.dom().contains(key@),
            final(self)@ == old(self)@.remove(key@),
    {
        self.rows.remove(key.as_str()).is_some()
    }

    /// A person is asked: the watch pauses. Returns whether what is shown is to be cleared.
    pub fn suspend_for_perm(&mut self, key: &ThreadKey) -> (clear: bool)
        ensures
            (clear, final(self)@) == suspended_in(old(self)@, key@),
    {
        match self.get(key) {
            Some(s) => {
                self.watch(
                    key,
                    Stall {
                        awaiting_perm: true,
                        shown: false,
                        last_activity_ms: s.last_activity_ms,
                    },
                );
                s.shown
            },
            None => false,
        }
    }

    /// A question was settled: the watch goes on. Returns whether what is shown is to be cleared.
    pub fn resume_after_perm(&mut self, key: &ThreadKey, rearm: bool, now_ms: u64) -> (clear: bool)
        ensures
            (clear, final(self)@) == resumed_in(old(self)@, key@, rearm, now_ms),
    {
        match self.get(key) {
            Some(s) => {
                let last_activity_ms: u64 = if rearm {
                    now_ms
                } else {
                    s.last_activity_ms
                };
                self.watch(
                    key,
                    Stall { awaiting_perm: false, shown: false, last_activity_ms },
                );
                s.shown
            },
            None => false,
        }
    }

    /// Looks at every watched thread once. One in which nothing waits for an answer is no longer
    /// watched; one that has been silent for long enough shows that its agent thinks. Returns what is
    /// done for each of those, in the order of the keys.
    pub fn tick(&mut self, ledger: &Ledger, now_ms: u64) -> (acts: Vec<(ThreadKey, StallAction)>)
        ensures
            forall|k: Seq<char>| #[trigger]
                final(self)@.dom().contains(k) <==> old(self)@.dom().contains(k) && act_at(
                    old(self)@,
                    ledger@,
                    k,
                    now_ms,
                ) != StallAction::Settle,
            forall|k: Seq<char>| #[trigger]
                final(self)@.dom().contains(k) ==> final(self)@[k] == if act_at(
                    old(self)@,
                    ledger@,
                    k,
                    now_ms,
                ) == StallAction::Fire {
                    Stall { shown: true, ..old(self)@[k] }
                } else {
                    old(self)@[k]
                },
            table::in_key_order(acts@.map_values(|a: (ThreadKey, StallAction)| a.0@)),
            forall|k: Seq<char>|
                old(self)@.dom().contains(k) && act_at(old(self)@, ledger@, k, now_ms)
                    != StallAction::Nothing ==> exists|i: int|
                    0 <= i < acts@.len() && (#[trigger] acts@[i]).0@ == k,
            forall|i: int|
                0 <= i < acts@.len() ==> old(self)@.dom().contains((#[trigger] acts@[i]).0@)
                    && acts@[i].1 == act_at(old(self)@, ledger@, acts@[i].0@, now_ms) && acts@[i].1
                    != StallAction::Nothing,
    {
        let ghost m = self@;
        let ghost l = ledger@;
        let n: usize = self.rows.len();
        let ghost rows = self.rows.entries();
        let mut acts: Vec<(ThreadKey, StallAction)> = Vec::new();
        let mut i: usize = 0;
        while i < n
            invariant
                i <= n == rows.len(),
                rows == self.rows.entries(),
                table::ascending(rows),
                m == self@,
                *self == *old(self),
                l == ledger@,
                forall|j: int|
                    0 <= j < acts@.len() ==> m.dom().contains((#[trigger] acts@[j]).0@)
                        && acts@[j].1 == act_at(m, l, acts@[j].0@, now_ms) && acts@[j].1
                        != StallAction::Nothing && is_row_before(rows, acts@[j].0@, i as int),
                forall|j: int|
                    0 <= j < i && act_at(m, l, (#[trigger] rows[j]).0, now_ms)
                        != StallAction::Nothing ==> has_act(acts@, rows[j].0),
                table::in_key_order(acts@.map_values(|a: (ThreadKey, StallAction)| a.0@)),
            decreases n - i,
        {
            let key: ThreadKey = ThreadKey::parse(self.rows.key_at(i).as_str());
            let s: Stall = *self.rows.value_at(i);
            let owed: Vec<String> = ledger.pending(&key);
            proof {
                assert(text::views(owed@).len() == l.at(key@).len());
                assert(m[key@] == s);
            }
            let act: StallAction = StallAction::of(
                owed.len() > 0,
                s.last_activity_ms,
                now_ms,
                s.shown || s.awaiting_perm,
                SILENCE_MS,
            );
            let ghost before = acts@;
            if act != StallAction::Nothing {
                acts.push((key, act));
            }
            proof {
                let kv = acts@.map_values(|a: (ThreadKey, StallAction)| a.0@);
                assert forall|a: int, b: int| 0 <= a < b < kv.len() implies text::before(
                    #[trigger] kv[a],
                    #[trigger] kv[b],
                ) by {
                    let bv = before.map_values(|a: (ThreadKey, StallAction)| a.0@);
                    if b < before.len() {
                        assert(bv[a] == kv[a] && bv[b] == kv[b]);
                    } else {
                        assert(acts@[a] == before[a]);
                        assert(is_row_before(rows, before[a].0@, i as int));
                        let j = choose|j: int|
                            0 <= j < i && (#[trigger] rows[j]).0 == before[a].0@;
                        assert(text::before(rows[j].0, rows[i as int].0));
                    }
                }
                assert forall|j: int|
                    0 <= j < acts@.len() implies m.dom().contains((#[trigger] acts@[j]).0@)
                    && acts@[j].1 == act_at(m, l, acts@[j].0@, now_ms) && acts@[j].1
                    != StallAction::Nothing && is_row_before(rows, acts@[j].0@, i + 1) by {
                    if j < before.len() {
                        assert(acts@[j] == before[j]);
                        let x = choose|x: int|
                            0 <= x < i && (#[trigger] rows[x]).0 == before[j].0@;
                        assert(rows[x].0 == acts@[j].0@);
                    } else {
                        assert(rows[i as int].0 == acts@[j].0@);
                    }
                }
                assert forall|j: int|
                    0 <= j < i + 1 && act_at(m, l, (#[trigger] rows[j]).0, now_ms)
                        != StallAction::Nothing implies has_act(acts@, rows[j].0) by {
                    if j < i {
                        assert(has_act(before, rows[j].0));
                        let x = choose|x: int|
                            0 <= x < before.len() && (#[trigger] before[x]).0@ == rows[j].0;
                        assert(acts@[x] == before[x]);
                    } else {
                        assert(acts@[before.len() as int].0@ == rows[j].0);
                    }
                }
            }
            i = i + 1;
        }
        proof {
            assert forall|k: Seq<char>|
                m.dom().contains(k) && act_at(m, l, k, now_ms)
                    != StallAction::Nothing implies has_act(acts@, k) by {
                let j = choose|j: int| table::has_row(rows, k, j);
                assert(rows[j].0 == k);
            }
        }
        let mut x: usize = 0;
        while x < acts.len()
            invariant
                x <= acts@.len(),
                m == old(self)@,
                l == ledger@,
                forall|j: int|
                    0 <= j < acts@.len() ==> m.dom().contains((#[trigger] acts@[j]).0@)
                        && acts@[j].1 == act_at(m, l, acts@[j].0@, now_ms) && acts@[j].1
                        != StallAction::Nothing,
                table::in_key_order(acts@.map_values(|a: (ThreadKey, StallAction)| a.0@)),
                forall|k: Seq<char>| #[trigger]
                    self@.dom().contains(k) <==> m.dom().contains(k) && !(act_at(m, l, k, now_ms)
                        == StallAction::Settle && has_act(acts@.take(x as int), k)),
                forall|k: Seq<char>| #[trigger]
                    self@.dom().contains(k) ==> self@[k] == if act_at(m, l, k, now_ms)
                        == StallAction::Fire && has_act(acts@.take(x as int), k) {
                        Stall { shown: true, ..m[k] }
                    } else {
                        m[k]
                    },
            decreases acts@.len() - x,
        {
            let ghost kx = acts@[x as int].0@;
            let ghost was = self@;
            let ghost t0 = acts@.take(x as int);
            let ghost t1 = acts@.take(x + 1);
            proof {
                let kv = acts@.map_values(|a: (ThreadKey, StallAction)| a.0@);
                assert(!has_act(t0, kx)) by {
                    if has_act(t0, kx) {
                        let j = choose|j: int| 0 <= j < t0.len() && (#[trigger] t0[j]).0@ == kx;
                        assert(kv[j] == kx && kv[x as int] == kx);
                        text::lemma_before_irreflexive(kx);
                    }
                }
                assert forall|k: Seq<char>| #[trigger] has_act(t1, k) <==> has_act(t0, k) || k
                    == kx by {
                    if has_act(t1, k) {
                        let j = choose|j: int| 0 <= j < t1.len() && (#[trigger] t1[j]).0@ == k;
                        if j < x {
                            assert(t0[j] == t1[j]);
                        }
                    }
                    if has_act(t0, k) {
                        let j = choose|j: int| 0 <= j < t0.len() && (#[trigger] t0[j]).0@ == k;
                        assert(t1[j] == t0[j]);
                    }
                    if k == kx {
                        assert(t1[x as int].0@ == k);
                    }
                }
                assert(m.dom().contains(kx));
                assert(was.dom().contains(kx));
            }
            match acts[x].1 {
                StallAction::Settle => {
                    let _ = self.stop(&acts[x].0);
                },
                StallAction::Fire => {
                    match self.get(&acts[x].0) {
                        Some(s) => {
                            let shown: Stall = Stall {
                                shown: true,
                                last_activity_ms: s.last_activity_ms,
                                awaiting_perm: s.awaiting_perm,
                            };
                            self.watch(&acts[x].0, shown);
                        },
                        None => {},
                    }
                },
                StallAction::Nothing => {},
            }
            x = x + 1;
        }
        proof {
            assert(acts@.take(acts@.len() as int) =~= acts@);
        }
        acts
    }
}

spec fn is_row_before(rows: Seq<(Seq<char>, Stall)>, k: Seq<char>, n: int) -> bool {
    exists|j: int| 0 <= j < n && (#[trigger] rows[j]).0 == k
}

spec fn has_act(acts: Seq<(ThreadKey, StallAction)>, k: Seq<char>) -> bool {
    exists|i: int| 0 <= i < acts.len() && (#[trigger] acts[i]).0@ == k
}

// ── what holds of the watch ─────────────────────────────────────────────────

/// While a person is asked nothing is shown, however long the agent is silent; but a thread in which
/// nothing waits for an answer is settled all the same.
pub proof fn law_asking_is_not_silence(s: Stall, owes: bool, now_ms: u64)
    ensures
        act_for(suspended(s), owes, now_ms) == if owes {
            StallAction::Nothing
        } else {
            StallAction::Settle
        },
{
}

/// What is shown is shown once.
pub proof fn law_shown_once(s: Stall, now_ms: u64, later_ms: u64)
    requires
        act_for(s, true, now_ms) == StallAction::Fire,
    ensures
        act_for((Stall { shown: true, ..s }), true, later_ms) == StallAction::Nothing,
{
}

/// Whether a note is to be cleared, and the watch, when a person is asked.
pub open spec fn suspended_in(m: Map<Seq<char>, Stall>, k: Seq<char>) -> (
    bool,
    Map<Seq<char>, Stall>,
) {
    if m.dom().contains(k) {
        (m[k].shown, m.insert(k, suspended(m[k])))
    } else {
        (false, m)
    }
}

/// Whether a note is to be cleared, and the watch, when the person answered or the wait is over.
pub open spec fn resumed_in(m: Map<Seq<char>, Stall>, k: Seq<char>, rearm: bool, now_ms: u64) -> (
    bool,
    Map<Seq<char>, Stall>,
) {
    if m.dom().contains(k) {
        (m[k].shown, m.insert(k, resumed(m[k], rearm, now_ms)))
    } else {
        (false, m)
    }
}

/// While a person is asked nothing is shown, and what was shown is cleared; then the watch goes on, from
/// now where it is set anew and else from where it stood. Other threads' watches are not touched, and
/// none is begun.
pub proof fn law_watch_rests_while_asking(
    m: Map<Seq<char>, Stall>,
    k: Seq<char>,
    rearm: bool,
    now_ms: u64,
    other: Seq<char>,
)
    requires
        m.dom().contains(k),
    ensures
        ({
            let (clear, asked) = suspended_in(m, k);
            let (again, after) = resumed_in(asked, k, rearm, now_ms);
            &&& clear == m[k].shown
            &&& asked[k].awaiting_perm && !asked[k].shown
            &&& asked[k].last_activity_ms == m[k].last_activity_ms
            &&& !again
            &&& !after[k].awaiting_perm && !after[k].shown
            &&& rearm ==> after[k].last_activity_ms == now_ms
            &&& !rearm ==> after[k].last_activity_ms == m[k].last_activity_ms
            &&& resumed_in(m, k, rearm, now_ms).0 == m[k].shown
            &&& other != k ==> asked[other] == m[other] && after[other] == m[other]
            &&& asked.dom() == m.dom() && after.dom() == m.dom()
        }),
        !m.dom().contains(other) ==> suspended_in(m, other) == (false, m) && resumed_in(
            m,
            other,
            rearm,
            now_ms,
        ) == (false, m),
{
    assert(suspended_in(m, k).1.dom() =~= m.dom());
    assert(resumed_in(suspended_in(m, k).1, k, rearm, now_ms).1.dom() =~= m.dom());
}

/// A watch fires after three seconds of silence where an answer is owed, nothing is shown yet and nobody
/// is asked; where no answer is owed it ends, whatever else holds.
pub proof fn law_when_silence_shows(s: Stall, owes: bool, now_ms: u64)
    ensures
        act_for(s, owes, now_ms) == StallAction::Settle <==> !owes,
        act_for(s, owes, now_ms) == StallAction::Fire <==> owes && !s.shown && !s.awaiting_perm
            && now_ms >= s.last_activity_ms + 3000,
        act_for(s, owes, now_ms) == StallAction::Nothing <==> owes && (s.shown || s.awaiting_perm
            || now_ms < s.last_activity_ms + 3000),
{
}

/// An answer is owed where the thread has a message that is open.
pub proof fn law_what_is_owed(
    m: Map<Seq<char>, Stall>,
    l: LedgerView,
    k: Seq<char>,
    now_ms: u64,
)
    ensures
        l.by_key.dom().contains(k) && l.by_key[k].len() >= 1 ==> act_at(m, l, k, now_ms)
            != StallAction::Settle,
        !l.by_key.dom().contains(k) ==> act_at(m, l, k, now_ms) == StallAction::Settle,
{
}

} // verus!
