//! The rounds that are made over all agents: taking over those of an earlier process, filling the
//! pool, giving up on those that do not come up, and ending an idle one.
use super::cleanup::{
    coldest_first,
    evicted,
    idle_keys,
    select_cleanup_keys,
    CleanupPolicy,
    IdleSnapshot,
};
use super::seats::{PoolWorker, PoolWorkerView, Workers, WorkersView};
use super::steps::{
    adopted,
    drop_untargeted,
    give_up_pool,
    idle_snapshots,
    idle_views,
    is_owned,
    judged_all,
    keys_of,
    overdue,
    overdue_pools,
    owned_sessions,
    pool_start,
    restore_pool,
    start_for,
    stray_reason,
    stray_window,
    untargeted,
    with_started,
    LiveAgent,
    PoolStart,
    PoolStartView,
    Stray,
    WindowRow,
};
use crate::bridge::state::decide::PoolRestore;
use crate::bridge::state::ledger::Ledger;
use crate::bridge::state::pool_key::{pool_key_of, PoolKey};
use crate::bridge::state::pools::Pools;
use crate::bridge::state::threads::{key_views, EntryView, Threads};
use crate::chat::ThreadKey;
use crate::text;
use vstd::prelude::*;

verus! {

// ── the pool at the start ───────────────────────────────────────────────────

/// What becomes of an agent that was named for a directory.
pub open spec fn fate(
    targets: Seq<Seq<char>>,
    alive: Seq<Seq<char>>,
    row: (Seq<char>, Seq<char>),
) -> PoolRestore {
    if !targets.contains(row.0) {
        PoolRestore::Discard
    } else if alive.contains(row.1) {
        PoolRestore::Adopt
    } else {
        PoolRestore::Respawn
    }
}

/// The agents after those that were named and are alive were taken over.
pub open spec fn taken_over(
    w: WorkersView,
    rows: Seq<(Seq<char>, Seq<char>)>,
    targets: Seq<Seq<char>>,
    alive: Seq<Seq<char>>,
    now_ms: u64,
) -> WorkersView
    decreases rows.len(),
{
    if rows.len() == 0 {
        w
    } else {
        let rest = taken_over(w, rows.drop_last(), targets, alive, now_ms);
        if fate(targets, alive, rows.last()) == PoolRestore::Adopt {
            adopted(rest, rows.last().0, rows.last().1, now_ms)
        } else {
            rest
        }
    }
}

/// The names after those of directories that are no targets were dropped.
pub open spec fn still_named(
    named: Map<Seq<char>, Seq<char>>,
    rows: Seq<(Seq<char>, Seq<char>)>,
    targets: Seq<Seq<char>>,
) -> Map<Seq<char>, Seq<char>>
    decreases rows.len(),
{
    if rows.len() == 0 {
        named
    } else {
        let rest = still_named(named, rows.drop_last(), targets);
        if targets.contains(rows.last().0) {
            rest
        } else {
            rest.remove(rows.last().0)
        }
    }
}

/// One named agent and what becomes of it.
#[derive(Debug)]
pub struct Restored {
    pub cwd: String,
    pub session_id: String,
    pub what: PoolRestore,
}

pub open spec fn restored_views(v: Seq<Restored>) -> Seq<(Seq<char>, Seq<char>, PoolRestore)> {
    v.map_values(|r: Restored| (r.cwd@, r.session_id@, r.what))
}

/// The named agents and what becomes of each.
pub open spec fn fates(
    rows: Seq<(Seq<char>, Seq<char>)>,
    targets: Seq<Seq<char>>,
    alive: Seq<Seq<char>>,
) -> Seq<(Seq<char>, Seq<char>, PoolRestore)> {
    rows.map_values(
        |row: (Seq<char>, Seq<char>)| (row.0, row.1, fate(targets, alive, row)),
    )
}

/// Takes up the pool of an earlier process. `alive` are the sessions that have a process. Returns
/// what becomes of each named agent; one that is discarded though it is alive is to be torn down.
pub fn restore_pools(
    workers: &mut Workers,
    pools: &mut Pools,
    targets: &[String],
    alive: &[String],
    now_ms: u64,
) -> (out: Vec<Restored>)
    ensures
        restored_views(out@) == fates(
            old(pools).pairs(),
            text::views(targets@),
            text::views(alive@),
        ),
        final(workers)@ == taken_over(
            old(workers)@,
            old(pools).pairs(),
            text::views(targets@),
            text::views(alive@),
            now_ms,
        ),
        final(pools)@ == still_named(old(pools)@, old(pools).pairs(), text::views(targets@)),
{
    let rows: Vec<(String, String)> = pools.rows();
    let ghost all = pools.pairs();
    let ghost tv = text::views(targets@);
    let ghost av = text::views(alive@);
    let mut out: Vec<Restored> = Vec::new();
    let mut i: usize = 0;
    proof {
        assert(all.take(0) =~= Seq::empty());
        assert(restored_views(out@) =~= fates(all.take(0), tv, av));
    }
    while i < rows.len()
        invariant
            i <= rows@.len(),
            all == text::pair_views(rows@),
            tv == text::views(targets@),
            av == text::views(alive@),
            restored_views(out@) =~= fates(all.take(i as int), tv, av),
            workers@ == taken_over(old(workers)@, all.take(i as int), tv, av, now_ms),
            pools@ == still_named(old(pools)@, all.take(i as int), tv),
        decreases rows@.len() - i,
    {
        let cwd: &str = rows[i].0.as_str();
        let sid: &str = rows[i].1.as_str();
        proof {
            assert(all[i as int] == (cwd@, sid@));
            assert(all.take(i + 1).drop_last() =~= all.take(i as int));
            assert(all.take(i + 1).last() == all[i as int]);
        }
        let ghost before = out@;
        let what: PoolRestore = restore_pool(
            workers,
            pools,
            targets,
            cwd,
            sid,
            text::among(alive, sid),
            now_ms,
        );
        out.push(Restored { cwd: rows[i].0.clone(), session_id: rows[i].1.clone(), what });
        proof {
            assert(restored_views(out@) =~= restored_views(before).push((cwd@, sid@, what)));
            assert(fates(all.take(i + 1), tv, av) =~= fates(all.take(i as int), tv, av).push(
                (cwd@, sid@, fate(tv, av, all[i as int])),
            ));
        }
        i = i + 1;
    }
    proof {
        assert(all.take(all.len() as int) =~= all);
    }
    out
}

// ── filling the pool ────────────────────────────────────────────────────────

/// A round that fills the pool: the directories that are still to be looked at.
#[derive(Debug)]
pub struct PoolRound {
    targets: Vec<String>,
    at: usize,
}

impl View for PoolRound {
    type V = Seq<Seq<char>>;

    closed spec fn view(&self) -> Seq<Seq<char>> {
        if self.at <= self.targets@.len() {
            text::views(self.targets@).skip(self.at as int)
        } else {
            Seq::empty()
        }
    }
}

impl PoolRound {
    /// Begins a round. The waiting agents of directories that are no targets go, at any time; while
    /// the use of the service is limited no directory is looked at. Returns the keys and sessions of
    /// those that went.
    pub fn begin(
        workers: &mut Workers,
        targets: Vec<String>,
        now_ms: u64,
        limited_until_ms: u64,
    ) -> (r: (Vec<(PoolKey, String)>, PoolRound))
        ensures
            r.0@.map_values(|p: (PoolKey, String)| (p.0@, p.1@)) == untargeted(
                old(workers).pool_list(),
                keys_of(text::views(targets@)),
            ),
            forall|k: Seq<char>| #[trigger]
                final(workers)@.pools.dom().contains(k) <==> old(workers)@.pools.dom().contains(k)
                    && keys_of(text::views(targets@)).contains(k),
            forall|k: Seq<char>| #[trigger]
                final(workers)@.pools.dom().contains(k) ==> final(workers)@.pools[k]
                    == old(workers)@.pools[k],
            final(workers)@ == (WorkersView { pools: final(workers)@.pools, ..old(workers)@ }),
            r.1@ == if now_ms < limited_until_ms {
                Seq::empty()
            } else {
                text::views(targets@)
            },
    {
        let gone: Vec<(PoolKey, String)> = drop_untargeted(workers, targets.as_slice());
        let ghost all = text::views(targets@);
        let at: usize = if super::steps::may_launch(now_ms, limited_until_ms) {
            0
        } else {
            targets.len()
        };
        let round: PoolRound = PoolRound { targets, at };
        proof {
            assert(all.len() == targets@.len());
            assert(all.skip(0) =~= all);
            assert(all.skip(all.len() as int) =~= Seq::empty());
        }
        (gone, round)
    }

    /// The directory that is looked at next.
    pub fn next(&self) -> (r: Option<&str>)
        ensures
            match r {
                Some(cwd) => self@.len() > 0 && cwd@ == self@[0],
                None => self@.len() == 0,
            },
    {
        proof {
            assert(text::views(self.targets@).len() == self.targets@.len());
        }
        if self.at < self.targets.len() {
            Some(self.targets[self.at].as_str())
        } else {
            None
        }
    }

    /// Decides what is done for the directory that is looked at, and goes on to the next one; none
    /// where the round is over. `exists_there` says whether it is there, and `resumable` whether the
    /// session named for it has a conversation to take up.
    pub fn decide(
        &mut self,
        workers: &Workers,
        pools: &Pools,
        exists_there: bool,
        resumable: bool,
    ) -> (r: Option<PoolStart>)
        ensures
            match r {
                Some(start) => old(self)@.len() > 0 && start@ == start_for(
                    workers@,
                    pools@,
                    old(self)@[0],
                    exists_there,
                    resumable,
                ) && final(self)@ == old(self)@.drop_first(),
                None => old(self)@.len() == 0 && final(self)@ == old(self)@,
            },
    {
        proof {
            assert(text::views(self.targets@).len() == self.targets@.len());
        }
        if self.at < self.targets.len() {
            let start: PoolStart = pool_start(
                workers,
                pools,
                self.targets[self.at].as_str(),
                exists_there,
                resumable,
            );
            self.at = self.at + 1;
            proof {
                assert(self@ =~= old(self)@.drop_first());
            }
            Some(start)
        } else {
            None
        }
    }
}

/// One directory of a round: what is found there, the session that is begun where a new one is, and
/// the window it gets; none where the start fails.
pub struct Visit {
    pub cwd: Seq<char>,
    pub exists_there: bool,
    pub resumable: bool,
    pub new_session: Seq<char>,
    pub window_id: Option<Seq<char>>,
}

/// What is known of agents and names after a round.
pub open spec fn after_visits(
    w: WorkersView,
    named: Map<Seq<char>, Seq<char>>,
    visits: Seq<Visit>,
    now_ms: u64,
) -> (WorkersView, Map<Seq<char>, Seq<char>>)
    decreases visits.len(),
{
    if visits.len() == 0 {
        (w, named)
    } else {
        let (a, n) = after_visits(w, named, visits.drop_last(), now_ms);
        let v = visits.last();
        match v.window_id {
            None => (a, n),
            Some(win) => match start_for(a, n, v.cwd, v.exists_there, v.resumable) {
                PoolStartView::Resume(sid) => (with_started(a, v.cwd, sid, win, now_ms, true), n),
                PoolStartView::Launch => (
                    with_started(a, v.cwd, v.new_session, win, now_ms, false),
                    n.insert(v.cwd, v.new_session),
                ),
                _ => (a, n),
            },
        }
    }
}

/// A round fills the pool: each directory that is there, and whose start works, has an agent
/// afterwards or was given up on.
pub proof fn law_round_fills(
    w: WorkersView,
    named: Map<Seq<char>, Seq<char>>,
    visits: Seq<Visit>,
    now_ms: u64,
    i: int,
)
    requires
        0 <= i < visits.len(),
        visits[i].exists_there,
        visits[i].window_id is Some,
    ensures
        ({
            let (a, n) = after_visits(w, named, visits, now_ms);
            let key = pool_key_of(visits[i].cwd);
            a.pools.dom().contains(key) || a.gave_up.contains(key)
        }),
    decreases visits.len(),
{
    if i < visits.len() - 1 {
        assert(visits.drop_last()[i] == visits[i]);
        law_round_fills(w, named, visits.drop_last(), now_ms, i);
    }
}

/// A round leaves the agents that wait where they are.
pub proof fn law_round_keeps(
    w: WorkersView,
    named: Map<Seq<char>, Seq<char>>,
    visits: Seq<Visit>,
    now_ms: u64,
    key: Seq<char>,
)
    requires
        w.pools.dom().contains(key),
    ensures
        ({
            let (a, n) = after_visits(w, named, visits, now_ms);
            a.pools.dom().contains(key) && a.pools[key] == w.pools[key]
        }),
    decreases visits.len(),
{
    if visits.len() > 0 {
        law_round_keeps(w, named, visits.drop_last(), now_ms, key);
    }
}

// ── giving up ───────────────────────────────────────────────────────────────

/// The agents and names after it was given up on the agents of some keys.
pub open spec fn given_up(
    w: WorkersView,
    named: Map<Seq<char>, Seq<char>>,
    keys: Seq<Seq<char>>,
) -> (WorkersView, Map<Seq<char>, Seq<char>>)
    decreases keys.len(),
{
    if keys.len() == 0 {
        (w, named)
    } else {
        let (a, n) = given_up(w, named, keys.drop_last());
        let key = keys.last();
        if a.pools.dom().contains(key) {
            let p = a.pools[key];
            (
                WorkersView {
                    pools: a.pools.remove(key),
                    gave_up: if p.resumed {
                        a.gave_up
                    } else {
                        a.gave_up.insert(key)
                    },
                    ..a
                },
                if p.resumed {
                    n.remove(p.cwd)
                } else {
                    n
                },
            )
        } else {
            (a, n)
        }
    }
}

/// The agents that it is given up on, with their keys.
pub open spec fn torn_down(
    w: WorkersView,
    named: Map<Seq<char>, Seq<char>>,
    keys: Seq<Seq<char>>,
) -> Seq<(Seq<char>, PoolWorkerView)>
    decreases keys.len(),
{
    if keys.len() == 0 {
        Seq::empty()
    } else {
        let rest = torn_down(w, named, keys.drop_last());
        let (a, n) = given_up(w, named, keys.drop_last());
        if a.pools.dom().contains(keys.last()) {
            rest.push((keys.last(), a.pools[keys.last()]))
        } else {
            rest
        }
    }
}

pub open spec fn torn_views(v: Seq<(PoolKey, PoolWorker)>) -> Seq<(Seq<char>, PoolWorkerView)> {
    v.map_values(|p: (PoolKey, PoolWorker)| (p.0@, p.1@))
}

/// Gives up on the waiting agents that have not brought up their tools in time. Returns them, to be
/// torn down.
pub fn give_up_stale_pools(workers: &mut Workers, pools: &mut Pools, now_ms: u64) -> (out: Vec<
    (PoolKey, PoolWorker),
>)
    ensures
        ({
            let keys = overdue(old(workers)@, old(workers).pool_list(), now_ms);
            &&& torn_views(out@) == torn_down(old(workers)@, old(pools)@, keys)
            &&& (final(workers)@, final(pools)@) == given_up(old(workers)@, old(pools)@, keys)
        }),
{
    let stale: Vec<PoolKey> = overdue_pools(workers, now_ms);
    let ghost all = overdue(workers@, workers.pool_list(), now_ms);
    let mut out: Vec<(PoolKey, PoolWorker)> = Vec::new();
    let mut i: usize = 0;
    proof {
        assert(all.take(0) =~= Seq::empty());
        assert(torn_views(out@) =~= Seq::empty());
    }
    while i < stale.len()
        invariant
            i <= stale@.len(),
            all == stale@.map_values(|k: PoolKey| k@),
            torn_views(out@) == torn_down(old(workers)@, old(pools)@, all.take(i as int)),
            (workers@, pools@) == given_up(old(workers)@, old(pools)@, all.take(i as int)),
        decreases stale@.len() - i,
    {
        proof {
            assert(all.take(i + 1).drop_last() =~= all.take(i as int));
            assert(all.take(i + 1).last() == all[i as int]);
        }
        let ghost before = out@;
        match give_up_pool(workers, pools, &stale[i]) {
            Some(p) => {
                let ghost pv = p@;
                out.push((stale[i].clone(), p));
                proof {
                    assert(torn_views(out@) =~= torn_views(before).push((all[i as int], pv)));
                }
            },
            None => {},
        }
        i = i + 1;
    }
    proof {
        assert(all.take(all.len() as int) =~= all);
    }
    out
}

// ── windows without an owner ────────────────────────────────────────────────

/// Some session has an owner.
pub open spec fn anyone_owns(
    threads: Map<Seq<char>, EntryView>,
    waiting: Seq<(Seq<char>, PoolWorkerView)>,
    named: Seq<(Seq<char>, Seq<char>)>,
) -> bool {
    exists|sid: Seq<char>| #[trigger] is_owned(threads, waiting, named, sid)
}

/// Why a window is closed, if it is: not where it is no agent's, nor while its agent starts.
pub open spec fn stray_of(
    threads: Map<Seq<char>, EntryView>,
    waiting: Seq<(Seq<char>, PoolWorkerView)>,
    named: Seq<(Seq<char>, Seq<char>)>,
    w: WorkersView,
    row: WindowRow,
) -> Option<Stray> {
    match row.session {
        Some(s) => if w.starting.contains(s@) {
            None
        } else if row.is_empty_shell {
            Some(Stray::Empty)
        } else if !is_owned(threads, waiting, named, s@) {
            Some(Stray::Ownerless)
        } else {
            None
        },
        None => None,
    }
}

/// The window that is closed in this round, and why: the first that is a stray. Where nobody owns
/// anything none is: it is the memory that was lost, and not the owners.
pub fn reap_stray_windows(
    threads: &Threads,
    workers: &Workers,
    pools: &Pools,
    rows: &[WindowRow],
) -> (r: Option<(usize, Stray)>)
    ensures
        ({
            let t = threads@;
            let l = workers.pool_list();
            let n = pools.pairs();
            match r {
                Some((i, why)) => {
                    &&& anyone_owns(t, l, n)
                    &&& i < rows@.len()
                    &&& stray_of(t, l, n, workers@, rows@[i as int]) == Some(why)
                    &&& forall|j: int|
                        0 <= j < i ==> stray_of(t, l, n, workers@, #[trigger] rows@[j]) is None
                },
                None => anyone_owns(t, l, n) ==> forall|j: int|
                    0 <= j < rows@.len() ==> stray_of(
                        t,
                        l,
                        n,
                        workers@,
                        #[trigger] rows@[j],
                    ) is None,
            }
        }),
{
    let owned: Vec<String> = owned_sessions(threads, workers, pools);
    let ghost ov = text::views(owned@);
    proof {
        let t = threads@;
        let l = workers.pool_list();
        let n = pools.pairs();
        assert(ov.len() == owned@.len());
        if ov.len() > 0 {
            assert(ov.contains(ov[0]));
            assert(is_owned(t, l, n, ov[0]));
        }
        if anyone_owns(t, l, n) {
            let sid = choose|sid: Seq<char>| #[trigger] is_owned(t, l, n, sid);
            assert(ov.contains(sid));
        }
        assert forall|j: int| 0 <= j < rows@.len() implies stray_reason(
            ov,
            workers@,
            #[trigger] rows@[j],
        ) == stray_of(t, l, n, workers@, rows@[j]) by {
            match rows@[j].session {
                Some(s) => {
                    assert(ov.contains(s@) == is_owned(t, l, n, s@));
                },
                None => {},
            }
        }
    }
    stray_window(owned.as_slice(), workers, rows)
}

// ── ending an idle agent ────────────────────────────────────────────────────

/// The first of the agents that the policy ends.
pub open spec fn first_to_go(s: Seq<IdleSnapshot>, p: CleanupPolicy) -> Option<Seq<char>> {
    let keys = idle_keys(evicted(coldest_first(s), p));
    if keys.len() > 0 {
        Some(keys[0])
    } else {
        None
    }
}

/// The thread whose agent is ended in this round, if one is: of those that the policy ends the first,
/// so the longest idle. `live` are the agents that run, and `waiting` the threads in which a person
/// is asked.
pub fn evict_idle_worker(
    threads: &Threads,
    workers: &Workers,
    ledger: &Ledger,
    waiting: &[ThreadKey],
    live: &[LiveAgent],
    now_ms: u64,
    policy: &CleanupPolicy,
) -> (r: Option<ThreadKey>)
    ensures
        exists|s: Seq<IdleSnapshot>|
            idle_views(s) == judged_all(
                threads@,
                workers@,
                ledger@,
                key_views(waiting@),
                live@,
                now_ms,
            ) && (match r {
                Some(k) => Some(k@),
                None => None,
            }) == #[trigger] first_to_go(s, *policy),
{
    let snaps: Vec<IdleSnapshot> = idle_snapshots(threads, workers, ledger, waiting, live, now_ms);
    let ghost s = snaps@;
    let mut evict: Vec<ThreadKey> = select_cleanup_keys(snaps, policy);
    let ghost keys = evict@.map_values(|k: ThreadKey| k@);
    proof {
        assert(keys.len() == evict@.len());
        assert(first_to_go(s, *policy) == if keys.len() > 0 {
            Some(keys[0])
        } else {
            None
        });
    }
    if evict.len() == 0 {
        return None;
    }
    let first: ThreadKey = evict.remove(0);
    Some(first)
}

} // verus!
