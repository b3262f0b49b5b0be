//! How agents are started, taken from the pool, and ended: what is decided and remembered at each
//! step. What a step is told (whether a process is there, whether a folder exists) is found out
//! outside.
use super::cleanup::{IdleSnapshot, IdleView};
use super::seats::{
    pool_sessions,
    window_name,
    window_named,
    PoolWorker,
    PoolWorkerView,
    Workers,
    WorkersView,
    POOL_MCP_INIT_TIMEOUT_MS,
};
use crate::bridge::state::decide::{PoolRestore, PoolStatus};
use crate::bridge::state::ledger::{self, Ledger, LedgerView};
use crate::bridge::state::pool_key::{gap, pool_key_of, PoolKey};
use crate::bridge::state::pools::{self, Pools};
use crate::bridge::state::threads::{key_views, EntryView, ThreadEntry, Threads};
use crate::chat::{self, ThreadKey};
use crate::i18n::Lang;
use crate::table;
use crate::product::{Product, ProductView};
use crate::text;
use vstd::prelude::*;

verus! {

/// How long the screen of an agent that starts is watched.
pub const SPAWN_SCREEN_BUDGET_MS: u64 = 150_000;

/// How often it is looked at.
pub const SPAWN_SCREEN_POLL_MS: u64 = 1_000;

// ── the end of an agent ─────────────────────────────────────────────────────

/// Which window an agent has: the one that is remembered, its name, and the one that is closed.
#[derive(Debug)]
pub struct ExitPlan {
    pub window_id: Option<String>,
    pub name: String,
    pub target: String,
}

/// The window that is closed: the one that is remembered or, without one, the one of that name.
pub open spec fn window_target(w: WorkersView, sid: Seq<char>) -> Seq<char> {
    match w.seat(sid).window_id {
        Some(id) => id,
        None => window_named(sid),
    }
}

/// Begins the end of a thread's agent. What waits for an answer is dropped first: were it left, the
/// loss of the agent would look like a lost answer.
pub fn begin_exit(
    ledger: &mut Ledger,
    workers: &Workers,
    key: &ThreadKey,
    sid: Option<&str>,
) -> (r: (Vec<String>, Option<ExitPlan>))
    ensures
        final(ledger)@ == old(ledger)@.disposed_all(key@),
        text::views(r.0@) == ledger::ids_of(old(ledger)@.at(key@)),
        match r.1 {
            Some(plan) => sid matches Some(s) && text::opt_view(plan.window_id) == workers@.seat(
                s@,
            ).window_id && plan.name@ == window_named(s@) && plan.target@ == window_target(
                workers@,
                s@,
            ),
            None => sid is None,
        },
{
    let dropped: Vec<String> = ledger.dispose_all(key);
    match sid {
        Some(s) => {
            let window_id: Option<String> = workers.window_of(s);
            let name: String = window_name(s);
            let target: String = match &window_id {
                Some(id) => id.clone(),
                None => name.clone(),
            };
            (dropped, Some(ExitPlan { window_id, name, target }))
        },
        None => (dropped, None),
    }
}

/// Whether a failure to close a window is one. A window often goes with its process.
pub fn is_window_fault(error: &str) -> (r: bool)
    ensures
        r == !text::has(error@, "can't find window"@),
{
    !text::contains(error, "can't find window")
}

/// What is said when a session ends because a person asked for it.
pub fn farewell_text(product: &Product, lang: Lang) -> (out: String)
    ensures
        out@ == lang.of(
            "Thanks for your work! Ending the "@,
            "お疲れさまでした。"@,
        ) + product.program@ + lang.of(" session."@, " のセッションを終了します。"@),
{
    text::cat3(
        lang.pick("Thanks for your work! Ending the ", "お疲れさまでした。"),
        product.program.as_str(),
        lang.pick(" session.", " のセッションを終了します。"),
    )
}

/// The agents that threads name: each with its thread's key, its session and its window.
pub open spec fn named_agents(rows: Seq<(Seq<char>, EntryView)>) -> Seq<(Seq<char>, Seq<char>)>
    decreases rows.len(),
{
    if rows.len() == 0 {
        Seq::empty()
    } else {
        let rest = named_agents(rows.drop_last());
        let (ts, e) = rows.last();
        match e.channel_id {
            Some(c) => match e.agent_id {
                Some(sid) => rest.push((chat::key_of(c, ts), sid)),
                None => rest,
            },
            None => rest,
        }
    }
}

/// The agents that threads name, in the order of the threads: key and session.
pub fn thread_agents(threads: &Threads) -> (out: Vec<(ThreadKey, String)>)
    ensures
        out@.map_values(|p: (ThreadKey, String)| (p.0@, p.1@)) == named_agents(threads.rows()),
{
    let ghost rows = threads.rows();
    let n: usize = threads.entries.len();
    let mut out: Vec<(ThreadKey, String)> = Vec::new();
    let mut i: usize = 0;
    proof {
        assert(rows.take(0) =~= Seq::empty());
        assert(out@.map_values(|p: (ThreadKey, String)| (p.0@, p.1@)) =~= Seq::empty());
    }
    while i < n
        invariant
            i <= n == rows.len(),
            n == threads.entries.entries().len(),
            rows == threads.rows(),
            out@.map_values(|p: (ThreadKey, String)| (p.0@, p.1@)) == named_agents(
                rows.take(i as int),
            ),
        decreases n - i,
    {
        let e: &ThreadEntry = threads.entries.value_at(i);
        proof {
            assert(rows[i as int].1 == e@);
            assert(rows.take(i + 1).drop_last() =~= rows.take(i as int));
        }
        match &e.channel_id {
            Some(c) => match &e.agent_id {
                Some(sid) => {
                    let ghost before = out@;
                    let key: ThreadKey = ThreadKey::new(
                        c.as_str(),
                        threads.entries.key_at(i).as_str(),
                    );
                    out.push((key, sid.clone()));
                    proof {
                        assert(out@.map_values(|p: (ThreadKey, String)| (p.0@, p.1@))
                            =~= before.map_values(|p: (ThreadKey, String)| (p.0@, p.1@)).push(
                            (key@, sid@),
                        ));
                    }
                },
                None => {},
            },
            None => {},
        }
        i = i + 1;
    }
    proof {
        assert(rows.take(n as int) =~= rows);
    }
    out
}

/// Of the agents that threads name, the threads of those that run.
pub open spec fn running(agents: Seq<(Seq<char>, Seq<char>)>, alive: Seq<Seq<char>>) -> Seq<Seq<char>>
    decreases agents.len(),
{
    if agents.len() == 0 {
        Seq::empty()
    } else {
        let rest = running(agents.drop_last(), alive);
        if alive.contains(agents.last().1) {
            rest.push(agents.last().0)
        } else {
            rest
        }
    }
}

/// The threads whose agents run, in the order of the threads. `alive` are the sessions that have a
/// process.
pub fn live_thread_keys(threads: &Threads, alive: &[String]) -> (out: Vec<ThreadKey>)
    ensures
        key_views(out@) == running(named_agents(threads.rows()), text::views(alive@)),
{
    let agents: Vec<(ThreadKey, String)> = thread_agents(threads);
    let ghost all = named_agents(threads.rows());
    let n: usize = agents.len();
    let mut out: Vec<ThreadKey> = Vec::new();
    let mut i: usize = 0;
    proof {
        assert(all.take(0) =~= Seq::empty());
        assert(key_views(out@) =~= Seq::empty());
    }
    while i < n
        invariant
            i <= n == agents@.len(),
            all == agents@.map_values(|p: (ThreadKey, String)| (p.0@, p.1@)),
            key_views(out@) == running(all.take(i as int), text::views(alive@)),
        decreases n - i,
    {
        proof {
            assert(all.take(i + 1).drop_last() =~= all.take(i as int));
            assert(all.take(i + 1).last() == all[i as int]);
        }
        if text::among(alive, agents[i].1.as_str()) {
            let ghost before = out@;
            out.push(agents[i].0.clone());
            proof {
                assert(key_views(out@) =~= key_views(before).push(all[i as int].0));
            }
        }
        i = i + 1;
    }
    proof {
        assert(all.take(n as int) =~= all);
    }
    out
}

// ── the pool at the start ───────────────────────────────────────────────────

/// The agents after one that was named for a directory was taken over.
pub open spec fn adopted(w: WorkersView, cwd: Seq<char>, sid: Seq<char>, now_ms: u64) -> WorkersView {
    WorkersView {
        hooked: w.hooked.insert(
            sid,
            super::seats::HookedView { mcp_ready: true, ..w.seat(sid) },
        ),
        pools: w.pools.insert(
            pool_key_of(cwd),
            PoolWorkerView { session_id: sid, spawned_at_ms: now_ms, cwd, resumed: false },
        ),
        ..w
    }
}

/// Decides what becomes of an agent that was named for a directory, and remembers it: one that is
/// alive is taken over; one that is gone keeps its name; one whose directory is no target loses it.
pub fn restore_pool(
    workers: &mut Workers,
    pools: &mut Pools,
    targets: &[String],
    cwd: &str,
    sid: &str,
    alive: bool,
    now_ms: u64,
) -> (r: PoolRestore)
    ensures
        r == if !text::views(targets@).contains(cwd@) {
            PoolRestore::Discard
        } else if alive {
            PoolRestore::Adopt
        } else {
            PoolRestore::Respawn
        },
        final(workers)@ == if r == PoolRestore::Adopt {
            adopted(old(workers)@, cwd@, sid@, now_ms)
        } else {
            old(workers)@
        },
        final(pools)@ == if r == PoolRestore::Discard {
            old(pools)@.remove(cwd@)
        } else {
            old(pools)@
        },
{
    let what: PoolRestore = PoolRestore::decide(text::among(targets, cwd), alive);
    match what {
        PoolRestore::Discard => {
            let _ = pools.release(cwd);
        },
        PoolRestore::Respawn => {},
        PoolRestore::Adopt => {
            workers.warm_mut(sid).mcp_ready = true;
            let key: PoolKey = PoolKey::of_cwd(cwd);
            workers.insert_pool(
                key,
                PoolWorker {
                    session_id: sid.to_owned(),
                    spawned_at_ms: now_ms,
                    cwd: cwd.to_owned(),
                    resumed: false,
                },
            );
            proof {
                assert(workers@ =~= adopted(old(workers)@, cwd@, sid@, now_ms));
            }
        },
    }
    what
}

// ── filling the pool ────────────────────────────────────────────────────────

/// The keys of directories.
pub open spec fn keys_of(targets: Seq<Seq<char>>) -> Seq<Seq<char>> {
    targets.map_values(|cwd: Seq<char>| pool_key_of(cwd))
}

/// The waiting agents whose directory is no target.
pub open spec fn untargeted(
    rows: Seq<(Seq<char>, PoolWorkerView)>,
    wanted: Seq<Seq<char>>,
) -> Seq<(Seq<char>, Seq<char>)>
    decreases rows.len(),
{
    if rows.len() == 0 {
        Seq::empty()
    } else {
        let rest = untargeted(rows.drop_last(), wanted);
        if wanted.contains(rows.last().0) {
            rest
        } else {
            rest.push((rows.last().0, rows.last().1.session_id))
        }
    }
}

fn is_wanted(key: &PoolKey, targets: &[String]) -> (r: bool)
    ensures
        r == keys_of(text::views(targets@)).contains(key@),
{
    let ghost wanted = keys_of(text::views(targets@));
    let mut i: usize = 0;
    while i < targets.len()
        invariant
            i <= targets@.len(),
            wanted == keys_of(text::views(targets@)),
            forall|j: int| 0 <= j < i ==> #[trigger] wanted[j] != key@,
        decreases targets@.len() - i,
    {
        let k: PoolKey = PoolKey::of_cwd(targets[i].as_str());
        proof {
            assert(wanted[i as int] == k@);
        }
        if text::same(k.as_str(), key.as_str()) {
            return true;
        }
        i = i + 1;
    }
    false
}

/// Drops the waiting agents whose directory is no target, and returns their keys and sessions. An
/// agent that a thread took is not among them.
pub fn drop_untargeted(workers: &mut Workers, targets: &[String]) -> (out: Vec<(PoolKey, String)>)
    ensures
        out@.map_values(|p: (PoolKey, String)| (p.0@, p.1@)) == untargeted(
            old(workers).pool_list(),
            keys_of(text::views(targets@)),
        ),
        forall|k: Seq<char>| #[trigger]
            final(workers)@.pools.dom().contains(k) <==> old(workers)@.pools.dom().contains(k)
                && keys_of(text::views(targets@)).contains(k),
        forall|k: Seq<char>| #[trigger]
            final(workers)@.pools.dom().contains(k) ==> final(workers)@.pools[k]
                == old(workers)@.pools[k],
        final(workers)@ == (WorkersView { pools: final(workers)@.pools, ..old(workers)@ }),
{
    let ghost wanted = keys_of(text::views(targets@));
    let ghost rows = workers.pool_list();
    let ghost was = workers@;
    let all: Vec<(PoolKey, String, u64, bool)> = workers.pool_rows();
    let ghost av = all@.map_values(|r: (PoolKey, String, u64, bool)| (r.0@, r.1@, r.2, r.3));
    let mut out: Vec<(PoolKey, String)> = Vec::new();
    let mut i: usize = 0;
    proof {
        assert(rows.take(0) =~= Seq::empty());
        assert(out@.map_values(|p: (PoolKey, String)| (p.0@, p.1@)) =~= Seq::empty());
        assert(av.len() == rows.len());
        super::seats::lemma_listed(*workers);
        assert forall|j: int| 0 <= j < all@.len() implies (#[trigger] all@[j]).0@ == rows[j].0
            && all@[j].1@ == rows[j].1.session_id by {
            assert(av[j].0 == rows[j].0);
        }
    }
    while i < all.len()
        invariant
            i <= all@.len() == rows.len(),
            wanted == keys_of(text::views(targets@)),
            forall|j: int|
                0 <= j < all@.len() ==> (#[trigger] all@[j]).0@ == rows[j].0 && all@[j].1@
                    == rows[j].1.session_id,
            out@.map_values(|p: (PoolKey, String)| (p.0@, p.1@)) == untargeted(
                rows.take(i as int),
                wanted,
            ),
            forall|k: Seq<char>| #[trigger]
                workers@.pools.dom().contains(k) <==> was.pools.dom().contains(k) && (
                wanted.contains(k) || !exists|j: int| 0 <= j < i && (#[trigger] rows[j]).0 == k),
            forall|k: Seq<char>| #[trigger]
                workers@.pools.dom().contains(k) ==> workers@.pools[k] == was.pools[k],
            workers@ == (WorkersView { pools: workers@.pools, ..was }),
        decreases all@.len() - i,
    {
        proof {
            assert(rows.take(i + 1).drop_last() =~= rows.take(i as int));
            assert(rows.take(i + 1).last() == rows[i as int]);
        }
        if !is_wanted(&all[i].0, targets) {
            let ghost before = out@;
            out.push((all[i].0.clone(), all[i].1.clone()));
            proof {
                assert(out@.map_values(|p: (PoolKey, String)| (p.0@, p.1@)) =~= before.map_values(
                    |p: (PoolKey, String)| (p.0@, p.1@),
                ).push((rows[i as int].0, rows[i as int].1.session_id)));
            }
            let _ = workers.remove_pool(&all[i].0);
        }
        i = i + 1;
    }
    proof {
        assert(rows.take(rows.len() as int) =~= rows);
        assert forall|k: Seq<char>| was.pools.dom().contains(k) implies exists|j: int|
            0 <= j < rows.len() && (#[trigger] rows[j]).0 == k by {
        }
    }
    out
}

/// Whether agents may be started now: not while the use of the service is limited.
pub fn may_launch(now_ms: u64, limited_until_ms: u64) -> (r: bool)
    ensures
        r == (now_ms >= limited_until_ms),
{
    now_ms >= limited_until_ms
}

/// What is done for one directory of the pool.
#[derive(Debug, PartialEq, Eq)]
pub enum PoolStart {
    /// The folder is not there: an agent would run at home instead.
    Missing,
    /// An agent waits there, or was given up on.
    Skip,
    /// The named session is taken up again.
    Resume(String),
    /// A new session begins.
    Launch,
}

/// What a [`PoolStart`] says.
pub enum PoolStartView {
    Missing,
    Skip,
    Resume(Seq<char>),
    Launch,
}

impl View for PoolStart {
    type V = PoolStartView;

    open spec fn view(&self) -> PoolStartView {
        match self {
            PoolStart::Missing => PoolStartView::Missing,
            PoolStart::Skip => PoolStartView::Skip,
            PoolStart::Resume(s) => PoolStartView::Resume(s@),
            PoolStart::Launch => PoolStartView::Launch,
        }
    }
}

/// What is done for one directory: nothing where it is not there, or where an agent waits or was
/// given up on; else the named session is taken up again, but only where it has a conversation.
pub open spec fn start_for(
    w: WorkersView,
    named: Map<Seq<char>, Seq<char>>,
    cwd: Seq<char>,
    exists_there: bool,
    resumable: bool,
) -> PoolStartView {
    let key = pool_key_of(cwd);
    if !exists_there {
        PoolStartView::Missing
    } else if w.pools.dom().contains(key) || w.gave_up.contains(key) {
        PoolStartView::Skip
    } else if named.dom().contains(cwd) && resumable {
        PoolStartView::Resume(named[cwd])
    } else {
        PoolStartView::Launch
    }
}

/// What is done for one directory of the pool. `resumable` says whether the session named for it has
/// a conversation to take up.
pub fn pool_start(
    workers: &Workers,
    pools: &Pools,
    cwd: &str,
    exists_there: bool,
    resumable: bool,
) -> (r: PoolStart)
    ensures
        r@ == start_for(workers@, pools@, cwd@, exists_there, resumable),
{
    let key: PoolKey = PoolKey::of_cwd(cwd);
    if !exists_there {
        return PoolStart::Missing;
    }
    let status: PoolStatus = PoolStatus {
        present: workers.has_pool(&key),
        gave_up: workers.gave_up_on(&key),
    };
    if !PoolStatus::needs_launch(Some(status)) {
        return PoolStart::Skip;
    }
    match pools.session_of(cwd) {
        Some(s) => if resumable {
            PoolStart::Resume(s.to_owned())
        } else {
            PoolStart::Launch
        },
        None => PoolStart::Launch,
    }
}

/// The agents after one was started in a directory.
pub open spec fn with_started(
    w: WorkersView,
    cwd: Seq<char>,
    sid: Seq<char>,
    window_id: Seq<char>,
    now_ms: u64,
    resumed: bool,
) -> WorkersView {
    WorkersView {
        hooked: w.hooked.insert(
            sid,
            super::seats::HookedView { window_id: Some(window_id), ..w.seat(sid) },
        ),
        starting: w.starting.insert(sid),
        pools: w.pools.insert(
            pool_key_of(cwd),
            PoolWorkerView { session_id: sid, spawned_at_ms: now_ms, cwd, resumed },
        ),
        ..w
    }
}

/// Remembers an agent that was started in a directory. A new session is named for the directory, so
/// that the next start takes it up; returns whether it was.
pub fn pool_started(
    workers: &mut Workers,
    pools: &mut Pools,
    cwd: &str,
    sid: &str,
    window_id: &str,
    now_ms: u64,
    resumed: bool,
) -> (named: bool)
    ensures
        named == !resumed,
        final(workers)@ == with_started(
            old(workers)@,
            cwd@,
            sid@,
            window_id@,
            now_ms,
            resumed,
        ),
        final(pools)@ == if resumed {
            old(pools)@
        } else {
            old(pools)@.insert(cwd@, sid@)
        },
{
    if !resumed {
        pools.nominate(cwd, sid);
    }
    workers.warm_mut(sid).window_id = Some(window_id.to_owned());
    workers.mark_starting(sid);
    let key: PoolKey = PoolKey::of_cwd(cwd);
    workers.insert_pool(
        key,
        PoolWorker {
            session_id: sid.to_owned(),
            spawned_at_ms: now_ms,
            cwd: cwd.to_owned(),
            resumed,
        },
    );
    proof {
        assert(workers@ =~= with_started(
            old(workers)@,
            cwd@,
            sid@,
            window_id@,
            now_ms,
            resumed,
        ));
    }
    !resumed
}

// ── giving up ───────────────────────────────────────────────────────────────

/// A waiting agent has not brought up its tools in time.
pub open spec fn is_overdue(w: WorkersView, p: PoolWorkerView, now_ms: u64) -> bool {
    !w.is_pool_ready(p.session_id) && gap(now_ms, p.spawned_at_ms) > POOL_MCP_INIT_TIMEOUT_MS
}

/// The waiting agents that have not brought up their tools in time.
pub open spec fn overdue(
    w: WorkersView,
    rows: Seq<(Seq<char>, PoolWorkerView)>,
    now_ms: u64,
) -> Seq<Seq<char>>
    decreases rows.len(),
{
    if rows.len() == 0 {
        Seq::empty()
    } else {
        let rest = overdue(w, rows.drop_last(), now_ms);
        if is_overdue(w, rows.last().1, now_ms) {
            rest.push(rows.last().0)
        } else {
            rest
        }
    }
}

/// The keys of the waiting agents that have not brought up their tools in time.
pub fn overdue_pools(workers: &Workers, now_ms: u64) -> (out: Vec<PoolKey>)
    ensures
        out@.map_values(|k: PoolKey| k@) == overdue(workers@, workers.pool_list(), now_ms),
{
    let ghost rows = workers.pool_list();
    let all: Vec<(PoolKey, String, u64, bool)> = workers.pool_rows();
    let ghost av = all@.map_values(|r: (PoolKey, String, u64, bool)| (r.0@, r.1@, r.2, r.3));
    let mut out: Vec<PoolKey> = Vec::new();
    let mut i: usize = 0;
    proof {
        assert(rows.take(0) =~= Seq::empty());
        assert(out@.map_values(|k: PoolKey| k@) =~= Seq::empty());
        assert(av.len() == rows.len());
        assert forall|j: int| 0 <= j < all@.len() implies (#[trigger] all@[j]).0@ == rows[j].0
            && all@[j].2 == rows[j].1.spawned_at_ms && all@[j].3 == workers@.is_pool_ready(
            rows[j].1.session_id,
        ) by {
            assert(av[j].0 == rows[j].0);
        }
    }
    while i < all.len()
        invariant
            i <= all@.len() == rows.len(),
            forall|j: int|
                0 <= j < all@.len() ==> (#[trigger] all@[j]).0@ == rows[j].0 && all@[j].2
                    == rows[j].1.spawned_at_ms && all@[j].3 == workers@.is_pool_ready(
                    rows[j].1.session_id,
                ),
            out@.map_values(|k: PoolKey| k@) == overdue(workers@, rows.take(i as int), now_ms),
        decreases all@.len() - i,
    {
        proof {
            assert(rows.take(i + 1).drop_last() =~= rows.take(i as int));
            assert(rows.take(i + 1).last() == rows[i as int]);
        }
        if !all[i].3 && PoolStatus::should_give_up(all[i].2, now_ms, POOL_MCP_INIT_TIMEOUT_MS) {
            let ghost before = out@;
            out.push(all[i].0.clone());
            proof {
                assert(out@.map_values(|k: PoolKey| k@) =~= before.map_values(
                    |k: PoolKey| k@,
                ).push(rows[i as int].0));
            }
        }
        i = i + 1;
    }
    proof {
        assert(rows.take(rows.len() as int) =~= rows);
    }
    out
}

/// Gives up on a waiting agent. One that took up a named session loses only that name, and a new
/// session is tried; any other is not started again. Returns the agent, which is to be torn down.
pub fn give_up_pool(workers: &mut Workers, pools: &mut Pools, key: &PoolKey) -> (r: Option<
    PoolWorker,
>)
    ensures
        match r {
            Some(p) => {
                &&& old(workers)@.pools.dom().contains(key@)
                &&& p@ == old(workers)@.pools[key@]
                &&& final(workers)@ == (WorkersView {
                    pools: old(workers)@.pools.remove(key@),
                    gave_up: if p@.resumed {
                        old(workers)@.gave_up
                    } else {
                        old(workers)@.gave_up.insert(key@)
                    },
                    ..old(workers)@
                })
                &&& final(pools)@ == if p@.resumed {
                    old(pools)@.remove(p@.cwd)
                } else {
                    old(pools)@
                }
            },
            None => !old(workers)@.pools.dom().contains(key@) && final(workers)@ == old(workers)@
                && final(pools)@ == old(pools)@,
        },
{
    let p: PoolWorker = match workers.remove_pool(key) {
        Some(p) => p,
        None => {
            proof {
                assert(workers@.pools =~= old(workers)@.pools);
            }
            return None;
        },
    };
    if p.resumed {
        let _ = pools.release(p.cwd.as_str());
    } else {
        workers.mark_gave_up(key.clone());
    }
    Some(p)
}

// ── an agent for a thread ───────────────────────────────────────────────────

/// A waiting agent takes messages: it had its first turn, has its tools and has not ended.
pub open spec fn is_push_ready(w: WorkersView, sid: Seq<char>) -> bool {
    !w.starting.contains(sid) && w.hooked.dom().contains(sid) && w.hooked[sid].mcp_ready
        && !w.hooked[sid].ended
}

/// The session of the agent that waits under a key, where it takes messages.
pub fn claimable(workers: &Workers, key: &PoolKey) -> (r: Option<String>)
    ensures
        text::opt_view(r) == if workers@.pools.dom().contains(key@) && is_push_ready(
            workers@,
            workers@.pools[key@].session_id,
        ) {
            Some(workers@.pools[key@].session_id)
        } else {
            None
        },
{
    match workers.pool(key) {
        Some(p) => {
            let sid: &str = p.session_id.as_str();
            let warm: bool = match workers.warm(sid) {
                Some(h) => h.mcp_ready && !h.ended,
                None => false,
            };
            if !workers.is_starting(sid) && warm {
                Some(p.session_id.clone())
            } else {
                None
            }
        },
        None => None,
    }
}

/// Takes the agent that waits under a key, if it takes messages and its process is there. One that
/// is not warm yet is left alone; one whose process is gone is dropped, as it would lose what is sent
/// to it.
pub fn claim_pool_worker(workers: &mut Workers, key: &PoolKey, alive: bool) -> (r: Option<PoolWorker>)
    ensures
        ({
            let there = old(workers)@.pools.dom().contains(key@) && is_push_ready(
                old(workers)@,
                old(workers)@.pools[key@].session_id,
            );
            match r {
                Some(p) => there && alive && p@ == old(workers)@.pools[key@] && final(workers)@ == (
                WorkersView { pools: old(workers)@.pools.remove(key@), ..old(workers)@ }),
                None => !(there && alive) && final(workers)@ == if there {
                    match pools::first_home(
                        pool_sessions(old(workers).pool_list()),
                        old(workers)@.pools[key@].session_id,
                    ) {
                        Some(k) => WorkersView {
                            pools: old(workers)@.pools.remove(k),
                            ..old(workers)@
                        },
                        None => old(workers)@,
                    }
                } else {
                    old(workers)@
                },
            }
        }),
{
    let sid: String = match claimable(workers, key) {
        Some(s) => s,
        None => return None,
    };
    if !alive {
        let _ = workers.drop_pool_of_session(sid.as_str());
        return None;
    }
    workers.remove_pool(key)
}

/// The record of a thread that an agent of the pool was bound to.
pub open spec fn assigned_entry(
    sid: Seq<char>,
    channel: Seq<char>,
    cwd: Seq<char>,
    topic: Seq<char>,
) -> EntryView {
    EntryView {
        agent_id: Some(sid),
        channel_id: Some(channel),
        repo_path: Some(cwd),
        topic: if topic.len() > 0 {
            Some(topic)
        } else {
            None
        },
        ..EntryView::blank()
    }
}

/// Binds an agent of the pool to a thread. Its session is the thread's from now on, so its name for
/// the pool is dropped: else it would be started a second time. Returns the window messages go to.
pub fn assign_pool_worker(
    threads: &mut Threads,
    pools: &mut Pools,
    workers: &Workers,
    claimed: &PoolWorker,
    root_ts: &str,
    channel: &str,
    cwd: &str,
    topic: &str,
) -> (target: String)
    ensures
        final(threads)@ == old(threads)@.insert(
            root_ts@,
            assigned_entry(claimed@.session_id, channel@, cwd@, topic@),
        ),
        final(pools)@ == old(pools)@.remove(claimed@.cwd),
        target@ == window_target(workers@, claimed@.session_id),
{
    let t: Option<String> = if topic.is_empty() {
        None
    } else {
        Some(topic.to_owned())
    };
    let mut e: ThreadEntry = ThreadEntry::for_pool_assignment(channel, cwd, t);
    e.agent_id = Some(claimed.session_id.clone());
    proof {
        assert(e@ =~= assigned_entry(claimed@.session_id, channel@, cwd@, topic@));
    }
    threads.upsert(root_ts, e);
    let _ = pools.release(claimed.cwd.as_str());
    match workers.window_of(claimed.session_id.as_str()) {
        Some(id) => id,
        None => window_name(claimed.session_id.as_str()),
    }
}

/// Remembers an agent that was started for a thread: messages wait until its first turn.
pub fn worker_spawned(workers: &mut Workers, sid: &str, window_id: &str)
    ensures
        final(workers)@ == (WorkersView {
            hooked: old(workers)@.hooked.insert(
                sid@,
                (super::seats::HookedView {
                    window_id: Some(window_id@),
                    ..old(workers)@.seat(sid@)
                }),
            ),
            starting: old(workers)@.starting.insert(sid@),
            ..old(workers)@
        }),
{
    workers.warm_mut(sid).window_id = Some(window_id.to_owned());
    workers.mark_starting(sid);
}

/// The records after an agent never came up: one that began no conversation is taken out of its
/// thread.
pub open spec fn without_agent(
    m: Map<Seq<char>, EntryView>,
    key: Seq<char>,
    sid: Seq<char>,
    has_history: bool,
) -> Map<Seq<char>, EntryView> {
    match chat::key_parts(key).1 {
        Some(ts) => if !has_history && m.dom().contains(ts) && m[ts].agent_id == Some(sid) {
            m.insert(ts, EntryView { agent_id: None, ..m[ts] })
        } else {
            m
        },
        None => m,
    }
}

/// An agent stopped before it read its first message, or never started. A session that never began
/// is taken out of its thread, so that the next message starts a fresh agent rather than take up
/// what is not there. Returns the channel and, where it has one, the root of the thread to tell.
pub fn agent_never_started(
    threads: &mut Threads,
    workers: &mut Workers,
    key: &ThreadKey,
    sid: &str,
    has_history: bool,
) -> (r: (String, Option<String>))
    ensures
        final(workers)@ == (WorkersView {
            starting: old(workers)@.starting.remove(sid@),
            ..old(workers)@
        }),
        final(threads)@ == without_agent(old(threads)@, key@, sid@, has_history),
        (r.0@, text::opt_view(r.1)) == chat::key_parts(key@),
{
    workers.clear_starting(sid);
    let (channel, root) = key.split();
    match &root {
        Some(ts) => {
            if !has_history {
                let _ = threads.drop_agent(ts.as_str(), sid);
            }
        },
        None => {},
    }
    (channel, root)
}

/// What is said where an agent stopped before it read a message.
pub open spec fn never_started(machine: Seq<char>, p: ProductView, lang: Lang) -> Seq<char> {
    match lang {
        Lang::En => p.program + " on *"@ + machine
            + "* stopped before it could read this message, so no reply was written. Send it again."@,
        Lang::Ja => "*"@ + machine + "* の "@ + p.program
            + " が、このメッセージを読む前に止まったため、返信を書けませんでした。もう一度送ってください。"@,
    }
}

/// What is said where an agent stopped before it read a message.
pub fn never_started_text(machine: &str, product: &Product, lang: Lang) -> (out: String)
    ensures
        out@ == never_started(machine@, product@, lang),
{
    match lang {
        Lang::En => text::cat4(
            product.program.as_str(),
            " on *",
            machine,
            "* stopped before it could read this message, so no reply was written. Send it again.",
        ),
        Lang::Ja => text::cat5(
            "*",
            machine,
            "* の ",
            product.program.as_str(),
            " が、このメッセージを読む前に止まったため、返信を書けませんでした。もう一度送ってください。",
        ),
    }
}

/// The records that are worth keeping: those without an agent yet, and those whose session is
/// usable.
pub open spec fn worth_keeping(e: EntryView, usable: Seq<Seq<char>>) -> bool {
    match e.agent_id {
        Some(sid) => usable.contains(sid),
        None => true,
    }
}

spec fn is_dropped(
    roots: Seq<Seq<char>>,
    m: Map<Seq<char>, EntryView>,
    usable: Seq<Seq<char>>,
    j: int,
    ts: Seq<char>,
) -> bool {
    roots[j] == ts && !worth_keeping(m[ts], usable)
}

spec fn is_among_dropped(
    roots: Seq<Seq<char>>,
    m: Map<Seq<char>, EntryView>,
    usable: Seq<Seq<char>>,
    n: int,
    ts: Seq<char>,
) -> bool {
    exists|j: int| 0 <= j < n && #[trigger] is_dropped(roots, m, usable, j, ts)
}

/// Drops the records of threads whose agent can never come back: its session has neither a
/// conversation nor a process. `usable` are the sessions that have one. Returns the roots that were
/// dropped.
pub fn forget_unresumable_threads(threads: &mut Threads, usable: &[String]) -> (dropped: Vec<String>)
    ensures
        forall|ts: Seq<char>| #[trigger]
            final(threads)@.dom().contains(ts) <==> old(threads)@.dom().contains(ts)
                && worth_keeping(old(threads)@[ts], text::views(usable@)),
        forall|ts: Seq<char>| #[trigger]
            final(threads)@.dom().contains(ts) ==> final(threads)@[ts] == old(threads)@[ts],
        forall|ts: Seq<char>| #[trigger]
            text::views(dropped@).contains(ts) <==> old(threads)@.dom().contains(ts)
                && !worth_keeping(old(threads)@[ts], text::views(usable@)),
        table::in_key_order(text::views(dropped@)),
{
    let ghost was = threads@;
    let ghost uv = text::views(usable@);
    let all: Vec<String> = threads.roots();
    let ghost av = text::views(all@);
    let mut dropped: Vec<String> = Vec::new();
    let mut i: usize = 0;
    while i < all.len()
        invariant
            i <= all@.len(),
            av == text::views(all@),
            uv == text::views(usable@),
            table::in_key_order(av),
            forall|ts: Seq<char>| #[trigger] av.contains(ts) <==> was.dom().contains(ts),
            forall|ts: Seq<char>| #[trigger]
                threads@.dom().contains(ts) <==> was.dom().contains(ts) && (worth_keeping(
                    was[ts],
                    uv,
                ) || !exists|j: int| 0 <= j < i && #[trigger] av[j] == ts),
            forall|ts: Seq<char>| #[trigger]
                threads@.dom().contains(ts) ==> threads@[ts] == was[ts],
            table::in_key_order(text::views(dropped@)),
            forall|k: int|
                0 <= k < dropped@.len() ==> is_among_dropped(
                    av,
                    was,
                    uv,
                    i as int,
                    (#[trigger] dropped@[k])@,
                ),
            forall|j: int|
                0 <= j < i && !worth_keeping(was[#[trigger] av[j]], uv) ==> text::views(
                    dropped@,
                ).contains(av[j]),
        decreases all@.len() - i,
    {
        let ghost x = av[i as int];
        let ghost before = dropped@;
        proof {
            assert(x == all@[i as int]@);
            assert(av.contains(x));
            assert(threads@.dom().contains(x)) by {
                assert forall|j: int| 0 <= j < i implies #[trigger] av[j] != x by {
                    assert(text::before(av[j], av[i as int]));
                    text::lemma_before_irreflexive(x);
                }
            }
        }
        let keep: bool = match threads.get(all[i].as_str()) {
            Some(e) => match &e.agent_id {
                Some(sid) => text::among(usable, sid.as_str()),
                None => true,
            },
            None => true,
        };
        if !keep {
            threads.forget(all[i].as_str());
            dropped.push(all[i].clone());
            proof {
                text::lemma_views_push(before, dropped@.last());
                let d = text::views(dropped@);
                let b = text::views(before);
                assert(d == b.push(x));
                assert(d[b.len() as int] == x);
                assert forall|p: int, q: int| 0 <= p < q < d.len() implies text::before(
                    #[trigger] d[p],
                    #[trigger] d[q],
                ) by {
                    if q == b.len() {
                        assert(before[p]@ == b[p]);
                        assert(is_among_dropped(av, was, uv, i as int, before[p]@));
                        let j = choose|j: int|
                            0 <= j < i && #[trigger] is_dropped(av, was, uv, j, before[p]@);
                        assert(text::before(av[j], av[i as int]));
                    }
                }
                assert forall|j: int|
                    0 <= j < i + 1 && !worth_keeping(
                        was[#[trigger] av[j]],
                        uv,
                    ) implies d.contains(av[j]) by {
                    if j < i {
                        assert(b.contains(av[j]));
                        let k = choose|k: int| 0 <= k < b.len() && b[k] == av[j];
                        assert(d[k] == av[j]);
                    }
                }
            }
        }
        proof {
            assert forall|k: int| 0 <= k < dropped@.len() implies is_among_dropped(
                av,
                was,
                uv,
                i + 1,
                (#[trigger] dropped@[k])@,
            ) by {
                if k < before.len() {
                    assert(dropped@[k] == before[k]);
                    let j = choose|j: int|
                        0 <= j < i && #[trigger] is_dropped(av, was, uv, j, before[k]@);
                    assert(is_dropped(av, was, uv, j, dropped@[k]@));
                } else {
                    assert(is_dropped(av, was, uv, i as int, dropped@[k]@));
                }
            }
        }
        i = i + 1;
    }
    proof {
        let d = text::views(dropped@);
        assert forall|ts: Seq<char>| #[trigger] d.contains(ts) <==> was.dom().contains(ts)
            && !worth_keeping(was[ts], uv) by {
            if d.contains(ts) {
                let k = choose|k: int| 0 <= k < d.len() && d[k] == ts;
                assert(dropped@[k]@ == ts);
                let j = choose|j: int|
                    0 <= j < all@.len() && #[trigger] is_dropped(av, was, uv, j, dropped@[k]@);
                assert(av.contains(ts)) by {
                    assert(av[j] == ts);
                }
            }
            if was.dom().contains(ts) && !worth_keeping(was[ts], uv) {
                assert(av.contains(ts));
                let j = choose|j: int| 0 <= j < av.len() && av[j] == ts;
                assert(d.contains(av[j]));
            }
        }
        assert forall|ts: Seq<char>| #[trigger]
            threads@.dom().contains(ts) <==> was.dom().contains(ts) && worth_keeping(
                was[ts],
                uv,
            ) by {
            if was.dom().contains(ts) {
                assert(av.contains(ts));
                let j = choose|j: int| 0 <= j < av.len() && av[j] == ts;
                assert(av[j] == ts);
            }
        }
    }
    dropped
}

// ── windows without an owner ────────────────────────────────────────────────

/// One window: its session, where it is an agent's, and whether its agent has left it.
#[derive(Debug)]
pub struct WindowRow {
    pub id: String,
    pub session: Option<String>,
    pub is_empty_shell: bool,
}

/// A session has an owner: a thread, an agent that waits, or a directory it is named for.
pub open spec fn is_owned(
    threads: Map<Seq<char>, EntryView>,
    waiting: Seq<(Seq<char>, PoolWorkerView)>,
    named: Seq<(Seq<char>, Seq<char>)>,
    sid: Seq<char>,
) -> bool {
    ||| exists|ts: Seq<char>| #[trigger] threads.dom().contains(ts) && threads[ts].agent_id == Some(
        sid,
    )
    ||| exists|i: int| 0 <= i < waiting.len() && (#[trigger] waiting[i]).1.session_id == sid
    ||| exists|i: int| 0 <= i < named.len() && (#[trigger] named[i]).1 == sid
}

/// Whether windows may be closed at all. Where windows of agents are there and none has an owner, it
/// is the memory that was lost.
pub fn safe_to_reap(owned: &[String], rows: &[WindowRow]) -> (r: bool)
    ensures
        r == (owned@.len() > 0 || forall|i: int|
            0 <= i < rows@.len() ==> (#[trigger] rows@[i]).session is None),
{
    if owned.len() > 0 {
        return true;
    }
    let mut i: usize = 0;
    while i < rows.len()
        invariant
            i <= rows@.len(),
            owned@.len() == 0,
            forall|j: int| 0 <= j < i ==> (#[trigger] rows@[j]).session is None,
        decreases rows@.len() - i,
    {
        if rows[i].session.is_some() {
            proof {
                assert(rows@[i as int].session is Some);
            }
            return false;
        }
        i = i + 1;
    }
    true
}

/// Why a window is closed.
#[derive(Clone, Copy, Debug, PartialEq, Eq, Structural)]
pub enum Stray {
    /// Its agent has left it.
    Empty,
    /// It belongs to no thread and to no directory of the pool.
    Ownerless,
}

impl Stray {
    /// The reason, for the log.
    pub fn why(self, product: &Product) -> (out: String)
        ensures
            out@ == match self {
                Stray::Empty => product.command@ + " exited and left an empty window"@,
                Stray::Ownerless => "belongs to no thread and no warm pool"@,
            },
    {
        match self {
            Stray::Empty => text::cat(
                product.command.as_str(),
                " exited and left an empty window",
            ),
            Stray::Ownerless => "belongs to no thread and no warm pool".to_owned(),
        }
    }
}

/// Why a window is closed, if it is: not where it is no agent's, nor while its agent starts.
pub open spec fn stray_reason(owned: Seq<Seq<char>>, w: WorkersView, row: WindowRow) -> Option<
    Stray,
> {
    match row.session {
        Some(s) => if w.starting.contains(s@) {
            None
        } else if row.is_empty_shell {
            Some(Stray::Empty)
        } else if !owned.contains(s@) {
            Some(Stray::Ownerless)
        } else {
            None
        },
        None => None,
    }
}

/// The first window that is closed, and why; none where the memory seems lost.
pub fn stray_window(owned: &[String], workers: &Workers, rows: &[WindowRow]) -> (r: Option<
    (usize, Stray),
>)
    ensures
        match r {
            Some((i, why)) => i < rows@.len() && owned@.len() > 0 && stray_reason(
                text::views(owned@),
                workers@,
                rows@[i as int],
            ) == Some(why) && forall|j: int|
                0 <= j < i ==> stray_reason(
                    text::views(owned@),
                    workers@,
                    #[trigger] rows@[j],
                ) is None,
            None => owned@.len() == 0 || forall|j: int|
                0 <= j < rows@.len() ==> stray_reason(
                    text::views(owned@),
                    workers@,
                    #[trigger] rows@[j],
                ) is None,
        },
{
    if owned.len() == 0 || !safe_to_reap(owned, rows) {
        return None;
    }
    let mut i: usize = 0;
    while i < rows.len()
        invariant
            i <= rows@.len(),
            owned@.len() > 0,
            forall|j: int|
                0 <= j < i ==> stray_reason(
                    text::views(owned@),
                    workers@,
                    #[trigger] rows@[j],
                ) is None,
        decreases rows@.len() - i,
    {
        match &rows[i].session {
            Some(s) => if !workers.is_starting(s.as_str()) {
                if rows[i].is_empty_shell {
                    return Some((i, Stray::Empty));
                }
                if !text::among(owned, s.as_str()) {
                    return Some((i, Stray::Ownerless));
                }
            },
            None => {},
        }
        i = i + 1;
    }
    None
}

/// The sessions that have an owner.
pub fn owned_sessions(threads: &Threads, workers: &Workers, pools: &Pools) -> (out: Vec<String>)
    ensures
        forall|sid: Seq<char>| #[trigger]
            text::views(out@).contains(sid) <==> is_owned(
                threads@,
                workers.pool_list(),
                pools.pairs(),
                sid,
            ),
{
    let mut out: Vec<String> = threads.sessions();
    let ghost first = text::views(out@);
    let waiting: Vec<(String, Option<String>)> = workers.pool_pid_rows();
    let ghost rows = workers.pool_list();
    let ghost wv = waiting@.map_values(|r: (String, Option<String>)| (r.0@, text::opt_view(r.1)));
    let ghost second = rows.map_values(|r: (Seq<char>, PoolWorkerView)| r.1.session_id);
    let mut i: usize = 0;
    proof {
        assert(wv.len() == rows.len());
        assert forall|j: int| 0 <= j < waiting@.len() implies (#[trigger] waiting@[j]).0@
            == second[j] by {
            assert(wv[j].0 == rows[j].1.session_id);
        }
        assert(first + second.take(0) =~= first);
    }
    while i < waiting.len()
        invariant
            i <= waiting@.len() == second.len(),
            forall|j: int| 0 <= j < waiting@.len() ==> (#[trigger] waiting@[j]).0@ == second[j],
            text::views(out@) =~= first + second.take(i as int),
        decreases waiting@.len() - i,
    {
        broadcast use text::lemma_views_push;

        out.push(waiting[i].0.clone());
        proof {
            assert(second.take(i + 1) =~= second.take(i as int).push(second[i as int]));
        }
        i = i + 1;
    }
    let named: Vec<String> = pools.sessions();
    let ghost pairs = pools.pairs();
    let ghost third = text::views(named@);
    let ghost both = first + second;
    let mut k: usize = 0;
    proof {
        assert(second.take(second.len() as int) =~= second);
        assert(both + third.take(0) =~= both);
    }
    while k < named.len()
        invariant
            k <= named@.len(),
            third == text::views(named@),
            text::views(out@) =~= both + third.take(k as int),
        decreases named@.len() - k,
    {
        broadcast use text::lemma_views_push;

        out.push(named[k].clone());
        proof {
            assert(third[k as int] == named@[k as int]@);
            assert(third.take(k + 1) =~= third.take(k as int).push(third[k as int]));
        }
        k = k + 1;
    }
    proof {
        assert(third.take(third.len() as int) =~= third);
        let all = text::views(out@);
        assert(all == both + third);
        assert forall|sid: Seq<char>| #[trigger] all.contains(sid) <==> is_owned(
            threads@,
            rows,
            pairs,
            sid,
        ) by {
            if all.contains(sid) {
                let x = choose|x: int| 0 <= x < all.len() && all[x] == sid;
                if x < first.len() {
                    assert(first[x] == sid);
                    assert(first.contains(sid));
                } else if x < both.len() {
                    assert(rows[x - first.len()].1.session_id == sid);
                } else {
                    assert(third[x - both.len()] == sid);
                    assert(pairs[x - both.len()].1 == sid);
                }
            }
            if is_owned(threads@, rows, pairs, sid) {
                if exists|ts: Seq<char>| #[trigger]
                    threads@.dom().contains(ts) && threads@[ts].agent_id == Some(sid) {
                    assert(first.contains(sid));
                    let x = choose|x: int| 0 <= x < first.len() && first[x] == sid;
                    assert(all[x] == sid);
                } else if exists|j: int| 0 <= j < rows.len() && (#[trigger] rows[j]).1.session_id
                    == sid {
                    let j = choose|j: int|
                        0 <= j < rows.len() && (#[trigger] rows[j]).1.session_id == sid;
                    assert(all[first.len() + j] == sid);
                } else {
                    let j = choose|j: int| 0 <= j < pairs.len() && (#[trigger] pairs[j]).1 == sid;
                    assert(third[j] == sid);
                    assert(all[both.len() + j] == sid);
                }
            }
        }
    }
    out
}

// ── idle agents ─────────────────────────────────────────────────────────────

/// An agent whose process is there: the root of its thread, and when it last worked.
#[derive(Debug)]
pub struct LiveAgent {
    pub thread_ts: String,
    pub last_activity_ms: Option<u64>,
}

/// An agent that runs, as it is judged: it may be ended where it is known when it last worked, it
/// does not start, is not to end anyway, owes no answer and waits for nobody.
pub open spec fn judged(
    threads: Map<Seq<char>, EntryView>,
    w: WorkersView,
    l: LedgerView,
    waiting: Seq<Seq<char>>,
    ts: Seq<char>,
    last: Option<u64>,
    now_ms: u64,
) -> Option<IdleView> {
    if !threads.dom().contains(ts) {
        None
    } else {
        match threads[ts].channel_id {
            Some(c) => match threads[ts].agent_id {
                Some(sid) => {
                    let key = chat::key_of(c, ts);
                    Some(
                        IdleView {
                            key,
                            idle_ms: match last {
                                Some(t) => gap(now_ms, t),
                                None => 0,
                            },
                            eligible: last is Some && !w.starting.contains(sid) && !(exists|i: int|
                                0 <= i < w.drains.len() && (#[trigger] w.drains[i]).key == key)
                                && l.at(key).len() == 0 && !waiting.contains(key),
                        },
                    )
                },
                None => None,
            },
            None => None,
        }
    }
}

/// The agents that run, as they are judged.
pub open spec fn judged_all(
    threads: Map<Seq<char>, EntryView>,
    w: WorkersView,
    l: LedgerView,
    waiting: Seq<Seq<char>>,
    live: Seq<LiveAgent>,
    now_ms: u64,
) -> Seq<IdleView>
    decreases live.len(),
{
    if live.len() == 0 {
        Seq::empty()
    } else {
        let rest = judged_all(threads, w, l, waiting, live.drop_last(), now_ms);
        let a = live.last();
        match judged(threads, w, l, waiting, a.thread_ts@, a.last_activity_ms, now_ms) {
            Some(v) => rest.push(v),
            None => rest,
        }
    }
}

fn judge(
    threads: &Threads,
    workers: &Workers,
    ledger: &Ledger,
    waiting: &[ThreadKey],
    agent: &LiveAgent,
    now_ms: u64,
) -> (r: Option<IdleSnapshot>)
    ensures
        match r {
            Some(s) => judged(
                threads@,
                workers@,
                ledger@,
                key_views(waiting@),
                agent.thread_ts@,
                agent.last_activity_ms,
                now_ms,
            ) == Some(s@),
            None => judged(
                threads@,
                workers@,
                ledger@,
                key_views(waiting@),
                agent.thread_ts@,
                agent.last_activity_ms,
                now_ms,
            ) is None,
        },
{
    let e: &ThreadEntry = match threads.get(agent.thread_ts.as_str()) {
        Some(e) => e,
        None => return None,
    };
    let (channel, sid) = match (&e.channel_id, &e.agent_id) {
        (Some(c), Some(s)) => (c, s),
        _ => return None,
    };
    let key: ThreadKey = ThreadKey::new(channel.as_str(), agent.thread_ts.as_str());
    let ghost wv = key_views(waiting@);
    let mut asked: bool = false;
    let mut i: usize = 0;
    while i < waiting.len()
        invariant
            i <= waiting@.len(),
            wv == key_views(waiting@),
            asked == (exists|j: int| 0 <= j < i && #[trigger] wv[j] == key@),
        decreases waiting@.len() - i,
    {
        proof {
            assert(wv[i as int] == waiting@[i as int]@);
        }
        if waiting[i].same(&key) {
            asked = true;
        }
        i = i + 1;
    }
    proof {
        assert(asked == wv.contains(key@));
    }
    let owes: Vec<String> = ledger.pending(&key);
    proof {
        assert(text::views(owes@).len() == ledger@.at(key@).len());
    }
    let eligible: bool = agent.last_activity_ms.is_some() && !workers.is_starting(sid.as_str())
        && !workers.is_draining(&key) && owes.len() == 0 && !asked;
    let idle_ms: u64 = match agent.last_activity_ms {
        Some(t) => if now_ms >= t {
            now_ms - t
        } else {
            0
        },
        None => 0,
    };
    Some(IdleSnapshot { key, idle_ms, eligible })
}

pub open spec fn idle_views(v: Seq<IdleSnapshot>) -> Seq<IdleView> {
    v.map_values(|s: IdleSnapshot| s@)
}

/// The agents that run, as they are judged. `waiting` are the threads in which a person is asked.
pub fn idle_snapshots(
    threads: &Threads,
    workers: &Workers,
    ledger: &Ledger,
    waiting: &[ThreadKey],
    live: &[LiveAgent],
    now_ms: u64,
) -> (out: Vec<IdleSnapshot>)
    ensures
        idle_views(out@) == judged_all(
            threads@,
            workers@,
            ledger@,
            key_views(waiting@),
            live@,
            now_ms,
        ),
{
    let mut out: Vec<IdleSnapshot> = Vec::new();
    let mut i: usize = 0;
    proof {
        assert(live@.take(0) =~= Seq::empty());
        assert(idle_views(out@) =~= Seq::empty());
    }
    while i < live.len()
        invariant
            i <= live@.len(),
            idle_views(out@) == judged_all(
                threads@,
                workers@,
                ledger@,
                key_views(waiting@),
                live@.take(i as int),
                now_ms,
            ),
        decreases live@.len() - i,
    {
        proof {
            assert(live@.take(i + 1).drop_last() =~= live@.take(i as int));
        }
        match judge(threads, workers, ledger, waiting, &live[i], now_ms) {
            Some(s) => {
                let ghost before = out@;
                out.push(s);
                proof {
                    assert(idle_views(out@) =~= idle_views(before).push(s@));
                }
            },
            None => {},
        }
        i = i + 1;
    }
    proof {
        assert(live@.take(live@.len() as int) =~= live@);
    }
    out
}

// ── what holds of the steps ─────────────────────────────────────────────────

/// An agent that was started is not started again.
pub proof fn law_started_once(
    w: WorkersView,
    named: Map<Seq<char>, Seq<char>>,
    cwd: Seq<char>,
    sid: Seq<char>,
    window_id: Seq<char>,
    now_ms: u64,
    resumed: bool,
    resumable: bool,
)
    ensures
        start_for(
            with_started(w, cwd, sid, window_id, now_ms, resumed),
            named,
            cwd,
            true,
            resumable,
        ) == PoolStartView::Skip,
{
}

/// An agent that was given up on is not started again.
pub proof fn law_given_up_stays_down(
    w: WorkersView,
    named: Map<Seq<char>, Seq<char>>,
    cwd: Seq<char>,
    resumable: bool,
)
    requires
        w.gave_up.contains(pool_key_of(cwd)),
    ensures
        start_for(w, named, cwd, true, resumable) == PoolStartView::Skip,
{
}

/// Where a named session did not come up, a new one is tried: its name is gone and the directory is
/// not given up on.
pub proof fn law_failed_resume_is_retried(
    w: WorkersView,
    named: Map<Seq<char>, Seq<char>>,
    cwd: Seq<char>,
    resumable: bool,
)
    requires
        !w.gave_up.contains(pool_key_of(cwd)),
    ensures
        start_for(
            (WorkersView { pools: w.pools.remove(pool_key_of(cwd)), ..w }),
            named.remove(cwd),
            cwd,
            true,
            resumable,
        ) == PoolStartView::Launch,
{
}

/// A session that was named for a directory is taken up at the next start.
pub proof fn law_named_is_resumed(
    w: WorkersView,
    named: Map<Seq<char>, Seq<char>>,
    cwd: Seq<char>,
    sid: Seq<char>,
)
    requires
        !w.pools.dom().contains(pool_key_of(cwd)),
        !w.gave_up.contains(pool_key_of(cwd)),
    ensures
        start_for(w, named.insert(cwd, sid), cwd, true, true) == PoolStartView::Resume(sid),
{
}

/// An agent that was taken over can be bound to a thread at once.
pub proof fn law_adopted_is_claimable(w: WorkersView, cwd: Seq<char>, sid: Seq<char>, now_ms: u64)
    requires
        !w.starting.contains(sid),
        !w.seat(sid).ended,
    ensures
        is_push_ready(adopted(w, cwd, sid, now_ms), sid),
        adopted(w, cwd, sid, now_ms).pools.dom().contains(pool_key_of(cwd)),
        adopted(w, cwd, sid, now_ms).pools[pool_key_of(cwd)].session_id == sid,
{
}

/// The window of a session that has an owner, and that is more than an empty shell, is not closed.
pub proof fn law_owned_is_not_ownerless(owned: Seq<Seq<char>>, w: WorkersView, row: WindowRow)
    requires
        row.session matches Some(s) && owned.contains(s@) && !row.is_empty_shell,
    ensures
        stray_reason(owned, w, row) is None,
{
}

} // verus!
