//! Which agents run, which wait in the pool, and which are to end.
use crate::bridge::state::pool_key::{gap, PoolKey};
use crate::bridge::state::pools;
use crate::bridge::state::threads::ThreadEntry;
use crate::chat::ThreadKey;
use crate::table::{self, Table};
use crate::text;
use vstd::prelude::*;

verus! {

/// How long a waiting agent may take to bring up its tools.
pub const POOL_MCP_INIT_TIMEOUT_MS: u64 = 50_000;

/// How often the pool is counted.
pub const POOL_SWEEP_INTERVAL_MS: u64 = 5_000;

/// How often idle agents are looked for.
pub const CLEANUP_INTERVAL_MS: u64 = 60_000;

/// Whether an agent is there, and whether it takes messages.
#[derive(Clone, Copy, Debug, PartialEq, Eq, Structural)]
pub enum WorkerState {
    Absent,
    Starting,
    Ready,
}

/// What is known of one agent from its hooks.
#[derive(Debug)]
pub struct Hooked {
    pub ended: bool,
    /// It has its tools.
    pub mcp_ready: bool,
    pub window_id: Option<String>,
    /// Its transcript, and how far that was read.
    pub transcript_path: Option<String>,
    pub transcript_offset: u64,
}

/// What a [`Hooked`] holds.
pub struct HookedView {
    pub ended: bool,
    pub mcp_ready: bool,
    pub window_id: Option<Seq<char>>,
    pub transcript_path: Option<Seq<char>>,
    pub transcript_offset: u64,
}

impl View for Hooked {
    type V = HookedView;

    open spec fn view(&self) -> HookedView {
        HookedView {
            ended: self.ended,
            mcp_ready: self.mcp_ready,
            window_id: text::opt_view(self.window_id),
            transcript_path: text::opt_view(self.transcript_path),
            transcript_offset: self.transcript_offset,
        }
    }
}

impl HookedView {
    /// Nothing is known yet.
    pub open spec fn blank() -> HookedView {
        HookedView {
            ended: false,
            mcp_ready: false,
            window_id: None,
            transcript_path: None,
            transcript_offset: 0,
        }
    }
}

impl Default for Hooked {
    fn default() -> (h: Self)
        ensures
            h@ == HookedView::blank(),
    {
        Hooked {
            ended: false,
            mcp_ready: false,
            window_id: None,
            transcript_path: None,
            transcript_offset: 0,
        }
    }
}

/// What says whether an agent is there.
#[derive(Clone, Copy, Debug, PartialEq, Eq)]
pub struct WorkerFacts {
    pub pid: Option<u32>,
    /// It was started here and has not had its first turn.
    pub starting: bool,
    pub ended: bool,
}

/// One agent that waits. Its directory is fixed when it starts.
#[derive(Debug)]
pub struct PoolWorker {
    pub session_id: String,
    pub spawned_at_ms: u64,
    pub cwd: String,
    /// Whether it took up a session that was named before.
    pub resumed: bool,
}

/// What a [`PoolWorker`] holds.
pub struct PoolWorkerView {
    pub session_id: Seq<char>,
    pub spawned_at_ms: u64,
    pub cwd: Seq<char>,
    pub resumed: bool,
}

impl View for PoolWorker {
    type V = PoolWorkerView;

    open spec fn view(&self) -> PoolWorkerView {
        PoolWorkerView {
            session_id: self.session_id@,
            spawned_at_ms: self.spawned_at_ms,
            cwd: self.cwd@,
            resumed: self.resumed,
        }
    }
}

/// An agent that is to end once its last answer is out.
#[derive(Debug)]
pub struct DrainJob {
    pub key: ThreadKey,
    pub session_id: String,
    pub deadline_ms: u64,
    /// Where to say goodbye: a channel and a thread.
    pub farewell: Option<(String, String)>,
}

/// What a [`DrainJob`] holds.
pub struct DrainView {
    pub key: Seq<char>,
    pub session_id: Seq<char>,
    pub deadline_ms: u64,
    pub farewell: Option<(Seq<char>, Seq<char>)>,
}

impl View for DrainJob {
    type V = DrainView;

    open spec fn view(&self) -> DrainView {
        DrainView {
            key: self.key@,
            session_id: self.session_id@,
            deadline_ms: self.deadline_ms,
            farewell: match self.farewell {
                Some((c, t)) => Some((c@, t@)),
                None => None,
            },
        }
    }
}

pub open spec fn drain_views(v: Seq<DrainJob>) -> Seq<DrainView> {
    v.map_values(|j: DrainJob| j@)
}

/// Agents, the pool, and what is to end.
pub struct Workers {
    hooked: Table<Hooked>,
    /// Those started here that have not had their first turn. A message sent to one before that is
    /// lost, so it waits. The mark is set when an agent is started and taken off at its first turn;
    /// no other hook sets it.
    starting: Table<()>,
    pools: Table<PoolWorker>,
    /// The directories whose agents were given up on.
    gave_up: Table<()>,
    drains: Vec<DrainJob>,
    last_sweep_ms: u64,
    last_cleanup_ms: u64,
}

/// What [`Workers`] hold.
#[verifier::ext_equal]
pub struct WorkersView {
    pub hooked: Map<Seq<char>, HookedView>,
    pub starting: Set<Seq<char>>,
    pub pools: Map<Seq<char>, PoolWorkerView>,
    pub gave_up: Set<Seq<char>>,
    pub drains: Seq<DrainView>,
    pub last_sweep_ms: u64,
    pub last_cleanup_ms: u64,
}

pub open spec fn hooked_views(m: Map<Seq<char>, Hooked>) -> Map<Seq<char>, HookedView> {
    m.map_values(|h: Hooked| h@)
}

pub open spec fn pool_views(m: Map<Seq<char>, PoolWorker>) -> Map<Seq<char>, PoolWorkerView> {
    m.map_values(|p: PoolWorker| p@)
}

impl View for Workers {
    type V = WorkersView;

    closed spec fn view(&self) -> WorkersView {
        WorkersView {
            hooked: hooked_views(self.hooked@),
            starting: self.starting@.dom(),
            pools: pool_views(self.pools@),
            gave_up: self.gave_up@.dom(),
            drains: drain_views(self.drains@),
            last_sweep_ms: self.last_sweep_ms,
            last_cleanup_ms: self.last_cleanup_ms,
        }
    }
}

impl WorkersView {
    /// What is known of an agent; nothing where no hook came.
    pub open spec fn seat(self, sid: Seq<char>) -> HookedView {
        if self.hooked.dom().contains(sid) {
            self.hooked[sid]
        } else {
            HookedView::blank()
        }
    }

    /// A waiting agent can be used: it has its tools.
    pub open spec fn is_pool_ready(self, sid: Seq<char>) -> bool {
        self.seat(sid).mcp_ready
    }

    /// The agent of a session as its process says: it is there, and whether it takes messages.
    pub open spec fn state_with(self, sid: Seq<char>, pid: Option<u32>) -> WorkerState {
        state_by(pid, self.starting.contains(sid), self.seat(sid).ended)
    }
}

/// An agent that ended is gone, even where its process is left.
pub open spec fn state_by(pid: Option<u32>, starting: bool, ended: bool) -> WorkerState {
    if ended || pid is None {
        WorkerState::Absent
    } else if starting {
        WorkerState::Starting
    } else {
        WorkerState::Ready
    }
}

/// The keys of the waiting agents and their sessions.
pub open spec fn pool_sessions(rows: Seq<(Seq<char>, PoolWorkerView)>) -> Seq<
    (Seq<char>, Seq<char>),
> {
    rows.map_values(|r: (Seq<char>, PoolWorkerView)| (r.0, r.1.session_id))
}

/// The waiting agents as they are shown: key, session, when it was started, and whether it can be used.
pub open spec fn rows_of_pool(rows: Seq<(Seq<char>, PoolWorkerView)>, w: WorkersView) -> Seq<
    (Seq<char>, Seq<char>, u64, bool),
> {
    rows.map_values(
        |r: (Seq<char>, PoolWorkerView)|
            (r.0, r.1.session_id, r.1.spawned_at_ms, w.is_pool_ready(r.1.session_id)),
    )
}

/// The name of an agent's window.
pub open spec fn window_named(sid: Seq<char>) -> Seq<char> {
    "w-"@ + sid
}

/// The name of an agent's window.
pub fn window_name(sid: &str) -> (out: String)
    ensures
        out@ == window_named(sid@),
{
    text::cat("w-", sid)
}

/// Where an agent's transcript stands, of the agents that have one and have not ended.
pub open spec fn open_transcripts(rows: Seq<(Seq<char>, HookedView)>) -> Seq<
    (Seq<char>, Seq<char>, u64),
>
    decreases rows.len(),
{
    if rows.len() == 0 {
        Seq::empty()
    } else {
        let rest = open_transcripts(rows.drop_last());
        let (sid, h) = rows.last();
        match h.transcript_path {
            Some(p) => if h.ended {
                rest
            } else {
                rest.push((sid, p, h.transcript_offset))
            },
            None => rest,
        }
    }
}

/// The time of an agent that is to end has come.
pub open spec fn is_due(j: DrainView, now_ms: u64, settled: spec_fn(Seq<char>) -> bool) -> bool {
    settled(j.key) || now_ms >= j.deadline_ms
}

/// The first one, from `i` on, whose time has come.
pub open spec fn first_due(
    d: Seq<DrainView>,
    now_ms: u64,
    settled: spec_fn(Seq<char>) -> bool,
    i: int,
) -> Option<int>
    decreases d.len() - i,
{
    if i >= d.len() {
        None
    } else if is_due(d[i], now_ms, settled) {
        Some(i)
    } else {
        first_due(d, now_ms, settled, i + 1)
    }
}

impl Workers {
    /// What is known of the agents, in the order of their sessions.
    pub closed spec fn seats(&self) -> Seq<(Seq<char>, HookedView)> {
        self.hooked.entries().map_values(|r: (Seq<char>, Hooked)| (r.0, r.1@))
    }

    /// The waiting agents, in the order of their keys.
    pub closed spec fn pool_list(&self) -> Seq<(Seq<char>, PoolWorkerView)> {
        self.pools.entries().map_values(|r: (Seq<char>, PoolWorker)| (r.0, r.1@))
    }

    /// No agents.
    pub fn new() -> (w: Self)
        ensures
            w@ == (WorkersView {
                hooked: Map::empty(),
                starting: Set::empty(),
                pools: Map::empty(),
                gave_up: Set::empty(),
                drains: Seq::empty(),
                last_sweep_ms: 0,
                last_cleanup_ms: 0,
            }),
            w.seats() == Seq::<(Seq<char>, HookedView)>::empty(),
            w.pool_list() == Seq::<(Seq<char>, PoolWorkerView)>::empty(),
    {
        let w: Workers = Workers {
            hooked: Table::new(),
            starting: Table::new(),
            pools: Table::new(),
            gave_up: Table::new(),
            drains: Vec::new(),
            last_sweep_ms: 0,
            last_cleanup_ms: 0,
        };
        proof {
            assert(w@.hooked =~= Map::empty());
            assert(w@.starting =~= Set::empty());
            assert(w@.pools =~= Map::empty());
            assert(w@.gave_up =~= Set::empty());
            assert(w@.drains =~= Seq::empty());
            assert(w.seats() =~= Seq::empty());
            assert(w.pool_list() =~= Seq::empty());
        }
        w
    }

    // ── agents ──────────────────────────────────────────────────────────────

    /// An agent was started: messages wait until its first turn.
    pub fn mark_starting(&mut self, session_id: &str)
        ensures
            final(self)@ == (WorkersView {
                starting: old(self)@.starting.insert(session_id@),
                ..old(self)@
            }),
    {
        let _ = self.starting.insert(session_id.to_owned(), ());
        proof {
            assert(self@.starting =~= old(self)@.starting.insert(session_id@));
        }
    }

    /// An agent had its first turn: messages go straight to it.
    pub fn clear_starting(&mut self, session_id: &str)
        ensures
            final(self)@ == (WorkersView {
                starting: old(self)@.starting.remove(session_id@),
                ..old(self)@
            }),
    {
        let _ = self.starting.remove(session_id);
        proof {
            assert(self@.starting =~= old(self)@.starting.remove(session_id@));
        }
    }

    /// Whether an agent has yet to have its first turn.
    pub fn is_starting(&self, session_id: &str) -> (r: bool)
        ensures
            r == self@.starting.contains(session_id@),
    {
        self.starting.has(session_id)
    }

    /// What is known of an agent.
    pub fn warm(&self, session_id: &str) -> (r: Option<&Hooked>)
        ensures
            match r {
                Some(h) => self@.hooked.dom().contains(session_id@) && h@
                    == self@.hooked[session_id@],
                None => !self@.hooked.dom().contains(session_id@),
            },
    {
        self.hooked.get(session_id)
    }

    /// What is known of an agent, to change it; a blank seat is made where there is none.
    pub fn warm_mut(&mut self, session_id: &str) -> (h: &mut Hooked)
        ensures
            h@ == old(self)@.seat(session_id@),
            final(self)@ == (WorkersView {
                hooked: old(self)@.hooked.insert(session_id@, final(h)@),
                ..old(self)@
            }),
    {
        let ghost m = hooked_views(self.hooked@);
        let found: Option<usize> = self.hooked.row_of(session_id);
        if found.is_none() {
            let _ = self.hooked.insert(session_id.to_owned(), Hooked::default());
        }
        proof {
            assert(self.hooked@.dom().contains(session_id@));
        }
        let i: usize = match self.hooked.row_of(session_id) {
            Some(i) => i,
            None => 0,
        };
        let n: usize = self.hooked.len();
        proof {
            table::lemma_row_in_map(self.hooked.entries(), i as int);
            let now = self.hooked@;
            assert forall|h: Hooked| #[trigger]
                hooked_views(now.insert(session_id@, h)) == m.insert(session_id@, h@) by {
                assert(hooked_views(now.insert(session_id@, h)) =~= m.insert(session_id@, h@));
            }
        }
        self.hooked.slot(i)
    }

    /// Forgets an agent.
    pub fn forget(&mut self, session_id: &str)
        ensures
            final(self)@ == (WorkersView {
                hooked: old(self)@.hooked.remove(session_id@),
                starting: old(self)@.starting.remove(session_id@),
                ..old(self)@
            }),
    {
        let _ = self.hooked.remove(session_id);
        let _ = self.starting.remove(session_id);
        proof {
            assert(self@.hooked =~= old(self)@.hooked.remove(session_id@));
            assert(self@.starting =~= old(self)@.starting.remove(session_id@));
        }
    }

    /// The window messages go to.
    pub fn window_of(&self, session_id: &str) -> (r: Option<String>)
        ensures
            text::opt_view(r) == self@.seat(session_id@).window_id,
    {
        match self.hooked.get(session_id) {
            Some(h) => h.window_id.clone(),
            None => None,
        }
    }

    /// Whether no agent is known.
    pub fn is_empty(&self) -> (r: bool)
        ensures
            r == (self@.hooked == Map::<Seq<char>, HookedView>::empty()),
    {
        let n: usize = self.hooked.len();
        proof {
            let m = self@.hooked;
            if n > 0 {
                let k = self.hooked.entries()[0].0;
                table::lemma_row_in_map(self.hooked.entries(), 0);
                assert(m.dom().contains(k));
            } else {
                assert(m =~= Map::<Seq<char>, HookedView>::empty()) by {
                    assert forall|k: Seq<char>| !#[trigger] m.dom().contains(k) by {
                        if m.dom().contains(k) {
                            let i = choose|i: int| table::has_row(self.hooked.entries(), k, i);
                        }
                    }
                }
            }
        }
        n == 0
    }

    /// Where the transcripts stand: session, path and how far it was read.
    pub fn transcripts(&self) -> (out: Vec<(String, String, u64)>)
        ensures
            out@.map_values(|t: (String, String, u64)| (t.0@, t.1@, t.2)) == open_transcripts(
                self.seats(),
            ),
    {
        let ghost rows = self.seats();
        let n: usize = self.hooked.len();
        let mut out: Vec<(String, String, u64)> = Vec::new();
        let mut i: usize = 0;
        proof {
            assert(rows.take(0) =~= Seq::empty());
            assert(out@.map_values(|t: (String, String, u64)| (t.0@, t.1@, t.2)) =~= Seq::empty());
        }
        while i < n
            invariant
                i <= n == rows.len(),
                n == self.hooked.entries().len(),
                rows == self.seats(),
                out@.map_values(|t: (String, String, u64)| (t.0@, t.1@, t.2)) == open_transcripts(
                    rows.take(i as int),
                ),
            decreases n - i,
        {
            let h: &Hooked = self.hooked.value_at(i);
            proof {
                assert(rows[i as int].1 == h@);
                assert(rows.take(i + 1).drop_last() =~= rows.take(i as int));
            }
            if !h.ended {
                match &h.transcript_path {
                    Some(p) => {
                        let ghost before = out@;
                        out.push((self.hooked.key_at(i).clone(), p.clone(), h.transcript_offset));
                        proof {
                            assert(out@.map_values(|t: (String, String, u64)| (t.0@, t.1@, t.2))
                                =~= before.map_values(
                                |t: (String, String, u64)| (t.0@, t.1@, t.2),
                            ).push((rows[i as int].0, p@, h@.transcript_offset)));
                        }
                    },
                    None => {},
                }
            }
            i = i + 1;
        }
        proof {
            assert(rows.take(n as int) =~= rows);
        }
        out
    }

    /// Whether a thread's agent is there, from what its process says.
    pub fn state_of(&self, entry: Option<&ThreadEntry>, pid: Option<u32>) -> (s: WorkerState)
        ensures
            s == match entry {
                Some(e) => match e@.agent_id {
                    Some(sid) => self@.state_with(sid, pid),
                    None => WorkerState::Absent,
                },
                None => WorkerState::Absent,
            },
    {
        match entry {
            Some(e) => match &e.agent_id {
                Some(sid) => {
                    let ended: bool = match self.hooked.get(sid.as_str()) {
                        Some(h) => h.ended,
                        None => false,
                    };
                    Self::state_from(
                        &WorkerFacts { pid, starting: self.is_starting(sid.as_str()), ended },
                    )
                },
                None => WorkerState::Absent,
            },
            None => WorkerState::Absent,
        }
    }

    /// Whether an agent is there.
    pub fn state_from(facts: &WorkerFacts) -> (s: WorkerState)
        ensures
            s == state_by(facts.pid, facts.starting, facts.ended),
    {
        if facts.ended || facts.pid.is_none() {
            return WorkerState::Absent;
        }
        if facts.starting {
            WorkerState::Starting
        } else {
            WorkerState::Ready
        }
    }

    // ── the pool ────────────────────────────────────────────────────────────

    /// The agent that waits under a key.
    pub fn pool(&self, pool_key: &PoolKey) -> (r: Option<&PoolWorker>)
        ensures
            match r {
                Some(p) => self@.pools.dom().contains(pool_key@) && p@ == self@.pools[pool_key@],
                None => !self@.pools.dom().contains(pool_key@),
            },
    {
        self.pools.get(pool_key.as_str())
    }

    /// Whether an agent waits under a key.
    pub fn has_pool(&self, pool_key: &PoolKey) -> (r: bool)
        ensures
            r == self@.pools.dom().contains(pool_key@),
    {
        self.pools.has(pool_key.as_str())
    }

    /// Puts an agent into the pool.
    pub fn insert_pool(&mut self, pool_key: PoolKey, p: PoolWorker)
        ensures
            final(self)@ == (WorkersView {
                pools: old(self)@.pools.insert(pool_key@, p@),
                ..old(self)@
            }),
    {
        let _ = self.pools.insert(pool_key.as_str().to_owned(), p);
        proof {
            assert(self@.pools =~= old(self)@.pools.insert(pool_key@, p@));
        }
    }

    /// Takes an agent out of the pool.
    pub fn remove_pool(&mut self, pool_key: &PoolKey) -> (r: Option<PoolWorker>)
        ensures
            final(self)@ == (WorkersView {
                pools: old(self)@.pools.remove(pool_key@),
                ..old(self)@
            }),
            match r {
                Some(p) => old(self)@.pools.dom().contains(pool_key@) && p@
                    == old(self)@.pools[pool_key@],
                None => !old(self)@.pools.dom().contains(pool_key@),
            },
    {
        let r: Option<PoolWorker> = self.pools.remove(pool_key.as_str());
        proof {
            assert(self@.pools =~= old(self)@.pools.remove(pool_key@));
        }
        r
    }

    /// Takes the whole pool.
    pub fn take_pools(&mut self) -> (r: Table<PoolWorker>)
        ensures
            pool_views(r@) == old(self)@.pools,
            final(self)@ == (WorkersView { pools: Map::empty(), ..old(self)@ }),
    {
        let mut r: Table<PoolWorker> = Table::new();
        std::mem::swap(&mut r, &mut self.pools);
        proof {
            assert(self@.pools =~= Map::empty());
        }
        r
    }

    /// Whether a waiting agent can be used: it has its tools.
    pub fn pool_ready(&self, session_id: &str) -> (r: bool)
        ensures
            r == self@.is_pool_ready(session_id@),
    {
        match self.hooked.get(session_id) {
            Some(h) => h.mcp_ready,
            None => false,
        }
    }

    /// The waiting agents: key, session, when it was started, and whether it can be used.
    pub fn pool_rows(&self) -> (out: Vec<(PoolKey, String, u64, bool)>)
        ensures
            out@.map_values(|r: (PoolKey, String, u64, bool)| (r.0@, r.1@, r.2, r.3))
                == rows_of_pool(self.pool_list(), self@),
    {
        let ghost rows = self.pool_list();
        let n: usize = self.pools.len();
        let mut out: Vec<(PoolKey, String, u64, bool)> = Vec::new();
        let mut i: usize = 0;
        while i < n
            invariant
                i <= n == rows.len(),
                n == self.pools.entries().len(),
                rows == self.pool_list(),
                out@.len() == i,
                forall|j: int|
                    0 <= j < i ==> (#[trigger] out@[j]).0@ == rows[j].0 && out@[j].1@
                        == rows[j].1.session_id && out@[j].2 == rows[j].1.spawned_at_ms && out@[j].3
                        == self@.is_pool_ready(rows[j].1.session_id),
            decreases n - i,
        {
            let p: &PoolWorker = self.pools.value_at(i);
            proof {
                assert(rows[i as int].1 == p@);
            }
            out.push(
                (
                    PoolKey::known(self.pools.key_at(i).as_str()),
                    p.session_id.clone(),
                    p.spawned_at_ms,
                    self.pool_ready(p.session_id.as_str()),
                ),
            );
            i = i + 1;
        }
        proof {
            assert(out@.map_values(|r: (PoolKey, String, u64, bool)| (r.0@, r.1@, r.2, r.3))
                =~= rows_of_pool(rows, self@));
        }
        out
    }

    /// The waiting agents' sessions and windows.
    pub fn pool_pid_rows(&self) -> (out: Vec<(String, Option<String>)>)
        ensures
            out@.map_values(|r: (String, Option<String>)| (r.0@, text::opt_view(r.1)))
                == self.pool_list().map_values(
                |r: (Seq<char>, PoolWorkerView)|
                    (r.1.session_id, self@.seat(r.1.session_id).window_id),
            ),
    {
        let ghost rows = self.pool_list();
        let n: usize = self.pools.len();
        let mut out: Vec<(String, Option<String>)> = Vec::new();
        let mut i: usize = 0;
        while i < n
            invariant
                i <= n == rows.len(),
                n == self.pools.entries().len(),
                rows == self.pool_list(),
                out@.len() == i,
                forall|j: int|
                    0 <= j < i ==> (#[trigger] out@[j]).0@ == rows[j].1.session_id
                        && text::opt_view(out@[j].1) == self@.seat(
                        rows[j].1.session_id,
                    ).window_id,
            decreases n - i,
        {
            let p: &PoolWorker = self.pools.value_at(i);
            proof {
                assert(rows[i as int].1 == p@);
            }
            out.push((p.session_id.clone(), self.window_of(p.session_id.as_str())));
            i = i + 1;
        }
        proof {
            assert(out@.map_values(|r: (String, Option<String>)| (r.0@, text::opt_view(r.1)))
                =~= rows.map_values(
                |r: (Seq<char>, PoolWorkerView)|
                    (r.1.session_id, self@.seat(r.1.session_id).window_id),
            ));
        }
        out
    }

    /// The waiting agents' directories and sessions, and whether they can be used.
    pub fn pool_entries(&self) -> (out: Vec<(String, String, bool)>)
        ensures
            out@.map_values(|r: (String, String, bool)| (r.0@, r.1@, r.2))
                == self.pool_list().map_values(
                |r: (Seq<char>, PoolWorkerView)|
                    (r.1.cwd, r.1.session_id, self@.is_pool_ready(r.1.session_id)),
            ),
    {
        let ghost rows = self.pool_list();
        let n: usize = self.pools.len();
        let mut out: Vec<(String, String, bool)> = Vec::new();
        let mut i: usize = 0;
        while i < n
            invariant
                i <= n == rows.len(),
                n == self.pools.entries().len(),
                rows == self.pool_list(),
                out@.len() == i,
                forall|j: int|
                    0 <= j < i ==> (#[trigger] out@[j]).0@ == rows[j].1.cwd && out@[j].1@
                        == rows[j].1.session_id && out@[j].2 == self@.is_pool_ready(
                        rows[j].1.session_id,
                    ),
            decreases n - i,
        {
            let p: &PoolWorker = self.pools.value_at(i);
            proof {
                assert(rows[i as int].1 == p@);
            }
            out.push(
                (p.cwd.clone(), p.session_id.clone(), self.pool_ready(p.session_id.as_str())),
            );
            i = i + 1;
        }
        proof {
            assert(out@.map_values(|r: (String, String, bool)| (r.0@, r.1@, r.2))
                =~= rows.map_values(
                |r: (Seq<char>, PoolWorkerView)|
                    (r.1.cwd, r.1.session_id, self@.is_pool_ready(r.1.session_id)),
            ));
        }
        out
    }

    /// The waiting agents' directories, and whether they can be used.
    pub fn pool_summary(&self) -> (out: Vec<(String, bool)>)
        ensures
            out@.map_values(|r: (String, bool)| (r.0@, r.1)) == self.pool_list().map_values(
                |r: (Seq<char>, PoolWorkerView)|
                    (r.1.cwd, self@.is_pool_ready(r.1.session_id)),
            ),
    {
        let ghost rows = self.pool_list();
        let n: usize = self.pools.len();
        let mut out: Vec<(String, bool)> = Vec::new();
        let mut i: usize = 0;
        while i < n
            invariant
                i <= n == rows.len(),
                n == self.pools.entries().len(),
                rows == self.pool_list(),
                out@.len() == i,
                forall|j: int|
                    0 <= j < i ==> (#[trigger] out@[j]).0@ == rows[j].1.cwd && out@[j].1
                        == self@.is_pool_ready(rows[j].1.session_id),
            decreases n - i,
        {
            let p: &PoolWorker = self.pools.value_at(i);
            proof {
                assert(rows[i as int].1 == p@);
            }
            out.push((p.cwd.clone(), self.pool_ready(p.session_id.as_str())));
            i = i + 1;
        }
        proof {
            assert(out@.map_values(|r: (String, bool)| (r.0@, r.1)) =~= rows.map_values(
                |r: (Seq<char>, PoolWorkerView)| (r.1.cwd, self@.is_pool_ready(r.1.session_id)),
            ));
        }
        out
    }

    /// Drops the waiting agent of a session from the pool, and returns its key. It may be started
    /// again.
    pub fn drop_pool_of_session(&mut self, session_id: &str) -> (r: Option<PoolKey>)
        ensures
            match r {
                Some(k) => pools::first_home(pool_sessions(old(self).pool_list()), session_id@)
                    == Some(k@) && final(self)@ == (WorkersView {
                    pools: old(self)@.pools.remove(k@),
                    ..old(self)@
                }),
                None => pools::first_home(pool_sessions(old(self).pool_list()), session_id@) is None
                    && final(self)@ == old(self)@,
            },
    {
        let ghost all = pool_sessions(self.pool_list());
        let n: usize = self.pools.len();
        let mut i: usize = 0;
        proof {
            assert(all.skip(0) =~= all);
        }
        while i < n
            invariant
                i <= n == all.len(),
                n == self.pools.entries().len(),
                all == pool_sessions(self.pool_list()),
                *self == *old(self),
                pools::first_home(all, session_id@) == pools::first_home(
                    all.skip(i as int),
                    session_id@,
                ),
            decreases n - i,
        {
            proof {
                assert(all.skip(i as int)[0] == all[i as int]);
                assert(all.skip(i as int).drop_first() =~= all.skip(i + 1));
            }
            if text::same(self.pools.value_at(i).session_id.as_str(), session_id) {
                let key: PoolKey = PoolKey::known(self.pools.key_at(i).as_str());
                let _ = self.remove_pool(&key);
                return Some(key);
            }
            i = i + 1;
        }
        None
    }

    // ── what was given up ───────────────────────────────────────────────────

    /// Whether the agent of a key was given up on.
    pub fn gave_up_on(&self, pool_key: &PoolKey) -> (r: bool)
        ensures
            r == self@.gave_up.contains(pool_key@),
    {
        self.gave_up.has(pool_key.as_str())
    }

    /// Gives up on the agent of a key.
    pub fn mark_gave_up(&mut self, pool_key: PoolKey)
        ensures
            final(self)@ == (WorkersView {
                gave_up: old(self)@.gave_up.insert(pool_key@),
                ..old(self)@
            }),
    {
        let _ = self.gave_up.insert(pool_key.as_str().to_owned(), ());
        proof {
            assert(self@.gave_up =~= old(self)@.gave_up.insert(pool_key@));
        }
    }

    /// How many agents were given up on.
    pub fn gave_up_count(&self) -> (n: usize)
        ensures
            n == self@.gave_up.len(),
    {
        let n: usize = self.gave_up.len();
        proof {
            lemma_rows_count(self.gave_up.entries());
        }
        n
    }

    /// Forgets what was given up on.
    pub fn clear_gave_up(&mut self)
        ensures
            final(self)@ == (WorkersView { gave_up: Set::empty(), ..old(self)@ }),
    {
        self.gave_up = Table::new();
        proof {
            assert(self@.gave_up =~= Set::empty());
        }
    }

    // ── clocks ──────────────────────────────────────────────────────────────

    /// Whether it is time to count the pool; if so, the next time is one interval on.
    pub fn sweep_due(&mut self, now_ms: u64) -> (r: bool)
        ensures
            r == (gap(now_ms, old(self)@.last_sweep_ms) >= POOL_SWEEP_INTERVAL_MS),
            final(self)@ == if r {
                WorkersView { last_sweep_ms: now_ms, ..old(self)@ }
            } else {
                old(self)@
            },
    {
        let passed: u64 = if now_ms >= self.last_sweep_ms {
            now_ms - self.last_sweep_ms
        } else {
            0
        };
        if passed < POOL_SWEEP_INTERVAL_MS {
            return false;
        }
        self.last_sweep_ms = now_ms;
        true
    }

    /// Whether it is time to look for idle agents; if so, the next time is one interval on. The first
    /// time is passed over: the pool is not taken over yet.
    pub fn cleanup_due(&mut self, now_ms: u64) -> (r: bool)
        ensures
            r == (old(self)@.last_cleanup_ms != 0 && gap(now_ms, old(self)@.last_cleanup_ms)
                >= CLEANUP_INTERVAL_MS),
            final(self)@ == if r || old(self)@.last_cleanup_ms == 0 {
                WorkersView { last_cleanup_ms: now_ms, ..old(self)@ }
            } else {
                old(self)@
            },
    {
        if self.last_cleanup_ms == 0 {
            self.last_cleanup_ms = now_ms;
            return false;
        }
        let passed: u64 = if now_ms >= self.last_cleanup_ms {
            now_ms - self.last_cleanup_ms
        } else {
            0
        };
        if passed < CLEANUP_INTERVAL_MS {
            return false;
        }
        self.last_cleanup_ms = now_ms;
        true
    }

    // ── what is to end ──────────────────────────────────────────────────────

    /// Whether a thread's agent is to end.
    pub fn is_draining(&self, key: &ThreadKey) -> (r: bool)
        ensures
            r == exists|i: int| 0 <= i < self@.drains.len() && (#[trigger] self@.drains[i]).key == key@,
    {
        let mut i: usize = 0;
        while i < self.drains.len()
            invariant
                i <= self.drains@.len(),
                forall|j: int| 0 <= j < i ==> (#[trigger] self@.drains[j]).key != key@,
            decreases self.drains@.len() - i,
        {
            proof {
                assert(self@.drains[i as int] == self.drains@[i as int]@);
            }
            if self.drains[i].key.same(key) {
                return true;
            }
            i = i + 1;
        }
        false
    }

    /// An agent is to end.
    pub fn push_drain(&mut self, job: DrainJob)
        ensures
            final(self)@ == (WorkersView { drains: old(self)@.drains.push(job@), ..old(self)@ }),
    {
        self.drains.push(job);
        proof {
            assert(self@.drains =~= old(self)@.drains.push(job@));
        }
    }

    /// The first agent whose time has come: nothing of its thread waits for an answer, or it waited
    /// long enough.
    pub fn due_drain<F: Fn(&ThreadKey) -> bool>(&self, now_ms: u64, is_settled: F) -> (r: Option<
        usize,
    >)
        requires
            forall|k: &ThreadKey| call_requires(is_settled, (k,)),
        ensures
            r matches Some(i) ==> i < self@.drains.len(),
            forall|settled: spec_fn(Seq<char>) -> bool|
                (forall|k: &ThreadKey, x: bool|
                    call_ensures(is_settled, (k,), x) ==> x == settled(k@)) ==> #[trigger] first_due(
                    self@.drains,
                    now_ms,
                    settled,
                    0,
                ) == match r {
                    Some(i) => Some(i as int),
                    None => None,
                },
    {
        let ghost d = self@.drains;
        let mut i: usize = 0;
        while i < self.drains.len()
            invariant
                i <= self.drains@.len(),
                d == drain_views(self.drains@),
                forall|k: &ThreadKey| call_requires(is_settled, (k,)),
                forall|settled: spec_fn(Seq<char>) -> bool|
                    (forall|k: &ThreadKey, x: bool|
                        call_ensures(is_settled, (k,), x) ==> x == settled(k@))
                        ==> #[trigger] first_due(d, now_ms, settled, 0) == first_due(
                        d,
                        now_ms,
                        settled,
                        i as int,
                    ),
            decreases self.drains@.len() - i,
        {
            proof {
                assert(d[i as int] == self.drains@[i as int]@);
            }
            let s: bool = is_settled(&self.drains[i].key);
            if s || now_ms >= self.drains[i].deadline_ms {
                return Some(i);
            }
            i = i + 1;
        }
        None
    }

    /// Takes one of the agents that are to end.
    pub fn take_drain(&mut self, i: usize) -> (job: DrainJob)
        requires
            i < old(self)@.drains.len(),
        ensures
            job@ == old(self)@.drains[i as int],
            final(self)@ == (WorkersView {
                drains: old(self)@.drains.remove(i as int),
                ..old(self)@
            }),
    {
        let job: DrainJob = self.drains.remove(i);
        proof {
            assert(self@.drains =~= old(self)@.drains.remove(i as int));
        }
        job
    }
}

proof fn lemma_rows_count<V>(rows: Seq<(Seq<char>, V)>)
    requires
        table::ascending(rows),
    ensures
        table::rows_map(rows).dom().len() == rows.len(),
        table::rows_map(rows).dom().finite(),
{
    let keys = rows.map_values(|r: (Seq<char>, V)| r.0);
    assert(keys.no_duplicates()) by {
        assert forall|i: int, j: int| 0 <= i < keys.len() && 0 <= j < keys.len() && i
            != j implies keys[i] != keys[j] by {
            if i < j {
                assert(text::before(rows[i].0, rows[j].0));
            } else {
                assert(text::before(rows[j].0, rows[i].0));
            }
            text::lemma_before_irreflexive(keys[i]);
        }
    }
    keys.unique_seq_to_set();
    assert(keys.to_set() =~= table::rows_map(rows).dom()) by {
        assert forall|k: Seq<char>| #[trigger] keys.to_set().contains(k) <==> table::rows_map(
            rows,
        ).dom().contains(k) by {
            if keys.to_set().contains(k) {
                let i = choose|i: int| 0 <= i < keys.len() && keys[i] == k;
                assert(table::has_row(rows, k, i));
            }
            if table::rows_map(rows).dom().contains(k) {
                let i = choose|i: int| table::has_row(rows, k, i);
                assert(keys[i] == k);
            }
        }
    }
}

/// The agents that are known, and those that wait, are listed in key order: each once, with what is
/// known of it.
pub proof fn lemma_listed(w: Workers)
    ensures
        table::lists(w.seats(), w@.hooked),
        table::lists(w.pool_list(), w@.pools),
        forall|k: Seq<char>| #[trigger]
            w@.pools.dom().contains(k) ==> exists|j: int|
                0 <= j < w.pool_list().len() && (#[trigger] w.pool_list()[j]).0 == k,
{
    let f = |h: Hooked| h@;
    table::lemma_entries_seen(w.hooked, f);
    assert(w.seats() =~= w.hooked.entries().map_values(|r: (Seq<char>, Hooked)| (r.0, f(r.1))));
    assert(w@.hooked =~= w.hooked@.map_values(f));
    let g = |p: PoolWorker| p@;
    table::lemma_entries_seen(w.pools, g);
    assert(w.pool_list() =~= w.pools.entries().map_values(
        |r: (Seq<char>, PoolWorker)| (r.0, g(r.1)),
    ));
    assert(w@.pools =~= w.pools@.map_values(g));
    assert forall|k: Seq<char>| #[trigger] w@.pools.dom().contains(k) implies exists|j: int|
        0 <= j < w.pool_list().len() && (#[trigger] w.pool_list()[j]).0 == k by {
        assert(w.pool_list().contains((k, w@.pools[k])));
        let j = choose|j: int| 0 <= j < w.pool_list().len() && w.pool_list()[j] == (k, w@.pools[k]);
        assert(w.pool_list()[j].0 == k);
    }
}

proof fn lemma_open_transcripts(rows: Seq<(Seq<char>, HookedView)>)
    requires
        table::ascending(rows),
    ensures
        forall|sid: Seq<char>, p: Seq<char>, o: u64| #[trigger]
            open_transcripts(rows).contains((sid, p, o)) <==> exists|i: int|
                0 <= i < rows.len() && (#[trigger] rows[i]).0 == sid && !rows[i].1.ended
                    && rows[i].1.transcript_path == Some(p) && rows[i].1.transcript_offset == o,
        forall|i: int, j: int|
            0 <= i < j < open_transcripts(rows).len() ==> (#[trigger] open_transcripts(rows)[i]).0
                != (#[trigger] open_transcripts(rows)[j]).0,
    decreases rows.len(),
{
    let all = open_transcripts(rows);
    if rows.len() > 0 {
        let short = rows.drop_last();
        let last = rows.len() - 1;
        assert forall|i: int, j: int| 0 <= i < j < short.len() implies text::before(
            #[trigger] short[i].0,
            #[trigger] short[j].0,
        ) by {
            assert(text::before(rows[i].0, rows[j].0));
        }
        lemma_open_transcripts(short);
        let rest = open_transcripts(short);
        let (sid, h) = rows.last();
        assert forall|s: Seq<char>, p: Seq<char>, o: u64| #[trigger] all.contains(
            (s, p, o),
        ) <==> exists|i: int|
            0 <= i < rows.len() && (#[trigger] rows[i]).0 == s && !rows[i].1.ended
                && rows[i].1.transcript_path == Some(p) && rows[i].1.transcript_offset == o by {
            if all.contains((s, p, o)) {
                let n = choose|n: int| 0 <= n < all.len() && all[n] == (s, p, o);
                if n < rest.len() {
                    assert(rest[n] == (s, p, o));
                    assert(rest.contains((s, p, o)));
                    let i = choose|i: int|
                        0 <= i < short.len() && (#[trigger] short[i]).0 == s && !short[i].1.ended
                            && short[i].1.transcript_path == Some(p)
                            && short[i].1.transcript_offset == o;
                    assert(rows[i] == short[i]);
                } else {
                    assert(rows[last].0 == s);
                }
            }
            if exists|i: int|
                0 <= i < rows.len() && (#[trigger] rows[i]).0 == s && !rows[i].1.ended
                    && rows[i].1.transcript_path == Some(p) && rows[i].1.transcript_offset == o {
                let i = choose|i: int|
                    0 <= i < rows.len() && (#[trigger] rows[i]).0 == s && !rows[i].1.ended
                        && rows[i].1.transcript_path == Some(p) && rows[i].1.transcript_offset == o;
                if i < last {
                    assert(short[i].0 == s);
                    assert(rest.contains((s, p, o)));
                    let n = choose|n: int| 0 <= n < rest.len() && rest[n] == (s, p, o);
                    assert(all[n] == (s, p, o));
                } else {
                    assert(all.last() == (s, p, o));
                }
            }
        }
        assert forall|i: int, j: int| 0 <= i < j < all.len() implies (#[trigger] all[i]).0 != (
        #[trigger] all[j]).0 by {
            assert(all[i] == rest[i]);
            if j < rest.len() {
                assert(all[j] == rest[j]);
            } else {
                assert(all[j].0 == sid);
                assert(rest.contains((rest[i].0, rest[i].1, rest[i].2)));
                let n = choose|n: int| 0 <= n < short.len() && (#[trigger] short[n]).0 == rest[i].0;
                assert(text::before(rows[n].0, rows[last].0));
                text::lemma_before_irreflexive(sid);
            }
        }
    }
}

/// The transcripts are those of the agents that have one and have not ended, each agent's once.
pub proof fn law_transcripts_are_those_open(w: Workers)
    ensures
        forall|sid: Seq<char>, p: Seq<char>, o: u64| #[trigger]
            open_transcripts(w.seats()).contains((sid, p, o)) <==> w@.hooked.dom().contains(sid)
                && !w@.hooked[sid].ended && w@.hooked[sid].transcript_path == Some(p)
                && w@.hooked[sid].transcript_offset == o,
        forall|i: int, j: int|
            0 <= i < j < open_transcripts(w.seats()).len() ==> (#[trigger] open_transcripts(
                w.seats(),
            )[i]).0 != (#[trigger] open_transcripts(w.seats())[j]).0,
{
    lemma_listed(w);
    let rows = w.seats();
    lemma_open_transcripts(rows);
    assert forall|sid: Seq<char>, p: Seq<char>, o: u64| #[trigger] open_transcripts(rows).contains(
        (sid, p, o),
    ) <==> w@.hooked.dom().contains(sid) && !w@.hooked[sid].ended && w@.hooked[sid].transcript_path
        == Some(p) && w@.hooked[sid].transcript_offset == o by {
        if open_transcripts(rows).contains((sid, p, o)) {
            let i = choose|i: int|
                0 <= i < rows.len() && (#[trigger] rows[i]).0 == sid && !rows[i].1.ended
                    && rows[i].1.transcript_path == Some(p) && rows[i].1.transcript_offset == o;
            assert(rows.contains((sid, rows[i].1)));
        }
        if w@.hooked.dom().contains(sid) && !w@.hooked[sid].ended && w@.hooked[sid].transcript_path
            == Some(p) && w@.hooked[sid].transcript_offset == o {
            assert(rows.contains((sid, w@.hooked[sid])));
            let i = choose|i: int| 0 <= i < rows.len() && rows[i] == (sid, w@.hooked[sid]);
            assert(rows[i].0 == sid);
        }
    }
}

/// There is one row per waiting agent, with its session, when it was started, and whether its session
/// has its tools; no key stands twice.
pub proof fn law_pool_rows_are_the_pool(w: Workers)
    ensures
        forall|k: Seq<char>, sid: Seq<char>, at: u64, ready: bool| #[trigger]
            rows_of_pool(w.pool_list(), w@).contains((k, sid, at, ready)) <==> w@.pools.dom().contains(
                k,
            ) && w@.pools[k].session_id == sid && w@.pools[k].spawned_at_ms == at && ready
                == w@.is_pool_ready(sid),
        forall|i: int, j: int|
            0 <= i < j < rows_of_pool(w.pool_list(), w@).len() ==> (#[trigger] rows_of_pool(
                w.pool_list(),
                w@,
            )[i]).0 != (#[trigger] rows_of_pool(w.pool_list(), w@)[j]).0,
{
    lemma_listed(w);
    let rows = w.pool_list();
    let out = rows_of_pool(rows, w@);
    assert forall|k: Seq<char>, sid: Seq<char>, at: u64, ready: bool| #[trigger] out.contains(
        (k, sid, at, ready),
    ) <==> w@.pools.dom().contains(k) && w@.pools[k].session_id == sid && w@.pools[k].spawned_at_ms
        == at && ready == w@.is_pool_ready(sid) by {
        if out.contains((k, sid, at, ready)) {
            let i = choose|i: int| 0 <= i < out.len() && out[i] == (k, sid, at, ready);
            assert(rows[i].0 == k);
            assert(rows.contains((k, rows[i].1)));
        }
        if w@.pools.dom().contains(k) && w@.pools[k].session_id == sid && w@.pools[k].spawned_at_ms
            == at && ready == w@.is_pool_ready(sid) {
            assert(rows.contains((k, w@.pools[k])));
            let i = choose|i: int| 0 <= i < rows.len() && rows[i] == (k, w@.pools[k]);
            assert(out[i] == (k, sid, at, ready));
        }
    }
    assert forall|i: int, j: int| 0 <= i < j < out.len() implies (#[trigger] out[i]).0 != (
    #[trigger] out[j]).0 by {
        assert(text::before(rows[i].0, rows[j].0));
        text::lemma_before_irreflexive(rows[i].0);
    }
}

/// Once a session has its tools its waiting agents can be used, and nothing else in the list changes.
pub proof fn law_tools_make_ready(w: Workers, after: Workers, sid: Seq<char>)
    requires
        after@ == (WorkersView {
            hooked: w@.hooked.insert(sid, HookedView { mcp_ready: true, ..w@.seat(sid) }),
            ..w@
        }),
    ensures
        rows_of_pool(after.pool_list(), after@).len() == rows_of_pool(w.pool_list(), w@).len(),
        forall|i: int|
            0 <= i < rows_of_pool(w.pool_list(), w@).len() ==> {
                let row = rows_of_pool(w.pool_list(), w@)[i];
                #[trigger] rows_of_pool(after.pool_list(), after@)[i] == (
                    row.0,
                    row.1,
                    row.2,
                    row.1 == sid || row.3,
                )
            },
{
    lemma_listed(w);
    lemma_listed(after);
    table::lemma_one_listing(w.pool_list(), after.pool_list(), w@.pools);
}

// ── what holds of the agents ────────────────────────────────────────────────

/// Only a start puts an agent among those that wait for their first turn: whatever a hook says of a
/// seat, an agent that is there takes messages.
pub proof fn law_hooks_do_not_start(w: WorkersView, sid: Seq<char>, h: HookedView, pid: u32)
    requires
        !w.starting.contains(sid),
        !h.ended,
    ensures
        (WorkersView { hooked: w.hooked.insert(sid, h), ..w }).state_with(sid, Some(pid))
            == WorkerState::Ready,
{
}

/// Of an agent taken over from an earlier process nothing is known, and it takes messages.
pub proof fn law_inherited_is_ready(w: WorkersView, sid: Seq<char>, pid: u32)
    requires
        !w.starting.contains(sid),
        !w.hooked.dom().contains(sid),
    ensures
        w.state_with(sid, Some(pid)) == WorkerState::Ready,
        w.state_with(sid, None) == WorkerState::Absent,
{
}

/// A start holds messages back, and the first turn lets them through.
pub proof fn law_first_turn_opens(w: WorkersView, sid: Seq<char>, pid: u32)
    requires
        !w.seat(sid).ended,
    ensures
        (WorkersView { starting: w.starting.insert(sid), ..w }).state_with(sid, Some(pid))
            == WorkerState::Starting,
        (WorkersView { starting: w.starting.insert(sid).remove(sid), ..w }).state_with(
            sid,
            Some(pid),
        ) == WorkerState::Ready,
{
}

/// An agent that ended is gone, whatever else is known.
pub proof fn law_ended_is_gone(w: WorkersView, sid: Seq<char>, pid: Option<u32>)
    requires
        w.seat(sid).ended,
    ensures
        w.state_with(sid, pid) == WorkerState::Absent,
{
}

} // verus!
