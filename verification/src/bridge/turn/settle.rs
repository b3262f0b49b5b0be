//! What an agent says, how its turn ends, and what an answer settles.
use super::stall::Stalls;
use crate::bridge::state::decide::{BlockOutput, Disposition, STOP_BLOCK_REASON};
use crate::bridge::state::ledger::{self, Ledger, LedgerView};
use crate::bridge::state::pool_key::{gap, timeline_for, Lifecycle, Milestone, Timeline};
use crate::bridge::state::pools;
use crate::bridge::state::threads::{root_for, EntryView, Threads};
use crate::bridge::worker::seats::{pool_sessions, HookedView, PoolWorkerView, Workers, WorkersView};
use crate::chat::slack::input::or_empty;
use crate::chat::slack::pages;
use crate::chat::slack::sticky::{is_silent, BoardView, StickyAction, StickyBoard};
use crate::chat::{self, ThreadKey};
use crate::i18n::Lang;
use crate::json;
use crate::table::Table;
use crate::text;
use vstd::prelude::*;

verus! {

// ── hooks ───────────────────────────────────────────────────────────────────

/// A hook of an agent.
#[derive(Clone, Copy, Debug, PartialEq, Eq, Structural)]
pub enum HookKind {
    SessionStart,
    SessionEnd,
    /// The agent called a tool, so it has its tools.
    McpReady,
    McpInitialized,
    UserPrompt,
    Perm,
    Error,
    Progress,
    Narration,
    Stop,
    Unknown,
}

/// The hook of a name.
pub open spec fn hook_named(s: Seq<char>) -> HookKind {
    if s == "session_start"@ {
        HookKind::SessionStart
    } else if s == "session_end"@ {
        HookKind::SessionEnd
    } else if s == "mcp_ready"@ {
        HookKind::McpReady
    } else if s == "mcp_initialized"@ {
        HookKind::McpInitialized
    } else if s == "user_prompt"@ {
        HookKind::UserPrompt
    } else if s == "perm"@ {
        HookKind::Perm
    } else if s == "error"@ {
        HookKind::Error
    } else if s == "progress"@ {
        HookKind::Progress
    } else if s == "narration"@ {
        HookKind::Narration
    } else if s == "stop"@ {
        HookKind::Stop
    } else {
        HookKind::Unknown
    }
}

impl HookKind {
    /// The hook of a name.
    pub fn of(s: &str) -> (k: HookKind)
        ensures
            k == hook_named(s@),
    {
        if text::same(s, "session_start") {
            HookKind::SessionStart
        } else if text::same(s, "session_end") {
            HookKind::SessionEnd
        } else if text::same(s, "mcp_ready") {
            HookKind::McpReady
        } else if text::same(s, "mcp_initialized") {
            HookKind::McpInitialized
        } else if text::same(s, "user_prompt") {
            HookKind::UserPrompt
        } else if text::same(s, "perm") {
            HookKind::Perm
        } else if text::same(s, "error") {
            HookKind::Error
        } else if text::same(s, "progress") {
            HookKind::Progress
        } else if text::same(s, "narration") {
            HookKind::Narration
        } else if text::same(s, "stop") {
            HookKind::Stop
        } else {
            HookKind::Unknown
        }
    }
}

/// The event that a hook is in the timeline of its thread, where it is one.
pub open spec fn event_of(kind: HookKind) -> Option<Seq<char>> {
    match kind {
        HookKind::SessionStart => Some("session_start"@),
        HookKind::SessionEnd => Some("session_end"@),
        HookKind::McpInitialized => Some("mcp_initialized"@),
        HookKind::UserPrompt => Some("user_prompt"@),
        _ => None,
    }
}

impl HookKind {
    /// The event that the hook is in the timeline of its thread. That an agent called a tool is a
    /// fact, and no turning point.
    pub fn event(self) -> (r: Option<&'static str>)
        ensures
            match r {
                Some(e) => event_of(self) == Some(e@),
                None => event_of(self) is None,
            },
    {
        match self {
            HookKind::SessionStart => Some("session_start"),
            HookKind::SessionEnd => Some("session_end"),
            HookKind::McpInitialized => Some("mcp_initialized"),
            HookKind::UserPrompt => Some("user_prompt"),
            _ => None,
        }
    }
}

/// What is known of an agent after a hook told where its transcript is: another file is read from
/// its beginning.
pub open spec fn with_transcript(h: HookedView, path: Option<Seq<char>>) -> HookedView {
    match path {
        Some(p) => if h.transcript_path == Some(p) {
            h
        } else {
            HookedView { transcript_path: Some(p), transcript_offset: 0, ..h }
        },
        None => h,
    }
}

/// What is known of an agent after a hook.
pub open spec fn after_hook(h: HookedView, kind: HookKind, path: Option<Seq<char>>) -> HookedView {
    let h = with_transcript(h, path);
    match kind {
        HookKind::SessionStart => HookedView { ended: false, ..h },
        HookKind::SessionEnd => HookedView { ended: true, ..h },
        HookKind::McpReady => HookedView { mcp_ready: true, ..h },
        HookKind::McpInitialized => HookedView { mcp_ready: true, ..h },
        _ => h,
    }
}

/// A hook says something of the agent itself, so a seat is made for it.
pub open spec fn makes_seat(kind: HookKind, path: Option<Seq<char>>) -> bool {
    path is Some || kind == HookKind::SessionStart || kind == HookKind::SessionEnd || kind
        == HookKind::McpReady || kind == HookKind::McpInitialized
}

/// The agents after a hook. One that ended no longer waits in the pool; the first turn of one that
/// was started lets messages through. No hook marks an agent as starting: a session's start is told
/// of at other times too.
pub open spec fn agents_after(
    w: WorkersView,
    waiting: Seq<(Seq<char>, PoolWorkerView)>,
    sid: Seq<char>,
    kind: HookKind,
    path: Option<Seq<char>>,
) -> WorkersView {
    WorkersView {
        hooked: if makes_seat(kind, path) {
            w.hooked.insert(sid, after_hook(w.seat(sid), kind, path))
        } else {
            w.hooked
        },
        starting: if kind == HookKind::UserPrompt {
            w.starting.remove(sid)
        } else {
            w.starting
        },
        pools: if kind == HookKind::SessionEnd {
            match pools::first_home(pool_sessions(waiting), sid) {
                Some(k) => w.pools.remove(k),
                None => w.pools,
            }
        } else {
            w.pools
        },
        ..w
    }
}

/// Takes in what a hook says of its agent.
pub fn note_hook(workers: &mut Workers, sid: &str, kind: HookKind, transcript: Option<&str>)
    ensures
        final(workers)@ == agents_after(
            old(workers)@,
            old(workers).pool_list(),
            sid@,
            kind,
            match transcript {
                Some(p) => Some(p@),
                None => None,
            },
        ),
{
    let ghost was = workers@;
    if kind == HookKind::SessionEnd {
        let _ = workers.drop_pool_of_session(sid);
    }
    match transcript {
        Some(path) => {
            let known: bool = match workers.warm(sid) {
                Some(h) => match &h.transcript_path {
                    Some(p) => text::same(p.as_str(), path),
                    None => false,
                },
                None => false,
            };
            let h = workers.warm_mut(sid);
            if !known {
                h.transcript_path = Some(path.to_owned());
                h.transcript_offset = 0;
            }
        },
        None => {},
    }
    match kind {
        HookKind::SessionStart => {
            workers.warm_mut(sid).ended = false;
        },
        HookKind::SessionEnd => {
            workers.warm_mut(sid).ended = true;
        },
        HookKind::McpReady => {
            workers.warm_mut(sid).mcp_ready = true;
        },
        HookKind::McpInitialized => {
            workers.warm_mut(sid).mcp_ready = true;
        },
        HookKind::UserPrompt => {
            workers.clear_starting(sid);
        },
        _ => {},
    }
    proof {
        let path = match transcript {
            Some(p) => Some(p@),
            None => None,
        };
        assert(workers@ =~= agents_after(was, old(workers).pool_list(), sid@, kind, path));
    }
}

/// The event of a thread as it counts.
pub open spec fn milestone_of(
    m: Map<Seq<char>, Timeline>,
    k: Seq<char>,
    event: Seq<char>,
    now_ms: u64,
) -> Milestone {
    let t = timeline_for(m, k, event, now_ms);
    Milestone {
        seq: (t.seq + 1) as u32,
        since_prev_ms: gap(now_ms, t.prev_at),
        since_spawn_ms: gap(now_ms, t.spawn_at),
    }
}

/// The timelines after an event of a thread.
pub open spec fn with_event(
    m: Map<Seq<char>, Timeline>,
    k: Seq<char>,
    event: Seq<char>,
    now_ms: u64,
) -> Map<Seq<char>, Timeline> {
    let t = timeline_for(m, k, event, now_ms);
    m.insert(k, Timeline { spawn_at: t.spawn_at, prev_at: now_ms, seq: (t.seq + 1) as u32 })
}

/// Notes an event of a thread, and returns the line for its log; nothing before the thread is known.
pub fn milestone(
    lifecycle: &mut Lifecycle,
    key: Option<&ThreadKey>,
    event: &str,
    now_ms: u64,
) -> (r: Option<String>)
    requires
        key matches Some(k) ==> (event@ != "spawn"@ && old(lifecycle)@.dom().contains(k@) ==> old(
            lifecycle,
        )@[k@].seq < u32::MAX),
    ensures
        match key {
            None => r is None && final(lifecycle)@ == old(lifecycle)@,
            Some(k) => text::opt_view(r) == Some(
                milestone_of(old(lifecycle)@, k@, event@, now_ms).line(k@, event@),
            ) && final(lifecycle)@ == with_event(old(lifecycle)@, k@, event@, now_ms),
        },
{
    match key {
        None => None,
        Some(k) => {
            let m: Milestone = lifecycle.record(k, event, now_ms);
            Some(m.message(k, event))
        },
    }
}

/// The agent took in what was sent to it: that is the proof of receipt, and a new progress message
/// begins. Returns the messages that were not read before.
pub fn on_turn_start(ledger: &mut Ledger, board: &mut StickyBoard, key: Option<&ThreadKey>) -> (ids:
    Vec<String>)
    ensures
        match key {
            Some(k) => {
                &&& text::views(ids@) == ledger::unread(old(ledger)@.at(k@), None)
                &&& final(ledger)@ == old(ledger)@.received(k@, None)
                &&& final(board)@ == old(board)@.turn_started(k@)
            },
            None => ids@.len() == 0 && final(ledger)@ == old(ledger)@ && final(board)@ == old(board)@,
        },
        old(board)@.ok() ==> final(board)@.ok(),
        old(ledger)@.ok() ==> final(ledger)@.ok(),
{
    match key {
        Some(k) => {
            let ids: Vec<String> = ledger.mark_received(k);
            board.on_turn_start(k);
            ids
        },
        None => Vec::new(),
    }
}

/// What a hook led to.
#[derive(Debug)]
pub struct HookTaken {
    pub kind: HookKind,
    /// The line for the log of its thread, where the hook is an event of it.
    pub line: Option<String>,
    /// The messages that were not read before.
    pub read: Vec<String>,
}

/// The line for the log of a thread that a hook is an event of.
pub open spec fn hook_line(
    m: Map<Seq<char>, Timeline>,
    key: Option<Seq<char>>,
    kind: HookKind,
    now_ms: u64,
) -> Option<Seq<char>> {
    match (key, event_of(kind)) {
        (Some(k), Some(e)) => Some(milestone_of(m, k, e, now_ms).line(k, e)),
        _ => None,
    }
}

/// The timelines after a hook.
pub open spec fn timelines_after(
    m: Map<Seq<char>, Timeline>,
    key: Option<Seq<char>>,
    kind: HookKind,
    now_ms: u64,
) -> Map<Seq<char>, Timeline> {
    match (key, event_of(kind)) {
        (Some(k), Some(e)) => with_event(m, k, e, now_ms),
        _ => m,
    }
}

/// Takes in a hook of an agent, by its word and its payload: what it says of the agent, the event it is
/// in the timeline of its thread, and what it proves was read. The hooks that ask for more than that are
/// taken on by their own functions.
pub fn on_hook(
    workers: &mut Workers,
    lifecycle: &mut Lifecycle,
    ledger: &mut Ledger,
    board: &mut StickyBoard,
    sid: &str,
    key: Option<&ThreadKey>,
    kind: &str,
    payload: &str,
    now_ms: u64,
) -> (r: HookTaken)
    requires
        key matches Some(k) ==> (old(lifecycle)@.dom().contains(k@) ==> old(lifecycle)@[k@].seq
            < u32::MAX),
    ensures
        r.kind == hook_named(kind@),
        final(workers)@ == agents_after(
            old(workers)@,
            old(workers).pool_list(),
            sid@,
            hook_named(kind@),
            json::json_text(payload@, "/transcript_path"@),
        ),
        text::opt_view(r.line) == hook_line(
            old(lifecycle)@,
            opt_key(key),
            hook_named(kind@),
            now_ms,
        ),
        final(lifecycle)@ == timelines_after(
            old(lifecycle)@,
            opt_key(key),
            hook_named(kind@),
            now_ms,
        ),
        match opt_key(key) {
            Some(k) => if hook_named(kind@) == HookKind::UserPrompt {
                &&& text::views(r.read@) == ledger::unread(old(ledger)@.at(k), None)
                &&& final(ledger)@ == old(ledger)@.received(k, None)
                &&& final(board)@ == old(board)@.turn_started(k)
            } else {
                r.read@.len() == 0 && final(ledger)@ == old(ledger)@ && final(board)@ == old(board)@
            },
            None => r.read@.len() == 0 && final(ledger)@ == old(ledger)@ && final(board)@ == old(
                board,
            )@,
        },
        old(board)@.ok() ==> final(board)@.ok(),
        old(ledger)@.ok() ==> final(ledger)@.ok(),
{
    let kind: HookKind = HookKind::of(kind);
    let path: Option<String> = json::text_at(payload, "/transcript_path");
    match &path {
        Some(p) => note_hook(workers, sid, kind, Some(p.as_str())),
        None => note_hook(workers, sid, kind, None),
    }
    let line: Option<String> = match kind.event() {
        Some(event) => milestone(lifecycle, key, event, now_ms),
        None => None,
    };
    let read: Vec<String> = if kind == HookKind::UserPrompt {
        on_turn_start(ledger, board, key)
    } else {
        Vec::new()
    };
    HookTaken { kind, line, read }
}

/// What was read in a transcript: of the messages not read yet, those it shows.
pub open spec fn read_in_transcript(l: LedgerView, k: Seq<char>, lines: Seq<char>) -> Seq<Seq<char>> {
    let open = ledger::unread(l.at(k), None);
    ledger::read_ids(lines, open, open.len())
}

/// Looks for receipts in the new lines of an agent's transcript: what is sent to an agent in the
/// middle of its turn shows there only. A receipt begins a new progress message, as any other does.
/// Returns the messages that were not read before.
pub fn on_transcript(
    ledger: &mut Ledger,
    board: &mut StickyBoard,
    key: &ThreadKey,
    lines: &str,
) -> (ids: Vec<String>)
    ensures
        ({
            let found = read_in_transcript(old(ledger)@, key@, lines@);
            &&& text::views(ids@) == ledger::unread(old(ledger)@.at(key@), Some(found))
            &&& final(ledger)@ == old(ledger)@.received(key@, Some(found))
            &&& final(board)@ == if ids@.len() > 0 {
                old(board)@.turn_started(key@)
            } else {
                old(board)@
            }
        }),
        old(board)@.ok() ==> final(board)@.ok(),
        old(ledger)@.ok() ==> final(ledger)@.ok(),
{
    let open: Vec<String> = ledger.unreceived(key);
    proof {
        assert(text::views(open@).len() == open@.len());
    }
    let found: Vec<String> = Ledger::find_received_ids(lines, open.as_slice());
    let ids: Vec<String> = ledger.mark_received_ids(key, found.as_slice());
    if ids.len() > 0 {
        board.on_turn_start(key);
    }
    ids
}

/// Whether there is something to look for in the transcript of a thread's agent.
pub fn seeks_receipts(ledger: &Ledger, key: &ThreadKey) -> (r: bool)
    ensures
        r == (ledger::unread(ledger@.at(key@), None).len() > 0),
{
    let open: Vec<String> = ledger.unreceived(key);
    proof {
        assert(text::views(open@).len() == open@.len());
    }
    open.len() > 0
}

/// The agents after the transcript of one was read up to a place.
pub open spec fn read_up_to(w: WorkersView, sid: Seq<char>, offset: u64) -> WorkersView {
    WorkersView {
        hooked: w.hooked.insert(sid, HookedView { transcript_offset: offset, ..w.seat(sid) }),
        ..w
    }
}

/// Passes over what stands in an agent's transcript while there is nothing to look for in it. `len` is
/// how long the file is, where that could be read.
pub fn skip_transcript(workers: &mut Workers, sid: &str, len: Option<u64>)
    ensures
        final(workers)@ == match len {
            Some(n) => read_up_to(old(workers)@, sid@, n),
            None => old(workers)@,
        },
{
    match len {
        Some(n) => {
            workers.warm_mut(sid).transcript_offset = n;
            proof {
                assert(workers@ =~= read_up_to(old(workers)@, sid@, n));
            }
        },
        None => {},
    }
}

/// Takes in the new lines of an agent's transcript and the place they end at. Returns the messages
/// that were not read before.
pub fn scan_transcript(
    workers: &mut Workers,
    ledger: &mut Ledger,
    board: &mut StickyBoard,
    sid: &str,
    key: &ThreadKey,
    lines: &str,
    next: u64,
) -> (ids: Vec<String>)
    ensures
        final(workers)@ == read_up_to(old(workers)@, sid@, next),
        ({
            let found = read_in_transcript(old(ledger)@, key@, lines@);
            &&& text::views(ids@) == ledger::unread(old(ledger)@.at(key@), Some(found))
            &&& final(ledger)@ == old(ledger)@.received(key@, Some(found))
            &&& final(board)@ == if ids@.len() > 0 {
                old(board)@.turn_started(key@)
            } else {
                old(board)@
            }
        }),
        old(board)@.ok() ==> final(board)@.ok(),
        old(ledger)@.ok() ==> final(ledger)@.ok(),
{
    skip_transcript(workers, sid, Some(next));
    on_transcript(ledger, board, key, lines)
}

// ── narration ───────────────────────────────────────────────────────────────

/// How many bytes of a narration are shown.
pub const NARRATION_CAP: usize = 600;

/// What an agent is saying, by thread and message.
pub struct Narrations {
    rows: Table<String>,
}

impl View for Narrations {
    type V = Map<Seq<char>, Seq<char>>;

    closed spec fn view(&self) -> Map<Seq<char>, Seq<char>> {
        pools::text_views(self.rows@)
    }
}

/// Where a narration is collected. The thread is part of it, as the message's id may be empty.
pub open spec fn slot_of(key: Seq<char>, message_id: Seq<char>) -> Seq<char> {
    key + seq!['\0'] + message_id
}

/// What was collected so far.
pub open spec fn collected(m: Map<Seq<char>, Seq<char>>, slot: Seq<char>) -> Seq<char> {
    if m.dom().contains(slot) {
        m[slot]
    } else {
        Seq::empty()
    }
}

/// What is collected after one more piece: once there is enough no more is added.
pub open spec fn with_piece(was: Seq<char>, piece: Seq<char>) -> Seq<char> {
    if text::bytes(was) < NARRATION_CAP {
        was + piece
    } else {
        was
    }
}

/// A narration as it is shown.
pub open spec fn narration_shown(words: Seq<char>) -> Seq<char> {
    if text::bytes(words) > NARRATION_CAP {
        pages::clip_text(words, NARRATION_CAP as nat)
    } else {
        words
    }
}

/// A thread that may not be known.
pub open spec fn opt_key(key: Option<&ThreadKey>) -> Option<Seq<char>> {
    match key {
        Some(k) => Some(k@),
        None => None,
    }
}

/// What is collected, and the board, after one more piece of what an agent says: the last piece makes
/// it a line of the progress message.
pub open spec fn after_piece(
    m: Map<Seq<char>, Seq<char>>,
    b: BoardView,
    key: Option<Seq<char>>,
    message_id: Seq<char>,
    delta: Seq<char>,
    is_final: bool,
) -> (Map<Seq<char>, Seq<char>>, BoardView) {
    match key {
        None => (m, b),
        Some(k) => {
            let slot = slot_of(k, message_id);
            let all = with_piece(collected(m, slot), delta);
            if !is_final {
                (m.insert(slot, all), b)
            } else if narration_shown(all).len() > 0 {
                (m.remove(slot), b.with_narration(k, narration_shown(all)))
            } else {
                (m.remove(slot), b)
            }
        },
    }
}

impl Narrations {
    /// Takes in a narration hook: its payload says which message it is a piece of, the piece, and
    /// whether it is the last.
    pub fn on_narration_hook(
        &mut self,
        board: &mut StickyBoard,
        key: Option<&ThreadKey>,
        payload: &str,
    )
        ensures
            (final(self)@, final(board)@) == after_piece(
                old(self)@,
                old(board)@,
                opt_key(key),
                or_empty(json::json_text(payload@, "/message_id"@)),
                or_empty(json::json_text(payload@, "/delta"@)),
                json::json_bool(payload@, "/final"@) == Some(true),
            ),
            old(board)@.ok() ==> final(board)@.ok(),
    {
        let message_id: String = json::text_or_empty(payload, "/message_id");
        let delta: String = json::text_or_empty(payload, "/delta");
        let is_final: bool = json::is_true(payload, "/final");
        self.on_narration(board, key, message_id.as_str(), delta.as_str(), is_final);
    }

    /// Nothing is being said.
    pub fn new() -> (n: Self)
        ensures
            n@ == Map::<Seq<char>, Seq<char>>::empty(),
    {
        let n: Narrations = Narrations { rows: Table::new() };
        proof {
            assert(n@ =~= Map::<Seq<char>, Seq<char>>::empty());
        }
        n
    }

    /// Takes in one piece of what an agent says. The last piece makes it a line of the progress
    /// message, cut where it is too long.
    pub fn on_narration(
        &mut self,
        board: &mut StickyBoard,
        key: Option<&ThreadKey>,
        message_id: &str,
        delta: &str,
        is_final: bool,
    )
        ensures
            (final(self)@, final(board)@) == after_piece(
                old(self)@,
                old(board)@,
                opt_key(key),
                message_id@,
                delta@,
                is_final,
            ),
            old(board)@.ok() ==> final(board)@.ok(),
    {
        let key: &ThreadKey = match key {
            Some(k) => k,
            None => return ,
        };
        proof {
            reveal_strlit("\0");
            assert("\0"@ =~= seq!['\0']);
        }
        let slot: String = text::cat3(key.as_str(), "\0", message_id);
        let mut all: String = match self.rows.remove(slot.as_str()) {
            Some(s) => s,
            None => String::new(),
        };
        let ghost was = all@;
        proof {
            assert(was =~= collected(old(self)@, slot@));
            text::lemma_bytes_bounds(was);
            if text::bytes(was) < NARRATION_CAP {
                text::lemma_bytes_add(was, delta@);
            }
        }
        if text::byte_len(all.as_str()) < NARRATION_CAP {
            all.append(delta);
        }
        if !is_final {
            let _ = self.rows.insert(slot, all);
            proof {
                assert(self@ =~= old(self)@.insert(slot@, all@));
            }
            return ;
        }
        proof {
            assert(self@ =~= old(self)@.remove(slot@));
        }
        let shown: String = if text::byte_len(all.as_str()) > NARRATION_CAP {
            StickyBoard::clip(all.as_str(), NARRATION_CAP)
        } else {
            all
        };
        if !shown.as_str().is_empty() {
            board.push_narration(key, shown.as_str());
        }
    }
}

// ── the end of a turn ───────────────────────────────────────────────────────

/// Whether an agent is kept from ending its turn.
pub open spec fn is_kept(
    l: LedgerView,
    w: WorkersView,
    key: Option<Seq<char>>,
    sid: Seq<char>,
    stop_hook_active: bool,
) -> bool {
    key matches Some(k) && w.seat(sid).mcp_ready && !stop_hook_active && l.at(k).len() > 0
}

/// What an agent that is kept is told.
pub open spec fn kept_reason(l: LedgerView, k: Seq<char>) -> Seq<char> {
    STOP_BLOCK_REASON@ + " Outstanding message_ids: ["@ + text::joined(
        ledger::ids_of(l.at(k)),
        ", "@,
    ) + "]"@
}

/// The answer to an agent that wants to end its turn, and the board after it: one that is kept is told
/// why; one that may end ends its progress message too.
pub open spec fn is_stop_answer(
    r: Option<BlockOutput>,
    l: LedgerView,
    w: WorkersView,
    before: BoardView,
    after: BoardView,
    key: Option<Seq<char>>,
    sid: Seq<char>,
    stop_hook_active: bool,
) -> bool {
    match r {
        Some(out) => is_kept(l, w, key, sid, stop_hook_active) && out.decision@ == "block"@
            && out.reason@ == kept_reason(l, key->0) && after == before,
        None => !is_kept(l, w, key, sid, stop_hook_active) && after == match key {
            Some(k) => before.turn_ended(k),
            None => before,
        },
    }
}

/// Whether an agent may end its turn, by its stop hook; if not, what it is told. The payload says
/// whether it was kept before.
pub fn on_stop_hook(
    ledger: &Ledger,
    workers: &Workers,
    board: &mut StickyBoard,
    key: Option<&ThreadKey>,
    sid: &str,
    payload: &str,
) -> (r: Option<BlockOutput>)
    ensures
        is_stop_answer(
            r,
            ledger@,
            workers@,
            old(board)@,
            final(board)@,
            opt_key(key),
            sid@,
            json::json_bool(payload@, "/stop_hook_active"@) == Some(true),
        ),
        old(board)@.ok() ==> final(board)@.ok(),
{
    let active: bool = json::is_true(payload, "/stop_hook_active");
    on_stop(ledger, workers, board, key, sid, active)
}

/// Whether an agent may end its turn; if not, what it is told. One that may end it ends its progress
/// message too.
pub fn on_stop(
    ledger: &Ledger,
    workers: &Workers,
    board: &mut StickyBoard,
    key: Option<&ThreadKey>,
    sid: &str,
    stop_hook_active: bool,
) -> (r: Option<BlockOutput>)
    ensures
        is_stop_answer(
            r,
            ledger@,
            workers@,
            old(board)@,
            final(board)@,
            opt_key(key),
            sid@,
            stop_hook_active,
        ),
        old(board)@.ok() ==> final(board)@.ok(),
{
    let key: &ThreadKey = match key {
        Some(k) => k,
        None => return None,
    };
    let pending: Vec<String> = ledger.pending(key);
    proof {
        assert(text::views(pending@).len() == ledger@.at(key@).len());
    }
    let mcp_ready: bool = workers.pool_ready(sid);
    if Disposition::should_block_stop(true, stop_hook_active, mcp_ready, pending.len()) {
        Some(Disposition::block_output(pending.as_slice()))
    } else {
        board.on_turn_end(key);
        None
    }
}

/// What an answer settled.
#[derive(Debug)]
pub struct Settled {
    pub key: ThreadKey,
    /// The last drawing of the progress message: the message to edit, and its body.
    pub last: Option<(Option<String>, String)>,
    /// The progress message that goes.
    pub delete: Option<String>,
}

/// The root of the thread that an answer is for: the one it names or, without one, its session's.
pub open spec fn settled_root(d: Disposition, rows: Seq<(Seq<char>, EntryView)>) -> Option<
    Seq<char>,
> {
    match d.thread_ts {
        Some(ts) => Some(ts@),
        None => root_for(rows, d.session_id@),
    }
}

/// The ledger after an answer: without the messages it covers or, where it names none, without any of
/// the thread.
pub open spec fn ledger_after(l: LedgerView, k: Seq<char>, ids: Seq<Seq<char>>) -> LedgerView {
    if ids.len() == 0 {
        l.disposed_all(k)
    } else {
        l.disposed(k, ids)
    }
}

/// The last drawing of a progress message before an answer settles it.
pub open spec fn last_drawing(b: BoardView, k: Seq<char>, kind: Seq<char>, lang: Lang) -> Option<
    (Option<Seq<char>>, Seq<char>),
> {
    if (kind == "reply"@ || kind == "edit"@) && b.stickies.dom().contains(k) && b.stickies[k].dirty {
        Some((b.stickies[k].posted_ts, b.stickies[k].page(lang).0))
    } else {
        None
    }
}

/// The progress message that goes with an answer: silence and a reaction leave none.
pub open spec fn deleted_message(b: BoardView, k: Seq<char>, kind: Seq<char>) -> Option<Seq<char>> {
    if is_silent(kind) && b.stickies.dom().contains(k) {
        b.stickies[k].posted_ts
    } else {
        None
    }
}

pub open spec fn drawing_view(d: Option<(Option<String>, String)>) -> Option<
    (Option<Seq<char>>, Seq<char>),
> {
    match d {
        Some((ts, body)) => Some((text::opt_view(ts), body@)),
        None => None,
    }
}

/// An agent answered. Its thread is no longer watched, what the answer covers leaves the ledger, and
/// the progress message is settled. Where the thread cannot be found nothing changes.
pub fn on_disposition(
    threads: &Threads,
    ledger: &mut Ledger,
    stalls: &mut Stalls,
    board: &mut StickyBoard,
    d: &Disposition,
    lang: Lang,
) -> (r: Option<Settled>)
    requires
        settled_root(*d, threads.rows()) matches Some(root) ==> ({
            let k = chat::key_of(d.channel_id@, root);
            let b = old(board)@.stickies;
            b.dom().contains(k) && b[k].dirty ==> b[k].drawable(lang)
        }),
    ensures
        match settled_root(*d, threads.rows()) {
            None => r is None && final(ledger)@ == old(ledger)@ && final(stalls)@ == old(stalls)@
                && final(board)@ == old(board)@,
            Some(root) => {
                let k = chat::key_of(d.channel_id@, root);
                &&& r matches Some(s) && s.key@ == k && drawing_view(s.last) == last_drawing(
                    old(board)@,
                    k,
                    d.kind@,
                    lang,
                ) && text::opt_view(s.delete) == deleted_message(old(board)@, k, d.kind@)
                &&& final(ledger)@ == ledger_after(old(ledger)@, k, text::views(d.message_ids@))
                &&& final(stalls)@ == old(stalls)@.remove(k)
                &&& final(board)@ == old(board)@.settled_by(k, d.kind@)
            },
        },
        old(board)@.ok() ==> final(board)@.ok(),
        old(ledger)@.ok() ==> final(ledger)@.ok(),
{
    let root: String = match &d.thread_ts {
        Some(ts) => ts.clone(),
        None => match threads.root_of_session(d.session_id.as_str()) {
            Some(ts) => ts,
            None => return None,
        },
    };
    let key: ThreadKey = ThreadKey::new(d.channel_id.as_str(), root.as_str());
    let _ = stalls.stop(&key);
    proof {
        assert(text::views(d.message_ids@).len() == d.message_ids@.len());
    }
    if d.message_ids.len() == 0 {
        let _ = ledger.dispose_all(&key);
    } else {
        ledger.disposed(&key, d.message_ids.as_slice());
    }
    let ghost b = board@;
    let last: Option<(Option<String>, String)> = if text::same(d.kind, "reply") || text::same(
        d.kind,
        "edit",
    ) {
        board.take_final(&key, lang)
    } else {
        None
    };
    let delete: Option<String> = match board.settle(&key, d.kind) {
        StickyAction::Delete(ts) => Some(ts),
        StickyAction::Keep => None,
    };
    proof {
        reveal_strlit("reply");
        reveal_strlit("edit");
        reveal_strlit("no_reply");
        reveal_strlit("react");
        assert("reply"@.len() == 5);
        assert("edit"@.len() == 4);
        assert("no_reply"@.len() == 8);
        assert("react"@.len() == 5);
        assert("reply"@[2] == 'p');
        assert("react"@[2] == 'a');
        assert(board@ =~= b.settled_by(key@, d.kind@)) by {
            assert(board@.stickies =~= b.stickies.remove(key@));
        }
    }
    Some(Settled { key, last, delete })
}

/// What is done with one drawing of a progress message.
#[derive(Clone, Copy, Debug, PartialEq, Eq, Structural)]
pub enum FlushStep {
    /// An empty body is not drawn.
    Nothing,
    Update,
    Post,
}

impl FlushStep {
    /// A message that was posted is edited; another is posted.
    pub fn of(posted: bool, body: &str) -> (s: FlushStep)
        ensures
            s == if body@.len() == 0 {
                FlushStep::Nothing
            } else if posted {
                FlushStep::Update
            } else {
                FlushStep::Post
            },
    {
        if body.is_empty() {
            FlushStep::Nothing
        } else if posted {
            FlushStep::Update
        } else {
            FlushStep::Post
        }
    }
}

// ── what holds of the end of a turn ─────────────────────────────────────────

/// A hook that is an event goes by the event's name.
pub proof fn law_events_are_hooks(kind: HookKind)
    requires
        event_of(kind) is Some,
    ensures
        hook_named(event_of(kind)->0) == kind,
{
    reveal_strlit("session_start");
    reveal_strlit("session_end");
    reveal_strlit("mcp_ready");
    reveal_strlit("mcp_initialized");
    reveal_strlit("user_prompt");
    assert("session_start"@.len() == 13);
    assert("session_end"@.len() == 11);
    assert("mcp_ready"@.len() == 9);
    assert("mcp_initialized"@.len() == 15);
    assert("user_prompt"@.len() == 11);
    assert("session_end"@[0] == 's');
    assert("user_prompt"@[0] == 'u');
}

/// An agent is kept from ending its turn once at most.
pub proof fn law_kept_once(l: LedgerView, w: WorkersView, key: Option<Seq<char>>, sid: Seq<char>)
    ensures
        !is_kept(l, w, key, sid, true),
{
}

/// An agent that answered all is not kept.
pub proof fn law_answered_may_end(
    l: LedgerView,
    w: WorkersView,
    k: Seq<char>,
    sid: Seq<char>,
    stop_hook_active: bool,
)
    ensures
        !is_kept(ledger_after(l, k, Seq::empty()), w, Some(k), sid, stop_hook_active),
{
}

/// An answer that names what waits leaves nothing that keeps its agent.
pub proof fn law_full_answer_may_end(
    l: LedgerView,
    w: WorkersView,
    k: Seq<char>,
    sid: Seq<char>,
    stop_hook_active: bool,
)
    requires
        l.at(k).len() > 0,
    ensures
        !is_kept(
            ledger_after(l, k, ledger::ids_of(l.at(k))),
            w,
            Some(k),
            sid,
            stop_hook_active,
        ),
{
    let ids = ledger::ids_of(l.at(k));
    assert(ids.len() == l.at(k).len());
    let after = l.disposed(k, ids);
    if after.at(k).len() > 0 {
        let x = ledger::ids_of(after.at(k))[0];
        assert(ledger::ids_of(after.at(k)).contains(x));
        ledger::law_answer_covers(l, k, ids, x);
    }
}

/// An agent whose tools are not there is not kept: it could not answer.
pub proof fn law_no_tools_may_end(
    l: LedgerView,
    w: WorkersView,
    key: Option<Seq<char>>,
    sid: Seq<char>,
    stop_hook_active: bool,
)
    requires
        !w.seat(sid).mcp_ready,
    ensures
        !is_kept(l, w, key, sid, stop_hook_active),
{
}

/// No hook marks an agent as starting.
pub proof fn law_no_hook_starts(
    w: WorkersView,
    waiting: Seq<(Seq<char>, PoolWorkerView)>,
    sid: Seq<char>,
    kind: HookKind,
    path: Option<Seq<char>>,
)
    ensures
        agents_after(w, waiting, sid, kind, path).starting.subset_of(w.starting),
{
}

/// What the agents of two threads say is kept apart, though their messages have one id.
pub proof fn law_narrations_are_apart(a: Seq<char>, b: Seq<char>, message_id: Seq<char>)
    requires
        a != b,
    ensures
        slot_of(a, message_id) != slot_of(b, message_id),
{
    let x = slot_of(a, message_id);
    let y = slot_of(b, message_id);
    if x == y {
        assert(x.len() == a.len() + 1 + message_id.len());
        assert(a.len() == b.len());
        assert(a =~= b) by {
            assert forall|i: int| 0 <= i < a.len() implies a[i] == b[i] by {
                assert(x[i] == a[i] && y[i] == b[i]);
            }
        }
    }
}

/// A turn does not end while an answer is owed: where the agent has its tools and was not kept already,
/// one message that is open is enough, and so are several. The progress message stays as it is, and
/// the agent is told of every one.
pub proof fn law_owing_is_kept(
    r: Option<BlockOutput>,
    l: LedgerView,
    w: WorkersView,
    before: BoardView,
    after: BoardView,
    k: Seq<char>,
    sid: Seq<char>,
    i: int,
)
    requires
        is_stop_answer(r, l, w, before, after, Some(k), sid, false),
        w.hooked.dom().contains(sid),
        w.hooked[sid].mcp_ready,
        l.by_key.dom().contains(k),
        0 <= i < l.by_key[k].len(),
    ensures
        after == before,
        r matches Some(out) && out.decision@ == "block"@ && STOP_BLOCK_REASON@.is_prefix_of(
            out.reason@,
        ) && text::has(out.reason@, l.by_key[k][i].id),
{
    let ids = ledger::ids_of(l.at(k));
    text::law_joined_holds_parts(ids, ", "@, i);
    let list = text::joined(ids, ", "@);
    let head = STOP_BLOCK_REASON@ + " Outstanding message_ids: ["@;
    let reason = head + list + "]"@;
    assert(ids[i] == l.by_key[k][i].id);
    let at = choose|at: int| text::stands_at(list, ids[i], at);
    assert(reason.subrange(head.len() + at, head.len() + at + ids[i].len()) =~= list.subrange(
        at,
        at + ids[i].len(),
    ));
    assert(text::stands_at(reason, ids[i], head.len() + at));
    assert(reason.take(STOP_BLOCK_REASON@.len() as int) =~= STOP_BLOCK_REASON@);
}

/// A turn is kept for no other reason: only of an agent that has its tools, that serves a thread, that
/// was not kept already, and that owes an answer there. Else the turn ends: nothing more is drawn for
/// the thread, what was held back is dropped, and the rest stays.
pub proof fn law_nothing_owed_ends(
    r: Option<BlockOutput>,
    l: LedgerView,
    w: WorkersView,
    before: BoardView,
    after: BoardView,
    key: Option<Seq<char>>,
    sid: Seq<char>,
    stop_hook_active: bool,
)
    requires
        is_stop_answer(r, l, w, before, after, key, sid, stop_hook_active),
    ensures
        r is Some ==> {
            &&& key is Some && l.by_key.dom().contains(key->0) && l.by_key[key->0].len() > 0
            &&& w.seat(sid).mcp_ready
            &&& !stop_hook_active
            &&& after == before
        },
        r is None && key is None ==> after == before,
        r is None ==> (key matches Some(k) ==> {
            &&& after.closed == before.closed.insert(k)
            &&& after.held == before.held.remove(k)
            &&& after.stickies == before.stickies
            &&& after.settled == before.settled
        }),
{
}

proof fn lemma_hook_names()
    ensures
        hook_named("session_start"@) == HookKind::SessionStart,
        hook_named("session_end"@) == HookKind::SessionEnd,
        hook_named("mcp_ready"@) == HookKind::McpReady,
        hook_named("mcp_initialized"@) == HookKind::McpInitialized,
        hook_named("user_prompt"@) == HookKind::UserPrompt,
        hook_named("perm"@) == HookKind::Perm,
        hook_named("error"@) == HookKind::Error,
        hook_named("progress"@) == HookKind::Progress,
        hook_named("narration"@) == HookKind::Narration,
        hook_named("stop"@) == HookKind::Stop,
{
    reveal_strlit("session_start");
    reveal_strlit("session_end");
    reveal_strlit("mcp_ready");
    reveal_strlit("mcp_initialized");
    reveal_strlit("user_prompt");
    reveal_strlit("perm");
    reveal_strlit("error");
    reveal_strlit("progress");
    reveal_strlit("narration");
    reveal_strlit("stop");
    assert("session_start"@.len() == 13 && "session_end"@.len() == 11 && "mcp_ready"@.len() == 9
        && "mcp_initialized"@.len() == 15 && "user_prompt"@.len() == 11 && "perm"@.len() == 4
        && "error"@.len() == 5 && "progress"@.len() == 8 && "narration"@.len() == 9
        && "stop"@.len() == 4);
    assert("session_end"@[0] == 's' && "user_prompt"@[0] == 'u');
    assert("mcp_ready"@[0] == 'm' && "narration"@[0] == 'n');
    assert("perm"@[0] == 'p' && "stop"@[0] == 's');
}

/// A hook by name tells what became of its agent: it started, it ended, it has its tools. Each is noted
/// of that agent and of no other; a hook of another name notes nothing of the kind.
pub proof fn law_hooks_tell_of_their_agent(
    w: WorkersView,
    waiting: Seq<(Seq<char>, PoolWorkerView)>,
    sid: Seq<char>,
    name: Seq<char>,
    path: Option<Seq<char>>,
    other: Seq<char>,
)
    ensures
        ({
            let after = agents_after(w, waiting, sid, hook_named(name), path);
            &&& name == "session_start"@ ==> after.hooked.dom().contains(sid)
                && !after.hooked[sid].ended
            &&& name == "session_end"@ ==> after.hooked.dom().contains(sid)
                && after.hooked[sid].ended
            &&& name != "session_start"@ && name != "session_end"@ ==> after.seat(sid).ended
                == w.seat(sid).ended
            &&& name == "mcp_ready"@ || name == "mcp_initialized"@ ==> after.hooked.dom().contains(
                sid,
            ) && after.hooked[sid].mcp_ready
            &&& name != "mcp_ready"@ && name != "mcp_initialized"@ ==> after.seat(sid).mcp_ready
                == w.seat(sid).mcp_ready
            &&& other != sid ==> after.seat(other) == w.seat(other) && (after.hooked.dom().contains(
                other,
            ) <==> w.hooked.dom().contains(other))
        }),
{
    lemma_hook_names();
}

/// A hook that names the transcript is believed: one that was not read before is read from its start,
/// one that was is read on from where it stood. A hook that names none changes nothing of it.
pub proof fn law_hooks_name_the_transcript(
    w: WorkersView,
    waiting: Seq<(Seq<char>, PoolWorkerView)>,
    sid: Seq<char>,
    kind: HookKind,
    path: Option<Seq<char>>,
)
    ensures
        ({
            let was = w.seat(sid);
            let now = agents_after(w, waiting, sid, kind, path).seat(sid);
            match path {
                Some(p) => {
                    &&& now.transcript_path == Some(p)
                    &&& was.transcript_path == Some(p) ==> now.transcript_offset
                        == was.transcript_offset
                    &&& was.transcript_path != Some(p) ==> now.transcript_offset == 0
                },
                None => now.transcript_path == was.transcript_path && now.transcript_offset
                    == was.transcript_offset,
            }
        }),
{
}

/// A prompt that reached the agent ends its start; no other hook does.
pub proof fn law_prompt_ends_the_start(
    w: WorkersView,
    waiting: Seq<(Seq<char>, PoolWorkerView)>,
    sid: Seq<char>,
    name: Seq<char>,
    path: Option<Seq<char>>,
    other: Seq<char>,
)
    ensures
        agents_after(w, waiting, sid, hook_named(name), path).starting.contains(other)
            <==> w.starting.contains(other) && !(name == "user_prompt"@ && other == sid),
{
    lemma_hook_names();
}

/// Only the end of a session takes an agent off a pool.
pub proof fn law_pools_lose_the_ended(
    w: WorkersView,
    waiting: Seq<(Seq<char>, PoolWorkerView)>,
    sid: Seq<char>,
    name: Seq<char>,
    path: Option<Seq<char>>,
)
    ensures
        name != "session_end"@ ==> agents_after(w, waiting, sid, hook_named(name), path).pools
            == w.pools,
{
    lemma_hook_names();
}

/// What is said in pieces is drawn once, whole, when the last piece came; until then it is kept and
/// nothing is drawn.
pub proof fn law_pieces_are_drawn_whole(
    m: Map<Seq<char>, Seq<char>>,
    b: BoardView,
    k: Seq<char>,
    message_id: Seq<char>,
    first: Seq<char>,
    last: Seq<char>,
)
    requires
        !m.dom().contains(slot_of(k, message_id)),
        text::bytes(first) < 600,
        text::bytes(first + last) <= 600,
        (first + last).len() > 0,
    ensures
        ({
            let (m1, b1) = after_piece(m, b, Some(k), message_id, first, false);
            let (m2, b2) = after_piece(m1, b1, Some(k), message_id, last, true);
            &&& b1 == b
            &&& b2 == b.with_narration(k, first + last)
            &&& m2 == m
        }),
{
    let slot = slot_of(k, message_id);
    assert(Seq::<char>::empty() + first =~= first);
    assert(text::bytes(Seq::<char>::empty()) == 0);
    let (m1, b1) = after_piece(m, b, Some(k), message_id, first, false);
    assert(m1.remove(slot) =~= m);
}

/// What is said is collected up to the limit: past it nothing more is kept.
pub proof fn law_collecting_stops(was: Seq<char>, piece: Seq<char>)
    ensures
        text::bytes(was) < 600 ==> with_piece(was, piece) == was + piece,
        text::bytes(was) >= 600 ==> with_piece(was, piece) == was,
        text::bytes(was) <= 600 ==> narration_shown(was) == was,
{
}

/// What is said to no thread is neither kept nor drawn, and nothing is drawn of silence.
pub proof fn law_nothing_said(
    m: Map<Seq<char>, Seq<char>>,
    b: BoardView,
    k: Seq<char>,
    message_id: Seq<char>,
    piece: Seq<char>,
    is_final: bool,
)
    ensures
        after_piece(m, b, None, message_id, piece, is_final) == (m, b),
        !m.dom().contains(slot_of(k, message_id)) ==> after_piece(
            m,
            b,
            Some(k),
            message_id,
            Seq::empty(),
            true,
        ) == (m, b),
{
    assert(Seq::<char>::empty() + Seq::<char>::empty() =~= Seq::<char>::empty());
    assert(text::bytes(Seq::<char>::empty()) == 0);
    if !m.dom().contains(slot_of(k, message_id)) {
        assert(m.remove(slot_of(k, message_id)) =~= m);
    }
}

/// The thread that an answer settles is the one it names, whatever else is known of its session.
pub proof fn law_named_thread_is_settled(d: Disposition, rows: Seq<(Seq<char>, EntryView)>)
    ensures
        d.thread_ts matches Some(ts) ==> settled_root(d, rows) == Some(ts@),
        d.thread_ts is None ==> settled_root(d, rows) == root_for(rows, d.session_id@),
{
}

/// An answer that names messages settles those, and one that names none settles all of its thread;
/// other threads' stay open.
pub proof fn law_answer_settles(
    l: LedgerView,
    k: Seq<char>,
    ids: Seq<Seq<char>>,
    x: Seq<char>,
    other: Seq<char>,
)
    ensures
        ledger::ids_of(ledger_after(l, k, ids).at(k)).contains(x) <==> ledger::ids_of(
            l.at(k),
        ).contains(x) && ids.len() > 0 && !ids.contains(x),
        other != k ==> ledger_after(l, k, ids).at(other) == l.at(other),
{
    if ids.len() > 0 {
        ledger::law_answer_covers(l, k, ids, x);
    } else {
        assert(ledger::ids_of(ledger_after(l, k, ids).at(k)).len() == 0);
    }
}

/// A last drawing is made of a progress message that changed, before an answer in words takes its
/// place; an answer in words deletes nothing. A reaction and a silent end draw nothing and delete what
/// was posted.
pub proof fn law_end_of_the_message(b: BoardView, k: Seq<char>, kind: Seq<char>, lang: Lang)
    ensures
        last_drawing(b, k, kind, lang) is Some <==> (kind == "reply"@ || kind == "edit"@)
            && b.stickies.dom().contains(k) && b.stickies[k].dirty,
        last_drawing(b, k, kind, lang) matches Some(d) ==> d.0 == b.stickies[k].posted_ts && d.1
            == b.stickies[k].page(lang).0,
        kind == "reply"@ || kind == "edit"@ ==> deleted_message(b, k, kind) is None,
        kind == "no_reply"@ || kind == "react"@ ==> deleted_message(b, k, kind)
            == if b.stickies.dom().contains(k) {
            b.stickies[k].posted_ts
        } else {
            None
        },
{
    reveal_strlit("reply");
    reveal_strlit("edit");
    reveal_strlit("no_reply");
    reveal_strlit("react");
    assert("reply"@.len() == 5 && "edit"@.len() == 4 && "no_reply"@.len() == 8 && "react"@.len()
        == 5);
    assert("reply"@[2] == 'p' && "react"@[2] == 'a');
}

} // verus!
