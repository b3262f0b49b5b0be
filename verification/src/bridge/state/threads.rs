//! What is remembered of each thread.
use super::ledger::{self, Inflight, InflightView};
use crate::chat::{self, ChannelKind, InboundMsg, ThreadKey};
use crate::table::{self, Table};
use crate::text;
use vstd::prelude::*;

verus! {

/// A message that waits to be delivered.
#[derive(Debug, PartialEq, Eq)]
pub struct Parked {
    pub channel_id: Option<String>,
    pub message_id: Option<String>,
    pub user: Option<String>,
    pub text: String,
    pub file_paths: Vec<String>,
    pub file_errors: Vec<String>,
    /// What else stands with it, as JSON text.
    pub extra: String,
}

/// What a [`Parked`] message holds.
#[verifier::ext_equal]
pub struct ParkedView {
    pub channel_id: Option<Seq<char>>,
    pub message_id: Option<Seq<char>>,
    pub user: Option<Seq<char>>,
    pub text: Seq<char>,
    pub file_paths: Seq<Seq<char>>,
    pub file_errors: Seq<Seq<char>>,
    pub extra: Seq<char>,
}

impl View for Parked {
    type V = ParkedView;

    open spec fn view(&self) -> ParkedView {
        ParkedView {
            channel_id: text::opt_view(self.channel_id),
            message_id: text::opt_view(self.message_id),
            user: text::opt_view(self.user),
            text: self.text@,
            file_paths: text::views(self.file_paths@),
            file_errors: text::views(self.file_errors@),
            extra: self.extra@,
        }
    }
}

pub open spec fn parked_views(v: Seq<Parked>) -> Seq<ParkedView> {
    v.map_values(|p: Parked| p@)
}

/// What is remembered of one thread: which session answers it, where that runs, what it may do.
#[derive(Debug)]
pub struct ThreadEntry {
    /// The session that answers the thread.
    pub agent_id: Option<String>,
    /// The tools a person said not to ask for again in this thread.
    pub allowed_tools: Option<Vec<String>>,
    pub channel_id: Option<String>,
    pub repo_path: Option<String>,
    /// The first 60 characters of the opening message.
    pub topic: Option<String>,
    /// What was delivered and is not answered.
    pub inflight: Vec<Inflight>,
    pub status: Option<String>,
    /// How many bot posts came in a row.
    pub bot_streak: Option<u64>,
    /// What is not delivered yet.
    pub pending: Vec<Parked>,
    /// What else stands in the record, as JSON text.
    pub extra: String,
}

/// What a [`ThreadEntry`] holds.
#[verifier::ext_equal]
pub struct EntryView {
    pub agent_id: Option<Seq<char>>,
    pub allowed_tools: Option<Seq<Seq<char>>>,
    pub channel_id: Option<Seq<char>>,
    pub repo_path: Option<Seq<char>>,
    pub topic: Option<Seq<char>>,
    pub inflight: Seq<InflightView>,
    pub status: Option<Seq<char>>,
    pub bot_streak: Option<u64>,
    pub pending: Seq<ParkedView>,
    pub extra: Seq<char>,
}

/// What a list that may be absent holds.
pub open spec fn opt_views(v: Option<Vec<String>>) -> Option<Seq<Seq<char>>> {
    match v {
        Some(l) => Some(text::views(l@)),
        None => None,
    }
}

impl View for ThreadEntry {
    type V = EntryView;

    open spec fn view(&self) -> EntryView {
        EntryView {
            agent_id: text::opt_view(self.agent_id),
            allowed_tools: opt_views(self.allowed_tools),
            channel_id: text::opt_view(self.channel_id),
            repo_path: text::opt_view(self.repo_path),
            topic: text::opt_view(self.topic),
            inflight: ledger::item_views(self.inflight@),
            status: text::opt_view(self.status),
            bot_streak: self.bot_streak,
            pending: parked_views(self.pending@),
            extra: self.extra@,
        }
    }
}

impl EntryView {
    /// A record that says nothing yet.
    pub open spec fn blank() -> EntryView {
        EntryView {
            agent_id: None,
            allowed_tools: None,
            channel_id: None,
            repo_path: None,
            topic: None,
            inflight: Seq::empty(),
            status: None,
            bot_streak: None,
            pending: Seq::empty(),
            extra: Seq::empty(),
        }
    }
}

impl Default for ThreadEntry {
    fn default() -> (e: Self)
        ensures
            e@ == EntryView::blank(),
    {
        proof {
            reveal_strlit("");
        }
        let e: ThreadEntry = ThreadEntry {
            agent_id: None,
            allowed_tools: None,
            channel_id: None,
            repo_path: None,
            topic: None,
            inflight: Vec::new(),
            status: None,
            bot_streak: None,
            pending: Vec::new(),
            extra: "".to_owned(),
        };
        proof {
            assert(e@ =~= EntryView::blank());
        }
        e
    }
}

impl ThreadEntry {
    /// The record of a thread that a session answers.
    pub fn new(channel_id: &str, agent_id: &str) -> (e: Self)
        ensures
            e@ == (EntryView {
                agent_id: Some(agent_id@),
                channel_id: Some(channel_id@),
                ..EntryView::blank()
            }),
    {
        let mut e: ThreadEntry = ThreadEntry::default();
        e.agent_id = Some(agent_id.to_owned());
        e.channel_id = Some(channel_id.to_owned());
        e
    }

    /// The record of a thread that a waiting agent is bound to. Its session is filled in by the
    /// caller.
    pub fn for_pool_assignment(channel_id: &str, cwd: &str, topic: Option<String>) -> (e:
        ThreadEntry)
        ensures
            e@ == (EntryView {
                channel_id: Some(channel_id@),
                repo_path: Some(cwd@),
                topic: text::opt_view(topic),
                ..EntryView::blank()
            }),
    {
        let mut e: ThreadEntry = ThreadEntry::default();
        e.channel_id = Some(channel_id.to_owned());
        e.repo_path = Some(cwd.to_owned());
        e.topic = topic;
        e
    }
}

// ── what the operations do ──────────────────────────────────────────────────

/// The state of a thread: unknown, not begun, paused, or active.
pub open spec fn status_in(m: Map<Seq<char>, EntryView>, ts: Seq<char>) -> Seq<char> {
    if !m.dom().contains(ts) {
        "none"@
    } else {
        match m[ts].status {
            Some(s) => if s == "pending"@ || s == "paused"@ {
                s
            } else {
                "active"@
            },
            None => "active"@,
        }
    }
}

/// The record of a thread; a blank one where there is none.
pub open spec fn entry_or_blank(m: Map<Seq<char>, EntryView>, ts: Seq<char>) -> EntryView {
    if m.dom().contains(ts) {
        m[ts]
    } else {
        EntryView::blank()
    }
}

/// Whether a message is parked already.
pub open spec fn is_parked(queue: Seq<ParkedView>, id: Seq<char>) -> bool {
    exists|i: int| 0 <= i < queue.len() && (#[trigger] queue[i]).message_id == Some(id)
}

/// A message as it is parked.
pub open spec fn parked_of(msg: InboundMsg) -> ParkedView {
    ParkedView {
        channel_id: Some(msg.channel@),
        message_id: Some(msg.ts@),
        user: text::opt_view(msg.user),
        text: msg.text@,
        file_paths: text::views(msg.file_paths@),
        file_errors: text::views(msg.file_errors@),
        extra: Seq::empty(),
    }
}

/// The record after a message was parked in it: once, however often it comes.
pub open spec fn with_parked(e: EntryView, channel: Seq<char>, msg: InboundMsg) -> EntryView {
    EntryView {
        channel_id: if e.channel_id is None {
            Some(channel)
        } else {
            e.channel_id
        },
        pending: if is_parked(e.pending, msg.ts@) {
            e.pending
        } else {
            e.pending.push(parked_of(msg))
        },
        ..e
    }
}

/// The parked messages that can be delivered: those that name their channel and their id.
pub open spec fn deliverable(queue: Seq<ParkedView>) -> Seq<ParkedView>
    decreases queue.len(),
{
    if queue.len() == 0 {
        queue
    } else {
        let rest = deliverable(queue.drop_last());
        if queue.last().channel_id is Some && queue.last().message_id is Some {
            rest.push(queue.last())
        } else {
            rest
        }
    }
}

/// The records after the parked messages of a thread were taken out.
pub open spec fn drained(m: Map<Seq<char>, EntryView>, ts: Seq<char>) -> Map<
    Seq<char>,
    EntryView,
> {
    if m.dom().contains(ts) {
        m.insert(ts, EntryView { pending: Seq::empty(), ..m[ts] })
    } else {
        m
    }
}

/// The records after messages were parked in a thread one after another, each with the channel it was
/// parked for.
pub open spec fn all_parked(
    m: Map<Seq<char>, EntryView>,
    ts: Seq<char>,
    items: Seq<(Seq<char>, InboundMsg)>,
) -> Map<Seq<char>, EntryView>
    decreases items.len(),
{
    if items.len() == 0 {
        m
    } else {
        let before = all_parked(m, ts, items.drop_last());
        before.insert(
            ts,
            with_parked(entry_or_blank(before, ts), items.last().0, items.last().1),
        )
    }
}

/// The messages that came first under their id, in order.
pub open spec fn first_of_each(items: Seq<(Seq<char>, InboundMsg)>) -> Seq<InboundMsg>
    decreases items.len(),
{
    if items.len() == 0 {
        Seq::empty()
    } else {
        let before = first_of_each(items.drop_last());
        if exists|i: int| 0 <= i < before.len() && (#[trigger] before[i]).ts@ == items.last().1.ts@ {
            before
        } else {
            before.push(items.last().1)
        }
    }
}

/// The message that a parked one becomes again.
pub open spec fn is_taken_out(msg: InboundMsg, p: ParkedView, ts: Seq<char>) -> bool {
    &&& p.channel_id == Some(msg.channel@)
    &&& p.message_id == Some(msg.ts@)
    &&& msg.channel_kind == if text::stands_at(msg.channel@, seq!['D'], 0) {
        ChannelKind::Dm
    } else {
        ChannelKind::Channel
    }
    &&& text::opt_view(msg.thread_ts) == Some(ts)
    &&& text::opt_view(msg.user) == p.user
    &&& !msg.is_bot
    &&& msg.bot_id is None
    &&& msg.text@ == p.text
    &&& msg.files@.len() == 0
    &&& text::views(msg.file_paths@) == p.file_paths
    &&& text::views(msg.file_errors@) == p.file_errors
    &&& msg.reaction is None
    &&& msg.deleted_ts is None
    &&& msg.edited is None
}

/// How many bot posts came in a row.
pub open spec fn streak_of(e: EntryView) -> u64 {
    match e.bot_streak {
        Some(n) => n,
        None => 0,
    }
}

/// The record after a person spoke.
pub open spec fn resumed(e: EntryView) -> EntryView {
    EntryView {
        bot_streak: Some(0),
        status: if e.status == Some("paused"@) {
            Some("active"@)
        } else {
            e.status
        },
        ..e
    }
}

/// The count of messages by bots in a row, and the records, after one more in a thread. A thread that is
/// not known has no count.
pub open spec fn bumped(m: Map<Seq<char>, EntryView>, ts: Seq<char>) -> (
    u64,
    Map<Seq<char>, EntryView>,
) {
    if m.dom().contains(ts) {
        let n = (streak_of(m[ts]) + 1) as u64;
        (n, m.insert(ts, EntryView { bot_streak: Some(n), ..m[ts] }))
    } else {
        (0, m)
    }
}

/// The records after a thread was paused.
pub open spec fn paused_in(m: Map<Seq<char>, EntryView>, ts: Seq<char>) -> Map<
    Seq<char>,
    EntryView,
> {
    if m.dom().contains(ts) {
        m.insert(ts, EntryView { status: Some("paused"@), ..m[ts] })
    } else {
        m
    }
}

/// The records after a person wrote in a thread.
pub open spec fn heard_in(m: Map<Seq<char>, EntryView>, ts: Seq<char>) -> Map<
    Seq<char>,
    EntryView,
> {
    if m.dom().contains(ts) && status_in(m, ts) != "pending"@ {
        m.insert(ts, resumed(m[ts]))
    } else {
        m
    }
}

/// Whether a thread is an agent's, and the records after the thread let go of it.
pub open spec fn let_go(m: Map<Seq<char>, EntryView>, ts: Seq<char>, sid: Seq<char>) -> (
    bool,
    Map<Seq<char>, EntryView>,
) {
    if m.dom().contains(ts) && m[ts].agent_id == Some(sid) {
        (true, m.insert(ts, EntryView { agent_id: None, ..m[ts] }))
    } else {
        (false, m)
    }
}

/// A list with `x` in it once more, unless it is there.
pub open spec fn with_item(list: Seq<Seq<char>>, x: Seq<char>) -> Seq<Seq<char>> {
    if list.contains(x) {
        list
    } else {
        list.push(x)
    }
}

/// The tools that may be used without asking.
pub open spec fn tools_of(v: Option<Seq<Seq<char>>>) -> Seq<Seq<char>> {
    match v {
        Some(l) => l,
        None => Seq::empty(),
    }
}

/// The records after a tool was granted in a thread.
pub open spec fn with_thread_tool(
    m: Map<Seq<char>, EntryView>,
    ts: Seq<char>,
    tool: Seq<char>,
) -> Map<Seq<char>, EntryView> {
    if ts.len() == 0 || tool.len() == 0 {
        m
    } else {
        let e = entry_or_blank(m, ts);
        m.insert(
            ts,
            EntryView {
                allowed_tools: Some(with_item(tools_of(e.allowed_tools), tool)),
                ..e
            },
        )
    }
}

/// The first record, by root, of a thread that a session answers.
pub open spec fn first_record(rows: Seq<(Seq<char>, EntryView)>, sid: Seq<char>) -> Option<
    (Seq<char>, EntryView),
>
    decreases rows.len(),
{
    if rows.len() == 0 {
        None
    } else if rows[0].1.agent_id == Some(sid) {
        Some(rows[0])
    } else {
        first_record(rows.drop_first(), sid)
    }
}

/// The root of the thread that a session answers.
pub open spec fn root_for(rows: Seq<(Seq<char>, EntryView)>, sid: Seq<char>) -> Option<Seq<char>> {
    match first_record(rows, sid) {
        Some((ts, _)) => Some(ts),
        None => None,
    }
}

/// The key of the thread that a session answers, where its channel is known.
pub open spec fn key_for(rows: Seq<(Seq<char>, EntryView)>, sid: Seq<char>) -> Option<Seq<char>> {
    match first_record(rows, sid) {
        Some((ts, e)) => match e.channel_id {
            Some(c) => Some(chat::key_of(c, ts)),
            None => None,
        },
        None => None,
    }
}

/// The session that answers the thread of a key.
pub open spec fn session_for(m: Map<Seq<char>, EntryView>, key: Seq<char>) -> Option<Seq<char>> {
    match chat::key_parts(key).1 {
        Some(ts) => if m.dom().contains(ts) {
            m[ts].agent_id
        } else {
            None
        },
        None => None,
    }
}

/// The keys whose session is alive, in order.
pub open spec fn survivors(
    m: Map<Seq<char>, EntryView>,
    keys: Seq<Seq<char>>,
    alive: spec_fn(Seq<char>) -> bool,
) -> Seq<Seq<char>>
    decreases keys.len(),
{
    if keys.len() == 0 {
        keys
    } else {
        let rest = survivors(m, keys.drop_last(), alive);
        match session_for(m, keys.last()) {
            Some(s) => if alive(s) {
                rest.push(keys.last())
            } else {
                rest
            },
            None => rest,
        }
    }
}

pub open spec fn key_views(v: Seq<ThreadKey>) -> Seq<Seq<char>> {
    v.map_values(|k: ThreadKey| k@)
}

fn same_opt(a: &Option<String>, b: &str) -> (r: bool)
    ensures
        r == (text::opt_view(*a) == Some(b@)),
{
    match a {
        Some(s) => text::same(s.as_str(), b),
        None => false,
    }
}

fn taken_out(p: &Parked, channel: &String, id: &String, thread_ts: &str) -> (msg: InboundMsg)
    requires
        p@.channel_id == Some(channel@),
        p@.message_id == Some(id@),
    ensures
        is_taken_out(msg, p@, thread_ts@),
{
    let c: Vec<char> = text::chars_of(channel.as_str());
    let kind: ChannelKind = if c.len() > 0 && c[0] == 'D' {
        ChannelKind::Dm
    } else {
        ChannelKind::Channel
    };
    proof {
        if c@.len() > 0 {
            assert(c@.subrange(0, 1) =~= seq![c@[0]]);
            assert(seq!['D'][0] == 'D');
        }
    }
    InboundMsg {
        channel: channel.clone(),
        channel_kind: kind,
        ts: id.clone(),
        thread_ts: Some(thread_ts.to_owned()),
        user: p.user.clone(),
        is_bot: false,
        bot_id: None,
        text: p.text.clone(),
        files: Vec::new(),
        file_paths: text::copy_list(&p.file_paths),
        file_errors: text::copy_list(&p.file_errors),
        reaction: None,
        deleted_ts: None,
        edited: None,
    }
}

// ── the threads ─────────────────────────────────────────────────────────────

/// What is remembered of all threads, by their root.
pub struct Threads {
    pub entries: Table<ThreadEntry>,
}

pub open spec fn entry_views(m: Map<Seq<char>, ThreadEntry>) -> Map<Seq<char>, EntryView> {
    m.map_values(|e: ThreadEntry| e@)
}

impl View for Threads {
    type V = Map<Seq<char>, EntryView>;

    open spec fn view(&self) -> Map<Seq<char>, EntryView> {
        entry_views(self.entries@)
    }
}

impl Threads {
    /// The records in the order of their roots.
    pub open spec fn rows(&self) -> Seq<(Seq<char>, EntryView)> {
        self.entries.entries().map_values(|r: (Seq<char>, ThreadEntry)| (r.0, r.1@))
    }

    /// No threads yet.
    pub fn new() -> (t: Self)
        ensures
            t@ == Map::<Seq<char>, EntryView>::empty(),
            t.rows() == Seq::<(Seq<char>, EntryView)>::empty(),
    {
        let t: Threads = Threads { entries: Table::new() };
        proof {
            assert(t.rows() =~= Seq::empty());
            assert(t@ =~= Map::<Seq<char>, EntryView>::empty());
        }
        t
    }

    fn take(&mut self, thread_ts: &str) -> (r: Option<ThreadEntry>)
        ensures
            match r {
                Some(e) => old(self)@.dom().contains(thread_ts@) && e@ == old(self)@[thread_ts@],
                None => !old(self)@.dom().contains(thread_ts@),
            },
            final(self)@ == old(self)@.remove(thread_ts@),
    {
        let r: Option<ThreadEntry> = self.entries.remove(thread_ts);
        proof {
            assert(self@ =~= old(self)@.remove(thread_ts@));
        }
        r
    }

    /// The record of a thread.
    pub fn get(&self, thread_ts: &str) -> (r: Option<&ThreadEntry>)
        ensures
            match r {
                Some(e) => self@.dom().contains(thread_ts@) && e@ == self@[thread_ts@],
                None => !self@.dom().contains(thread_ts@),
            },
    {
        self.entries.get(thread_ts)
    }

    /// Records a thread.
    pub fn upsert(&mut self, thread_ts: &str, entry: ThreadEntry)
        ensures
            final(self)@ == old(self)@.insert(thread_ts@, entry@),
    {
        let _ = self.entries.insert(thread_ts.to_owned(), entry);
        proof {
            assert(self@ =~= old(self)@.insert(thread_ts@, entry@));
        }
    }

    /// Whether a thread is under way, so that a post in it needs no mention.
    pub fn is_active(&self, thread_ts: &str) -> (r: bool)
        ensures
            r == (status_in(self@, thread_ts@) == "active"@),
    {
        proof {
            reveal_strlit("active");
            reveal_strlit("none");
            reveal_strlit("pending");
            reveal_strlit("paused");
            assert("active"@.len() == 6);
            assert("none"@.len() == 4);
            assert("pending"@.len() == 7);
            assert("active"@[1] == 'c');
            assert("paused"@[1] == 'a');
        }
        let s: &str = self.status_of(thread_ts);
        !(text::same(s, "pending") || text::same(s, "paused") || text::same(s, "none"))
    }

    /// The state of a thread: `none`, `pending`, `paused` or `active`.
    pub fn status_of(&self, thread_ts: &str) -> (s: &str)
        ensures
            s@ == status_in(self@, thread_ts@),
    {
        match self.get(thread_ts) {
            None => "none",
            Some(e) => match &e.status {
                Some(s) => if text::same(s.as_str(), "pending") || text::same(
                    s.as_str(),
                    "paused",
                ) {
                    s.as_str()
                } else {
                    "active"
                },
                None => "active",
            },
        }
    }

    /// Parks a message that is not delivered yet. The same message is parked once.
    pub fn enqueue_pending(&mut self, thread_ts: &str, channel: &str, msg: &InboundMsg)
        ensures
            final(self)@ == old(self)@.insert(
                thread_ts@,
                with_parked(entry_or_blank(old(self)@, thread_ts@), channel@, *msg),
            ),
    {
        let mut e: ThreadEntry = match self.take(thread_ts) {
            Some(e) => e,
            None => ThreadEntry::default(),
        };
        let ghost was = e@;
        if e.channel_id.is_none() {
            e.channel_id = Some(channel.to_owned());
        }
        let mut there: bool = false;
        let mut i: usize = 0;
        while i < e.pending.len()
            invariant
                i <= e.pending@.len(),
                there == (exists|k: int|
                    0 <= k < i && (#[trigger] e@.pending[k]).message_id == Some(msg.ts@)),
            decreases e.pending@.len() - i,
        {
            proof {
                assert(e@.pending[i as int] == e.pending@[i as int]@);
            }
            if same_opt(&e.pending[i].message_id, msg.ts.as_str()) {
                there = true;
            }
            i = i + 1;
        }
        proof {
            assert(there == is_parked(was.pending, msg.ts@));
            reveal_strlit("");
        }
        if !there {
            let p: Parked = Parked {
                channel_id: Some(msg.channel.clone()),
                message_id: Some(msg.ts.clone()),
                user: msg.user.clone(),
                text: msg.text.clone(),
                file_paths: text::copy_list(&msg.file_paths),
                file_errors: text::copy_list(&msg.file_errors),
                extra: "".to_owned(),
            };
            proof {
                assert(p@ =~= parked_of(*msg));
            }
            e.pending.push(p);
            proof {
                assert(e@.pending =~= was.pending.push(p@));
            }
        }
        proof {
            assert(e@ =~= with_parked(was, channel@, *msg));
        }
        self.upsert(thread_ts, e);
        proof {
            assert(self@ =~= old(self)@.insert(thread_ts@, e@));
        }
    }

    /// Takes the parked messages out.
    pub fn drain_pending(&mut self, thread_ts: &str) -> (out: Vec<InboundMsg>)
        ensures
            final(self)@ == drained(old(self)@, thread_ts@),
            ({
                let want = deliverable(entry_or_blank(old(self)@, thread_ts@).pending);
                &&& out@.len() == want.len()
                &&& forall|i: int|
                    0 <= i < out@.len() ==> is_taken_out(#[trigger] out@[i], want[i], thread_ts@)
            }),
    {
        let mut out: Vec<InboundMsg> = Vec::new();
        let mut e: ThreadEntry = match self.take(thread_ts) {
            Some(e) => e,
            None => {
                proof {
                    assert(self@ =~= old(self)@);
                }
                return out;
            },
        };
        let ghost q = e@.pending;
        let mut i: usize = 0;
        proof {
            assert(q.take(0) =~= Seq::empty());
        }
        while i < e.pending.len()
            invariant
                i <= e.pending@.len(),
                q == parked_views(e.pending@),
                out@.len() == deliverable(q.take(i as int)).len(),
                forall|k: int|
                    0 <= k < out@.len() ==> is_taken_out(
                        #[trigger] out@[k],
                        deliverable(q.take(i as int))[k],
                        thread_ts@,
                    ),
            decreases e.pending@.len() - i,
        {
            proof {
                assert(q[i as int] == e.pending@[i as int]@);
                assert(q.take(i + 1).drop_last() =~= q.take(i as int));
            }
            let p: &Parked = &e.pending[i];
            match &p.channel_id {
                Some(channel) => match &p.message_id {
                    Some(id) => {
                        let msg: InboundMsg = taken_out(p, channel, id, thread_ts);
                        out.push(msg);
                    },
                    None => {},
                },
                None => {},
            }
            i = i + 1;
        }
        proof {
            assert(q.take(q.len() as int) =~= q);
        }
        e.pending = Vec::new();
        proof {
            assert(e@ =~= (EntryView { pending: Seq::empty(), ..old(self)@[thread_ts@] }));
        }
        self.upsert(thread_ts, e);
        proof {
            assert(self@ =~= old(self)@.insert(thread_ts@, e@));
        }
        out
    }

    /// The threads with parked messages, in the order of their roots.
    pub fn threads_with_pending(&self) -> (out: Vec<String>)
        ensures
            table::in_key_order(text::views(out@)),
            forall|ts: Seq<char>| #[trigger]
                text::views(out@).contains(ts) <==> self@.dom().contains(ts)
                    && self@[ts].pending.len() > 0,
    {
        let n: usize = self.entries.len();
        let ghost rows = self.entries.entries();
        let mut out: Vec<String> = Vec::new();
        let mut i: usize = 0;
        while i < n
            invariant
                i <= n == rows.len(),
                rows == self.entries.entries(),
                table::ascending(rows),
                table::in_key_order(text::views(out@)),
                forall|k: int|
                    0 <= k < out@.len() ==> exists|j: int|
                        0 <= j < i && rows[j].0 == (#[trigger] out@[k])@,
                forall|ts: Seq<char>| #[trigger]
                    text::views(out@).contains(ts) <==> exists|j: int|
                        0 <= j < i && (#[trigger] rows[j]).0 == ts && rows[j].1@.pending.len() > 0,
            decreases n - i,
        {
            let e: &ThreadEntry = self.entries.value_at(i);
            let ghost before = text::views(out@);
            if e.pending.len() > 0 {
                out.push(self.entries.key_at(i).clone());
                proof {
                    let x = rows[i as int].0;
                    let after = text::views(out@);
                    text::lemma_views_push(out@.drop_last(), out@.last());
                    assert(out@.drop_last().push(out@.last()) =~= out@);
                    assert(after == before.push(x));
                    assert forall|a: int, b: int| 0 <= a < b < after.len() implies text::before(
                        #[trigger] after[a],
                        #[trigger] after[b],
                    ) by {
                        if b == after.len() - 1 {
                            assert(out@.drop_last()[a]@ == before[a]);
                            let j = choose|j: int| 0 <= j < i && rows[j].0 == before[a];
                            assert(text::before(rows[j].0, rows[i as int].0));
                        }
                    }
                    assert forall|ts: Seq<char>| #[trigger] after.contains(ts) <==> (exists|j: int|
                        0 <= j < i + 1 && (#[trigger] rows[j]).0 == ts && rows[j].1@.pending.len()
                            > 0) by {
                        if after.contains(ts) {
                            let k = choose|k: int| 0 <= k < after.len() && after[k] == ts;
                            if k < before.len() {
                                assert(before[k] == ts);
                                assert(before.contains(ts));
                            }
                        }
                        if exists|j: int|
                            0 <= j < i + 1 && (#[trigger] rows[j]).0 == ts
                                && rows[j].1@.pending.len() > 0 {
                            let j = choose|j: int|
                                0 <= j < i + 1 && (#[trigger] rows[j]).0 == ts
                                    && rows[j].1@.pending.len() > 0;
                            if j < i {
                                assert(before.contains(ts));
                                let k = choose|k: int| 0 <= k < before.len() && before[k] == ts;
                                assert(after[k] == ts);
                            } else {
                                assert(after[before.len() as int] == ts);
                            }
                        }
                    }
                }
            } else {
                proof {
                    assert forall|ts: Seq<char>| #[trigger] before.contains(ts) <==> (exists|j: int|
                        0 <= j < i + 1 && (#[trigger] rows[j]).0 == ts && rows[j].1@.pending.len()
                            > 0) by {
                        assert(rows[i as int].1@.pending.len() == 0);
                    }
                }
            }
            i = i + 1;
        }
        proof {
            assert forall|ts: Seq<char>| #[trigger]
                text::views(out@).contains(ts) <==> self@.dom().contains(ts)
                    && self@[ts].pending.len() > 0 by {
                if self@.dom().contains(ts) {
                    let j = choose|j: int| table::has_row(rows, ts, j);
                    table::lemma_row_in_map(rows, j);
                    assert(rows[j].0 == ts);
                }
                if text::views(out@).contains(ts) {
                    let j = choose|j: int|
                        0 <= j < n && (#[trigger] rows[j]).0 == ts && rows[j].1@.pending.len() > 0;
                    table::lemma_row_in_map(rows, j);
                }
                if self@.dom().contains(ts) && self@[ts].pending.len() > 0 {
                    let j = choose|j: int| table::has_row(rows, ts, j);
                    assert(rows[j].1@.pending.len() > 0);
                }
            }
        }
        out
    }

    /// Counts one more bot post and returns how many came in a row; nothing is counted in a thread
    /// that is not known.
    pub fn bump_bot_streak(&mut self, thread_ts: &str) -> (n: u64)
        requires
            streak_of(entry_or_blank(old(self)@, thread_ts@)) < u64::MAX,
        ensures
            (n, final(self)@) == bumped(old(self)@, thread_ts@),
    {
        let mut e: ThreadEntry = match self.take(thread_ts) {
            Some(e) => e,
            None => {
                proof {
                    assert(self@ =~= old(self)@);
                }
                return 0;
            },
        };
        let next: u64 = match e.bot_streak {
            Some(n) => n,
            None => 0,
        } + 1;
        e.bot_streak = Some(next);
        self.upsert(thread_ts, e);
        proof {
            assert(self@ =~= old(self)@.insert(thread_ts@, e@));
        }
        next
    }

    /// Pauses a thread: no bot gets in until a person speaks.
    pub fn pause(&mut self, thread_ts: &str)
        ensures
            final(self)@ == paused_in(old(self)@, thread_ts@),
    {
        let mut e: ThreadEntry = match self.take(thread_ts) {
            Some(e) => e,
            None => {
                proof {
                    assert(self@ =~= old(self)@);
                }
                return ;
            },
        };
        e.status = Some("paused".to_owned());
        self.upsert(thread_ts, e);
        proof {
            assert(self@ =~= old(self)@.insert(thread_ts@, e@));
        }
    }

    /// A person spoke: the count starts over and a paused thread goes on. One that has not begun
    /// stays as it is. Returns whether it was paused.
    pub fn reset_bot_streak(&mut self, thread_ts: &str) -> (was_paused: bool)
        ensures
            was_paused == (status_in(old(self)@, thread_ts@) == "paused"@),
            final(self)@ == heard_in(old(self)@, thread_ts@),
    {
        proof {
            reveal_strlit("active");
            reveal_strlit("none");
            reveal_strlit("pending");
            reveal_strlit("paused");
            assert("none"@.len() == 4);
            assert("pending"@.len() == 7);
            assert("paused"@.len() == 6);
            assert("active"@[1] == 'c');
            assert("active"@.len() == 6);
            assert("paused"@[1] == 'a');
        }
        let status: &str = self.status_of(thread_ts);
        let was_paused: bool = text::same(status, "paused");
        if text::same(status, "pending") || text::same(status, "none") {
            return false;
        }
        let mut e: ThreadEntry = match self.take(thread_ts) {
            Some(e) => e,
            None => return false,
        };
        e.bot_streak = Some(0);
        if was_paused {
            e.status = Some("active".to_owned());
        }
        self.upsert(thread_ts, e);
        proof {
            assert(self@ =~= old(self)@.insert(thread_ts@, e@));
        }
        was_paused
    }

    /// Of `keys`, those of threads whose session is alive. A thread that is not known, or has no
    /// session, is not kept.
    pub fn surviving<F: Fn(&str) -> bool>(&self, keys: &[ThreadKey], alive: F) -> (out: Vec<
        ThreadKey,
    >)
        requires
            forall|s: &str| call_requires(alive, (s,)),
        ensures
            forall|live: spec_fn(Seq<char>) -> bool|
                (forall|s: &str, r: bool| call_ensures(alive, (s,), r) ==> r == live(s@))
                    ==> key_views(out@) == #[trigger] survivors(self@, key_views(keys@), live),
    {
        let ghost m = self@;
        let ghost kv = key_views(keys@);
        let mut out: Vec<ThreadKey> = Vec::new();
        let mut i: usize = 0;
        proof {
            assert(kv.take(0) =~= Seq::empty());
            assert(key_views(out@) =~= Seq::empty());
        }
        while i < keys.len()
            invariant
                i <= keys@.len(),
                m == self@,
                kv == key_views(keys@),
                forall|s: &str| call_requires(alive, (s,)),
                forall|live: spec_fn(Seq<char>) -> bool|
                    (forall|s: &str, r: bool| call_ensures(alive, (s,), r) ==> r == live(s@))
                        ==> key_views(out@) == #[trigger] survivors(m, kv.take(i as int), live),
            decreases keys@.len() - i,
        {
            let ghost before = out@;
            proof {
                assert(kv[i as int] == keys@[i as int]@);
                assert(kv.take(i + 1).drop_last() =~= kv.take(i as int));
                assert(kv.take(i + 1).last() == kv[i as int]);
            }
            let session: Option<&String> = match keys[i].split().1 {
                Some(ts) => match self.get(ts.as_str()) {
                    Some(e) => e.agent_id.as_ref(),
                    None => None,
                },
                None => None,
            };
            match session {
                Some(s) => {
                    let live: bool = alive(s.as_str());
                    if live {
                        out.push(keys[i].clone());
                        proof {
                            assert(key_views(out@) =~= key_views(before).push(kv[i as int]));
                        }
                    }
                },
                None => {},
            }
            proof {
                assert forall|f: spec_fn(Seq<char>) -> bool|
                    (forall|s: &str, r: bool| call_ensures(alive, (s,), r) ==> r == f(
                        s@,
                    )) implies key_views(out@) == #[trigger] survivors(m, kv.take(i + 1), f) by {
                    let rest = survivors(m, kv.take(i as int), f);
                    assert(key_views(before) == rest);
                }
            }
            i = i + 1;
        }
        proof {
            assert(kv.take(kv.len() as int) =~= kv);
        }
        out
    }

    /// The first thread, by its root, that a session answers.
    pub fn find_by_session(&self, session_id: &str) -> (r: Option<(&String, &ThreadEntry)>)
        ensures
            match r {
                Some((ts, e)) => self@.dom().contains(ts@) && self@[ts@] == e@ && e@.agent_id
                    == Some(session_id@) && forall|x: Seq<char>| #[trigger]
                    self@.dom().contains(x) && text::before(x, ts@) ==> self@[x].agent_id != Some(
                        session_id@,
                    ),
                None => forall|x: Seq<char>| #[trigger]
                    self@.dom().contains(x) ==> self@[x].agent_id != Some(session_id@),
            },
    {
        let n: usize = self.entries.len();
        let ghost rows = self.entries.entries();
        let mut i: usize = 0;
        while i < n
            invariant
                i <= n == rows.len(),
                rows == self.entries.entries(),
                table::ascending(rows),
                forall|j: int|
                    0 <= j < i ==> (#[trigger] rows[j]).1@.agent_id != Some(session_id@),
            decreases n - i,
        {
            let e: &ThreadEntry = self.entries.value_at(i);
            if same_opt(&e.agent_id, session_id) {
                proof {
                    assert forall|x: Seq<char>| #[trigger]
                        self@.dom().contains(x) && text::before(
                            x,
                            rows[i as int].0,
                        ) implies self@[x].agent_id != Some(session_id@) by {
                        let j = choose|j: int| table::has_row(rows, x, j);
                        table::lemma_row_in_map(rows, j);
                        if j >= i {
                            text::lemma_before_irreflexive(x);
                            if j > i {
                                text::lemma_before_transitive(x, rows[i as int].0, x);
                            }
                        }
                    }
                }
                return Some((self.entries.key_at(i), e));
            }
            i = i + 1;
        }
        proof {
            assert forall|x: Seq<char>| #[trigger]
                self@.dom().contains(x) implies self@[x].agent_id != Some(session_id@) by {
                let j = choose|j: int| table::has_row(rows, x, j);
                table::lemma_row_in_map(rows, j);
            }
        }
        None
    }

    fn row_of_session(&self, session_id: &str) -> (r: Option<usize>)
        ensures
            match r {
                Some(i) => i < self.rows().len() && first_record(self.rows(), session_id@) == Some(
                    self.rows()[i as int],
                ),
                None => first_record(self.rows(), session_id@) is None,
            },
    {
        let ghost all = self.rows();
        let n: usize = self.entries.len();
        let mut i: usize = 0;
        proof {
            assert(all.skip(0) =~= all);
        }
        while i < n
            invariant
                i <= n == all.len(),
                n == self.entries.entries().len(),
                all == self.rows(),
                first_record(all, session_id@) == first_record(all.skip(i as int), session_id@),
            decreases n - i,
        {
            let e: &ThreadEntry = self.entries.value_at(i);
            proof {
                assert(all.skip(i as int)[0] == all[i as int]);
                assert(all.skip(i as int).drop_first() =~= all.skip(i + 1));
                assert(all[i as int].1 == e@);
            }
            if same_opt(&e.agent_id, session_id) {
                return Some(i);
            }
            i = i + 1;
        }
        None
    }

    /// The root of the thread that a session answers; the first one where there are several.
    pub fn root_of_session(&self, session_id: &str) -> (r: Option<String>)
        ensures
            text::opt_view(r) == root_for(self.rows(), session_id@),
    {
        match self.row_of_session(session_id) {
            Some(i) => Some(self.entries.key_at(i).clone()),
            None => None,
        }
    }

    /// The key of the thread that a session answers, where its channel is known.
    pub fn key_of_session(&self, session_id: &str) -> (r: Option<ThreadKey>)
        ensures
            match r {
                Some(k) => key_for(self.rows(), session_id@) == Some(k@),
                None => key_for(self.rows(), session_id@) is None,
            },
    {
        match self.row_of_session(session_id) {
            Some(i) => match &self.entries.value_at(i).channel_id {
                Some(c) => Some(ThreadKey::new(c.as_str(), self.entries.key_at(i).as_str())),
                None => None,
            },
            None => None,
        }
    }

    /// The roots of the threads, in order.
    pub fn roots(&self) -> (out: Vec<String>)
        ensures
            table::in_key_order(text::views(out@)),
            forall|ts: Seq<char>| #[trigger]
                text::views(out@).contains(ts) <==> self@.dom().contains(ts),
    {
        let n: usize = self.entries.len();
        let ghost rows = self.entries.entries();
        let mut out: Vec<String> = Vec::new();
        let mut i: usize = 0;
        while i < n
            invariant
                i <= n == rows.len(),
                rows == self.entries.entries(),
                out@.len() == i,
                forall|j: int| 0 <= j < i ==> (#[trigger] out@[j])@ == rows[j].0,
            decreases n - i,
        {
            out.push(self.entries.key_at(i).clone());
            i = i + 1;
        }
        proof {
            let v = text::views(out@);
            assert forall|a: int, b: int| 0 <= a < b < v.len() implies text::before(
                #[trigger] v[a],
                #[trigger] v[b],
            ) by {
                assert(out@[a]@ == rows[a].0 && out@[b]@ == rows[b].0);
            }
            assert forall|ts: Seq<char>| #[trigger] v.contains(ts) <==> self@.dom().contains(ts) by {
                if v.contains(ts) {
                    let j = choose|j: int| 0 <= j < v.len() && v[j] == ts;
                    assert(out@[j]@ == rows[j].0);
                    assert(table::has_row(rows, ts, j));
                }
                if self@.dom().contains(ts) {
                    let j = choose|j: int| table::has_row(rows, ts, j);
                    assert(out@[j]@ == rows[j].0);
                    assert(v[j] == ts);
                }
            }
        }
        out
    }

    /// The sessions that answer threads.
    pub fn sessions(&self) -> (out: Vec<String>)
        ensures
            forall|sid: Seq<char>| #[trigger]
                text::views(out@).contains(sid) <==> exists|ts: Seq<char>| #[trigger]
                    self@.dom().contains(ts) && self@[ts].agent_id == Some(sid),
    {
        let n: usize = self.entries.len();
        let ghost rows = self.entries.entries();
        let mut out: Vec<String> = Vec::new();
        let mut i: usize = 0;
        while i < n
            invariant
                i <= n == rows.len(),
                rows == self.entries.entries(),
                table::ascending(rows),
                forall|k: int|
                    0 <= k < out@.len() ==> exists|j: int|
                        0 <= j < i && rows[j].1@.agent_id == Some((#[trigger] out@[k])@),
                forall|j: int|
                    0 <= j < i ==> match (#[trigger] rows[j]).1@.agent_id {
                        Some(s) => text::views(out@).contains(s),
                        None => true,
                    },
            decreases n - i,
        {
            let e: &ThreadEntry = self.entries.value_at(i);
            let ghost before = out@;
            match &e.agent_id {
                Some(s) => {
                    out.push(s.clone());
                    proof {
                        text::lemma_views_push(before, out@.last());
                        let a = text::views(before);
                        let b = text::views(out@);
                        assert(b[a.len() as int] == s@);
                        assert forall|j: int| 0 <= j < i + 1 implies match (
                        #[trigger] rows[j]).1@.agent_id {
                            Some(x) => b.contains(x),
                            None => true,
                        } by {
                            if j < i && rows[j].1@.agent_id is Some {
                                let x = rows[j].1@.agent_id->0;
                                assert(a.contains(x));
                                let k = choose|k: int| 0 <= k < a.len() && a[k] == x;
                                assert(b[k] == x);
                            }
                        }
                        assert forall|k: int| 0 <= k < out@.len() implies exists|j: int|
                            0 <= j < i + 1 && rows[j].1@.agent_id == Some(
                                (#[trigger] out@[k])@,
                            ) by {
                            if k < before.len() {
                                assert(out@[k] == before[k]);
                                let j = choose|j: int|
                                    0 <= j < i && rows[j].1@.agent_id == Some(before[k]@);
                                assert(rows[j].1@.agent_id == Some(out@[k]@));
                            } else {
                                assert(rows[i as int].1@.agent_id == Some(out@[k]@));
                            }
                        }
                    }
                },
                None => {
                    proof {
                        assert(rows[i as int].1@.agent_id is None);
                    }
                },
            }
            i = i + 1;
        }
        proof {
            let v = text::views(out@);
            assert forall|sid: Seq<char>| #[trigger] v.contains(sid) <==> (exists|ts: Seq<char>|
                #[trigger]
                self@.dom().contains(ts) && self@[ts].agent_id == Some(sid)) by {
                if v.contains(sid) {
                    let k = choose|k: int| 0 <= k < v.len() && v[k] == sid;
                    assert(out@[k]@ == sid);
                    let j = choose|j: int| 0 <= j < n && rows[j].1@.agent_id == Some(out@[k]@);
                    table::lemma_row_in_map(rows, j);
                    assert(self@.dom().contains(rows[j].0));
                }
                if exists|ts: Seq<char>| #[trigger]
                    self@.dom().contains(ts) && self@[ts].agent_id == Some(sid) {
                    let ts = choose|ts: Seq<char>| #[trigger]
                        self@.dom().contains(ts) && self@[ts].agent_id == Some(sid);
                    let j = choose|j: int| table::has_row(rows, ts, j);
                    table::lemma_row_in_map(rows, j);
                    assert(rows[j].1@.agent_id == Some(sid));
                }
            }
        }
        out
    }

    /// Forgets a thread.
    pub fn forget(&mut self, thread_ts: &str)
        ensures
            final(self)@ == old(self)@.remove(thread_ts@),
    {
        let _ = self.take(thread_ts);
    }

    /// Takes a session out of a thread that it answers; returns whether it did.
    pub fn drop_agent(&mut self, thread_ts: &str, session_id: &str) -> (r: bool)
        ensures
            (r, final(self)@) == let_go(old(self)@, thread_ts@, session_id@),
    {
        let mine: bool = match self.get(thread_ts) {
            Some(e) => same_opt(&e.agent_id, session_id),
            None => false,
        };
        if !mine {
            return false;
        }
        match self.take(thread_ts) {
            Some(mut e) => {
                e.agent_id = None;
                self.upsert(thread_ts, e);
                proof {
                    assert(self@ =~= old(self)@.insert(thread_ts@, e@));
                }
                true
            },
            None => false,
        }
    }

    /// Whether a person said not to ask for a tool again in a thread.
    pub fn thread_tool_allowed(&self, thread_ts: &str, tool: &str) -> (r: bool)
        ensures
            r == tools_of(entry_or_blank(self@, thread_ts@).allowed_tools).contains(tool@),
    {
        match self.get(thread_ts) {
            Some(e) => match &e.allowed_tools {
                Some(v) => text::among(v.as_slice(), tool),
                None => false,
            },
            None => false,
        }
    }

    /// Remembers not to ask for a tool again in a thread. Called only when a person says so.
    pub fn grant_thread_tool(&mut self, thread_ts: &str, tool: &str)
        ensures
            final(self)@ == with_thread_tool(old(self)@, thread_ts@, tool@),
    {
        if thread_ts.is_empty() || tool.is_empty() {
            return ;
        }
        let mut e: ThreadEntry = match self.take(thread_ts) {
            Some(e) => e,
            None => ThreadEntry::default(),
        };
        let ghost was = e@;
        let mut allowed: Vec<String> = match &e.allowed_tools {
            Some(v) => text::copy_list(v),
            None => Vec::new(),
        };
        proof {
            assert(text::views(allowed@) =~= tools_of(was.allowed_tools));
        }
        if !text::among(allowed.as_slice(), tool) {
            let ghost before = allowed@;
            allowed.push(tool.to_owned());
            proof {
                text::lemma_views_push(before, allowed@.last());
            }
        }
        e.allowed_tools = Some(allowed);
        proof {
            assert(e@.allowed_tools->0 =~= with_item(tools_of(was.allowed_tools), tool@));
        }
        self.upsert(thread_ts, e);
        proof {
            assert(self@ =~= old(self)@.insert(thread_ts@, e@));
        }
    }

    /// Whether a waiting agent may take a thread: only one that is not known yet. A known one goes
    /// on in its own session.
    pub fn should_claim_pool(entry: Option<&ThreadEntry>) -> (r: bool)
        ensures
            r == (entry is None),
    {
        entry.is_none()
    }
}

// ── what holds of the threads ───────────────────────────────────────────────

/// A message is parked once, however often it comes.
pub proof fn law_parked_once(e: EntryView, channel: Seq<char>, msg: InboundMsg)
    ensures
        with_parked(with_parked(e, channel, msg), channel, msg) == with_parked(e, channel, msg),
        is_parked(with_parked(e, channel, msg).pending, msg.ts@),
{
    let p = with_parked(e, channel, msg);
    if !is_parked(e.pending, msg.ts@) {
        assert(p.pending[e.pending.len() as int].message_id == Some(msg.ts@));
    }
    assert(with_parked(p, channel, msg) =~= p);
}

/// What was parked comes out: behind what was parked before, as it went in, and once.
pub proof fn law_parked_comes_out(e: EntryView, channel: Seq<char>, msg: InboundMsg)
    requires
        !is_parked(e.pending, msg.ts@),
    ensures
        deliverable(with_parked(e, channel, msg).pending) == deliverable(e.pending).push(
            parked_of(msg),
        ),
{
    let p = with_parked(e, channel, msg).pending;
    assert(p.drop_last() =~= e.pending);
    assert(p.last() == parked_of(msg));
}

proof fn lemma_all_parked(
    m: Map<Seq<char>, EntryView>,
    ts: Seq<char>,
    items: Seq<(Seq<char>, InboundMsg)>,
)
    requires
        entry_or_blank(m, ts).pending.len() == 0,
    ensures
        entry_or_blank(all_parked(m, ts, items), ts).pending == first_of_each(items).map_values(
            |x: InboundMsg| parked_of(x),
        ),
        forall|o: Seq<char>|
            o != ts ==> (#[trigger] all_parked(m, ts, items).dom().contains(o) <==> m.dom().contains(
                o,
            )) && all_parked(m, ts, items)[o] == m[o],
    decreases items.len(),
{
    let queue = entry_or_blank(all_parked(m, ts, items), ts).pending;
    if items.len() == 0 {
        assert(queue =~= first_of_each(items).map_values(|x: InboundMsg| parked_of(x)));
    } else {
        let short = items.drop_last();
        lemma_all_parked(m, ts, short);
        let was = entry_or_blank(all_parked(m, ts, short), ts).pending;
        let firsts = first_of_each(short);
        let id = items.last().1.ts@;
        assert(is_parked(was, id) <==> exists|i: int|
            0 <= i < firsts.len() && (#[trigger] firsts[i]).ts@ == id) by {
            if is_parked(was, id) {
                let i = choose|i: int| 0 <= i < was.len() && (#[trigger] was[i]).message_id == Some(id);
                assert(firsts[i].ts@ == id);
            }
            if exists|i: int| 0 <= i < firsts.len() && (#[trigger] firsts[i]).ts@ == id {
                let i = choose|i: int| 0 <= i < firsts.len() && (#[trigger] firsts[i]).ts@ == id;
                assert(was[i].message_id == Some(id));
            }
        }
        assert(queue =~= first_of_each(items).map_values(|x: InboundMsg| parked_of(x)));
    }
}

proof fn lemma_all_deliverable(msgs: Seq<InboundMsg>)
    ensures
        deliverable(msgs.map_values(|x: InboundMsg| parked_of(x))) == msgs.map_values(
            |x: InboundMsg| parked_of(x),
        ),
    decreases msgs.len(),
{
    let queue = msgs.map_values(|x: InboundMsg| parked_of(x));
    if msgs.len() > 0 {
        lemma_all_deliverable(msgs.drop_last());
        assert(queue.drop_last() =~= msgs.drop_last().map_values(|x: InboundMsg| parked_of(x)));
        assert(deliverable(queue) =~= queue);
    }
}

/// Messages that were parked in a thread without any come out again: the first of each id, in the
/// order they came. After that the thread has none, and a second taking out gives none; other threads
/// keep theirs.
pub proof fn law_parked_round_trip(
    m: Map<Seq<char>, EntryView>,
    ts: Seq<char>,
    items: Seq<(Seq<char>, InboundMsg)>,
)
    requires
        entry_or_blank(m, ts).pending.len() == 0,
    ensures
        ({
            let parked = all_parked(m, ts, items);
            let after = drained(parked, ts);
            &&& deliverable(entry_or_blank(parked, ts).pending) == first_of_each(items).map_values(
                |x: InboundMsg| parked_of(x),
            )
            &&& entry_or_blank(after, ts).pending.len() == 0
            &&& deliverable(entry_or_blank(after, ts).pending).len() == 0
            &&& forall|o: Seq<char>|
                o != ts ==> (#[trigger] after.dom().contains(o) <==> m.dom().contains(o)) && after[o]
                    == m[o]
        }),
{
    lemma_all_parked(m, ts, items);
    lemma_all_deliverable(first_of_each(items));
}

/// What a message that was parked comes out as: its channel, id, sender, text and files, in the thread
/// it was parked in.
pub proof fn law_parked_is_kept(msg: InboundMsg, out: InboundMsg, ts: Seq<char>)
    requires
        is_taken_out(out, parked_of(msg), ts),
    ensures
        out.channel@ == msg.channel@,
        out.ts@ == msg.ts@,
        text::opt_view(out.user) == text::opt_view(msg.user),
        out.text@ == msg.text@,
        text::views(out.file_paths@) == text::views(msg.file_paths@),
        text::views(out.file_errors@) == text::views(msg.file_errors@),
        text::opt_view(out.thread_ts) == Some(ts),
{
}

/// A thread that is not known has no parked messages, and taking them out changes nothing.
pub proof fn law_unknown_has_none_parked(m: Map<Seq<char>, EntryView>, ts: Seq<char>)
    requires
        !m.dom().contains(ts),
    ensures
        deliverable(entry_or_blank(m, ts).pending).len() == 0,
        drained(m, ts) == m,
{
}

/// A paused thread goes on once a person speaks, and its count starts over.
pub proof fn law_a_person_resumes(m: Map<Seq<char>, EntryView>, ts: Seq<char>)
    requires
        status_in(m, ts) == "paused"@,
    ensures
        m.dom().contains(ts),
        status_in(m.insert(ts, resumed(m[ts])), ts) == "active"@,
        streak_of(resumed(m[ts])) == 0,
{
    reveal_strlit("active");
    reveal_strlit("none");
    reveal_strlit("pending");
    reveal_strlit("paused");
    assert("none"@.len() == 4);
    assert("pending"@.len() == 7);
    assert("paused"@.len() == 6);
    assert("active"@[1] == 'c');
    assert("active"@.len() == 6);
    assert("paused"@[1] == 'a');
}

/// What a person granted stays granted, and to grant it again changes nothing.
pub proof fn law_granted_once(tools: Seq<Seq<char>>, tool: Seq<char>)
    ensures
        with_item(tools, tool).contains(tool),
        with_item(with_item(tools, tool), tool) == with_item(tools, tool),
        forall|x: Seq<char>| #[trigger]
            with_item(tools, tool).contains(x) <==> tools.contains(x) || x == tool,
{
    let w = with_item(tools, tool);
    if !tools.contains(tool) {
        assert(w[tools.len() as int] == tool);
        assert forall|x: Seq<char>| tools.contains(x) implies w.contains(x) by {
            let i = choose|i: int| 0 <= i < tools.len() && tools[i] == x;
            assert(w[i] == x);
        }
    }
}

/// The records are listed in the order of their roots, each once.
pub proof fn law_threads_are_listed(x: Threads)
    ensures
        table::lists(x.rows(), x@),
{
    let f = |v: ThreadEntry| v@;
    table::lemma_entries_seen(x.entries, f);
    assert(x.rows() =~= x.entries.entries().map_values(|r: (Seq<char>, ThreadEntry)| (r.0, f(r.1))));
    assert(x@ =~= x.entries@.map_values(f));
}

/// A thread without a record is none; one that waits or pauses is that; every other is at work.
pub proof fn law_status(m: Map<Seq<char>, EntryView>, ts: Seq<char>)
    ensures
        !m.dom().contains(ts) ==> status_in(m, ts) == "none"@,
        m.dom().contains(ts) && m[ts].status == Some("pending"@) ==> status_in(m, ts) == "pending"@,
        m.dom().contains(ts) && m[ts].status == Some("paused"@) ==> status_in(m, ts) == "paused"@,
        m.dom().contains(ts) && m[ts].status != Some("pending"@) && m[ts].status != Some("paused"@)
            ==> status_in(m, ts) == "active"@,
{
}

/// One message more by a bot counts one more, in its thread alone.
pub proof fn law_bots_are_counted(m: Map<Seq<char>, EntryView>, ts: Seq<char>, other: Seq<char>)
    requires
        m.dom().contains(ts),
        m[ts].bot_streak matches Some(n) ==> n < u64::MAX,
    ensures
        ({
            let (n, after) = bumped(m, ts);
            &&& m[ts].bot_streak is None ==> n == 1
            &&& m[ts].bot_streak is Some ==> n == m[ts].bot_streak->0 + 1
            &&& after.dom() == m.dom()
            &&& after[ts].bot_streak == Some(n)
            &&& after[ts].status == m[ts].status
            &&& after[ts].agent_id == m[ts].agent_id
            &&& after[ts].pending == m[ts].pending
            &&& after[ts].inflight == m[ts].inflight
            &&& after[ts].allowed_tools == m[ts].allowed_tools
            &&& other != ts ==> after[other] == m[other]
        }),
        !m.dom().contains(other) ==> bumped(m, other) == (0u64, m),
{
    assert(bumped(m, ts).1.dom() =~= m.dom());
}

/// A paused thread stays paused until a person writes in it; then it is at work again and the count
/// starts anew. What waits to be told what to do goes on waiting. Other threads are not touched.
pub proof fn law_pause_until_a_person(
    m: Map<Seq<char>, EntryView>,
    ts: Seq<char>,
    other: Seq<char>,
)
    requires
        m.dom().contains(ts),
    ensures
        status_in(paused_in(m, ts), ts) == "paused"@,
        status_in(heard_in(paused_in(m, ts), ts), ts) == "active"@,
        streak_of(heard_in(paused_in(m, ts), ts)[ts]) == 0,
        m[ts].status != Some("pending"@) ==> heard_in(m, ts)[ts].bot_streak == Some(0u64),
        m[ts].status != Some("pending"@) && m[ts].status != Some("paused"@) ==> heard_in(
            m,
            ts,
        )[ts].status == m[ts].status,
        m[ts].status == Some("pending"@) ==> heard_in(m, ts) == m,
        heard_in(m, ts)[ts].agent_id == m[ts].agent_id,
        heard_in(m, ts)[ts].pending == m[ts].pending,
        heard_in(m, ts)[ts].inflight == m[ts].inflight,
        heard_in(m, ts)[ts].allowed_tools == m[ts].allowed_tools,
        other != ts ==> heard_in(m, ts)[other] == m[other] && paused_in(m, ts)[other] == m[other],
        heard_in(m, ts).dom() == m.dom() && paused_in(m, ts).dom() == m.dom(),
        !m.dom().contains(other) ==> heard_in(m, other) == m && paused_in(m, other) == m,
{
    reveal_strlit("active");
    reveal_strlit("pending");
    reveal_strlit("paused");
    assert("pending"@.len() == 7 && "paused"@.len() == 6 && "active"@.len() == 6);
    assert("active"@[0] == 'a' && "paused"@[0] == 'p');
    assert(heard_in(m, ts).dom() =~= m.dom());
    assert(paused_in(m, ts).dom() =~= m.dom());
}

/// A thread lets go of the agent it has, and of no other; the rest of its record stays.
pub proof fn law_thread_lets_go(m: Map<Seq<char>, EntryView>, ts: Seq<char>, sid: Seq<char>)
    ensures
        ({
            let (r, after) = let_go(m, ts, sid);
            &&& r <==> m.dom().contains(ts) && m[ts].agent_id == Some(sid)
            &&& !r ==> after == m
            &&& r ==> after.dom() == m.dom() && after[ts] == (EntryView {
                agent_id: None,
                ..m[ts]
            }) && forall|o: Seq<char>| o != ts ==> #[trigger] after[o] == m[o]
        }),
{
    if m.dom().contains(ts) {
        assert(let_go(m, ts, sid).1.dom() =~= m.dom());
    }
}

/// What is parked comes out in the order it was parked; only what names no channel or no message is
/// passed over.
pub proof fn law_deliverable_in_order(a: Seq<ParkedView>, b: Seq<ParkedView>, x: ParkedView)
    ensures
        deliverable(a + b) == deliverable(a) + deliverable(b),
        x.channel_id is Some && x.message_id is Some ==> deliverable(seq![x]) == seq![x],
        x.channel_id is None || x.message_id is None ==> deliverable(seq![x]).len() == 0,
    decreases b.len(),
{
    if b.len() > 0 {
        law_deliverable_in_order(a, b.drop_last(), x);
        assert((a + b).drop_last() =~= a + b.drop_last());
        assert(deliverable(a + b) =~= deliverable(a) + deliverable(b));
    } else {
        assert(a + b =~= a);
        assert(deliverable(a) + deliverable(b) =~= deliverable(a));
    }
    assert(seq![x].drop_last() =~= Seq::<ParkedView>::empty());
    assert(deliverable(seq![x].drop_last()) =~= Seq::<ParkedView>::empty());
    if x.channel_id is Some && x.message_id is Some {
        assert(deliverable(seq![x]) =~= seq![x]);
    }
}

/// A message that is parked goes behind those that wait, with where it came from, whose it is and what it
/// says; a thread that names its channel keeps the name.
pub proof fn law_parking(e: EntryView, channel: Seq<char>, msg: InboundMsg)
    ensures
        ({
            let after = with_parked(e, channel, msg);
            &&& e.channel_id is Some ==> after.channel_id == e.channel_id
            &&& e.channel_id is None ==> after.channel_id == Some(channel)
            &&& after.status == e.status
            &&& after.agent_id == e.agent_id
            &&& after.inflight == e.inflight
            &&& (forall|i: int|
                0 <= i < e.pending.len() ==> (#[trigger] e.pending[i]).message_id != Some(msg.ts@))
                ==> {
                let p = after.pending.last();
                &&& after.pending.len() == e.pending.len() + 1
                &&& after.pending.drop_last() == e.pending
                &&& p.channel_id == Some(msg.channel@)
                &&& p.message_id == Some(msg.ts@)
                &&& p.user == text::opt_view(msg.user)
                &&& p.text == msg.text@
                &&& p.file_paths == text::views(msg.file_paths@)
                &&& p.file_errors == text::views(msg.file_errors@)
            }
            &&& (exists|i: int|
                0 <= i < e.pending.len() && (#[trigger] e.pending[i]).message_id == Some(msg.ts@))
                ==> after.pending == e.pending
        }),
{
    if !is_parked(e.pending, msg.ts@) {
        assert(with_parked(e, channel, msg).pending.drop_last() =~= e.pending);
    }
}

/// An agent's thread is the first record that names the agent.
pub proof fn law_first_record(rows: Seq<(Seq<char>, EntryView)>, sid: Seq<char>)
    ensures
        match first_record(rows, sid) {
            Some(r) => exists|i: int|
                0 <= i < rows.len() && #[trigger] rows[i] == r && r.1.agent_id == Some(sid)
                    && forall|j: int| 0 <= j < i ==> (#[trigger] rows[j]).1.agent_id != Some(sid),
            None => forall|i: int|
                0 <= i < rows.len() ==> (#[trigger] rows[i]).1.agent_id != Some(sid),
        },
    decreases rows.len(),
{
    if rows.len() > 0 {
        if rows[0].1.agent_id == Some(sid) {
            assert(rows[0] == first_record(rows, sid)->0);
        } else {
            let t = rows.drop_first();
            law_first_record(t, sid);
            match first_record(rows, sid) {
                Some(r) => {
                    let i = choose|i: int|
                        0 <= i < t.len() && #[trigger] t[i] == r && r.1.agent_id == Some(sid)
                            && forall|j: int|
                            0 <= j < i ==> (#[trigger] t[j]).1.agent_id != Some(sid);
                    assert(rows[i + 1] == r);
                    assert forall|j: int| 0 <= j < i + 1 implies (#[trigger] rows[j]).1.agent_id
                        != Some(sid) by {
                        if j > 0 {
                            assert(t[j - 1] == rows[j]);
                        }
                    }
                },
                None => {
                    assert forall|i: int| 0 <= i < rows.len() implies (#[trigger] rows[i]).1.agent_id
                        != Some(sid) by {
                        if i > 0 {
                            assert(t[i - 1] == rows[i]);
                        }
                    }
                },
            }
        }
    }
}

/// An agent's thread has a key where its record names a channel: the channel and the thread.
pub proof fn law_key_of_an_agent(rows: Seq<(Seq<char>, EntryView)>, sid: Seq<char>)
    ensures
        match first_record(rows, sid) {
            Some((ts, e)) => root_for(rows, sid) == Some(ts) && (e.channel_id is Some ==> key_for(
                rows,
                sid,
            ) == Some(e.channel_id->0 + ":"@ + ts)) && (e.channel_id is None ==> key_for(rows, sid)
                is None),
            None => root_for(rows, sid) is None && key_for(rows, sid) is None,
        },
{
}

/// The agent of a thread is the one that its record names.
pub proof fn law_agent_of_a_key(
    m: Map<Seq<char>, EntryView>,
    channel: Seq<char>,
    ts: Seq<char>,
)
    requires
        !channel.contains(':'),
    ensures
        m.dom().contains(ts) ==> session_for(m, channel + ":"@ + ts) == m[ts].agent_id,
        !m.dom().contains(ts) ==> session_for(m, channel + ":"@ + ts) is None,
{
    chat::law_key_round_trip(channel, ts);
}

/// A thread survives where it has an agent and the agent lives; the order stays.
pub proof fn law_survivors(
    m: Map<Seq<char>, EntryView>,
    a: Seq<Seq<char>>,
    b: Seq<Seq<char>>,
    k: Seq<char>,
    alive: spec_fn(Seq<char>) -> bool,
)
    ensures
        survivors(m, a + b, alive) == survivors(m, a, alive) + survivors(m, b, alive),
        session_for(m, k) is Some && alive(session_for(m, k)->0) ==> survivors(m, seq![k], alive)
            == seq![k],
        session_for(m, k) is None || !alive(session_for(m, k)->0) ==> survivors(
            m,
            seq![k],
            alive,
        ).len() == 0,
    decreases b.len(),
{
    if b.len() > 0 {
        law_survivors(m, a, b.drop_last(), k, alive);
        assert((a + b).drop_last() =~= a + b.drop_last());
        assert(survivors(m, a + b, alive) =~= survivors(m, a, alive) + survivors(m, b, alive));
    } else {
        assert(a + b =~= a);
        assert(survivors(m, a, alive) + survivors(m, b, alive) =~= survivors(m, a, alive));
    }
    assert(seq![k].drop_last() =~= Seq::<Seq<char>>::empty());
    assert(survivors(m, seq![k].drop_last(), alive) =~= Seq::<Seq<char>>::empty());
    if session_for(m, k) is Some && alive(session_for(m, k)->0) {
        assert(survivors(m, seq![k], alive) =~= seq![k]);
    }
}

} // verus!
