//! Permission for an agent's tools: what the rules decide, and what a person is asked.
use super::stall::{self, Stall, Stalls};
use crate::bridge::state::access::{route_or_blank, Access, AccessView};
use crate::bridge::state::threads::{
    entry_or_blank,
    key_views,
    tools_of,
    with_thread_tool,
    EntryView,
    Threads,
};
use crate::chat::slack::events::{self, PermClick};
use crate::chat::slack::input::or_empty;
use crate::chat::slack::sticky::{BoardView, StickyBoard};
use crate::chat::{self, ThreadKey};
use crate::json;
use crate::table::{self, Table};
use crate::text;
use vstd::prelude::*;

verus! {

/// How long a person is waited for.
pub const PERM_WAIT_MS: u64 = 115_000;

/// What the standing rules say of a call.
#[derive(Debug, PartialEq, Eq)]
pub enum ToolRule {
    Allow(String),
    Deny(String),
    /// The rules do not decide: a person is asked.
    Ask,
}

/// The answer to a call.
#[derive(Debug, PartialEq, Eq)]
pub struct PermAnswer {
    pub allow: bool,
    pub reason: String,
}

/// What is done with a call.
#[derive(Debug, PartialEq, Eq)]
pub enum PermStep {
    Answer(PermAnswer),
    /// The bridge stands aside, and the agent's own rules hold.
    Aside,
    /// A person is asked in a thread; in a channel its root is looked for first, as a post to a root
    /// that is gone would land in the channel.
    Ask { channel: String, thread_ts: String, check_root: bool },
}

/// What a [`PermStep`] says.
pub enum PermStepView {
    Answer(bool, Seq<char>),
    Aside,
    Ask(Seq<char>, Seq<char>, bool),
}

impl View for PermStep {
    type V = PermStepView;

    open spec fn view(&self) -> PermStepView {
        match self {
            PermStep::Answer(a) => PermStepView::Answer(a.allow, a.reason@),
            PermStep::Aside => PermStepView::Aside,
            PermStep::Ask { channel, thread_ts, check_root } => PermStepView::Ask(
                channel@,
                thread_ts@,
                *check_root,
            ),
        }
    }
}

/// A reason as the agent reads it.
pub open spec fn by_bridge(why: Seq<char>) -> Seq<char> {
    "Slack bridge ("@ + why + ")"@
}

/// What is done with a call: the standing rules come first; then what a person granted before, in the
/// thread and in the channel; then a person is asked. Without a thread to ask in the bridge stands
/// aside.
pub open spec fn step_for(
    rule: ToolRule,
    key: Option<Seq<char>>,
    tool: Seq<char>,
    threads: Map<Seq<char>, EntryView>,
    access: AccessView,
) -> PermStepView {
    match rule {
        ToolRule::Allow(because) => PermStepView::Answer(true, by_bridge(because@)),
        ToolRule::Deny(because) => PermStepView::Answer(false, because@),
        ToolRule::Ask => match key {
            None => PermStepView::Aside,
            Some(k) => {
                let (channel, root) = chat::key_parts(k);
                match root {
                    None => PermStepView::Aside,
                    Some(ts) => if tools_of(entry_or_blank(threads, ts).allowed_tools).contains(
                        tool,
                    ) {
                        PermStepView::Answer(true, by_bridge("thread-grant"@))
                    } else if tools_of(
                        route_or_blank(access.routes, channel).allowed_tools,
                    ).contains(tool) {
                        PermStepView::Answer(true, by_bridge("channel-grant"@))
                    } else {
                        PermStepView::Ask(channel, ts, !is_dm(channel))
                    },
                }
            },
        },
    }
}

/// A channel that is a direct message.
pub open spec fn is_dm(channel: Seq<char>) -> bool {
    channel.len() > 0 && channel[0] == 'D'
}

fn answer(allow: bool, why: &str) -> (a: PermAnswer)
    ensures
        a.allow == allow,
        a.reason@ == by_bridge(why@),
{
    PermAnswer { allow, reason: text::cat3("Slack bridge (", why, ")") }
}

/// What is done with a call.
pub fn on_perm(
    rule: ToolRule,
    key: Option<&ThreadKey>,
    tool: &str,
    threads: &Threads,
    access: &Access,
) -> (r: PermStep)
    ensures
        r@ == step_for(
            rule,
            match key {
                Some(k) => Some(k@),
                None => None,
            },
            tool@,
            threads@,
            access@,
        ),
{
    match rule {
        ToolRule::Allow(because) => PermStep::Answer(answer(true, because.as_str())),
        ToolRule::Deny(because) => PermStep::Answer(PermAnswer { allow: false, reason: because }),
        ToolRule::Ask => match key {
            None => PermStep::Aside,
            Some(k) => {
                let (channel, root) = k.split();
                match root {
                    None => PermStep::Aside,
                    Some(thread_ts) => if threads.thread_tool_allowed(thread_ts.as_str(), tool) {
                        PermStep::Answer(answer(true, "thread-grant"))
                    } else if access.channel_tool_allowed(channel.as_str(), tool) {
                        PermStep::Answer(answer(true, "channel-grant"))
                    } else {
                        let cs: Vec<char> = text::chars_of(channel.as_str());
                        let dm: bool = cs.len() > 0 && cs[0] == 'D';
                        PermStep::Ask { channel, thread_ts, check_root: !dm }
                    },
                }
            },
        },
    }
}

/// The tool that a permission hook asks for.
pub open spec fn tool_in(payload: Seq<char>) -> Seq<char> {
    or_empty(json::json_text(payload, "/tool_name"@))
}

/// The call that a permission hook asks for.
pub open spec fn call_in(payload: Seq<char>) -> Seq<char> {
    or_empty(json::json_text(payload, "/tool_use_id"@))
}

/// The input of the call that a permission hook asks for, as JSON.
pub open spec fn input_in(payload: Seq<char>) -> Seq<char> {
    match json::json_value(payload, "/tool_input"@) {
        Some(v) => v,
        None => "null"@,
    }
}

/// What is done with the call of a permission hook. `rule` is what the standing rules say of it.
pub fn on_perm_hook(
    rule: ToolRule,
    key: Option<&ThreadKey>,
    payload: &str,
    threads: &Threads,
    access: &Access,
) -> (r: PermStep)
    ensures
        r@ == step_for(
            rule,
            match key {
                Some(k) => Some(k@),
                None => None,
            },
            tool_in(payload@),
            threads@,
            access@,
        ),
{
    let tool: String = json::text_or_empty(payload, "/tool_name");
    on_perm(rule, key, tool.as_str(), threads, access)
}

/// What a person is asked: the title and the body of the question that a permission hook leads to.
pub fn question_for(payload: &str) -> (r: (String, String))
    ensures
        r.0@ == "Permission: "@ + tool_in(payload@),
        r.1@ == events::prompt_body(tool_in(payload@), input_in(payload@)),
{
    let tool: String = json::text_or_empty(payload, "/tool_name");
    let input: String = match json::value_at(payload, "/tool_input") {
        Some(v) => v,
        None => "null".to_owned(),
    };
    (
        events::perm_prompt_title(tool.as_str()),
        events::perm_prompt_body(tool.as_str(), input.as_str()),
    )
}

/// The answer where the root of the thread is gone: nothing is posted, and the call is refused.
pub fn root_gone() -> (a: PermAnswer)
    ensures
        !a.allow,
        a.reason@ == by_bridge("thread-gone"@),
{
    answer(false, "thread-gone")
}

// ── questions ───────────────────────────────────────────────────────────────

/// One call that waits for a person.
#[derive(Debug)]
pub struct PermPending {
    pub channel: String,
    pub thread_ts: String,
    pub tool_name: String,
    pub tool_use_id: String,
    /// The message that asks.
    pub prompt_ts: String,
    pub deadline_ms: u64,
}

/// What a [`PermPending`] holds.
pub struct PendingView {
    pub channel: Seq<char>,
    pub thread_ts: Seq<char>,
    pub tool_name: Seq<char>,
    pub tool_use_id: Seq<char>,
    pub prompt_ts: Seq<char>,
    pub deadline_ms: u64,
}

impl View for PermPending {
    type V = PendingView;

    open spec fn view(&self) -> PendingView {
        PendingView {
            channel: self.channel@,
            thread_ts: self.thread_ts@,
            tool_name: self.tool_name@,
            tool_use_id: self.tool_use_id@,
            prompt_ts: self.prompt_ts@,
            deadline_ms: self.deadline_ms,
        }
    }
}

impl PendingView {
    /// The thread that waits.
    pub open spec fn key(self) -> Seq<char> {
        chat::key_of(self.channel, self.thread_ts)
    }
}

/// The calls that wait for a person, by the id of the request.
pub struct PermPrompts {
    rows: Table<PermPending>,
}

pub open spec fn pending_views(m: Map<Seq<char>, PermPending>) -> Map<Seq<char>, PendingView> {
    m.map_values(|p: PermPending| p@)
}

impl View for PermPrompts {
    type V = Map<Seq<char>, PendingView>;

    closed spec fn view(&self) -> Map<Seq<char>, PendingView> {
        pending_views(self.rows@)
    }
}

/// What came of a pressed button.
#[derive(Debug)]
pub struct Clicked {
    pub answer: PermAnswer,
    /// What is shown of the silence is to be cleared.
    pub clear: bool,
    pub channel: String,
    pub prompt_ts: String,
    /// What the question becomes.
    pub done: String,
}

/// What a question becomes once a button is pressed.
pub open spec fn done_text(tool: Seq<char>, action: Seq<char>, by: Seq<char>) -> Seq<char> {
    (if action == "deny"@ {
        "🚫"@
    } else {
        "✅"@
    }) + " `"@ + tool + "` — "@ + action + " by <@"@ + by + ">"@
}

/// The watch after a question was settled.
pub open spec fn stalls_after(
    m: Map<Seq<char>, Stall>,
    key: Seq<char>,
    rearm: bool,
    now_ms: u64,
) -> Map<Seq<char>, Stall> {
    if m.dom().contains(key) {
        m.insert(key, stall::resumed(m[key], rearm, now_ms))
    } else {
        m
    }
}

/// What is shown of the silence of a thread.
pub open spec fn is_shown(m: Map<Seq<char>, Stall>, key: Seq<char>) -> bool {
    m.dom().contains(key) && m[key].shown
}

/// What a pressed button leads to.
pub struct Pressed {
    pub allow: bool,
    pub stalls: Map<Seq<char>, Stall>,
    pub board: BoardView,
    pub threads: Map<Seq<char>, EntryView>,
    pub access: AccessView,
}

/// What a pressed button leads to: the call is answered, and what was granted for longer is remembered.
pub open spec fn pressed(
    p: PendingView,
    action: Seq<char>,
    stalls: Map<Seq<char>, Stall>,
    board: BoardView,
    threads: Map<Seq<char>, EntryView>,
    access: AccessView,
    now_ms: u64,
) -> Pressed {
    Pressed {
        allow: action != "deny"@,
        stalls: stalls_after(stalls, p.key(), true, now_ms),
        board: if action != "deny"@ {
            board
        } else {
            board.perm_denied(p.key(), p.tool_use_id)
        },
        threads: if action == "allow-thread"@ {
            with_thread_tool(threads, p.thread_ts, p.tool_name)
        } else {
            threads
        },
        access: if action == "allow-channel"@ {
            access.with_channel_tool(p.channel, p.tool_name)
        } else {
            access
        },
    }
}

impl PermPrompts {
    /// The calls that wait, in the order of their ids.
    pub closed spec fn list(&self) -> Seq<(Seq<char>, PendingView)> {
        self.rows.entries().map_values(|r: (Seq<char>, PermPending)| (r.0, r.1@))
    }

    /// No call waits.
    pub fn new() -> (p: Self)
        ensures
            p@ == Map::<Seq<char>, PendingView>::empty(),
            p.list() == Seq::<(Seq<char>, PendingView)>::empty(),
    {
        let p: PermPrompts = PermPrompts { rows: Table::new() };
        proof {
            assert(p.list() =~= Seq::empty());
            assert(p@ =~= Map::<Seq<char>, PendingView>::empty());
        }
        p
    }

    /// An id for a request: the time and how many wait.
    pub fn next_id(&self, now_ms: u64) -> (id: String)
        ensures
            id@ == text::digits_in(now_ms as nat, 16) + "-"@ + text::decimal(
                self.list().len() as int,
            ),
    {
        let n: usize = self.rows.len();
        let mut id: String = String::new();
        text::push_digits(&mut id, now_ms, 16);
        proof {
            assert(id@ =~= text::digits_in(now_ms as nat, 16));
        }
        id.append("-");
        let k: String = text::number(n as u64);
        id.append(k.as_str());
        id
    }

    fn put(&mut self, req_id: &str, p: PermPending)
        ensures
            final(self)@ == old(self)@.insert(req_id@, p@),
    {
        let _ = self.rows.insert(req_id.to_owned(), p);
        proof {
            assert(self@ =~= old(self)@.insert(req_id@, p@));
        }
    }

    /// Takes a call that waits.
    pub fn take(&mut self, req_id: &str) -> (r: Option<PermPending>)
        ensures
            match r {
                Some(p) => old(self)@.dom().contains(req_id@) && p@ == old(self)@[req_id@],
                None => !old(self)@.dom().contains(req_id@),
            },
            final(self)@ == old(self)@.remove(req_id@),
    {
        let r: Option<PermPending> = self.rows.remove(req_id);
        proof {
            assert(self@ =~= old(self)@.remove(req_id@));
        }
        r
    }

    /// A question was posted: the call waits, and the watch for silence pauses. Returns whether what
    /// is shown is to be cleared.
    pub fn asked(
        &mut self,
        stalls: &mut Stalls,
        req_id: &str,
        channel: &str,
        thread_ts: &str,
        tool: &str,
        tool_use_id: &str,
        prompt_ts: &str,
        now_ms: u64,
    ) -> (clear: bool)
        requires
            now_ms + PERM_WAIT_MS <= u64::MAX,
        ensures
            final(self)@ == old(self)@.insert(
                req_id@,
                (PendingView {
                    channel: channel@,
                    thread_ts: thread_ts@,
                    tool_name: tool@,
                    tool_use_id: tool_use_id@,
                    prompt_ts: prompt_ts@,
                    deadline_ms: (now_ms + PERM_WAIT_MS) as u64,
                }),
            ),
            ({
                let key = chat::key_of(channel@, thread_ts@);
                &&& clear == is_shown(old(stalls)@, key)
                &&& final(stalls)@ == if old(stalls)@.dom().contains(key) {
                    old(stalls)@.insert(key, stall::suspended(old(stalls)@[key]))
                } else {
                    old(stalls)@
                }
            }),
    {
        let key: ThreadKey = ThreadKey::new(channel, thread_ts);
        let clear: bool = stalls.suspend_for_perm(&key);
        self.put(
            req_id,
            PermPending {
                channel: channel.to_owned(),
                thread_ts: thread_ts.to_owned(),
                tool_name: tool.to_owned(),
                tool_use_id: tool_use_id.to_owned(),
                prompt_ts: prompt_ts.to_owned(),
                deadline_ms: now_ms + PERM_WAIT_MS,
            },
        );
        clear
    }

    /// The question of a permission hook was posted: its call waits, and the watch for silence pauses.
    /// Returns whether what is shown is to be cleared.
    pub fn asked_by_hook(
        &mut self,
        stalls: &mut Stalls,
        req_id: &str,
        channel: &str,
        thread_ts: &str,
        payload: &str,
        prompt_ts: &str,
        now_ms: u64,
    ) -> (clear: bool)
        requires
            now_ms + PERM_WAIT_MS <= u64::MAX,
        ensures
            final(self)@ == old(self)@.insert(
                req_id@,
                (PendingView {
                    channel: channel@,
                    thread_ts: thread_ts@,
                    tool_name: tool_in(payload@),
                    tool_use_id: call_in(payload@),
                    prompt_ts: prompt_ts@,
                    deadline_ms: (now_ms + PERM_WAIT_MS) as u64,
                }),
            ),
            ({
                let key = chat::key_of(channel@, thread_ts@);
                &&& clear == is_shown(old(stalls)@, key)
                &&& final(stalls)@ == if old(stalls)@.dom().contains(key) {
                    old(stalls)@.insert(key, stall::suspended(old(stalls)@[key]))
                } else {
                    old(stalls)@
                }
            }),
    {
        let tool: String = json::text_or_empty(payload, "/tool_name");
        let call: String = json::text_or_empty(payload, "/tool_use_id");
        self.asked(
            stalls,
            req_id,
            channel,
            thread_ts,
            tool.as_str(),
            call.as_str(),
            prompt_ts,
            now_ms,
        )
    }

    /// A button was pressed. The call is answered, the watch goes on, a refused call's row is marked,
    /// and what was granted for longer is remembered; only a pressed button grants. A second press of
    /// a question does nothing.
    pub fn clicked(
        &mut self,
        stalls: &mut Stalls,
        board: &mut StickyBoard,
        threads: &mut Threads,
        access: &mut Access,
        click: &PermClick,
        now_ms: u64,
    ) -> (r: Option<Clicked>)
        ensures
            final(self)@ == old(self)@.remove(click.req_id@),
            match r {
                None => !old(self)@.dom().contains(click.req_id@) && final(stalls)@ == old(stalls)@
                    && final(board)@ == old(board)@ && final(threads)@ == old(threads)@
                    && final(access)@ == old(access)@,
                Some(c) => {
                    let p = old(self)@[click.req_id@];
                    let after = pressed(
                        p,
                        click.action@,
                        old(stalls)@,
                        old(board)@,
                        old(threads)@,
                        old(access)@,
                        now_ms,
                    );
                    &&& old(self)@.dom().contains(click.req_id@)
                    &&& c.answer.allow == after.allow
                    &&& c.answer.reason@ == by_bridge(click.action@)
                    &&& c.clear == is_shown(old(stalls)@, p.key())
                    &&& c.channel@ == p.channel
                    &&& c.prompt_ts@ == p.prompt_ts
                    &&& c.done@ == done_text(p.tool_name, click.action@, click.by@)
                    &&& final(stalls)@ == after.stalls
                    &&& final(board)@ == after.board
                    &&& final(threads)@ == after.threads
                    &&& final(access)@ == after.access
                },
            },
            old(board)@.ok() ==> final(board)@.ok(),
    {
        let p: PermPending = match self.take(click.req_id.as_str()) {
            Some(p) => p,
            None => return None,
        };
        let action: &str = click.action.as_str();
        let allow: bool = !text::same(action, "deny");
        let key: ThreadKey = ThreadKey::new(p.channel.as_str(), p.thread_ts.as_str());
        let clear: bool = stalls.resume_after_perm(&key, true, now_ms);
        if !allow {
            board.on_perm_denied(&key, p.tool_use_id.as_str());
        }
        proof {
            reveal_strlit("allow-thread");
            reveal_strlit("allow-channel");
            assert("allow-thread"@.len() == 12);
            assert("allow-channel"@.len() == 13);
        }
        if text::same(action, "allow-thread") {
            threads.grant_thread_tool(p.thread_ts.as_str(), p.tool_name.as_str());
        } else if text::same(action, "allow-channel") {
            access.grant_channel_tool(p.channel.as_str(), p.tool_name.as_str());
        }
        let mut done: String = if allow {
            "✅".to_owned()
        } else {
            "🚫".to_owned()
        };
        done.append(" `");
        done.append(p.tool_name.as_str());
        done.append("` — ");
        done.append(action);
        done.append(" by <@");
        done.append(click.by.as_str());
        done.append(">");
        Some(
            Clicked {
                answer: answer(allow, action),
                clear,
                channel: p.channel,
                prompt_ts: p.prompt_ts,
                done,
            },
        )
    }

    /// The ids of the requests that nobody answered in time, in order.
    pub fn expired(&self, now_ms: u64) -> (out: Vec<String>)
        ensures
            table::in_key_order(text::views(out@)),
            forall|id: Seq<char>| #[trigger]
                text::views(out@).contains(id) <==> self@.dom().contains(id)
                    && self@[id].deadline_ms <= now_ms,
    {
        let n: usize = self.rows.len();
        let ghost rows = self.rows.entries();
        let mut out: Vec<String> = Vec::new();
        let mut i: usize = 0;
        while i < n
            invariant
                i <= n == rows.len(),
                rows == self.rows.entries(),
                table::ascending(rows),
                table::in_key_order(text::views(out@)),
                forall|k: int|
                    0 <= k < out@.len() ==> is_late(rows, i as int, now_ms, (#[trigger] out@[k])@),
                forall|j: int|
                    0 <= j < i && (#[trigger] rows[j]).1@.deadline_ms <= now_ms ==> text::views(
                        out@,
                    ).contains(rows[j].0),
            decreases n - i,
        {
            let p: &PermPending = self.rows.value_at(i);
            let ghost before = out@;
            let ghost b = text::views(out@);
            if p.deadline_ms <= now_ms {
                out.push(self.rows.key_at(i).clone());
                proof {
                    text::lemma_views_push(before, out@.last());
                    let d = text::views(out@);
                    let x = rows[i as int].0;
                    assert(d[b.len() as int] == x);
                    assert forall|p: int, q: int| 0 <= p < q < d.len() implies text::before(
                        #[trigger] d[p],
                        #[trigger] d[q],
                    ) by {
                        if q == b.len() {
                            assert(before[p]@ == b[p]);
                            assert(is_late(rows, i as int, now_ms, before[p]@));
                            let j = choose|j: int|
                                0 <= j < i && (#[trigger] rows[j]).0 == before[p]@
                                    && rows[j].1@.deadline_ms <= now_ms;
                            assert(text::before(rows[j].0, rows[i as int].0));
                        }
                    }
                    assert forall|j: int|
                        0 <= j < i + 1 && (#[trigger] rows[j]).1@.deadline_ms
                            <= now_ms implies d.contains(rows[j].0) by {
                        if j < i {
                            assert(b.contains(rows[j].0));
                            let k = choose|k: int| 0 <= k < b.len() && b[k] == rows[j].0;
                            assert(d[k] == rows[j].0);
                        }
                    }
                }
            }
            proof {
                assert forall|k: int| 0 <= k < out@.len() implies is_late(
                    rows,
                    i + 1,
                    now_ms,
                    (#[trigger] out@[k])@,
                ) by {
                    if k < before.len() {
                        assert(out@[k] == before[k]);
                        assert(is_late(rows, i as int, now_ms, before[k]@));
                        let j = choose|j: int|
                            0 <= j < i && (#[trigger] rows[j]).0 == before[k]@
                                && rows[j].1@.deadline_ms <= now_ms;
                        assert(rows[j].0 == out@[k]@);
                    } else {
                        assert(rows[i as int].0 == out@[k]@);
                    }
                }
            }
            i = i + 1;
        }
        proof {
            let d = text::views(out@);
            assert forall|id: Seq<char>| #[trigger] d.contains(id) <==> self@.dom().contains(id)
                && self@[id].deadline_ms <= now_ms by {
                if d.contains(id) {
                    let k = choose|k: int| 0 <= k < d.len() && d[k] == id;
                    assert(out@[k]@ == id);
                    assert(is_late(rows, n as int, now_ms, out@[k]@));
                    let j = choose|j: int|
                        0 <= j < n && (#[trigger] rows[j]).0 == out@[k]@ && rows[j].1@.deadline_ms
                            <= now_ms;
                    table::lemma_row_in_map(rows, j);
                }
                if self@.dom().contains(id) && self@[id].deadline_ms <= now_ms {
                    let j = choose|j: int| table::has_row(rows, id, j);
                    table::lemma_row_in_map(rows, j);
                    assert(d.contains(rows[j].0));
                }
            }
        }
        out
    }

    /// Nobody answered a request in time. The bridge stands aside, the watch goes on without being
    /// armed, and the progress message says so. Returns the call, whose question is to be deleted, and
    /// whether what is shown is to be cleared.
    pub fn expire(&mut self, stalls: &mut Stalls, board: &mut StickyBoard, req_id: &str) -> (r: Option<
        (PermPending, bool),
    >)
        ensures
            final(self)@ == old(self)@.remove(req_id@),
            match r {
                None => !old(self)@.dom().contains(req_id@) && final(stalls)@ == old(stalls)@
                    && final(board)@ == old(board)@,
                Some((p, clear)) => {
                    &&& old(self)@.dom().contains(req_id@)
                    &&& p@ == old(self)@[req_id@]
                    &&& clear == is_shown(old(stalls)@, p@.key())
                    &&& final(stalls)@ == stalls_after(old(stalls)@, p@.key(), false, 0)
                    &&& final(board)@ == old(board)@.perm_expired(p@.key())
                },
            },
            old(board)@.ok() ==> final(board)@.ok(),
    {
        let p: PermPending = match self.take(req_id) {
            Some(p) => p,
            None => return None,
        };
        let key: ThreadKey = ThreadKey::new(p.channel.as_str(), p.thread_ts.as_str());
        let clear: bool = stalls.resume_after_perm(&key, false, 0);
        board.on_perm_timeout(&key);
        Some((p, clear))
    }

    /// The threads in which a person is asked, in the order of the requests.
    pub fn waiting(&self) -> (out: Vec<ThreadKey>)
        ensures
            key_views(out@) == self.list().map_values(|r: (Seq<char>, PendingView)| r.1.key()),
    {
        let ghost all = self.list().map_values(|r: (Seq<char>, PendingView)| r.1.key());
        let n: usize = self.rows.len();
        let mut out: Vec<ThreadKey> = Vec::new();
        let mut i: usize = 0;
        while i < n
            invariant
                i <= n == all.len(),
                n == self.rows.entries().len(),
                all == self.list().map_values(|r: (Seq<char>, PendingView)| r.1.key()),
                key_views(out@) =~= all.take(i as int),
            decreases n - i,
        {
            let p: &PermPending = self.rows.value_at(i);
            let ghost before = out@;
            out.push(ThreadKey::new(p.channel.as_str(), p.thread_ts.as_str()));
            proof {
                assert(key_views(out@) =~= key_views(before).push(all[i as int]));
                assert(all.take(i + 1) =~= all.take(i as int).push(all[i as int]));
            }
            i = i + 1;
        }
        proof {
            assert(all.take(n as int) =~= all);
        }
        out
    }
}

spec fn is_late(
    rows: Seq<(Seq<char>, PermPending)>,
    n: int,
    now_ms: u64,
    id: Seq<char>,
) -> bool {
    exists|j: int|
        0 <= j < n && (#[trigger] rows[j]).0 == id && rows[j].1@.deadline_ms <= now_ms
}

// ── what holds of permission ────────────────────────────────────────────────

/// What a person granted in a thread is not asked for there again.
pub proof fn law_thread_grant_holds(
    key: Seq<char>,
    tool: Seq<char>,
    threads: Map<Seq<char>, EntryView>,
    access: AccessView,
)
    requires
        chat::key_parts(key).1 matches Some(ts) && ts.len() > 0,
        tool.len() > 0,
    ensures
        step_for(
            ToolRule::Ask,
            Some(key),
            tool,
            with_thread_tool(threads, chat::key_parts(key).1->0, tool),
            access,
        ) == PermStepView::Answer(true, by_bridge("thread-grant"@)),
{
    let ts = chat::key_parts(key).1->0;
    let e = entry_or_blank(threads, ts);
    crate::bridge::state::threads::law_granted_once(tools_of(e.allowed_tools), tool);
}

/// What a person granted in a channel is not asked for there again, in any thread of it.
pub proof fn law_channel_grant_holds(
    key: Seq<char>,
    tool: Seq<char>,
    threads: Map<Seq<char>, EntryView>,
    access: AccessView,
)
    requires
        chat::key_parts(key).1 is Some,
        chat::key_parts(key).0.len() > 0,
        tool.len() > 0,
    ensures
        step_for(
            ToolRule::Ask,
            Some(key),
            tool,
            threads,
            access.with_channel_tool(chat::key_parts(key).0, tool),
        ) matches PermStepView::Answer(allow, _) && allow,
{
    let channel = chat::key_parts(key).0;
    let r = route_or_blank(access.routes, channel);
    crate::bridge::state::threads::law_granted_once(tools_of(r.allowed_tools), tool);
}

/// No grant of a person overrules a rule that refuses.
pub proof fn law_rules_come_first(
    because: String,
    key: Option<Seq<char>>,
    tool: Seq<char>,
    threads: Map<Seq<char>, EntryView>,
    access: AccessView,
)
    ensures
        step_for(ToolRule::Deny(because), key, tool, threads, access) == PermStepView::Answer(
            false,
            because@,
        ),
{
}

/// The calls that wait are listed in the order of their ids, each once.
pub proof fn law_calls_are_listed(x: PermPrompts)
    ensures
        table::lists(x.list(), x@),
{
    let f = |v: PermPending| v@;
    table::lemma_entries_seen(x.rows, f);
    assert(x.list() =~= x.rows.entries().map_values(|r: (Seq<char>, PermPending)| (r.0, f(r.1))));
    assert(x@ =~= x.rows@.map_values(f));
}

/// A person granted a tool in a thread.
pub open spec fn granted_in_thread(
    threads: Map<Seq<char>, EntryView>,
    ts: Seq<char>,
    tool: Seq<char>,
) -> bool {
    threads.dom().contains(ts) && threads[ts].allowed_tools is Some
        && threads[ts].allowed_tools->0.contains(tool)
}

/// A person granted a tool in a channel.
pub open spec fn granted_in_channel(access: AccessView, channel: Seq<char>, tool: Seq<char>) -> bool {
    access.routes.dom().contains(channel) && access.routes[channel].allowed_tools is Some
        && access.routes[channel].allowed_tools->0.contains(tool)
}

/// A call that the rules leave open runs without asking exactly where its own tool was granted, in its
/// thread or in its channel. Any other is asked for in its thread; the root is looked for first unless
/// it is in a direct message.
pub proof fn law_only_what_was_granted_runs(
    key: Seq<char>,
    tool: Seq<char>,
    threads: Map<Seq<char>, EntryView>,
    access: AccessView,
)
    requires
        chat::key_parts(key).1 is Some,
    ensures
        ({
            let (channel, ts) = (chat::key_parts(key).0, chat::key_parts(key).1->0);
            let step = step_for(ToolRule::Ask, Some(key), tool, threads, access);
            &&& granted_in_thread(threads, ts, tool) ==> step == PermStepView::Answer(
                true,
                "Slack bridge ("@ + "thread-grant"@ + ")"@,
            )
            &&& !granted_in_thread(threads, ts, tool) && granted_in_channel(access, channel, tool)
                ==> step == PermStepView::Answer(true, "Slack bridge ("@ + "channel-grant"@ + ")"@)
            &&& !granted_in_thread(threads, ts, tool) && !granted_in_channel(access, channel, tool)
                ==> step == PermStepView::Ask(
                channel,
                ts,
                !(channel.len() > 0 && channel[0] == 'D'),
            )
        }),
{
}

/// A call that the rules leave open and that no thread is known for is left to the agent's own rules.
pub proof fn law_without_a_thread_aside(
    key: Seq<char>,
    tool: Seq<char>,
    threads: Map<Seq<char>, EntryView>,
    access: AccessView,
)
    ensures
        step_for(ToolRule::Ask, None, tool, threads, access) == PermStepView::Aside,
        !key.contains(':') ==> step_for(ToolRule::Ask, Some(key), tool, threads, access)
            == PermStepView::Aside,
        key.contains(':') ==> step_for(ToolRule::Ask, Some(key), tool, threads, access)
            != PermStepView::Aside,
{
    text::lemma_index_of(key, ':');
    if key.contains(':') {
        let i = choose|i: int| 0 <= i < key.len() && key[i] == ':';
        assert(key[i] == ':');
    }
}

/// A rule that lets a call through does so wherever the call comes from, and says why.
pub proof fn law_rules_let_through(
    because: String,
    key: Option<Seq<char>>,
    tool: Seq<char>,
    threads: Map<Seq<char>, EntryView>,
    access: AccessView,
)
    ensures
        step_for(ToolRule::Allow(because), key, tool, threads, access) == PermStepView::Answer(
            true,
            "Slack bridge ("@ + because@ + ")"@,
        ),
{
}

/// A grant in a thread is for its tool and its thread alone: what is done with any other tool, or in
/// any other thread, stays as it was.
pub proof fn law_thread_grant_is_narrow(
    rule: ToolRule,
    key: Seq<char>,
    tool: Seq<char>,
    ts: Seq<char>,
    granted: Seq<char>,
    threads: Map<Seq<char>, EntryView>,
    access: AccessView,
)
    requires
        tool != granted || chat::key_parts(key).1 != Some(ts),
    ensures
        step_for(rule, Some(key), tool, with_thread_tool(threads, ts, granted), access) == step_for(
            rule,
            Some(key),
            tool,
            threads,
            access,
        ),
{
    let e = entry_or_blank(threads, ts);
    crate::bridge::state::threads::law_granted_once(tools_of(e.allowed_tools), granted);
}

/// A grant in a channel is for its tool and its channel alone: what is done with any other tool, or in
/// any other channel, stays as it was.
pub proof fn law_channel_grant_is_narrow(
    rule: ToolRule,
    key: Seq<char>,
    tool: Seq<char>,
    channel: Seq<char>,
    granted: Seq<char>,
    threads: Map<Seq<char>, EntryView>,
    access: AccessView,
)
    requires
        tool != granted || chat::key_parts(key).0 != channel,
    ensures
        step_for(
            rule,
            Some(key),
            tool,
            threads,
            access.with_channel_tool(channel, granted),
        ) == step_for(rule, Some(key), tool, threads, access),
{
    let r = route_or_blank(access.routes, channel);
    crate::bridge::state::threads::law_granted_once(tools_of(r.allowed_tools), granted);
}

/// Only the button that refuses refuses, and it grants nothing; the others let the call through and
/// leave the progress message alone.
pub proof fn law_pressed_answers(
    p: PendingView,
    action: Seq<char>,
    stalls: Map<Seq<char>, Stall>,
    board: BoardView,
    threads: Map<Seq<char>, EntryView>,
    access: AccessView,
    now_ms: u64,
)
    ensures
        ({
            let after = pressed(p, action, stalls, board, threads, access, now_ms);
            &&& after.allow <==> action != "deny"@
            &&& action == "deny"@ ==> after.threads == threads && after.access == access
            &&& action != "deny"@ ==> after.board == board
            &&& action == "allow"@ ==> after.threads == threads && after.access == access
        }),
{
    reveal_strlit("deny");
    reveal_strlit("allow");
    reveal_strlit("allow-thread");
    reveal_strlit("allow-channel");
    assert("deny"@.len() == 4 && "allow"@.len() == 5);
    assert("allow-thread"@.len() == 12 && "allow-channel"@.len() == 13);
}

/// What a button grants is the tool that was asked for, where it was asked: for the thread, or for the
/// channel, and nothing else.
pub proof fn law_pressed_grants(
    p: PendingView,
    action: Seq<char>,
    stalls: Map<Seq<char>, Stall>,
    board: BoardView,
    threads: Map<Seq<char>, EntryView>,
    access: AccessView,
    now_ms: u64,
    ts: Seq<char>,
    channel: Seq<char>,
    tool: Seq<char>,
)
    requires
        p.thread_ts.len() > 0,
        p.channel.len() > 0,
        p.tool_name.len() > 0,
    ensures
        ({
            let after = pressed(p, action, stalls, board, threads, access, now_ms);
            &&& granted_in_thread(after.threads, ts, tool) <==> granted_in_thread(threads, ts, tool)
                || (action == "allow-thread"@ && ts == p.thread_ts && tool == p.tool_name)
            &&& granted_in_channel(after.access, channel, tool) <==> granted_in_channel(
                access,
                channel,
                tool,
            ) || (action == "allow-channel"@ && channel == p.channel && tool == p.tool_name)
        }),
{
    let e = entry_or_blank(threads, p.thread_ts);
    crate::bridge::state::threads::law_granted_once(tools_of(e.allowed_tools), p.tool_name);
    let r = route_or_blank(access.routes, p.channel);
    crate::bridge::state::threads::law_granted_once(tools_of(r.allowed_tools), p.tool_name);
    let t = with_thread_tool(threads, p.thread_ts, p.tool_name);
    assert(t[p.thread_ts].allowed_tools == Some(
        crate::bridge::state::threads::with_item(tools_of(e.allowed_tools), p.tool_name),
    ));
    let a = access.with_channel_tool(p.channel, p.tool_name);
    assert(a.routes[p.channel].allowed_tools == Some(
        crate::bridge::state::threads::with_item(tools_of(r.allowed_tools), p.tool_name),
    ));
}

/// A pressed button arms the watch for silence of its thread anew; other threads' stay as they were.
pub proof fn law_pressed_rearms(
    p: PendingView,
    action: Seq<char>,
    stalls: Map<Seq<char>, Stall>,
    board: BoardView,
    threads: Map<Seq<char>, EntryView>,
    access: AccessView,
    now_ms: u64,
    k: Seq<char>,
)
    ensures
        ({
            let after = pressed(p, action, stalls, board, threads, access, now_ms).stalls;
            let key = p.channel + ":"@ + p.thread_ts;
            &&& after.dom() == stalls.dom()
            &&& k != key ==> after[k] == stalls[k]
            &&& stalls.dom().contains(key) ==> after[key] == (Stall {
                last_activity_ms: now_ms,
                shown: false,
                awaiting_perm: false,
            })
        }),
{
    assert(pressed(p, action, stalls, board, threads, access, now_ms).stalls.dom() =~= stalls.dom());
}

} // verus!
