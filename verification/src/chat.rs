//! What arrives from the chat platform, and what the agent is told about it.
pub mod slack;

use crate::order;
use crate::table;
use crate::text;
use vstd::prelude::*;

verus! {

/// Where an incoming message came from.
#[derive(Clone, Copy, PartialEq, Eq, Debug, Structural)]
pub enum ChannelKind {
    Dm,
    Channel,
}

/// One attachment on an incoming message. `name` is what people see; the id where there is no
/// name.
#[derive(Debug)]
pub struct InboundFile {
    pub id: String,
    pub name: String,
}

/// One incoming message, whatever it came from: a post, an edit, a deletion or a reaction.
#[derive(Debug)]
pub struct InboundMsg {
    pub channel: String,
    pub channel_kind: ChannelKind,
    pub ts: String,
    pub thread_ts: Option<String>,
    pub user: Option<String>,
    pub is_bot: bool,
    /// The bot id the platform attaches.
    pub bot_id: Option<String>,
    pub text: String,
    pub files: Vec<InboundFile>,
    /// Local paths of attachments that were fetched.
    pub file_paths: Vec<String>,
    /// Notes for attachments that could not be fetched.
    pub file_errors: Vec<String>,
    /// Set when this message came from a reaction.
    pub reaction: Option<Reaction>,
    /// The ts of a message that its author deleted.
    pub deleted_ts: Option<String>,
    /// The ts of a message that its author edited, and which edit it is.
    pub edited: Option<Edited>,
}

/// One edit. `revision` tells edits of one message apart.
#[derive(Debug, PartialEq, Eq)]
pub struct Edited {
    pub ts: String,
    pub revision: String,
}

/// One reaction. `item_ts` is the ts of the message it was put on.
#[derive(Debug, PartialEq, Eq)]
pub struct Reaction {
    pub emoji: String,
    pub item_ts: String,
    pub added: bool,
}

impl Clone for Reaction {
    fn clone(&self) -> (r: Self)
        ensures
            r == *self,
    {
        Reaction { emoji: self.emoji.clone(), item_ts: self.item_ts.clone(), added: self.added }
    }
}

/// The reaction names that mean stop.
pub open spec fn is_stop_name(name: Seq<char>) -> bool {
    ||| name == "red_circle"@
    ||| name == "octagonal_sign"@
    ||| name == "black_square_for_stop"@
    ||| name == "hand"@
    ||| name == "raised_hand"@
    ||| name == "x"@
}

/// How much of the message that was reacted to is quoted.
pub const QUOTE_CHARS: usize = 280;

pub const REACT_HINT: &'static str =
    " Do not stay silent: at minimum call the `react` tool to acknowledge (e.g. mirror the emoji, or use 👍/🙏/🤔 as appropriate). Reply with text only if the reaction calls for a substantive response.";

impl Reaction {
    /// Whether this asks to stop: a stop emoji that was added (taking one off does not stop).
    pub fn is_stop(&self) -> (r: bool)
        ensures
            r == (self.added && is_stop_name(self.emoji@)),
    {
        let e: &str = self.emoji.as_str();
        self.added && (text::same(e, "red_circle") || text::same(e, "octagonal_sign")
            || text::same(e, "black_square_for_stop") || text::same(e, "hand") || text::same(
            e,
            "raised_hand",
        ) || text::same(e, "x"))
    }

    /// What the agent is told of a reaction.
    pub open spec fn told(&self, reactor: Seq<char>, item_text: Seq<char>) -> Seq<char> {
        (if self.added {
            "[reaction added] <@"@
        } else {
            "[reaction removed] <@"@
        }) + reactor + (if self.added {
            "> reacted with :"@
        } else {
            "> removed reaction :"@
        }) + self.emoji@ + ": on your message: "@ + text::clipped(
            item_text,
            QUOTE_CHARS as nat,
            "…"@,
        ) + (if self.added {
            REACT_HINT@
        } else {
            ""@
        })
    }

    /// The text handed to the agent for a reaction. A reaction is a light signal, so an added one
    /// comes with a sentence that asks for an answer.
    pub fn synthetic_text(&self, reactor: &str, item_text: &str) -> (out: String)
        ensures
            out@ == self.told(reactor@, item_text@),
    {
        let quote: String = text::clip_chars(item_text, QUOTE_CHARS, "…");
        let mut out: String = if self.added {
            "[reaction added] <@".to_owned()
        } else {
            "[reaction removed] <@".to_owned()
        };
        out.append(reactor);
        out.append(if self.added { "> reacted with :" } else { "> removed reaction :" });
        out.append(self.emoji.as_str());
        out.append(": on your message: ");
        out.append(quote.as_str());
        out.append(if self.added { REACT_HINT } else { "" });
        out
    }
}

/// How much of an edited or deleted message is quoted.
pub const SNIPPET_CHARS: usize = 1000;

/// A quoted body: `lead`, the trimmed body between fences, cut behind [`SNIPPET_CHARS`]; `empty`
/// where nothing is left of it.
pub open spec fn quoted(lead: Seq<char>, body: Seq<char>, empty: Seq<char>) -> Seq<char> {
    let t = text::trimmed(body);
    if t.len() == 0 {
        empty
    } else {
        lead + "\n\"\"\"\n"@ + text::clipped(t, SNIPPET_CHARS as nat, "… (truncated)"@)
            + "\n\"\"\""@
    }
}

fn quote(lead: &str, body: &str, empty: &str) -> (out: String)
    ensures
        out@ == quoted(lead@, body@, empty@),
{
    let t: String = text::trim(body);
    if t.as_str().is_empty() {
        return empty.to_owned();
    }
    let head: String = text::clip_chars(t.as_str(), SNIPPET_CHARS, "… (truncated)");
    let mut out: String = lead.to_owned();
    out.append("\n\"\"\"\n");
    out.append(head.as_str());
    out.append("\n\"\"\"");
    out
}

pub const EDIT_CURRENT_LEAD: &'static str =
    "[message_edited] The user EDITED the message you are CURRENTLY working on (id ";

pub const EDIT_CURRENT_REST: &'static str =
    ") — they changed the request, so your in-progress turn was interrupted. Throw away the work you were doing for the OLD wording and handle the NEW content instead. ";

pub const EDIT_PAST_LEAD: &'static str = "[message_edited] The user EDITED an earlier message (id ";

pub const EDIT_PAST_REST: &'static str =
    ") that you had already moved past — they revised that request. Do NOT abandon your current work; once you are free, handle the revised request. ";

pub const EDIT_END: &'static str =
    "\n\nRespond to the now-edited request as you normally would; if the edit changes nothing you need to do, call no_reply.";

/// What the agent is told of an edit.
pub open spec fn edit_told(
    edited_ts: Seq<char>,
    new_text: Seq<char>,
    had_files: bool,
    is_current: bool,
) -> Seq<char> {
    (if is_current {
        EDIT_CURRENT_LEAD@
    } else {
        EDIT_PAST_LEAD@
    }) + edited_ts + (if is_current {
        EDIT_CURRENT_REST@
    } else {
        EDIT_PAST_REST@
    }) + quoted(
        "The new content is:"@,
        new_text,
        if had_files {
            "It now has no text (a file/attachment only)."@
        } else {
            "Its new text is unavailable."@
        },
    ) + EDIT_END@
}

/// The text telling the agent about an edit. `is_current`: the request being worked on was
/// rewritten, so the old work is dropped; otherwise a past request was revised.
pub fn edit_notice(edited_ts: &str, new_text: &str, had_files: bool, is_current: bool) -> (out:
    String)
    ensures
        out@ == edit_told(edited_ts@, new_text@, had_files, is_current),
{
    let empty: &str = if had_files {
        "It now has no text (a file/attachment only)."
    } else {
        "Its new text is unavailable."
    };
    let content: String = quote("The new content is:", new_text, empty);
    let mut out: String = if is_current {
        EDIT_CURRENT_LEAD.to_owned()
    } else {
        EDIT_PAST_LEAD.to_owned()
    };
    out.append(edited_ts);
    out.append(if is_current { EDIT_CURRENT_REST } else { EDIT_PAST_REST });
    out.append(content.as_str());
    out.append(EDIT_END);
    out
}

pub const DELETE_LEAD: &'static str =
    "[message_deleted] The user DELETED their own message (id ";

pub const DELETE_REST: &'static str =
    "). They removed that request from the conversation — handle it as if the message had never been sent. ";

pub const DELETE_END: &'static str =
    "\n\nDecide based on what you have ACTUALLY done for it so far:\n• If you have NOT yet performed any external/irreversible action for it — including the case where you only prepared, computed, or were about to send an answer — then DISCARD that work: call no_reply and output nothing. A not-yet-sent answer is NOT a side-effect; throw it away.\n• Only reply if you ALREADY performed a real external side-effect that the user must know about or that needs reverting (e.g. created/edited a file, ran a command with lasting effects, or already posted a message), in which case briefly explain and/or undo it.\nNever output any text merely stating that the message was deleted.";

/// What the agent is told of a deletion.
pub open spec fn deletion_told(deleted_ts: Seq<char>, body: Seq<char>, had_files: bool) -> Seq<
    char,
> {
    DELETE_LEAD@ + deleted_ts + DELETE_REST@ + quoted(
        "Its content was:"@,
        body,
        if had_files {
            "It had no text (it was a file/attachment upload)."@
        } else {
            "Its text is unavailable."@
        },
    ) + DELETE_END@
}

/// The text telling the agent about a deletion: work that nobody has seen is thrown away, and only
/// a side effect that is already out is explained.
pub fn deletion_notice(deleted_ts: &str, body: &str, had_files: bool) -> (out: String)
    ensures
        out@ == deletion_told(deleted_ts@, body@, had_files),
{
    let empty: &str = if had_files {
        "It had no text (it was a file/attachment upload)."
    } else {
        "Its text is unavailable."
    };
    let content: String = quote("Its content was:", body, empty);
    let mut out: String = DELETE_LEAD.to_owned();
    out.append(deleted_ts);
    out.append(DELETE_REST);
    out.append(content.as_str());
    out.append(DELETE_END);
    out
}

/// What an event does not tell about an existing message.
#[derive(Debug)]
pub struct MessageAt {
    /// The author (may be missing on bot posts).
    pub user: Option<String>,
    /// Posted by a bot.
    pub is_bot: bool,
    /// Root of the thread it belongs to. Its own ts if it is not a reply.
    pub thread_ts: String,
}

/// A message as Slack gives it.
#[derive(Debug)]
pub struct GivenMsg {
    pub ts: String,
    pub user: Option<String>,
    pub bot_id: Option<String>,
    pub text: Option<String>,
    pub thread_ts: Option<String>,
}

impl MessageAt {
    /// What Slack's answer tells of the message at `ts`. It may have given another one, such as the
    /// thread's root, of which nothing is taken.
    pub fn of(ts: &str, given: Option<&GivenMsg>) -> (r: Option<MessageAt>)
        ensures
            match r {
                Some(m) => {
                    &&& given is Some && given->0.ts@ == ts@
                    &&& text::opt_view(m.user) == text::opt_view(given->0.user)
                    &&& m.is_bot == given->0.bot_id is Some
                    &&& m.thread_ts@ == (match given->0.thread_ts {
                        Some(root) => root@,
                        None => ts@,
                    })
                },
                None => given is None || given->0.ts@ != ts@,
            },
    {
        match given {
            Some(g) => {
                if !text::same(g.ts.as_str(), ts) {
                    return None;
                }
                let thread_ts: String = match &g.thread_ts {
                    Some(root) => root.clone(),
                    None => ts.to_owned(),
                };
                Some(MessageAt { user: g.user.clone(), is_bot: g.bot_id.is_some(), thread_ts })
            },
            None => None,
        }
    }
}

/// One message of a channel's history or of a thread.
#[derive(Debug)]
pub struct FetchedMsg {
    pub ts: String,
    pub user: String,
    pub text: String,
    /// Thread root. The parent's ts for a reply, its own ts for a root, `None` outside a thread.
    pub thread_ts: Option<String>,
}

impl FetchedMsg {
    /// A message of a history. What names no person was posted by a bot.
    pub fn of(given: &GivenMsg) -> (m: FetchedMsg)
        ensures
            m.ts@ == given.ts@,
            m.user@ == (match given.user {
                Some(u) => u@,
                None => "bot"@,
            }),
            m.text@ == (match given.text {
                Some(t) => t@,
                None => ""@,
            }),
            text::opt_view(m.thread_ts) == text::opt_view(given.thread_ts),
    {
        FetchedMsg {
            ts: given.ts.clone(),
            user: match &given.user {
                Some(u) => u.clone(),
                None => "bot".to_owned(),
            },
            text: match &given.text {
                Some(t) => t.clone(),
                None => "".to_owned(),
            },
            thread_ts: given.thread_ts.clone(),
        }
    }

    /// One message on one line: `[ts] user: text`.
    pub open spec fn line(&self) -> Seq<char> {
        "["@ + self.ts@ + "] "@ + self.user@ + ": "@ + self.text@
    }

    fn render(&self) -> (out: String)
        ensures
            out@ == self.line(),
    {
        let mut out: String = "[".to_owned();
        out.append(self.ts.as_str());
        out.append("] ");
        out.append(self.user.as_str());
        out.append(": ");
        out.append(self.text.as_str());
        out
    }

    /// The order of `msgs` by `ts`, oldest first; messages of one `ts` keep their order.
    pub open spec fn oldest_first(msgs: Seq<FetchedMsg>) -> Seq<int> {
        order::sorted_order(msgs.map_values(|m: FetchedMsg| m.ts))
    }

    /// All messages, one on a line, oldest first.
    pub fn render_all(msgs: &[FetchedMsg]) -> (out: String)
        ensures
            out@ == text::joined(
                Self::oldest_first(msgs@).map_values(|i: int| msgs@[i].line()),
                "\n"@,
            ),
    {
        broadcast use text::lemma_views_push, text::lemma_views_empty;

        let mut keys: Vec<String> = Vec::new();
        let mut i: usize = 0;
        while i < msgs.len()
            invariant
                i <= msgs@.len(),
                keys@ =~= msgs@.take(i as int).map_values(|m: FetchedMsg| m.ts),
            decreases msgs@.len() - i,
        {
            keys.push(msgs[i].ts.clone());
            i = i + 1;
        }
        proof {
            assert(msgs@.take(msgs@.len() as int) =~= msgs@);
        }
        let sorted: Vec<usize> = order::sort_order(&keys);
        let mut lines: Vec<String> = Vec::new();
        let mut k: usize = 0;
        let ghost all = Self::oldest_first(msgs@).map_values(|i: int| msgs@[i].line());
        while k < sorted.len()
            invariant
                k <= sorted@.len(),
                order::ints(sorted@) == Self::oldest_first(msgs@),
                forall|j: int| 0 <= j < sorted@.len() ==> #[trigger] sorted@[j] < msgs@.len(),
                all == Self::oldest_first(msgs@).map_values(|i: int| msgs@[i].line()),
                text::views(lines@) =~= all.take(k as int),
            decreases sorted@.len() - k,
        {
            proof {
                assert(order::ints(sorted@)[k as int] == sorted@[k as int] as int);
            }
            let ghost before = text::views(lines@);
            let line: String = msgs[sorted[k]].render();
            lines.push(line);
            proof {
                assert(all[k as int] == line@);
                assert(text::views(lines@) == before.push(line@));
                assert(all.take(k + 1) =~= all.take(k as int).push(all[k as int]));
            }
            k = k + 1;
        }
        proof {
            assert(all.take(all.len() as int) =~= all);
        }
        text::join(lines.as_slice(), "\n")
    }
}

/// No two messages are of one time.
pub open spec fn at_distinct_times(msgs: Seq<FetchedMsg>) -> bool {
    forall|i: int, j: int|
        0 <= i < j < msgs.len() ==> (#[trigger] msgs[i]).ts@ != (#[trigger] msgs[j]).ts@
}

/// The messages as rows, oldest first.
spec fn timed_rows(msgs: Seq<FetchedMsg>) -> Seq<(Seq<char>, FetchedMsg)> {
    FetchedMsg::oldest_first(msgs).map_values(|i: int| (msgs[i].ts@, msgs[i]))
}

/// The messages by their time.
spec fn by_time(msgs: Seq<FetchedMsg>) -> Map<Seq<char>, FetchedMsg> {
    Map::new(
        |k: Seq<char>| exists|i: int| 0 <= i < msgs.len() && (#[trigger] msgs[i]).ts@ == k,
        |k: Seq<char>|
            msgs[choose|i: int| 0 <= i < msgs.len() && (#[trigger] msgs[i]).ts@ == k],
    )
}

proof fn lemma_by_time(msgs: Seq<FetchedMsg>, k: Seq<char>, m: FetchedMsg)
    requires
        at_distinct_times(msgs),
    ensures
        msgs.contains(m) && m.ts@ == k <==> by_time(msgs).dom().contains(k) && by_time(msgs)[k] == m,
{
    if msgs.contains(m) && m.ts@ == k {
        let i = choose|i: int| 0 <= i < msgs.len() && msgs[i] == m;
        assert(msgs[i].ts@ == k);
        let j = choose|j: int| 0 <= j < msgs.len() && (#[trigger] msgs[j]).ts@ == k;
        assert(i == j);
    }
}

proof fn lemma_timed_rows(msgs: Seq<FetchedMsg>)
    requires
        at_distinct_times(msgs),
    ensures
        table::lists(timed_rows(msgs), by_time(msgs)),
{
    let keys = msgs.map_values(|m: FetchedMsg| m.ts);
    order::law_sorted_order(keys, keys.len());
    let s = FetchedMsg::oldest_first(msgs);
    let rows = timed_rows(msgs);
    assert forall|i: int, j: int| 0 <= i < j < rows.len() implies text::before(
        #[trigger] rows[i].0,
        #[trigger] rows[j].0,
    ) by {
        assert(s[i] != s[j]);
        assert(!order::Ranked::ranks_before(&keys[s[j]], &keys[s[i]]));
        let (a, b) = (s[i], s[j]);
        assert(msgs[a].ts@ != msgs[b].ts@);
        text::lemma_before_total(msgs[a].ts@, msgs[b].ts@);
    }
    assert forall|k: Seq<char>, m: FetchedMsg| #[trigger] rows.contains((k, m)) <==> by_time(
        msgs,
    ).dom().contains(k) && by_time(msgs)[k] == m by {
        lemma_by_time(msgs, k, m);
        if rows.contains((k, m)) {
            let i = choose|i: int| 0 <= i < rows.len() && rows[i] == (k, m);
            assert(msgs[s[i]] == m);
        }
        if msgs.contains(m) && m.ts@ == k {
            let x = choose|x: int| 0 <= x < msgs.len() && msgs[x] == m;
            assert(s.contains(x));
            let i = choose|i: int| 0 <= i < s.len() && s[i] == x;
            assert(rows[i] == (k, m));
        }
    }
}

/// Messages of distinct times are shown alike in whatever order they were given.
pub proof fn law_shown_order_is_one(a: Seq<FetchedMsg>, b: Seq<FetchedMsg>)
    requires
        at_distinct_times(a),
        at_distinct_times(b),
        forall|m: FetchedMsg| #[trigger] a.contains(m) <==> b.contains(m),
    ensures
        text::joined(FetchedMsg::oldest_first(a).map_values(|i: int| a[i].line()), "\n"@)
            == text::joined(
            FetchedMsg::oldest_first(b).map_values(|i: int| b[i].line()),
            "\n"@,
        ),
{
    lemma_timed_rows(a);
    lemma_timed_rows(b);
    assert(by_time(a) =~= by_time(b)) by {
        assert forall|k: Seq<char>| #[trigger] by_time(a).dom().contains(k) == by_time(
            b,
        ).dom().contains(k) && (by_time(a).dom().contains(k) ==> by_time(a)[k] == by_time(b)[k]) by {
            lemma_by_time(a, k, by_time(a)[k]);
            lemma_by_time(b, k, by_time(a)[k]);
            lemma_by_time(a, k, by_time(b)[k]);
            lemma_by_time(b, k, by_time(b)[k]);
        }
    }
    table::lemma_one_listing(timed_rows(a), timed_rows(b), by_time(a));
    let (x, y) = (timed_rows(a), timed_rows(b));
    let la = FetchedMsg::oldest_first(a).map_values(|i: int| a[i].line());
    let lb = FetchedMsg::oldest_first(b).map_values(|i: int| b[i].line());
    assert(la =~= x.map_values(|r: (Seq<char>, FetchedMsg)| r.1.line()));
    assert(lb =~= y.map_values(|r: (Seq<char>, FetchedMsg)| r.1.line()));
}

/// Every message is shown once, each on its line, by time; messages of one time keep their order.
pub proof fn law_every_message_is_shown(msgs: Seq<FetchedMsg>)
    ensures
        order::in_order(
            msgs.map_values(|m: FetchedMsg| m.ts),
            FetchedMsg::oldest_first(msgs),
            msgs.len() as int,
        ),
{
    let keys = msgs.map_values(|m: FetchedMsg| m.ts);
    order::law_sorted_order(keys, keys.len());
}

/// The key of a thread: `{channel}:{thread_ts}`.
#[derive(Debug, PartialEq, Eq, Hash, PartialOrd, Ord)]
pub struct ThreadKey {
    raw: String,
}

impl Clone for ThreadKey {
    fn clone(&self) -> (r: Self)
        ensures
            r == *self,
            r@ == self@,
    {
        ThreadKey { raw: self.raw.clone() }
    }
}

impl View for ThreadKey {
    type V = Seq<char>;

    closed spec fn view(&self) -> Seq<char> {
        self.raw@
    }
}

/// The key of the thread `thread_ts` in `channel`.
pub open spec fn key_of(channel: Seq<char>, thread_ts: Seq<char>) -> Seq<char> {
    channel + ":"@ + thread_ts
}

/// A key's channel and, where there is one, its thread.
pub open spec fn key_parts(key: Seq<char>) -> (Seq<char>, Option<Seq<char>>) {
    match text::split_first(key, ':') {
        Some((ch, ts)) => (ch, Some(ts)),
        None => (key, None),
    }
}

impl ThreadKey {
    /// The key of the thread `thread_ts` in `channel`.
    pub fn new(channel: &str, thread_ts: &str) -> (k: Self)
        ensures
            k@ == key_of(channel@, thread_ts@),
    {
        let mut raw: String = channel.to_owned();
        raw.append(":");
        raw.append(thread_ts);
        ThreadKey { raw }
    }

    /// A key from what was written down earlier.
    pub fn parse(raw: &str) -> (k: Self)
        ensures
            k@ == raw@,
    {
        ThreadKey { raw: raw.to_owned() }
    }

    /// Splits at the first `:`. Without one it is a channel-only key.
    pub fn split(&self) -> (r: (String, Option<String>))
        ensures
            (r.0@, text::opt_view(r.1)) == key_parts(self@),
    {
        match text::cut_first(self.raw.as_str(), ':') {
            Some((ch, ts)) => (ch, Some(ts)),
            None => (self.raw.clone(), None),
        }
    }

    /// The key as text.
    pub fn as_str(&self) -> (s: &str)
        ensures
            s@ == self@,
    {
        self.raw.as_str()
    }

    /// Whether two keys name the same thread.
    pub fn same(&self, other: &ThreadKey) -> (r: bool)
        ensures
            r == (self@ == other@),
    {
        text::same(self.raw.as_str(), other.raw.as_str())
    }
}

/// Splitting a key gives back the channel and the thread it was made of, as channel names hold no
/// `:`.
pub proof fn law_key_round_trip(channel: Seq<char>, thread_ts: Seq<char>)
    requires
        !channel.contains(':'),
    ensures
        key_parts(key_of(channel, thread_ts)) == (channel, Some(thread_ts)),
{
    reveal_strlit(":");
    let key = key_of(channel, thread_ts);
    let n = channel.len() as int;
    text::lemma_index_of(key, ':');
    assert(key[n] == ':');
    let i = text::index_of(key, ':');
    if i < n {
        assert(key[i] == channel[i]);
        assert(channel.contains(channel[i]));
    }
    assert(i == n);
    assert(key.take(n) =~= channel);
    assert(key.skip(n + 1) =~= thread_ts);
}

} // verus!
