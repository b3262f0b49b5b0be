//! Decisions the bridge makes from what it knows.
use super::pool_key::gap;
use crate::i18n::Lang;
use crate::text;
use vstd::prelude::*;

verus! {

/// Where the notice of a start or a stop goes.
#[derive(Debug, PartialEq, Eq)]
pub enum NoticeTarget {
    Home(String),
    OwnerDm(String),
    None_,
}

impl NoticeTarget {
    /// To the home channel; without one to the owner; without an owner to nobody.
    pub fn of(home_channel: Option<&str>, owner: &str) -> (t: NoticeTarget)
        ensures
            match t {
                NoticeTarget::Home(c) => home_channel matches Some(h) && c@ == h@,
                NoticeTarget::OwnerDm(o) => home_channel is None && owner@.len() > 0 && o@ == owner@,
                NoticeTarget::None_ => home_channel is None && owner@.len() == 0,
            },
    {
        match home_channel {
            Some(ch) => NoticeTarget::Home(ch.to_owned()),
            None => if !owner.is_empty() {
                NoticeTarget::OwnerDm(owner.to_owned())
            } else {
                NoticeTarget::None_
            },
        }
    }
}

/// What is known of the agent that waits in one directory.
#[derive(Clone, Copy, Debug, PartialEq, Eq, Structural)]
pub struct PoolStatus {
    pub present: bool,
    pub gave_up: bool,
}

/// Whether a pool lacks an agent that could be started.
pub open spec fn lacks_agent(this: Option<PoolStatus>) -> bool {
    match this {
        None => true,
        Some(s) => !s.present && !s.gave_up,
    }
}

impl PoolStatus {
    /// Whether an agent is to be started: where none is, unless it was given up on.
    pub fn needs_launch(this: Option<PoolStatus>) -> (r: bool)
        ensures
            r == lacks_agent(this),
    {
        match this {
            None => true,
            Some(s) => !s.present && !s.gave_up,
        }
    }

    /// Whether an agent that starts has taken too long.
    pub fn should_give_up(spawned_at_ms: u64, now_ms: u64, timeout_ms: u64) -> (r: bool)
        ensures
            r == (gap(now_ms, spawned_at_ms) > timeout_ms),
            r == (now_ms > spawned_at_ms + timeout_ms),
    {
        now_ms > spawned_at_ms && now_ms - spawned_at_ms > timeout_ms
    }
}

/// What becomes, at the start, of an agent that was named for a directory.
#[derive(Clone, Copy, Debug, PartialEq, Eq, Structural)]
pub enum PoolRestore {
    /// It is alive: it is taken over.
    Adopt,
    /// It is gone: its session is taken up again.
    Respawn,
    /// No agent is to wait in its directory: it is shut down.
    Discard,
}

impl PoolRestore {
    pub fn decide(configured: bool, alive: bool) -> (r: Self)
        ensures
            r == restored(configured, alive),
    {
        if !configured {
            PoolRestore::Discard
        } else if alive {
            PoolRestore::Adopt
        } else {
            PoolRestore::Respawn
        }
    }
}

// ── names and paths ─────────────────────────────────────────────────────────

pub open spec fn is_ascii_alphanumeric(c: char) -> bool {
    text::is_ascii_digit(c) || ('a' <= c && c <= 'z') || ('A' <= c && c <= 'Z')
}

/// A letter or a digit, then letters, digits and `_.-`.
pub open spec fn names_machine(s: Seq<char>) -> bool {
    s.len() > 0 && is_ascii_alphanumeric(s[0]) && forall|i: int|
        0 < i < s.len() ==> is_ascii_alphanumeric(#[trigger] s[i]) || s[i] == '_' || s[i] == '.'
            || s[i] == '-'
}

fn alphanumeric(c: char) -> (r: bool)
    ensures
        r == is_ascii_alphanumeric(c),
{
    ('0' <= c && c <= '9') || ('a' <= c && c <= 'z') || ('A' <= c && c <= 'Z')
}

/// Whether a text can name a machine.
pub fn is_machine_name(s: &str) -> (r: bool)
    ensures
        r == names_machine(s@),
{
    let cs: Vec<char> = text::chars_of(s);
    if cs.len() == 0 || !alphanumeric(cs[0]) {
        return false;
    }
    let mut i: usize = 1;
    while i < cs.len()
        invariant
            1 <= i <= cs@.len(),
            cs@ == s@,
            forall|k: int|
                0 < k < i ==> is_ascii_alphanumeric(#[trigger] s@[k]) || s@[k] == '_' || s@[k]
                    == '.' || s@[k] == '-',
        decreases cs@.len() - i,
    {
        let c: char = cs[i];
        if !(alphanumeric(c) || c == '_' || c == '.' || c == '-') {
            return false;
        }
        i = i + 1;
    }
    true
}

/// A path without slashes at its end.
pub open spec fn no_slash_end(s: Seq<char>) -> Seq<char>
    decreases s.len(),
{
    if s.len() > 0 && s.last() == '/' {
        no_slash_end(s.drop_last())
    } else {
        s
    }
}

/// A typed path as an absolute one, as it stands.
pub open spec fn rooted(typed: Seq<char>, home: Seq<char>) -> Seq<char> {
    if typed.len() > 0 && typed[0] == '~' && (typed.len() == 1 || typed[1] == '/') {
        home + typed.skip(1)
    } else if typed.len() > 0 && typed[0] == '/' {
        typed
    } else {
        home + "/"@ + match text::after_prefix(typed, "./"@) {
            Some(rest) => rest,
            None => typed,
        }
    }
}

/// The absolute path for a typed one: `~` and relative paths are under `home`, and no slash stands
/// at the end.
pub open spec fn project_path(typed: Seq<char>, home: Seq<char>) -> Seq<char> {
    let p = no_slash_end(rooted(typed, no_slash_end(home)));
    if p.len() == 0 {
        "/"@
    } else {
        p
    }
}

fn drop_slashes(s: &str) -> (out: String)
    ensures
        out@ == no_slash_end(s@),
{
    let cs: Vec<char> = text::chars_of(s);
    let mut n: usize = cs.len();
    proof {
        assert(s@.take(n as int) =~= s@);
    }
    while n > 0 && cs[n - 1] == '/'
        invariant
            n <= cs@.len(),
            cs@ == s@,
            no_slash_end(s@) == no_slash_end(s@.take(n as int)),
        decreases n,
    {
        proof {
            assert(s@.take(n as int).drop_last() =~= s@.take(n - 1));
        }
        n = n - 1;
    }
    proof {
        assert(s@.take(n as int) =~= s@.subrange(0, n as int));
    }
    text::text_of(&cs, 0, n)
}

/// The absolute path for a typed one. No shell reads it, so `~` and `./` are resolved here.
pub fn absolute_project_path(typed: &str, home: &str) -> (out: String)
    ensures
        out@ == project_path(typed@, home@),
{
    let home: String = drop_slashes(home);
    let cs: Vec<char> = text::chars_of(typed);
    let abs: String = if cs.len() > 0 && cs[0] == '~' && (cs.len() == 1 || cs[1] == '/') {
        let rest: String = text::text_of(&cs, 1, cs.len());
        proof {
            assert(typed@.skip(1) =~= typed@.subrange(1, typed@.len() as int));
        }
        text::cat(home.as_str(), rest.as_str())
    } else if cs.len() > 0 && cs[0] == '/' {
        typed.to_owned()
    } else {
        match text::strip_prefix(typed, "./") {
            Some(rest) => text::cat3(home.as_str(), "/", rest.as_str()),
            None => text::cat3(home.as_str(), "/", typed),
        }
    };
    let p: String = drop_slashes(abs.as_str());
    if p.as_str().is_empty() {
        "/".to_owned()
    } else {
        p
    }
}

/// What is said where a project's folder is not there.
pub open spec fn folder_missing(path: Seq<char>, machine: Seq<char>, lang: Lang) -> Seq<char> {
    match lang {
        Lang::En => "There's no folder `"@ + path + "` on *"@ + machine
            + "*. Nothing was changed."@,
        Lang::Ja => "*"@ + machine + "* に `"@ + path
            + "` というフォルダがありません。何も変えていません。"@,
    }
}

/// What is said where a project's folder is not there.
pub fn no_such_folder(path: &str, machine: &str, lang: Lang) -> (out: String)
    ensures
        out@ == folder_missing(path@, machine@, lang),
{
    match lang {
        Lang::En => text::cat5(
            "There's no folder `",
            path,
            "` on *",
            machine,
            "*. Nothing was changed.",
        ),
        Lang::Ja => text::cat5(
            "*",
            machine,
            "* に `",
            path,
            "` というフォルダがありません。何も変えていません。",
        ),
    }
}

/// A project's path is absolute where home is, and ends in a slash only where it is the root.
pub proof fn law_project_path(typed: Seq<char>, home: Seq<char>)
    requires
        home.len() > 0 && home[0] == '/',
    ensures
        project_path(typed, home).len() > 0,
        project_path(typed, home)[0] == '/',
        project_path(typed, home).len() > 1 ==> project_path(typed, home).last() != '/',
{
    reveal_strlit("/");
    let h = no_slash_end(home);
    lemma_no_slash_end(home);
    let r = rooted(typed, h);
    lemma_no_slash_end(r);
    let p = no_slash_end(r);
    if p.len() > 0 {
        assert(r[0] == '/') by {
            if h.len() > 0 {
                assert(h[0] == home[0]);
                if typed.len() > 0 && typed[0] == '/' {
                } else {
                    assert(r[0] == h[0]);
                }
            } else if typed.len() > 0 && typed[0] == '~' && (typed.len() == 1 || typed[1] == '/') {
                assert(r =~= typed.skip(1));
                assert(typed.len() > 1);
            } else if typed.len() > 0 && typed[0] == '/' {
            } else {
                assert(r[0] == "/"@[0]);
            }
        }
        assert(p[0] == r[0]);
    }
}

proof fn lemma_no_slash_end(s: Seq<char>)
    ensures
        no_slash_end(s).is_prefix_of(s),
        no_slash_end(s).len() > 0 ==> no_slash_end(s).last() != '/',
    decreases s.len(),
{
    if s.len() > 0 && s.last() == '/' {
        lemma_no_slash_end(s.drop_last());
        assert(no_slash_end(s) =~= s.subrange(0, no_slash_end(s).len() as int));
    } else {
        assert(s =~= s.subrange(0, s.len() as int));
    }
}

// ── loops, silence and the end of a turn ────────────────────────────────────

/// How many bot posts in a row pause a thread.
pub const LOOP_LIMIT: u64 = 5;

/// What is done for a thread that is watched for silence.
#[derive(Clone, Copy, Debug, PartialEq, Eq, Structural)]
pub enum StallAction {
    Nothing,
    /// Show that the agent thinks.
    Fire,
    /// Stop watching, and clear what is shown.
    Settle,
}

impl StallAction {
    /// It is silent for long enough, something waits for an answer, and nothing is shown yet.
    pub open spec fn is_due(
        last_activity_ms: u64,
        now_ms: u64,
        shown: bool,
        has_pending: bool,
        silence_ms: u64,
    ) -> bool {
        !shown && has_pending && gap(now_ms, last_activity_ms) >= silence_ms
    }

    /// What is done: a thread without anything that waits for an answer is settled, whatever else
    /// holds.
    pub fn of(
        has_pending: bool,
        last_activity_ms: u64,
        now_ms: u64,
        shown: bool,
        silence_ms: u64,
    ) -> (a: StallAction)
        ensures
            a == stall_action(has_pending, last_activity_ms, now_ms, shown, silence_ms),
    {
        if !has_pending {
            return StallAction::Settle;
        }
        if Self::due(last_activity_ms, now_ms, shown, true, silence_ms) {
            return StallAction::Fire;
        }
        StallAction::Nothing
    }

    /// Whether it is to be shown that the agent thinks; never twice.
    pub fn due(
        last_activity_ms: u64,
        now_ms: u64,
        shown: bool,
        has_pending: bool,
        silence_ms: u64,
    ) -> (r: bool)
        ensures
            r == Self::is_due(last_activity_ms, now_ms, shown, has_pending, silence_ms),
    {
        let silent: u64 = if now_ms >= last_activity_ms {
            now_ms - last_activity_ms
        } else {
            0
        };
        !shown && has_pending && silent >= silence_ms
    }
}

/// The news that an agent answered: `kind` is `reply`, `react`, `no_reply` or `edit`.
#[derive(Debug)]
pub struct Disposition {
    pub kind: &'static str,
    pub channel_id: String,
    pub thread_ts: Option<String>,
    pub message_ids: Vec<String>,
    pub session_id: String,
}

/// What an agent is told that ends its turn without an answer.
pub const STOP_BLOCK_REASON: &'static str =
    "You ended your turn without delivering. Your prose streams to Slack live, but it is not the delivered answer — dispose the received message with `reply` (answer), `react` (emoji ack), or `no_reply` (nothing). A reply is your answer, not an outward action: do NOT ask whether to send it. Call reply/react/no_reply (with the message_id) now.";

/// The answer to an agent that may not end its turn.
#[derive(Debug, PartialEq, Eq)]
pub struct BlockOutput {
    pub decision: &'static str,
    pub reason: String,
}

impl Disposition {
    /// Whether an agent is kept from ending its turn: where its thread is known, its tools are there,
    /// it was not kept before, and something waits for an answer.
    pub fn should_block_stop(
        thread_resolved: bool,
        stop_hook_active: bool,
        mcp_ready: bool,
        pending: usize,
    ) -> (r: bool)
        ensures
            r == blocks_stop(thread_resolved, stop_hook_active, mcp_ready, pending as nat),
    {
        thread_resolved && mcp_ready && !stop_hook_active && pending > 0
    }

    /// The answer to an agent that may not end its turn. It names what waits for an answer, so that
    /// the agent need not guess.
    pub fn block_output(pending: &[String]) -> (out: BlockOutput)
        ensures
            out.decision@ == "block"@,
            out.reason@ == STOP_BLOCK_REASON@ + " Outstanding message_ids: ["@ + text::joined(
                text::views(pending@),
                ", "@,
            ) + "]"@,
    {
        let ids: String = text::join(pending, ", ");
        BlockOutput {
            decision: "block",
            reason: text::cat4(
                STOP_BLOCK_REASON,
                " Outstanding message_ids: [",
                ids.as_str(),
                "]",
            ),
        }
    }
}

/// A thread in which nothing waits for an answer is settled, however silent it is and whatever is
/// shown.
pub proof fn law_settled_wins(last_activity_ms: u64, now_ms: u64, shown: bool, silence_ms: u64)
    ensures
        !StallAction::is_due(last_activity_ms, now_ms, shown, false, silence_ms),
        !StallAction::is_due(last_activity_ms, now_ms, true, true, silence_ms),
{
}

/// What becomes of an agent that a pool had before the bridge was started anew.
pub open spec fn restored(configured: bool, alive: bool) -> PoolRestore {
    if !configured {
        PoolRestore::Discard
    } else if alive {
        PoolRestore::Adopt
    } else {
        PoolRestore::Respawn
    }
}

/// What the watch for silence does.
pub open spec fn stall_action(
    has_pending: bool,
    last_activity_ms: u64,
    now_ms: u64,
    shown: bool,
    silence_ms: u64,
) -> StallAction {
    if !has_pending {
        StallAction::Settle
    } else if StallAction::is_due(last_activity_ms, now_ms, shown, true, silence_ms) {
        StallAction::Fire
    } else {
        StallAction::Nothing
    }
}

/// Whether an agent is kept from ending its turn.
pub open spec fn blocks_stop(
    thread_resolved: bool,
    stop_hook_active: bool,
    mcp_ready: bool,
    pending: nat,
) -> bool {
    thread_resolved && mcp_ready && !stop_hook_active && pending > 0
}

/// An agent is started where the pool has none: never where one is there, and never again where it was
/// given up on.
pub proof fn law_pool_lacks(this: Option<PoolStatus>)
    ensures
        this is None ==> lacks_agent(this),
        this is Some && this->0.present ==> !lacks_agent(this),
        this is Some && this->0.gave_up ==> !lacks_agent(this),
        this is Some && !this->0.present && !this->0.gave_up ==> lacks_agent(this),
{
}

/// An agent of a pool that is no longer set up goes; of one that is, it is taken over where it lives,
/// and started anew where it does not.
pub proof fn law_restored(configured: bool, alive: bool)
    ensures
        restored(configured, alive) == PoolRestore::Discard <==> !configured,
        restored(configured, alive) == PoolRestore::Adopt <==> configured && alive,
        restored(configured, alive) == PoolRestore::Respawn <==> configured && !alive,
{
}

/// The watch ends where nothing is owed. Else it shows that the agent thinks, once, when the silence has
/// lasted as long as is set; a clock that went back is no silence.
pub proof fn law_stall_action(
    has_pending: bool,
    last_activity_ms: u64,
    now_ms: u64,
    shown: bool,
    silence_ms: u64,
)
    ensures
        ({
            let a = stall_action(has_pending, last_activity_ms, now_ms, shown, silence_ms);
            &&& a == StallAction::Settle <==> !has_pending
            &&& silence_ms > 0 ==> (a == StallAction::Fire <==> has_pending && !shown && now_ms
                >= last_activity_ms + silence_ms)
            &&& silence_ms == 0 ==> (a == StallAction::Fire <==> has_pending && !shown)
        }),
{
}

/// An agent is kept from ending where an answer is owed in its thread: it has its tools, and was not kept
/// already.
pub proof fn law_blocks_stop(
    thread_resolved: bool,
    stop_hook_active: bool,
    mcp_ready: bool,
    pending: nat,
)
    ensures
        pending >= 1 && thread_resolved && mcp_ready && !stop_hook_active ==> blocks_stop(
            thread_resolved,
            stop_hook_active,
            mcp_ready,
            pending,
        ),
        blocks_stop(thread_resolved, stop_hook_active, mcp_ready, pending) ==> pending != 0
            && thread_resolved && mcp_ready && !stop_hook_active,
{
}

/// A path that is typed whole is taken as it is, but for slashes at its end; one that begins in the home
/// folder, or begins nowhere, lies under the home folder.
pub proof fn law_typed_paths(rest: Seq<char>, home: Seq<char>)
    requires
        rest.len() > 0,
        rest.last() != '/',
        home.len() > 0,
        home.last() != '/',
    ensures
        project_path("/"@ + rest, home) == "/"@ + rest,
        project_path("~/"@ + rest, home) == home + "/"@ + rest,
        project_path("./"@ + rest, home) == home + "/"@ + rest,
        rest[0] != '~' && rest[0] != '/' && rest[0] != '.' ==> project_path(rest, home) == home
            + "/"@ + rest,
        project_path("~"@, home) == home,
{
    reveal_strlit("/");
    reveal_strlit("~/");
    reveal_strlit("./");
    reveal_strlit("~");
    assert("/"@.len() == 1 && "/"@[0] == '/');
    assert("~/"@.len() == 2 && "~/"@[0] == '~' && "~/"@[1] == '/');
    assert("./"@.len() == 2 && "./"@[0] == '.' && "./"@[1] == '/');
    assert("~"@.len() == 1 && "~"@[0] == '~');
    lemma_no_slash_end(home);
    assert(no_slash_end(home) == home);
    let under = home + "/"@ + rest;
    assert(under.last() == rest.last());
    lemma_no_slash_end(under);
    let a = "/"@ + rest;
    assert(a.last() == rest.last());
    lemma_no_slash_end(a);
    let b = "~/"@ + rest;
    assert(b[0] == '~' && b[1] == '/');
    assert(home + b.skip(1) =~= under);
    let c = "./"@ + rest;
    assert(c[0] == '.');
    assert(c.subrange(0, 2) =~= "./"@);
    assert(c.skip(2) =~= rest);
    assert(rooted(c, home) == under);
    if rest[0] != '~' && rest[0] != '/' && rest[0] != '.' {
        if "./"@.is_prefix_of(rest) {
            assert(rest.subrange(0, 2)[0] == '.');
        }
        assert(rooted(rest, home) == under);
    }
    assert(home + "~"@.skip(1) =~= home);
    assert(rooted("~"@, home) =~= home);
}

/// A machine is named by a letter or digit first, and behind it letters, digits, dots, dashes and
/// underscores; what can stand at its end can be put behind it.
pub proof fn law_machine_names(s: Seq<char>, c: char)
    ensures
        s.len() == 0 ==> !names_machine(s),
        s.len() == 1 ==> (names_machine(s) <==> '0' <= s[0] <= '9' || 'a' <= s[0] <= 'z' || 'A'
            <= s[0] <= 'Z'),
        s.len() > 0 ==> (names_machine(s.push(c)) <==> names_machine(s) && ('0' <= c <= '9' || 'a'
            <= c <= 'z' || 'A' <= c <= 'Z' || c == '_' || c == '.' || c == '-')),
{
    if s.len() > 0 {
        let t = s.push(c);
        assert(t[0] == s[0]);
        if names_machine(t) {
            assert(t[s.len() as int] == c);
            assert forall|i: int| 0 < i < s.len() implies is_ascii_alphanumeric(#[trigger] s[i])
                || s[i] == '_' || s[i] == '.' || s[i] == '-' by {
                assert(t[i] == s[i]);
            }
        }
        if names_machine(s) {
            assert forall|i: int| 0 < i < s.len() implies is_ascii_alphanumeric(#[trigger] t[i])
                || t[i] == '_' || t[i] == '.' || t[i] == '-' by {
                assert(t[i] == s[i]);
            }
        }
    }
}

} // verus!
