//! The events of an agent's tools, as rows of its progress message.
use crate::chat::slack::diff;
use crate::chat::slack::input::{or_empty, ToolInput};
use crate::chat::slack::rows::{self, AgentRef, AgentView, RowView, ToolStatus};
use crate::chat::slack::sticky::StickyBoard;
use crate::chat::ThreadKey;
use crate::json;
use crate::text;
use vstd::prelude::*;

verus! {

/// What an event of a tool says.
pub struct ProgressFacts {
    pub event: String,
    pub name: String,
    pub is_error: bool,
    /// What the tool answered, as text.
    pub result_text: String,
    pub tool_use_id: String,
    /// The subagent that called the tool, and its name.
    pub agent_id: Option<String>,
    pub agent_type: Option<String>,
    /// The subagent that the answer names.
    pub answered_id: Option<String>,
    /// The name a subagent was launched with.
    pub launched_name: Option<String>,
    pub input: ToolInput,
}

/// One event, as it becomes a row.
pub struct Progress {
    pub id: String,
    pub name: String,
    pub summary: String,
    pub status: ToolStatus,
    pub agent: AgentRef,
    pub input: ToolInput,
}

/// The first of two texts that is there.
pub open spec fn or_else(a: Option<Seq<char>>, b: Option<Seq<char>>) -> Option<Seq<char>> {
    if a is Some {
        a
    } else {
        b
    }
}

/// What a tool answered: its text or, where it is no text, its JSON.
pub open spec fn answer_in(payload: Seq<char>) -> Seq<char> {
    match json::json_text(payload, "/tool_response/content"@) {
        Some(t) => t,
        None => match json::json_value(payload, "/tool_response/content"@) {
            Some(v) => v,
            None => "null"@,
        },
    }
}

/// Whether a tool's answer is an error.
pub open spec fn is_error_in(payload: Seq<char>) -> bool {
    json::json_bool(payload, "/tool_response/is_error"@) == Some(true)
}

/// The subagent that a tool's answer names, in one spelling or the other.
pub open spec fn answered_in(payload: Seq<char>) -> Option<Seq<char>> {
    or_else(
        json::json_text(payload, "/tool_response/agentId"@),
        json::json_text(payload, "/tool_response/agent_id"@),
    )
}

/// The facts are those that stand in a hook's payload.
pub open spec fn are_facts(f: ProgressFacts, payload: Seq<char>) -> bool {
    &&& f.event@ == or_empty(json::json_text(payload, "/hook_event_name"@))
    &&& f.name@ == or_empty(json::json_text(payload, "/tool_name"@))
    &&& f.is_error == is_error_in(payload)
    &&& f.result_text@ == answer_in(payload)
    &&& f.tool_use_id@ == or_empty(json::json_text(payload, "/tool_use_id"@))
    &&& text::opt_view(f.agent_id) == json::json_text(payload, "/agent_id"@)
    &&& text::opt_view(f.agent_type) == json::json_text(payload, "/agent_type"@)
    &&& text::opt_view(f.answered_id) == answered_in(payload)
    &&& text::opt_view(f.launched_name) == json::json_text(payload, "/tool_input/name"@)
    &&& f.input.is_read(payload, "/tool_input"@)
}

/// What an event of a tool says, from its hook's payload.
pub fn facts_of(payload: &str) -> (f: ProgressFacts)
    ensures
        are_facts(f, payload@),
{
    let result_text: String = match json::text_at(payload, "/tool_response/content") {
        Some(t) => t,
        None => match json::value_at(payload, "/tool_response/content") {
            Some(v) => v,
            None => "null".to_owned(),
        },
    };
    let is_error: bool = json::is_true(payload, "/tool_response/is_error");
    let answered_id: Option<String> = match json::text_at(payload, "/tool_response/agentId") {
        Some(t) => Some(t),
        None => json::text_at(payload, "/tool_response/agent_id"),
    };
    ProgressFacts {
        event: json::text_or_empty(payload, "/hook_event_name"),
        name: json::text_or_empty(payload, "/tool_name"),
        is_error,
        result_text,
        tool_use_id: json::text_or_empty(payload, "/tool_use_id"),
        agent_id: json::text_at(payload, "/agent_id"),
        agent_type: json::text_at(payload, "/agent_type"),
        answered_id,
        launched_name: json::text_at(payload, "/tool_input/name"),
        input: ToolInput::from_json(payload, "/tool_input"),
    }
}

/// The letters, numbers and `_` at the front of a text.
pub open spec fn word_at_front(s: Seq<char>) -> Seq<char>
    decreases s.len(),
{
    if s.len() > 0 && (text::is_alphanumeric(s[0]) || s[0] == '_') {
        seq![s[0]] + word_at_front(s.drop_first())
    } else {
        Seq::empty()
    }
}

/// What stands behind the first place of `p`.
pub open spec fn behind(s: Seq<char>, p: Seq<char>) -> Option<Seq<char>> {
    match crate::bridge::state::ledger::first_at(s, p, 0) {
        Some(i) => Some(s.skip(i + p.len())),
        None => None,
    }
}

/// The id of a subagent that a text names: the word behind `agentId:`.
pub open spec fn named_agent(s: Seq<char>) -> Option<Seq<char>> {
    match behind(s, "agentId:"@) {
        Some(rest) => {
            let id = word_at_front(text::trimmed_start(rest));
            if id.len() > 0 {
                Some(id)
            } else {
                None
            }
        },
        None => None,
    }
}

proof fn lemma_word(s: Seq<char>, n: int)
    requires
        0 <= n <= s.len(),
        forall|i: int| 0 <= i < n ==> text::is_alphanumeric(#[trigger] s[i]) || s[i] == '_',
        n < s.len() ==> !(text::is_alphanumeric(s[n]) || s[n] == '_'),
    ensures
        word_at_front(s) == s.take(n),
    decreases s.len(),
{
    if n == 0 {
        assert(s.take(0) =~= Seq::empty());
    } else {
        let t = s.drop_first();
        assert forall|i: int| 0 <= i < n - 1 implies text::is_alphanumeric(#[trigger] t[i]) || t[i]
            == '_' by {
            assert(t[i] == s[i + 1]);
        }
        if n < s.len() {
            assert(t[n - 1] == s[n]);
        }
        lemma_word(t, n - 1);
        assert(seq![s[0]] + t.take(n - 1) =~= s.take(n));
    }
}

/// The id of a subagent that a result's text names.
pub fn agent_id_in_text(result_text: &str) -> (r: Option<String>)
    ensures
        text::opt_view(r) == named_agent(result_text@),
{
    let s: Vec<char> = text::chars_of(result_text);
    let p: Vec<char> = text::chars_of("agentId:");
    let n: usize = s.len();
    proof {
        crate::bridge::state::ledger::lemma_first_at(s@, p@, 0);
    }
    let at: usize = match text::find_from(&s, &p, 0) {
        Some(i) => i,
        None => return None,
    };
    proof {
        assert(text::stands_at(s@, p@, at as int));
    }
    let rest: String = text::text_of(&s, at + p.len(), n);
    proof {
        assert(s@.skip(at + p@.len()) =~= s@.subrange(at + p@.len() as int, s@.len() as int));
    }
    let bare: String = text::trim_start(rest.as_str());
    let cs: Vec<char> = text::chars_of(bare.as_str());
    let mut k: usize = 0;
    while k < cs.len() && (cs[k].is_alphanumeric() || cs[k] == '_')
        invariant
            k <= cs@.len(),
            forall|i: int| 0 <= i < k ==> text::is_alphanumeric(#[trigger] cs@[i]) || cs@[i] == '_',
        decreases cs@.len() - k,
    {
        k = k + 1;
    }
    proof {
        lemma_word(cs@, k as int);
        assert(cs@.take(k as int) =~= cs@.subrange(0, k as int));
    }
    if k == 0 {
        None
    } else {
        Some(text::text_of(&cs, 0, k))
    }
}

/// The subagent that an event started: only the end of a call that starts one says it, in its answer
/// or in the answer's text.
pub open spec fn started_by(f: ProgressFacts) -> Option<Seq<char>> {
    if (f.name@ == "Agent"@ || f.name@ == "Task"@) && f.event@ == "PostToolUse"@ {
        or_else(text::opt_view(f.answered_id), named_agent(f.result_text@))
    } else {
        None
    }
}

/// The id of a row: the call's or, without one, its name and summary.
pub open spec fn row_id(f: ProgressFacts) -> Seq<char> {
    if f.tool_use_id@.len() == 0 {
        f.name@ + ":"@ + rows::summary_of(f.name@, &f.input)
    } else {
        f.tool_use_id@
    }
}

/// The event is the one that the facts say, with the answer's text in small letters.
pub open spec fn is_progress(p: Progress, f: ProgressFacts, lowered: Seq<char>) -> bool {
    &&& p.id@ == row_id(f)
    &&& p.name@ == f.name@
    &&& p.summary@ == rows::summary_of(f.name@, &f.input)
    &&& p.status == ToolStatus::after(f.event@, f.is_error, lowered)
    &&& p.agent@ == AgentView {
        agent_id: text::opt_view(f.agent_id),
        agent_type: text::opt_view(f.agent_type),
        spawned_agent_id: started_by(f),
        launched_name: text::opt_view(f.launched_name),
    }
    &&& p.input == f.input
}

/// One event as it becomes a row; none where the tool has no name yet. `lowered` is the answer's text
/// in small letters.
pub fn progress_from(f: ProgressFacts, lowered: &str) -> (r: Option<Progress>)
    ensures
        match r {
            Some(p) => f.name@.len() > 0 && is_progress(p, f, lowered@),
            None => f.name@.len() == 0,
        },
{
    if f.name.as_str().is_empty() {
        return None;
    }
    let summary: String = rows::summarize(f.name.as_str(), &f.input);
    let status: ToolStatus = ToolStatus::of_lowered(f.event.as_str(), f.is_error, lowered);
    let id: String = if f.tool_use_id.as_str().is_empty() {
        text::cat3(f.name.as_str(), ":", summary.as_str())
    } else {
        f.tool_use_id.clone()
    };
    let starts: bool = (text::same(f.name.as_str(), "Agent") || text::same(
        f.name.as_str(),
        "Task",
    )) && text::same(f.event.as_str(), "PostToolUse");
    let spawned_agent_id: Option<String> = if starts {
        match &f.answered_id {
            Some(s) => Some(s.clone()),
            None => agent_id_in_text(f.result_text.as_str()),
        }
    } else {
        None
    };
    let agent: AgentRef = AgentRef {
        agent_id: f.agent_id.clone(),
        agent_type: f.agent_type.clone(),
        spawned_agent_id,
        launched_name: f.launched_name.clone(),
    };
    Some(Progress { id, name: f.name.clone(), summary, status, agent, input: f.input })
}

/// The row that an event becomes.
pub open spec fn row_of(p: Progress) -> RowView {
    RowView::Tool {
        id: p.id@,
        name: p.name@,
        summary: p.summary@,
        status: p.status,
        agent: p.agent@,
        diff: if p.status == ToolStatus::Done && rows::is_edit_name(p.name@) {
            diff::diff_text(diff::hunks_of(p.name@, &p.input))
        } else {
            None
        },
    }
}

/// The facts of a payload, as an event.
pub open spec fn is_event_of(p: Progress, payload: Seq<char>) -> bool {
    exists|f: ProgressFacts| #[trigger]
        are_facts(f, payload) && is_progress(p, f, text::lowercase(answer_in(payload)))
}

/// Takes an event of a tool into the progress message of its thread. One without a thread, or of a
/// tool without a name, is no row. Returns the event.
pub fn on_progress(board: &mut StickyBoard, key: Option<&ThreadKey>, payload: &str) -> (r: Option<
    Progress,
>)
    ensures
        match r {
            Some(p) => key matches Some(k) && is_event_of(p, payload@) && final(board)@ == old(
                board,
            )@.with_tool(k@, row_of(p)),
            None => (key is None || or_empty(json::json_text(payload@, "/tool_name"@)).len() == 0)
                && final(board)@ == old(board)@,
        },
        old(board)@.ok() ==> final(board)@.ok(),
{
    let key: &ThreadKey = match key {
        Some(k) => k,
        None => return None,
    };
    let f: ProgressFacts = facts_of(payload);
    let lowered: String = text::to_lowercase(f.result_text.as_str());
    let p: Progress = match progress_from(f, lowered.as_str()) {
        Some(p) => p,
        None => return None,
    };
    proof {
        assert(are_facts(f, payload@) && is_progress(p, f, text::lowercase(answer_in(payload@))));
    }
    board.upsert_tool(
        key,
        p.id.as_str(),
        p.name.as_str(),
        p.summary.as_str(),
        p.status,
        &p.agent,
        &p.input,
    );
    Some(p)
}

/// Only the end of a call that starts a subagent names the one it started.
pub proof fn law_only_a_launch_names(f: ProgressFacts)
    requires
        f.event@ != "PostToolUse"@ || (f.name@ != "Agent"@ && f.name@ != "Task"@),
    ensures
        started_by(f) is None,
{
}

/// A call is known by its own id; a call that has none by its name and what it does.
pub proof fn law_row_id(f: ProgressFacts)
    ensures
        f.tool_use_id@.len() > 0 ==> row_id(f) == f.tool_use_id@,
        f.tool_use_id@.len() == 0 ==> row_id(f) == f.name@ + ":"@ + rows::summary_of(
            f.name@,
            &f.input,
        ),
{
}

/// A helper that was started is the one that the answer names; where it names none, the one that its
/// words name.
pub proof fn law_started_helper(f: ProgressFacts)
    requires
        f.event@ == "PostToolUse"@,
        f.name@ == "Agent"@ || f.name@ == "Task"@,
    ensures
        f.answered_id is Some ==> started_by(f) == Some(f.answered_id->0@),
        f.answered_id is None ==> started_by(f) == named_agent(f.result_text@),
{
}

proof fn lemma_word_at_front(word: Seq<char>, rest: Seq<char>)
    requires
        forall|i: int|
            0 <= i < word.len() ==> text::is_alphanumeric(#[trigger] word[i]) || word[i] == '_',
        rest.len() > 0 ==> !text::is_alphanumeric(rest[0]) && rest[0] != '_',
    ensures
        word_at_front(word + rest) == word,
    decreases word.len(),
{
    let s = word + rest;
    if word.len() > 0 {
        assert(s[0] == word[0]);
        assert(s.drop_first() =~= word.drop_first() + rest);
        assert forall|i: int| 0 <= i < word.drop_first().len() implies text::is_alphanumeric(
            #[trigger] word.drop_first()[i],
        ) || word.drop_first()[i] == '_' by {
            assert(word.drop_first()[i] == word[i + 1]);
        }
        lemma_word_at_front(word.drop_first(), rest);
        assert(seq![word[0]] + word.drop_first() =~= word);
    } else {
        assert(s =~= rest);
        assert(word_at_front(s) =~= word);
    }
}

/// The words name a helper behind the first mark for it: the word there, with or without a blank between.
pub proof fn law_named_helper(before: Seq<char>, word: Seq<char>, rest: Seq<char>)
    requires
        word.len() > 0,
        forall|i: int|
            0 <= i < word.len() ==> text::is_alphanumeric(#[trigger] word[i]) || word[i] == '_',
        !text::is_space(word[0]),
        rest.len() > 0 ==> !text::is_alphanumeric(rest[0]) && rest[0] != '_',
        forall|i: int|
            i < before.len() ==> !text::stands_at(
                before + "agentId:"@ + " "@ + word + rest,
                "agentId:"@,
                i,
            ),
    ensures
        named_agent(before + "agentId:"@ + " "@ + word + rest) == Some(word),
{
    let mark = "agentId:"@;
    let s = before + mark + " "@ + word + rest;
    let at = before.len() as int;
    reveal_strlit(" ");
    assert(" "@.len() == 1 && " "@[0] == ' ');
    assert(s.subrange(at, at + mark.len()) =~= mark);
    assert(text::stands_at(s, mark, at));
    crate::bridge::state::ledger::lemma_first_at(s, mark, 0);
    assert(crate::bridge::state::ledger::first_at(s, mark, 0) == Some(at));
    let tail = s.skip(at + mark.len());
    assert(tail =~= " "@ + word + rest);
    assert(tail[0] == ' ');
    assert(tail.skip(1) =~= word + rest);
    assert((word + rest)[0] == word[0]);
    assert(text::trimmed_start(word + rest) == word + rest);
    assert(text::trimmed_start(tail) == word + rest);
    lemma_word_at_front(word, rest);
}

/// A row shows a difference where the call that edits is done, and only there.
pub proof fn law_differences_show_when_done(p: Progress)
    ensures
        ({
            let row = row_of(p);
            &&& row is Tool
            &&& row->id == p.id@ && row->name == p.name@ && row->summary == p.summary@
            &&& row->status == p.status && row->agent == p.agent@
            &&& p.status != ToolStatus::Done ==> row->diff is None
            &&& p.name@ != "Edit"@ && p.name@ != "MultiEdit"@ && p.name@ != "Write"@
                ==> row->diff is None
            &&& p.status == ToolStatus::Done && (p.name@ == "Edit"@ || p.name@ == "MultiEdit"@
                || p.name@ == "Write"@) ==> row->diff == diff::diff_text(
                diff::hunks_of(p.name@, &p.input),
            )
        }),
{
}

} // verus!
