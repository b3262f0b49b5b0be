//! The rows of a progress message: what the agent did, one line per step, folded where steps repeat.
use crate::chat::slack::input::ToolInput;
use crate::text;
use vstd::prelude::*;

verus! {

/// State of a tool row.
#[derive(Debug, Clone, Copy, PartialEq, Eq, Structural)]
pub enum ToolStatus {
    Pending,
    Done,
    Error,
    Deny,
}

/// A failure's text, in small letters, speaks of a permission that was not given.
pub open spec fn speaks_of_denial(lowered: Seq<char>) -> bool {
    text::has(lowered, "deni"@) || text::has(lowered, "permission"@) || text::has(
        lowered,
        "not allowed"@,
    ) || text::has(lowered, "blocked"@)
}

impl ToolStatus {
    /// The state after a hook event, given the result's text in small letters. What is not the end
    /// of a call is still running.
    pub open spec fn after(event: Seq<char>, is_error: bool, lowered: Seq<char>) -> ToolStatus {
        if event == "PostToolUseFailure"@ || (event == "PostToolUse"@ && is_error) {
            if speaks_of_denial(lowered) {
                ToolStatus::Deny
            } else {
                ToolStatus::Error
            }
        } else if event == "PostToolUse"@ {
            ToolStatus::Done
        } else {
            ToolStatus::Pending
        }
    }

    /// The state after a hook event. A call that fails ends with an event of its own, and among
    /// failures a refused permission is told apart by the result's text.
    pub fn of(event: &str, is_error: bool, result_text: &str) -> (r: ToolStatus)
        ensures
            r == Self::after(event@, is_error, text::lowercase(result_text@)),
    {
        let lowered: String = text::to_lowercase(result_text);
        Self::of_lowered(event, is_error, lowered.as_str())
    }

    /// The state after a hook event, given the result's text in small letters.
    pub fn of_lowered(event: &str, is_error: bool, lowered: &str) -> (r: ToolStatus)
        ensures
            r == Self::after(event@, is_error, lowered@),
    {
        let failed: bool = text::same(event, "PostToolUseFailure");
        let done: bool = text::same(event, "PostToolUse");
        if !failed && !done {
            return ToolStatus::Pending;
        }
        if !failed && !is_error {
            return ToolStatus::Done;
        }
        if text::contains(lowered, "deni") || text::contains(lowered, "permission")
            || text::contains(lowered, "not allowed") || text::contains(lowered, "blocked") {
            ToolStatus::Deny
        } else {
            ToolStatus::Error
        }
    }

    /// The mark in front of a row.
    pub open spec fn mark(self) -> Seq<char> {
        match self {
            ToolStatus::Pending => "◌"@,
            ToolStatus::Done => "·"@,
            ToolStatus::Error => "×"@,
            ToolStatus::Deny => "🚫"@,
        }
    }

    /// The mark in front of a row.
    pub fn glyph(self) -> (s: &'static str)
        ensures
            s@ == self.mark(),
    {
        match self {
            ToolStatus::Pending => "◌",
            ToolStatus::Done => "·",
            ToolStatus::Error => "×",
            ToolStatus::Deny => "🚫",
        }
    }
}

/// Which subagent a row belongs to, or which one it started.
#[derive(Debug, PartialEq, Eq)]
pub struct AgentRef {
    /// The subagent that ran this row.
    pub agent_id: Option<String>,
    /// The name of that subagent.
    pub agent_type: Option<String>,
    /// The subagent that this row started.
    pub spawned_agent_id: Option<String>,
    /// The name this row launched a subagent with.
    pub launched_name: Option<String>,
}

impl Default for AgentRef {
    fn default() -> (r: Self)
        ensures
            r.agent_id is None,
            r.agent_type is None,
            r.spawned_agent_id is None,
            r.launched_name is None,
    {
        AgentRef { agent_id: None, agent_type: None, spawned_agent_id: None, launched_name: None }
    }
}

impl Clone for AgentRef {
    fn clone(&self) -> (r: Self)
        ensures
            r == *self,
    {
        AgentRef {
            agent_id: self.agent_id.clone(),
            agent_type: self.agent_type.clone(),
            spawned_agent_id: self.spawned_agent_id.clone(),
            launched_name: self.launched_name.clone(),
        }
    }
}

/// One step of a progress message.
#[derive(Debug)]
pub enum RenderItem {
    Narration { text: String },
    Tool {
        id: String,
        name: String,
        summary: String,
        status: ToolStatus,
        agent: AgentRef,
        /// The diff of an editing tool that finished.
        diff: Option<String>,
    },
    /// The closing line of a round that was cut off.
    Interrupted,
}

/// What an [`AgentRef`] holds.
pub struct AgentView {
    pub agent_id: Option<Seq<char>>,
    pub agent_type: Option<Seq<char>>,
    pub spawned_agent_id: Option<Seq<char>>,
    pub launched_name: Option<Seq<char>>,
}

impl View for AgentRef {
    type V = AgentView;

    open spec fn view(&self) -> AgentView {
        AgentView {
            agent_id: text::opt_view(self.agent_id),
            agent_type: text::opt_view(self.agent_type),
            spawned_agent_id: text::opt_view(self.spawned_agent_id),
            launched_name: text::opt_view(self.launched_name),
        }
    }
}

/// What a [`RenderItem`] holds.
pub enum RowView {
    Narration { text: Seq<char> },
    Tool {
        id: Seq<char>,
        name: Seq<char>,
        summary: Seq<char>,
        status: ToolStatus,
        agent: AgentView,
        diff: Option<Seq<char>>,
    },
    Interrupted,
}

impl View for RenderItem {
    type V = RowView;

    open spec fn view(&self) -> RowView {
        match self {
            RenderItem::Narration { text } => RowView::Narration { text: text@ },
            RenderItem::Tool { id, name, summary, status, agent, diff } => RowView::Tool {
                id: id@,
                name: name@,
                summary: summary@,
                status: *status,
                agent: agent@,
                diff: text::opt_view(*diff),
            },
            RenderItem::Interrupted => RowView::Interrupted,
        }
    }
}

/// What a list of rows holds.
pub open spec fn row_views(items: Seq<RenderItem>) -> Seq<RowView> {
    items.map_values(|it: RenderItem| it@)
}

/// The indent of a tool row: no-break spaces, as plain ones are collapsed.
pub const TOOL_INDENT: &'static str = "\u{A0}\u{A0}\u{A0}";

/// Holds the indent of a message's first line in place.
pub const INDENT_GUARD: &'static str = "\u{200B}";

/// The indent of a subagent's rows, on top of the tool row's.
pub const SUBAGENT_INDENT: &'static str = "\u{A0}\u{A0}";

/// The mark in front of a subagent's section.
pub const SUBAGENT_MARK: &'static str = "▾";

/// The mark in front of a narration.
pub const NARR_GLYPH: &'static str = "●";

/// How many of a subagent's rows are shown.
pub const SUBAGENT_WINDOW: usize = 2;

/// The closing line of a round that was cut off.
pub const INTERRUPTED_NOTICE: &'static str = "└ `Interrupted by user.`";

pub const PERM_TIMEOUT_EN: &'static str =
    "\u{A0}\u{A0}\u{A0}⚠️ No answer to the permission request — timed out";

pub const PERM_TIMEOUT_JA: &'static str =
    "\u{A0}\u{A0}\u{A0}⚠️ ツール許可の返事が無く、タイムアウトしました";

// ── what a shell command is ─────────────────────────────────────────────────

/// Where the first white space stands in `s`; its length where there is none.
pub open spec fn first_space(s: Seq<char>) -> int
    decreases s.len(),
{
    if s.len() == 0 {
        0
    } else {
        let i = first_space(s.drop_last());
        if i < s.len() - 1 || text::is_space(s.last()) {
            i
        } else {
            s.len() as int
        }
    }
}

proof fn lemma_first_space(s: Seq<char>)
    ensures
        0 <= first_space(s) <= s.len(),
        first_space(s) < s.len() ==> text::is_space(s[first_space(s)]),
        forall|j: int| 0 <= j < first_space(s) ==> !text::is_space(#[trigger] s[j]),
    decreases s.len(),
{
    if s.len() > 0 {
        lemma_first_space(s.drop_last());
        assert forall|j: int| 0 <= j < first_space(s) implies !text::is_space(#[trigger] s[j]) by {
            if j < s.len() - 1 {
                assert(s.drop_last()[j] == s[j]);
            }
        }
    }
}

pub proof fn lemma_trimmed_start_len(s: Seq<char>)
    ensures
        text::trimmed_start(s).len() <= s.len(),
    decreases s.len(),
{
    if s.len() > 0 && text::is_space(s[0]) {
        lemma_trimmed_start_len(s.skip(1));
    }
}

fn find_space(s: &Vec<char>) -> (r: usize)
    ensures
        r == first_space(s@),
        r <= s@.len(),
{
    let mut i: usize = 0;
    while i < s.len() && !text::space(s[i])
        invariant
            i <= s@.len(),
            forall|j: int| 0 <= j < i ==> !text::is_space(#[trigger] s@[j]),
        decreases s@.len() - i,
    {
        i = i + 1;
    }
    proof {
        lemma_first_space(s@);
    }
    i
}

/// A shell assignment: a name of letters, digits and `_`, then `=`.
pub open spec fn is_assignment(word: Seq<char>) -> bool {
    let i = text::index_of(word, '=');
    0 < i < word.len() && forall|k: int|
        0 <= k < i ==> text::is_alphanumeric(#[trigger] word[k]) || word[k] == '_'
}

/// A command line behind the assignments in front of it.
pub open spec fn past_assignments(s: Seq<char>) -> Seq<char>
    decreases s.len(),
{
    let i = first_space(s);
    if 0 <= i < s.len() && is_assignment(s.take(i)) {
        proof {
            lemma_trimmed_start_len(s.skip(i + 1));
        }
        past_assignments(text::trimmed_start(s.skip(i + 1)))
    } else {
        s
    }
}

/// The first word of `s`; empty where there is none.
pub open spec fn first_word(s: Seq<char>) -> Seq<char> {
    let t = text::trimmed_start(s);
    t.take(first_space(t))
}

/// What stands behind the first word.
pub open spec fn after_word(s: Seq<char>) -> Seq<char> {
    let t = text::trimmed_start(s);
    t.skip(first_space(t))
}

pub open spec fn is_search_name(name: Seq<char>) -> bool {
    name == "grep"@ || name == "egrep"@ || name == "fgrep"@ || name == "rg"@ || name == "ripgrep"@
        || name == "ag"@ || name == "ack"@
}

/// A shell command that searches: what it launches, behind assignments and without its directory,
/// is a search tool or `git grep`.
pub open spec fn is_search_command(command: Seq<char>) -> bool {
    let s = past_assignments(text::trimmed(command));
    let word = first_word(s);
    let base = text::split_on(word, '/').last();
    word.len() > 0 && (is_search_name(base) || (base == "git"@ && first_word(after_word(s))
        == "grep"@))
}

fn assignment(word: &Vec<char>) -> (r: bool)
    ensures
        r == is_assignment(word@),
{
    let i: usize = text::find_char(word, '=');
    if i == 0 || i >= word.len() {
        return false;
    }
    let mut k: usize = 0;
    while k < i
        invariant
            k <= i < word@.len(),
            i == text::index_of(word@, '='),
            forall|j: int|
                0 <= j < k ==> text::is_alphanumeric(#[trigger] word@[j]) || word@[j] == '_',
        decreases i - k,
    {
        if !(word[k].is_alphanumeric() || word[k] == '_') {
            return false;
        }
        k = k + 1;
    }
    true
}

fn cut_word(s: &str) -> (r: (String, String))
    ensures
        r.0@ == first_word(s@),
        r.1@ == after_word(s@),
{
    let t: String = text::trim_start(s);
    let chars: Vec<char> = text::chars_of(t.as_str());
    let i: usize = find_space(&chars);
    proof {
        assert(t@.take(i as int) =~= t@.subrange(0, i as int));
        assert(t@.skip(i as int) =~= t@.subrange(i as int, t@.len() as int));
    }
    (text::text_of(&chars, 0, i), text::text_of(&chars, i, chars.len()))
}

fn skip_assignments(s: &str) -> (out: String)
    ensures
        out@ == past_assignments(s@),
    decreases s@.len(),
{
    let chars: Vec<char> = text::chars_of(s);
    let i: usize = find_space(&chars);
    if i < chars.len() {
        let head: String = text::text_of(&chars, 0, i);
        let word: Vec<char> = text::chars_of(head.as_str());
        proof {
            assert(s@.take(i as int) =~= s@.subrange(0, i as int));
            assert(s@.skip(i + 1) =~= s@.subrange(i + 1, s@.len() as int));
        }
        if assignment(&word) {
            let rest: String = text::text_of(&chars, i + 1, chars.len());
            let cut: String = text::trim_start(rest.as_str());
            proof {
                lemma_trimmed_start_len(rest@);
            }
            return skip_assignments(cut.as_str());
        }
    }
    s.to_owned()
}

/// Whether a shell command is really a search.
pub fn bash_is_search(command: &str) -> (r: bool)
    ensures
        r == is_search_command(command@),
{
    let cut: String = text::trim(command);
    let s: String = skip_assignments(cut.as_str());
    let (word, rest) = cut_word(s.as_str());
    if word.as_str().is_empty() {
        return false;
    }
    let parts: Vec<String> = text::split(word.as_str(), '/');
    let base: &str = parts[parts.len() - 1].as_str();
    proof {
        assert(base@ == text::views(parts@).last());
    }
    if text::same(base, "grep") || text::same(base, "egrep") || text::same(base, "fgrep")
        || text::same(base, "rg") || text::same(base, "ripgrep") || text::same(base, "ag")
        || text::same(base, "ack") {
        return true;
    }
    if text::same(base, "git") {
        let (second, end) = cut_word(rest.as_str());
        return text::same(second.as_str(), "grep");
    }
    false
}

// ── what a list of tools did ────────────────────────────────────────────────

/// What a tool did, as far as it is counted.
#[derive(Clone, Copy, PartialEq, Eq, Structural)]
pub enum Deed {
    Read,
    Search,
    Run,
    Edit,
    Other,
}

pub open spec fn is_edit_name(name: Seq<char>) -> bool {
    name == "Edit"@ || name == "MultiEdit"@ || name == "Write"@
}

pub open spec fn is_foldable_name(name: Seq<char>) -> bool {
    name == "Read"@ || name == "Grep"@ || name == "Glob"@ || name == "Bash"@
}

/// What a tool of a name did, as its summary shows it.
pub open spec fn deed_of(name: Seq<char>, summary: Seq<char>) -> Deed {
    if name == "Read"@ {
        Deed::Read
    } else if name == "Grep"@ || name == "Glob"@ {
        Deed::Search
    } else if name == "Bash"@ {
        if is_search_command(summary) {
            Deed::Search
        } else {
            Deed::Run
        }
    } else if is_edit_name(name) {
        Deed::Edit
    } else {
        Deed::Other
    }
}

fn deed(name: &str, summary: &str) -> (r: Deed)
    ensures
        r == deed_of(name@, summary@),
{
    if text::same(name, "Read") {
        Deed::Read
    } else if text::same(name, "Grep") || text::same(name, "Glob") {
        Deed::Search
    } else if text::same(name, "Bash") {
        if bash_is_search(summary) {
            Deed::Search
        } else {
            Deed::Run
        }
    } else if is_edit_tool(name) {
        Deed::Edit
    } else {
        Deed::Other
    }
}

/// Whether a tool edits files (it is shown with a diff, and never folded).
pub fn is_edit_tool(name: &str) -> (r: bool)
    ensures
        r == is_edit_name(name@),
{
    text::same(name, "Edit") || text::same(name, "MultiEdit") || text::same(name, "Write")
}

/// How many of the first `n` tools did `d`.
pub open spec fn tally(items: Seq<(Seq<char>, Seq<char>)>, n: nat, d: Deed) -> nat
    decreases n,
{
    if n == 0 {
        0
    } else {
        tally(items, (n - 1) as nat, d) + if deed_of(items[n - 1].0, items[n - 1].1) == d {
            1nat
        } else {
            0nat
        }
    }
}

/// The place of `name` among counted names; their number where it is not among them.
pub open spec fn place_of(rows: Seq<(Seq<char>, nat)>, name: Seq<char>) -> int
    decreases rows.len(),
{
    if rows.len() == 0 {
        0
    } else {
        let i = place_of(rows.drop_last(), name);
        if i < rows.len() - 1 || rows.last().0 == name {
            i
        } else {
            rows.len() as int
        }
    }
}

/// Counted names with one more of `name`.
pub open spec fn counted(rows: Seq<(Seq<char>, nat)>, name: Seq<char>) -> Seq<(Seq<char>, nat)> {
    let i = place_of(rows, name);
    if i < rows.len() {
        rows.update(i, (name, rows[i].1 + 1))
    } else {
        rows.push((name, 1))
    }
}

/// The other tools among the first `n`, in the order they first came, and how often they came.
pub open spec fn others(items: Seq<(Seq<char>, Seq<char>)>, n: nat) -> Seq<(Seq<char>, nat)>
    decreases n,
{
    if n == 0 {
        Seq::empty()
    } else if deed_of(items[n - 1].0, items[n - 1].1) == Deed::Other {
        counted(others(items, (n - 1) as nat), items[n - 1].0)
    } else {
        others(items, (n - 1) as nat)
    }
}

/// `Read 2 files`; nothing where there is none.
pub open spec fn part(n: nat, verb: Seq<char>, one: Seq<char>, many: Seq<char>) -> Seq<Seq<char>> {
    if n == 0 {
        Seq::empty()
    } else {
        seq![verb + " "@ + text::decimal(n as int) + " "@ + (if n == 1 {
            one
        } else {
            many
        })]
    }
}

pub open spec fn other_parts(rows: Seq<(Seq<char>, nat)>) -> Seq<Seq<char>> {
    rows.map_values(|r: (Seq<char>, nat)| r.0 + " "@ + text::decimal(r.1 as int))
}

/// What a list of tools did, by kind, then by name: `Read 1 file, Ran 2 commands, WebFetch 2`.
pub open spec fn breakdown(items: Seq<(Seq<char>, Seq<char>)>) -> Seq<char> {
    let n = items.len();
    text::joined(
        part(tally(items, n, Deed::Read), "Read"@, "file"@, "files"@) + part(
            tally(items, n, Deed::Search),
            "Searched for"@,
            "pattern"@,
            "patterns"@,
        ) + part(tally(items, n, Deed::Run), "Ran"@, "command"@, "commands"@) + part(
            tally(items, n, Deed::Edit),
            "Edited"@,
            "file"@,
            "files"@,
        ) + other_parts(others(items, n)),
        ", "@,
    )
}

/// What a list of names and summaries holds.
pub open spec fn pairs(items: Seq<(&str, &str)>) -> Seq<(Seq<char>, Seq<char>)> {
    items.map_values(|p: (&str, &str)| (p.0@, p.1@))
}

pub open spec fn count_view(rows: Seq<(String, u64)>) -> Seq<(Seq<char>, nat)> {
    rows.map_values(|r: (String, u64)| (r.0@, r.1 as nat))
}

fn push_part(out: &mut Vec<String>, n: u64, verb: &str, one: &str, many: &str)
    ensures
        text::views(final(out)@) == text::views(old(out)@) + part(n as nat, verb@, one@, many@),
{
    broadcast use text::lemma_views_push;

    if n > 0 {
        let mut s: String = verb.to_owned();
        s.append(" ");
        let k: String = text::number(n);
        s.append(k.as_str());
        s.append(" ");
        s.append(if n == 1 { one } else { many });
        proof {
            assert(text::views(out@) + part(n as nat, verb@, one@, many@) =~= text::views(
                out@,
            ).push(s@));
        }
        out.push(s);
    } else {
        proof {
            assert(text::views(out@) + part(0, verb@, one@, many@) =~= text::views(out@));
        }
    }
}

proof fn lemma_place_of(rows: Seq<(Seq<char>, nat)>, name: Seq<char>)
    ensures
        0 <= place_of(rows, name) <= rows.len(),
        place_of(rows, name) < rows.len() ==> rows[place_of(rows, name)].0 == name,
        forall|j: int| 0 <= j < place_of(rows, name) ==> (#[trigger] rows[j]).0 != name,
    decreases rows.len(),
{
    if rows.len() > 0 {
        lemma_place_of(rows.drop_last(), name);
        assert forall|j: int| 0 <= j < place_of(rows, name) implies (#[trigger] rows[j]).0 != name by {
            if j < rows.len() - 1 {
                assert(rows.drop_last()[j] == rows[j]);
            }
        }
    }
}

fn count_name(rows: &mut Vec<(String, u64)>, name: &str)
    requires
        forall|i: int| 0 <= i < old(rows)@.len() ==> (#[trigger] old(rows)@[i]).1 < u64::MAX,
    ensures
        count_view(final(rows)@) == counted(count_view(old(rows)@), name@),
{
    let ghost v = count_view(rows@);
    let mut i: usize = 0;
    while i < rows.len() && !text::same(rows[i].0.as_str(), name)
        invariant
            i <= rows@.len(),
            v == count_view(rows@),
            forall|j: int| 0 <= j < i ==> (#[trigger] v[j]).0 != name@,
        decreases rows@.len() - i,
    {
        proof {
            assert(v[i as int].0 == rows@[i as int].0@);
        }
        i = i + 1;
    }
    proof {
        lemma_place_of(v, name@);
        if i < rows@.len() {
            assert(v[i as int].0 == rows@[i as int].0@);
        }
        assert(place_of(v, name@) == i);
    }
    if i < rows.len() {
        let n: u64 = rows[i].1;
        rows.set(i, (name.to_owned(), n + 1));
        proof {
            assert(count_view(rows@) =~= v.update(i as int, (name@, (n + 1) as nat)));
        }
    } else {
        rows.push((name.to_owned(), 1));
        proof {
            assert(count_view(rows@) =~= v.push((name@, 1)));
        }
    }
}

/// What a list of tools did: every tool is counted, so the parts add up to the whole.
pub fn tool_breakdown(items: &[(&str, &str)]) -> (out: String)
    ensures
        out@ == breakdown(pairs(items@)),
{
    let ghost v = pairs(items@);
    let mut reads: u64 = 0;
    let mut searches: u64 = 0;
    let mut cmds: u64 = 0;
    let mut edits: u64 = 0;
    let mut rows: Vec<(String, u64)> = Vec::new();
    let n: usize = items.len();
    let mut i: usize = 0;
    proof {
        assert(count_view(rows@) =~= others(v, 0));
    }
    while i < n
        invariant
            i <= n == items@.len(),
            v == pairs(items@),
            reads == tally(v, i as nat, Deed::Read),
            searches == tally(v, i as nat, Deed::Search),
            cmds == tally(v, i as nat, Deed::Run),
            edits == tally(v, i as nat, Deed::Edit),
            count_view(rows@) == others(v, i as nat),
            reads <= i,
            searches <= i,
            cmds <= i,
            edits <= i,
            forall|k: int| 0 <= k < rows@.len() ==> (#[trigger] rows@[k]).1 <= i,
        decreases n - i,
    {
        let (name, summary) = items[i];
        proof {
            assert(v[i as int] == (name@, summary@));
        }
        let ghost before = rows@;
        match deed(name, summary) {
            Deed::Read => reads = reads + 1,
            Deed::Search => searches = searches + 1,
            Deed::Run => cmds = cmds + 1,
            Deed::Edit => edits = edits + 1,
            Deed::Other => {
                count_name(&mut rows, name);
                proof {
                    let old_view = count_view(before);
                    lemma_place_of(old_view, name@);
                    assert forall|k: int| 0 <= k < rows@.len() implies (#[trigger] rows@[k]).1 <= i
                        + 1 by {
                        let new_view = count_view(rows@);
                        assert(new_view == counted(old_view, name@));
                        assert(new_view[k].1 == rows@[k].1);
                        if k < before.len() {
                            assert(old_view[k].1 == before[k].1);
                            assert(before[k].1 <= i);
                        }
                        let p = place_of(old_view, name@);
                        if p < old_view.len() {
                            assert(new_view == old_view.update(p, (name@, old_view[p].1 + 1)));
                            assert(k != p ==> new_view[k] == old_view[k]);
                        } else {
                            assert(new_view == old_view.push((name@, 1)));
                            assert(k < old_view.len() ==> new_view[k] == old_view[k]);
                        }
                    }
                }
            },
        }
        i = i + 1;
    }
    let mut parts: Vec<String> = Vec::new();
    push_part(&mut parts, reads, "Read", "file", "files");
    push_part(&mut parts, searches, "Searched for", "pattern", "patterns");
    push_part(&mut parts, cmds, "Ran", "command", "commands");
    push_part(&mut parts, edits, "Edited", "file", "files");
    let ghost four = text::views(parts@);
    let ghost rest = other_parts(others(v, v.len()));
    let mut k: usize = 0;
    proof {
        let none = text::views(Seq::<String>::empty());
        assert(none + part(tally(v, v.len(), Deed::Read), "Read"@, "file"@, "files"@) =~= part(
            tally(v, v.len(), Deed::Read),
            "Read"@,
            "file"@,
            "files"@,
        ));
        assert(four + rest.take(0) =~= four);
    }
    while k < rows.len()
        invariant
            k <= rows@.len(),
            rest == other_parts(count_view(rows@)),
            text::views(parts@) == four + rest.take(k as int),
        decreases rows@.len() - k,
    {
        broadcast use text::lemma_views_push;

        let mut s: String = rows[k].0.clone();
        s.append(" ");
        let c: String = text::number(rows[k].1);
        s.append(c.as_str());
        proof {
            assert(count_view(rows@)[k as int] == (rows@[k as int].0@, rows@[k as int].1 as nat));
            assert(rest[k as int] == s@);
            assert((four + rest.take(k as int)).push(s@) =~= four + rest.take(k + 1));
        }
        parts.push(s);
        k = k + 1;
    }
    proof {
        assert(rest.take(rest.len() as int) =~= rest);
    }
    text::join(parts.as_slice(), ", ")
}

proof fn lemma_total_bump(rows: Seq<(Seq<char>, nat)>, name: Seq<char>)
    ensures
        total(counted(rows, name)) == total(rows) + 1,
{
    lemma_place_of(rows, name);
    let i = place_of(rows, name);
    if i < rows.len() {
        lemma_total_update(rows, i, (name, rows[i].1 + 1));
    } else {
        assert(rows.push((name, 1)).drop_last() =~= rows);
    }
}

proof fn lemma_total_update(rows: Seq<(Seq<char>, nat)>, i: int, x: (Seq<char>, nat))
    requires
        0 <= i < rows.len(),
    ensures
        total(rows.update(i, x)) == total(rows) - rows[i].1 + x.1,
    decreases rows.len(),
{
    let u = rows.update(i, x);
    if i == rows.len() - 1 {
        assert(u.drop_last() =~= rows.drop_last());
    } else {
        lemma_total_update(rows.drop_last(), i, x);
        assert(u.drop_last() =~= rows.drop_last().update(i, x));
    }
}

/// How often counted names came in all.
pub open spec fn total(rows: Seq<(Seq<char>, nat)>) -> nat
    decreases rows.len(),
{
    if rows.len() == 0 {
        0
    } else {
        total(rows.drop_last()) + rows.last().1
    }
}

/// The parts of a breakdown add up: every tool is counted once.
pub proof fn law_breakdown_adds_up(items: Seq<(Seq<char>, Seq<char>)>, n: nat)
    requires
        n <= items.len(),
    ensures
        tally(items, n, Deed::Read) + tally(items, n, Deed::Search) + tally(items, n, Deed::Run)
            + tally(items, n, Deed::Edit) + total(others(items, n)) == n,
    decreases n,
{
    if n > 0 {
        law_breakdown_adds_up(items, (n - 1) as nat);
        if deed_of(items[n - 1].0, items[n - 1].1) == Deed::Other {
            lemma_total_bump(others(items, (n - 1) as nat), items[n - 1].0);
        }
    }
}

// ── what a tool's row says ──────────────────────────────────────────────────

/// Tools that never become rows: noise and the bridge's own tools.
pub open spec fn is_denied_name(name: Seq<char>) -> bool {
    name == "TodoWrite"@ || name == "ToolSearch"@ || name == "advisor"@
        || "mcp__agentgw__"@.is_prefix_of(name)
}

/// Whether a tool never becomes a row.
pub fn is_denied(name: &str) -> (r: bool)
    ensures
        r == is_denied_name(name@),
{
    text::same(name, "TodoWrite") || text::same(name, "ToolSearch") || text::same(name, "advisor")
        || text::starts_with(name, "mcp__agentgw__")
}

/// Whether a tool's finished rows may be folded.
pub fn is_foldable(name: &str) -> (r: bool)
    ensures
        r == is_foldable_name(name@),
{
    text::same(name, "Read") || text::same(name, "Grep") || text::same(name, "Glob") || text::same(
        name,
        "Bash",
    )
}

/// A field's text where it is not empty.
pub open spec fn salient(input: &ToolInput, k: Seq<char>) -> Option<Seq<char>> {
    match input.field(k) {
        Some(s) => if s.len() > 0 {
            Some(s)
        } else {
            None
        },
        None => None,
    }
}

pub open spec fn or_else(a: Option<Seq<char>>, b: Option<Seq<char>>) -> Option<Seq<char>> {
    if a is Some {
        a
    } else {
        b
    }
}

/// The most telling argument of a tool.
pub open spec fn telling(name: Seq<char>, input: &ToolInput) -> Option<Seq<char>> {
    if name == "Bash"@ {
        salient(input, "command"@)
    } else if name == "Edit"@ || name == "Write"@ || name == "Read"@ || name == "NotebookEdit"@ {
        or_else(salient(input, "file_path"@), salient(input, "notebook_path"@))
    } else if name == "WebFetch"@ || name == "WebSearch"@ {
        or_else(salient(input, "url"@), salient(input, "query"@))
    } else if name == "Skill"@ {
        salient(input, "skill"@)
    } else if name == "Agent"@ {
        salient(input, "description"@)
    } else {
        or_else(
            salient(input, "command"@),
            or_else(
                salient(input, "file_path"@),
                or_else(
                    salient(input, "url"@),
                    or_else(
                        salient(input, "query"@),
                        or_else(
                            salient(input, "description"@),
                            or_else(salient(input, "pattern"@), salient(input, "path"@)),
                        ),
                    ),
                ),
            ),
        )
    }
}

/// How many characters of an argument are shown.
pub const SUMMARY_CHARS: usize = 70;

/// A tool's summary: its most telling argument on one line, without backquotes, clipped.
pub open spec fn summary_of(name: Seq<char>, input: &ToolInput) -> Seq<char> {
    let raw = match telling(name, input) {
        Some(s) => s,
        None => Seq::empty(),
    };
    text::clipped(text::without(text::replaced(raw, '\n', ' '), '`'), SUMMARY_CHARS as nat, "…"@)
}

fn pick(input: &ToolInput, k: &str) -> (r: Option<String>)
    ensures
        text::opt_view(r) == salient(input, k@),
{
    match input.get(k) {
        Some(s) => if s.as_str().is_empty() {
            None
        } else {
            Some(s.clone())
        },
        None => None,
    }
}

fn otherwise(a: Option<String>, input: &ToolInput, k: &str) -> (r: Option<String>)
    ensures
        text::opt_view(r) == or_else(text::opt_view(a), salient(input, k@)),
{
    match a {
        Some(s) => Some(s),
        None => pick(input, k),
    }
}

/// The most telling argument of a tool's input, on one line.
pub fn summarize(name: &str, input: &ToolInput) -> (out: String)
    ensures
        out@ == summary_of(name@, input),
{
    let raw: Option<String> = if text::same(name, "Bash") {
        pick(input, "command")
    } else if text::same(name, "Edit") || text::same(name, "Write") || text::same(name, "Read")
        || text::same(name, "NotebookEdit") {
        otherwise(pick(input, "file_path"), input, "notebook_path")
    } else if text::same(name, "WebFetch") || text::same(name, "WebSearch") {
        otherwise(pick(input, "url"), input, "query")
    } else if text::same(name, "Skill") {
        pick(input, "skill")
    } else if text::same(name, "Agent") {
        pick(input, "description")
    } else {
        let a: Option<String> = otherwise(pick(input, "command"), input, "file_path");
        let b: Option<String> = otherwise(otherwise(a, input, "url"), input, "query");
        let c: Option<String> = otherwise(otherwise(b, input, "description"), input, "pattern");
        otherwise(c, input, "path")
    };
    let s: String = match raw {
        Some(s) => s,
        None => String::new(),
    };
    let flat: String = text::replace_char(s.as_str(), '\n', ' ');
    let bare: String = text::drop_char(flat.as_str(), '`');
    text::clip_chars(bare.as_str(), SUMMARY_CHARS, "…")
}

/// A call failed where its hook says so; then it was refused where what came of it speaks of that, and
/// else it went wrong. A call that came back whole is done; before it comes back it is pending.
pub proof fn law_state_of_a_call(event: Seq<char>, is_error: bool, words: Seq<char>)
    ensures
        ({
            let s = ToolStatus::after(event, is_error, words);
            let failed = event == "PostToolUseFailure"@ || (event == "PostToolUse"@ && is_error);
            let refused = text::has(words, "deni"@) || text::has(words, "permission"@) || text::has(
                words,
                "not allowed"@,
            ) || text::has(words, "blocked"@);
            &&& s == ToolStatus::Deny <==> failed && refused
            &&& s == ToolStatus::Error <==> failed && !refused
            &&& s == ToolStatus::Done <==> event == "PostToolUse"@ && !is_error
            &&& s == ToolStatus::Pending <==> event != "PostToolUse"@ && event
                != "PostToolUseFailure"@
        }),
{
    reveal_strlit("PostToolUse");
    reveal_strlit("PostToolUseFailure");
    assert("PostToolUse"@.len() == 11 && "PostToolUseFailure"@.len() == 18);
}

/// The four states of a call have four marks.
pub proof fn law_marks_differ(a: ToolStatus, b: ToolStatus)
    ensures
        a != b ==> a.mark() != b.mark(),
        a.mark().len() == 1,
{
    reveal_strlit("◌");
    reveal_strlit("·");
    reveal_strlit("×");
    reveal_strlit("🚫");
    assert("◌"@[0] == '◌' && "·"@[0] == '·' && "×"@[0] == '×' && "🚫"@[0] == '🚫');
    assert("◌"@.len() == 1 && "·"@.len() == 1 && "×"@.len() == 1 && "🚫"@.len() == 1);
}

} // verus!
