//! From rows to lines, and from lines to pages.
use crate::chat::slack::rows::{
    self, row_views, AgentRef, AgentView, RenderItem, RowView, ToolStatus, INTERRUPTED_NOTICE,
    NARR_GLYPH, PERM_TIMEOUT_EN, PERM_TIMEOUT_JA, SUBAGENT_INDENT, SUBAGENT_MARK, SUBAGENT_WINDOW,
    TOOL_INDENT,
};
use crate::i18n::Lang;
use crate::text;
use vstd::prelude::*;

verus! {

// ── one row ─────────────────────────────────────────────────────────────────

/// A tool's row behind its mark.
pub open spec fn tool_text(mark: Seq<char>, name: Seq<char>, summary: Seq<char>) -> Seq<char> {
    TOOL_INDENT@ + mark + " "@ + name + (if summary.len() == 0 {
        ""@
    } else {
        " `"@ + summary + "`"@
    })
}

/// One row on one line (an editing tool's diff, where it is shown, follows it).
/// `lead_blank`: an interruption stands behind an empty line.
pub open spec fn item_line(it: RowView, lead_blank: bool, with_diff: bool) -> Seq<char> {
    match it {
        RowView::Narration { text } => NARR_GLYPH@ + " "@ + text,
        RowView::Interrupted => if lead_blank {
            "\n"@ + INTERRUPTED_NOTICE@
        } else {
            INTERRUPTED_NOTICE@
        },
        RowView::Tool { id, name, summary, status, agent, diff } => tool_text(
            status.mark(),
            name,
            summary,
        ) + (if with_diff && diff is Some {
            diff->0
        } else {
            ""@
        }),
    }
}

fn tool_head(mark: &str, name: &str, summary: &str) -> (out: String)
    ensures
        out@ == tool_text(mark@, name@, summary@),
{
    let mut out: String = TOOL_INDENT.to_owned();
    out.append(mark);
    out.append(" ");
    out.append(name);
    let mut rest: String = String::new();
    if summary.is_empty() {
        rest = "".to_owned();
    } else {
        rest = " `".to_owned();
        rest.append(summary);
        rest.append("`");
    }
    out.append(rest.as_str());
    out
}

fn render_item_line(it: &RenderItem, lead_blank: bool, with_diff: bool) -> (out: String)
    ensures
        out@ == item_line(it@, lead_blank, with_diff),
{
    match it {
        RenderItem::Narration { text } => {
            let mut out: String = NARR_GLYPH.to_owned();
            out.append(" ");
            out.append(text.as_str());
            out
        },
        RenderItem::Interrupted => if lead_blank {
            text::cat("\n", INTERRUPTED_NOTICE)
        } else {
            INTERRUPTED_NOTICE.to_owned()
        },
        RenderItem::Tool { id, name, summary, status, agent, diff } => {
            let mut out: String = tool_head(status.glyph(), name.as_str(), summary.as_str());
            match diff {
                Some(d) => if with_diff {
                    out.append(d.as_str());
                } else {
                    out.append("");
                },
                None => out.append(""),
            }
            out
        },
    }
}

// ── subagents ───────────────────────────────────────────────────────────────

/// The subagent a row belongs to.
pub open spec fn agent_of(it: RowView) -> Option<Seq<char>> {
    match it {
        RowView::Tool { id, name, summary, status, agent, diff } => agent.agent_id,
        _ => None,
    }
}

/// The places, among the first `n`, of the rows that a subagent ran.
pub open spec fn rows_of(items: Seq<RowView>, agent: Seq<char>, n: nat) -> Seq<int>
    decreases n,
{
    if n == 0 {
        Seq::empty()
    } else if agent_of(items[n - 1]) == Some(agent) {
        rows_of(items, agent, (n - 1) as nat).push(n - 1)
    } else {
        rows_of(items, agent, (n - 1) as nat)
    }
}

/// The subagents of the first `n` rows, in the order they first came.
pub open spec fn agents(items: Seq<RowView>, n: nat) -> Seq<Seq<char>>
    decreases n,
{
    if n == 0 {
        Seq::empty()
    } else {
        let before = agents(items, (n - 1) as nat);
        match agent_of(items[n - 1]) {
            Some(a) => if before.contains(a) {
                before
            } else {
                before.push(a)
            },
            None => before,
        }
    }
}

/// The name a row gives its subagent.
pub open spec fn type_in(it: RowView) -> Seq<char> {
    match it {
        RowView::Tool { id, name, summary, status, agent, diff } => match agent.agent_type {
            Some(t) => t,
            None => "subagent"@,
        },
        _ => "subagent"@,
    }
}

/// The name of a subagent, as its first row gives it.
pub open spec fn type_of(items: Seq<RowView>, agent: Seq<char>) -> Seq<char> {
    let rows = rows_of(items, agent, items.len());
    if rows.len() > 0 {
        type_in(items[rows[0]])
    } else {
        "subagent"@
    }
}

/// The first of `all`, from `i` on, that has a name and is not drawn yet.
pub open spec fn first_named(
    items: Seq<RowView>,
    all: Seq<Seq<char>>,
    name: Seq<char>,
    drawn: Seq<Seq<char>>,
    i: int,
) -> Option<Seq<char>>
    decreases all.len() - i,
{
    if i >= all.len() || i < 0 {
        None
    } else if type_of(items, all[i]) == name && !drawn.contains(all[i]) {
        Some(all[i])
    } else {
        first_named(items, all, name, drawn, i + 1)
    }
}

/// The subagent whose section a launching row heads: the one it started, or else the first of the
/// name it launched; none that is drawn already.
pub open spec fn linked(
    items: Seq<RowView>,
    agent: AgentView,
    drawn: Seq<Seq<char>>,
) -> Option<Seq<char>> {
    let all = agents(items, items.len());
    if agent.spawned_agent_id is Some && all.contains(agent.spawned_agent_id->0)
        && !drawn.contains(agent.spawned_agent_id->0) {
        Some(agent.spawned_agent_id->0)
    } else if agent.launched_name is Some {
        first_named(items, all, agent.launched_name->0, drawn, 0)
    } else {
        None
    }
}

/// A row's name and summary.
pub open spec fn pair_of(it: RowView) -> (Seq<char>, Seq<char>) {
    match it {
        RowView::Tool { id, name, summary, status, agent, diff } => (name, summary),
        _ => (""@, ""@),
    }
}

pub open spec fn pairs_at(items: Seq<RowView>, rows: Seq<int>) -> Seq<(Seq<char>, Seq<char>)> {
    rows.map_values(|i: int| pair_of(items[i]))
}

/// The last `n` of `rows`.
pub open spec fn last_of(rows: Seq<int>, n: nat) -> Seq<int> {
    if rows.len() > n {
        rows.skip(rows.len() - n)
    } else {
        rows
    }
}

/// A subagent's section: a heading with what it did, and its latest rows, one step further in.
pub open spec fn section(
    items: Seq<RowView>,
    agent: Seq<char>,
    head: Option<Seq<char>>,
) -> Seq<Seq<char>> {
    let rows = rows_of(items, agent, items.len());
    let heading = (match head {
        Some(h) => h + " : "@,
        None => TOOL_INDENT@ + SUBAGENT_MARK@ + " "@,
    }) + type_of(items, agent) + " · "@ + rows::breakdown(pairs_at(items, rows));
    seq![heading] + last_of(rows, SUBAGENT_WINDOW as nat).map_values(
        |i: int| SUBAGENT_INDENT@ + item_line(items[i], false, false),
    )
}

// ── folding ─────────────────────────────────────────────────────────────────

/// A row that folds with its neighbours: a finished read, search or command of the main session.
pub open spec fn folds(it: RowView) -> bool {
    match it {
        RowView::Tool { id, name, summary, status, agent, diff } => status == ToolStatus::Done
            && agent.agent_id is None && rows::is_foldable_name(name),
        _ => false,
    }
}

/// `lines` with a run of foldable rows behind them: one row as it is, more as one line.
pub open spec fn with_run(lines: Seq<Seq<char>>, items: Seq<RowView>, run: Seq<int>) -> Seq<
    Seq<char>,
> {
    if run.len() == 0 {
        lines
    } else if run.len() == 1 {
        lines.push(item_line(items[run[0]], lines.len() > 0, true))
    } else {
        lines.push(TOOL_INDENT@ + "·  "@ + rows::breakdown(pairs_at(items, run)))
    }
}

/// The lines so far, the run of foldable rows behind them, and the subagents that are drawn.
pub struct Fold {
    pub lines: Seq<Seq<char>>,
    pub run: Seq<int>,
    pub drawn: Seq<Seq<char>>,
}

/// The row starts a subagent.
pub open spec fn is_launch(name: Seq<char>) -> bool {
    name == "Agent"@ || name == "Task"@
}

/// The subagent whose section row `i` heads.
pub open spec fn heads(items: Seq<RowView>, it: RowView, drawn: Seq<Seq<char>>) -> Option<
    Seq<char>,
> {
    match it {
        RowView::Tool { id, name, summary, status, agent, diff } => if is_launch(name) {
            linked(items, agent, drawn)
        } else {
            None
        },
        _ => None,
    }
}

/// The heading that a launching row gives.
pub open spec fn launch_head(it: RowView) -> Seq<char> {
    tool_text(SUBAGENT_MARK@, pair_of(it).0, pair_of(it).1)
}

/// One more row.
pub open spec fn fold_step(items: Seq<RowView>, f: Fold, i: int) -> Fold {
    let it = items[i];
    if folds(it) {
        Fold { run: f.run.push(i), ..f }
    } else {
        let lines = with_run(f.lines, items, f.run);
        let none = Seq::<int>::empty();
        match heads(items, it, f.drawn) {
            Some(a) => Fold {
                lines: lines + section(items, a, Some(launch_head(it))),
                run: none,
                drawn: f.drawn.push(a),
            },
            None => match agent_of(it) {
                Some(a) => if f.drawn.contains(a) {
                    Fold { lines, run: none, drawn: f.drawn }
                } else {
                    Fold {
                        lines: lines + section(items, a, None),
                        run: none,
                        drawn: f.drawn.push(a),
                    }
                },
                None => Fold {
                    lines: lines.push(item_line(it, lines.len() > 0, true)),
                    run: none,
                    drawn: f.drawn,
                },
            },
        }
    }
}

/// The first `n` rows folded.
pub open spec fn fold(items: Seq<RowView>, n: nat) -> Fold
    decreases n,
{
    if n == 0 {
        Fold { lines: Seq::empty(), run: Seq::empty(), drawn: Seq::empty() }
    } else {
        fold_step(items, fold(items, (n - 1) as nat), n - 1)
    }
}

/// The lines that are shown for `items`; a permission that nobody gave is noted below them.
pub open spec fn shown_lines(items: Seq<RowView>, perm_timed_out: bool, lang: Lang) -> Seq<
    Seq<char>,
> {
    let f = fold(items, items.len());
    let lines = with_run(f.lines, items, f.run);
    if perm_timed_out {
        lines.push(lang.of(PERM_TIMEOUT_EN@, PERM_TIMEOUT_JA@))
    } else {
        lines
    }
}

fn is_agent(it: &RenderItem, agent: &str) -> (r: bool)
    ensures
        r == (agent_of(it@) == Some(agent@)),
{
    match it {
        RenderItem::Tool { id, name, summary, status, agent: a, diff } => match &a.agent_id {
            Some(x) => text::same(x.as_str(), agent),
            None => false,
        },
        _ => false,
    }
}

fn agent_rows(items: &Vec<RenderItem>, agent: &str) -> (out: Vec<usize>)
    ensures
        out@.map_values(|i: usize| i as int) == rows_of(row_views(items@), agent@, items@.len()),
        forall|k: int| 0 <= k < out@.len() ==> #[trigger] out@[k] < items@.len(),
{
    let mut out: Vec<usize> = Vec::new();
    let mut i: usize = 0;
    proof {
        assert(out@.map_values(|i: usize| i as int) =~= Seq::<int>::empty());
    }
    while i < items.len()
        invariant
            i <= items@.len(),
            out@.map_values(|i: usize| i as int) == rows_of(row_views(items@), agent@, i as nat),
            forall|k: int| 0 <= k < out@.len() ==> #[trigger] out@[k] < i,
        decreases items@.len() - i,
    {
        if is_agent(&items[i], agent) {
            let ghost before = out@;
            out.push(i);
            proof {
                assert(out@.map_values(|i: usize| i as int) =~= before.map_values(
                    |i: usize| i as int,
                ).push(i as int));
            }
        }
        i = i + 1;
    }
    out
}

fn agent_list(items: &Vec<RenderItem>) -> (out: Vec<String>)
    ensures
        text::views(out@) == agents(row_views(items@), items@.len()),
{
    broadcast use text::lemma_views_push, text::lemma_views_empty;

    let mut out: Vec<String> = Vec::new();
    let mut i: usize = 0;
    while i < items.len()
        invariant
            i <= items@.len(),
            text::views(out@) == agents(row_views(items@), i as nat),
        decreases items@.len() - i,
    {
        match &items[i] {
            RenderItem::Tool { id, name, summary, status, agent, diff } => match &agent.agent_id {
                Some(a) => if !text::among(out.as_slice(), a.as_str()) {
                    out.push(a.clone());
                },
                None => {},
            },
            _ => {},
        }
        i = i + 1;
    }
    out
}

fn agent_type(items: &Vec<RenderItem>, agent: &str) -> (out: String)
    ensures
        out@ == type_of(row_views(items@), agent@),
{
    let rows: Vec<usize> = agent_rows(items, agent);
    let ghost v = rows@.map_values(|i: usize| i as int);
    if rows.len() > 0 {
        proof {
            assert(v[0] == rows@[0] as int);
        }
        match &items[rows[0]] {
            RenderItem::Tool { id, name, summary, status, agent, diff } => match &agent.agent_type {
                Some(t) => t.clone(),
                None => "subagent".to_owned(),
            },
            _ => "subagent".to_owned(),
        }
    } else {
        "subagent".to_owned()
    }
}

fn link(items: &Vec<RenderItem>, agent: &AgentRef, drawn: &Vec<String>) -> (r: Option<String>)
    ensures
        text::opt_view(r) == linked(row_views(items@), agent@, text::views(drawn@)),
{
    let all: Vec<String> = agent_list(items);
    let ghost v = text::views(all@);
    let ghost d = text::views(drawn@);
    match &agent.spawned_agent_id {
        Some(id) => if text::among(all.as_slice(), id.as_str()) && !text::among(
            drawn.as_slice(),
            id.as_str(),
        ) {
            return Some(id.clone());
        },
        None => {},
    }
    match &agent.launched_name {
        Some(name) => {
            let mut i: usize = 0;
            while i < all.len()
                invariant
                    i <= all@.len(),
                    v == text::views(all@),
                    v == agents(row_views(items@), items@.len()),
                    d == text::views(drawn@),
                    agent.launched_name == Some(*name),
                    !(agent.spawned_agent_id is Some && v.contains(agent.spawned_agent_id->0@)
                        && !d.contains(agent.spawned_agent_id->0@)),
                    first_named(row_views(items@), v, name@, d, 0) == first_named(
                        row_views(items@),
                        v,
                        name@,
                        d,
                        i as int,
                    ),
                decreases all@.len() - i,
            {
                proof {
                    assert(v[i as int] == all@[i as int]@);
                }
                let t: String = agent_type(items, all[i].as_str());
                if text::same(t.as_str(), name.as_str()) && !text::among(
                    drawn.as_slice(),
                    all[i].as_str(),
                ) {
                    return Some(all[i].clone());
                }
                i = i + 1;
            }
            None
        },
        None => None,
    }
}

fn rows_breakdown(items: &Vec<RenderItem>, rows: &Vec<usize>) -> (out: String)
    requires
        forall|k: int| 0 <= k < rows@.len() ==> #[trigger] rows@[k] < items@.len(),
    ensures
        out@ == rows::breakdown(
            pairs_at(row_views(items@), rows@.map_values(|i: usize| i as int)),
        ),
{
    let ghost v = pairs_at(row_views(items@), rows@.map_values(|i: usize| i as int));
    let mut list: Vec<(&str, &str)> = Vec::new();
    let mut i: usize = 0;
    while i < rows.len()
        invariant
            i <= rows@.len(),
            v == pairs_at(row_views(items@), rows@.map_values(|i: usize| i as int)),
            forall|k: int| 0 <= k < rows@.len() ==> #[trigger] rows@[k] < items@.len(),
            rows::pairs(list@) =~= v.take(i as int),
        decreases rows@.len() - i,
    {
        let ghost before = rows::pairs(list@);
        match &items[rows[i]] {
            RenderItem::Tool { id, name, summary, status, agent, diff } => {
                list.push((name.as_str(), summary.as_str()));
            },
            _ => {
                list.push(("", ""));
            },
        }
        proof {
            let x = list@.last();
            assert(rows::pairs(list@) =~= before.push((x.0@, x.1@)));
            assert(v[i as int] == pair_of(items@[rows@[i as int] as int]@));
            assert(v.take(i + 1) =~= v.take(i as int).push(v[i as int]));
        }
        i = i + 1;
    }
    proof {
        assert(v.take(v.len() as int) =~= v);
    }
    rows::tool_breakdown(list.as_slice())
}

fn push_section(lines: &mut Vec<String>, items: &Vec<RenderItem>, agent: &str, head: Option<String>)
    ensures
        text::views(final(lines)@) == text::views(old(lines)@) + section(
            row_views(items@),
            agent@,
            text::opt_view(head),
        ),
{
    broadcast use text::lemma_views_push;

    let rows: Vec<usize> = agent_rows(items, agent);
    let ghost r = rows@.map_values(|i: usize| i as int);
    let ghost all = section(row_views(items@), agent@, text::opt_view(head));
    let ghost start = text::views(lines@);
    let mut heading: String = match head {
        Some(h) => {
            let mut s: String = h;
            s.append(" : ");
            s
        },
        None => {
            let mut s: String = TOOL_INDENT.to_owned();
            s.append(SUBAGENT_MARK);
            s.append(" ");
            s
        },
    };
    let ty: String = agent_type(items, agent);
    heading.append(ty.as_str());
    heading.append(" · ");
    let did: String = rows_breakdown(items, &rows);
    heading.append(did.as_str());
    proof {
        assert(all[0] == heading@);
        assert(start.push(heading@) =~= start + all.take(1));
    }
    lines.push(heading);
    let n: usize = rows.len();
    let from: usize = if n > SUBAGENT_WINDOW {
        n - SUBAGENT_WINDOW
    } else {
        0
    };
    let ghost tail = last_of(r, SUBAGENT_WINDOW as nat);
    let mut i: usize = from;
    while i < n
        invariant
            from <= i <= n == rows@.len(),
            from == if n > SUBAGENT_WINDOW {
                n - SUBAGENT_WINDOW
            } else {
                0
            },
            r == rows@.map_values(|i: usize| i as int),
            r == rows_of(row_views(items@), agent@, items@.len()),
            tail == last_of(r, SUBAGENT_WINDOW as nat),
            all == section(row_views(items@), agent@, text::opt_view(head)),
            all.len() == 1 + tail.len(),
            forall|k: int| 0 <= k < rows@.len() ==> #[trigger] rows@[k] < items@.len(),
            text::views(lines@) == start + all.take(1 + i - from),
        decreases n - i,
    {
        let line: String = render_item_line(&items[rows[i]], false, false);
        let full: String = text::cat(SUBAGENT_INDENT, line.as_str());
        proof {
            assert(tail[i - from] == r[i as int]);
            assert(r[i as int] == rows@[i as int] as int);
            assert(all[1 + i - from] == full@);
            assert((start + all.take(1 + i - from)).push(full@) =~= start + all.take(
                2 + i - from,
            ));
        }
        lines.push(full);
        i = i + 1;
    }
    proof {
        assert(all.take(all.len() as int) =~= all);
    }
}

fn is_folding(it: &RenderItem) -> (r: bool)
    ensures
        r == folds(it@),
{
    match it {
        RenderItem::Tool { id, name, summary, status, agent, diff } => *status == ToolStatus::Done
            && agent.agent_id.is_none() && rows::is_foldable(name.as_str()),
        _ => false,
    }
}

fn flush_fold_run(lines: &mut Vec<String>, items: &Vec<RenderItem>, run: &Vec<usize>)
    requires
        forall|k: int| 0 <= k < run@.len() ==> #[trigger] run@[k] < items@.len(),
    ensures
        text::views(final(lines)@) == with_run(
            text::views(old(lines)@),
            row_views(items@),
            run@.map_values(|i: usize| i as int),
        ),
{
    broadcast use text::lemma_views_push;

    if run.len() == 1 {
        let lead: bool = lines.len() > 0;
        let line: String = render_item_line(&items[run[0]], lead, true);
        lines.push(line);
    } else if run.len() > 1 {
        let did: String = rows_breakdown(items, run);
        let mut line: String = TOOL_INDENT.to_owned();
        line.append("·  ");
        line.append(did.as_str());
        lines.push(line);
    }
}

fn head_of(items: &Vec<RenderItem>, it: &RenderItem, drawn: &Vec<String>) -> (r: Option<
    (String, String),
>)
    ensures
        match r {
            Some((a, h)) => heads(row_views(items@), it@, text::views(drawn@)) == Some(a@) && h@
                == launch_head(it@),
            None => heads(row_views(items@), it@, text::views(drawn@)) is None,
        },
{
    match it {
        RenderItem::Tool { id, name, summary, status, agent, diff } => {
            if text::same(name.as_str(), "Agent") || text::same(name.as_str(), "Task") {
                match link(items, agent, drawn) {
                    Some(a) => Some(
                        (a, tool_head(SUBAGENT_MARK, name.as_str(), summary.as_str())),
                    ),
                    None => None,
                }
            } else {
                None
            }
        },
        _ => None,
    }
}

fn agent_name(it: &RenderItem) -> (r: Option<String>)
    ensures
        text::opt_view(r) == agent_of(it@),
{
    match it {
        RenderItem::Tool { id, name, summary, status, agent, diff } => agent.agent_id.clone(),
        _ => None,
    }
}

/// Builds the lines to show: runs of finished rows folded, each subagent's rows in one section.
pub fn lines_of(items: &Vec<RenderItem>, perm_timed_out: bool, lang: Lang) -> (lines: Vec<String>)
    ensures
        text::views(lines@) == shown_lines(row_views(items@), perm_timed_out, lang),
{
    broadcast use text::lemma_views_push, text::lemma_views_empty;

    let mut lines: Vec<String> = Vec::new();
    let mut run: Vec<usize> = Vec::new();
    let mut drawn: Vec<String> = Vec::new();
    let mut i: usize = 0;
    proof {
        assert(run@.map_values(|i: usize| i as int) =~= Seq::<int>::empty());
    }
    while i < items.len()
        invariant
            i <= items@.len(),
            forall|k: int| 0 <= k < run@.len() ==> #[trigger] run@[k] < items@.len(),
            text::views(lines@) == fold(row_views(items@), i as nat).lines,
            text::views(drawn@) == fold(row_views(items@), i as nat).drawn,
            run@.map_values(|i: usize| i as int) == fold(row_views(items@), i as nat).run,
        decreases items@.len() - i,
    {
        let ghost f = fold(row_views(items@), i as nat);
        if is_folding(&items[i]) {
            let ghost before = run@;
            run.push(i);
            proof {
                assert(run@.map_values(|i: usize| i as int) =~= before.map_values(
                    |i: usize| i as int,
                ).push(i as int));
            }
        } else {
            flush_fold_run(&mut lines, items, &run);
            run.clear();
            proof {
                assert(run@.map_values(|i: usize| i as int) =~= Seq::<int>::empty());
            }
            match head_of(items, &items[i], &drawn) {
                Some((a, h)) => {
                    push_section(&mut lines, items, a.as_str(), Some(h));
                    drawn.push(a);
                },
                None => match agent_name(&items[i]) {
                    Some(a) => if !text::among(drawn.as_slice(), a.as_str()) {
                        push_section(&mut lines, items, a.as_str(), None);
                        drawn.push(a);
                    },
                    None => {
                        let lead: bool = lines.len() > 0;
                        let line: String = render_item_line(&items[i], lead, true);
                        lines.push(line);
                    },
                },
            }
        }
        i = i + 1;
    }
    flush_fold_run(&mut lines, items, &run);
    if perm_timed_out {
        lines.push(lang.pick(PERM_TIMEOUT_EN, PERM_TIMEOUT_JA).to_owned());
    }
    lines
}

// ── what holds of folding ───────────────────────────────────────────────────

/// A subagent's section is drawn at most once, and every subagent that ran a row so far is drawn
/// (but for rows that launch another one: those head that one's section).
pub proof fn law_each_agent_once(items: Seq<RowView>, n: nat)
    requires
        n <= items.len(),
    ensures
        fold(items, n).drawn.no_duplicates(),
        forall|i: int|
            0 <= i < n && agent_of(#[trigger] items[i]) is Some && !is_launch(
                pair_of(items[i]).0,
            ) ==> fold(items, n).drawn.contains(agent_of(items[i])->0),
    decreases n,
{
    if n > 0 {
        let m = (n - 1) as nat;
        law_each_agent_once(items, m);
        let f = fold(items, m);
        let g = fold(items, n);
        let it = items[n - 1];
        if !folds(it) {
            match heads(items, it, f.drawn) {
                Some(a) => {
                    lemma_linked_new(items, it, f.drawn);
                    assert(g.drawn =~= f.drawn.push(a));
                    lemma_still_drawn(f.drawn, a);
                },
                None => {},
            }
        }
        assert forall|i: int|
            0 <= i < n && agent_of(#[trigger] items[i]) is Some && !is_launch(
                pair_of(items[i]).0,
            ) implies g.drawn.contains(agent_of(items[i])->0) by {
            if i < n - 1 {
                let a = agent_of(items[i])->0;
                assert(f.drawn.contains(a));
                let k = choose|k: int| 0 <= k < f.drawn.len() && f.drawn[k] == a;
                assert(g.drawn[k] == a);
            } else if !f.drawn.contains(agent_of(it)->0) {
                assert(g.drawn.last() == agent_of(it)->0);
            }
        }
    }
}

proof fn lemma_still_drawn(drawn: Seq<Seq<char>>, a: Seq<char>)
    ensures
        forall|x: Seq<char>| drawn.contains(x) ==> #[trigger] drawn.push(a).contains(x),
{
    assert forall|x: Seq<char>| drawn.contains(x) implies #[trigger] drawn.push(a).contains(x) by {
        let k = choose|k: int| 0 <= k < drawn.len() && drawn[k] == x;
        assert(drawn.push(a)[k] == x);
    }
}

proof fn lemma_linked_new(items: Seq<RowView>, it: RowView, drawn: Seq<Seq<char>>)
    requires
        heads(items, it, drawn) is Some,
    ensures
        !drawn.contains(heads(items, it, drawn)->0),
{
    match it {
        RowView::Tool { id, name, summary, status, agent, diff } => {
            let all = agents(items, items.len());
            if agent.launched_name is Some {
                lemma_first_named_new(items, all, agent.launched_name->0, drawn, 0);
            }
        },
        _ => {},
    }
}

proof fn lemma_first_named_new(
    items: Seq<RowView>,
    all: Seq<Seq<char>>,
    name: Seq<char>,
    drawn: Seq<Seq<char>>,
    i: int,
)
    ensures
        first_named(items, all, name, drawn, i) matches Some(a) ==> !drawn.contains(a),
    decreases all.len() - i,
{
    if 0 <= i < all.len() && !(type_of(items, all[i]) == name && !drawn.contains(all[i])) {
        lemma_first_named_new(items, all, name, drawn, i + 1);
    }
}

} // verus!
