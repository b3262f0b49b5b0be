//! The progress message: one post per round that lists what the agent does, updated in place and
//! settled when the round ends.
use crate::chat::slack::diff;
use crate::chat::slack::input::ToolInput;
use crate::chat::slack::lines;
use crate::chat::slack::pages;
use crate::chat::slack::rows::{self, row_views, AgentRef, AgentView, RenderItem, RowView, ToolStatus};
use crate::chat::ThreadKey;
use crate::i18n::Lang;
use crate::table::{self, Table};
use crate::text;
use vstd::prelude::*;

verus! {

/// What becomes of a progress message when its round is settled.
#[derive(Debug, PartialEq, Eq)]
pub enum StickyAction {
    Keep,
    Delete(String),
}

/// The progress message of one round.
pub struct Sticky {
    pub items: Vec<RenderItem>,
    pub posted_ts: Option<String>,
    pub dirty: bool,
    pub last_flush_ms: Option<u64>,
    /// A permission wait expired. The note stays until the next round.
    pub perm_timed_out: bool,
    /// How many lines stand on sealed pages. Those are never edited again.
    pub sealed_lines: usize,
    /// The current page begins inside a code block.
    pub sealed_open_fence: bool,
    /// How many sealed pages are still to be posted. Their ts is not taken.
    pub sealed_awaiting_post: usize,
}

/// What a [`Sticky`] holds.
pub struct StickyView {
    pub items: Seq<RowView>,
    pub posted_ts: Option<Seq<char>>,
    pub dirty: bool,
    pub last_flush_ms: Option<u64>,
    pub perm_timed_out: bool,
    pub sealed_lines: int,
    pub sealed_open_fence: bool,
    pub sealed_awaiting_post: int,
}

impl View for Sticky {
    type V = StickyView;

    open spec fn view(&self) -> StickyView {
        StickyView {
            items: row_views(self.items@),
            posted_ts: text::opt_view(self.posted_ts),
            dirty: self.dirty,
            last_flush_ms: self.last_flush_ms,
            perm_timed_out: self.perm_timed_out,
            sealed_lines: self.sealed_lines as int,
            sealed_open_fence: self.sealed_open_fence,
            sealed_awaiting_post: self.sealed_awaiting_post as int,
        }
    }
}

impl StickyView {
    /// A round in which nothing happened yet.
    pub open spec fn fresh() -> StickyView {
        StickyView {
            items: Seq::empty(),
            posted_ts: None,
            dirty: false,
            last_flush_ms: None,
            perm_timed_out: false,
            sealed_lines: 0,
            sealed_open_fence: false,
            sealed_awaiting_post: 0,
        }
    }

    /// No more sealed pages wait for their post than there are lines on sealed pages.
    pub open spec fn ok(self) -> bool {
        self.sealed_awaiting_post <= self.sealed_lines
    }

    /// The lines that are shown.
    pub open spec fn shown(self, lang: Lang) -> Seq<Seq<char>> {
        lines::shown_lines(self.items, self.perm_timed_out, lang)
    }

    /// The current page: its text, where the next one begins, and whether a fence is open at its
    /// end.
    pub open spec fn page(self, lang: Lang) -> (Seq<char>, int, bool) {
        pages::page_of(self.shown(lang), self.sealed_lines, self.sealed_open_fence)
    }

    /// The sealed lines are among those that are shown.
    pub open spec fn drawable(self, lang: Lang) -> bool {
        self.sealed_lines <= self.shown(lang).len()
    }

    /// It changed, and the last post is a second old.
    pub open spec fn due(self, now_ms: u64) -> bool {
        self.dirty && !(self.last_flush_ms is Some && now_ms - self.last_flush_ms->0 < 1000)
    }

    /// After a flush: a page that is full is sealed and the next one begins; a page that holds all
    /// that is left is clean.
    pub open spec fn flushed(self, now_ms: u64, lang: Lang) -> StickyView {
        if !self.due(now_ms) {
            self
        } else {
            let (body, next, open) = self.page(lang);
            if next < self.shown(lang).len() {
                StickyView {
                    posted_ts: None,
                    sealed_awaiting_post: self.sealed_awaiting_post + if self.posted_ts is None {
                        1int
                    } else {
                        0int
                    },
                    sealed_lines: next,
                    sealed_open_fence: open,
                    ..self
                }
            } else {
                StickyView { dirty: false, last_flush_ms: Some(now_ms), ..self }
            }
        }
    }
}

/// The place of the row of a call among `items`; their number where it has none.
pub open spec fn row_of(items: Seq<RowView>, id: Seq<char>) -> int
    decreases items.len(),
{
    if items.len() == 0 {
        0
    } else {
        let i = row_of(items.drop_last(), id);
        if i < items.len() - 1 || (items.last() matches RowView::Tool {
            id: x,
            name,
            summary,
            status,
            agent,
            diff,
        } && x == id) {
            i
        } else {
            items.len() as int
        }
    }
}

pub open spec fn newer<T>(new: Option<T>, known: Option<T>) -> Option<T> {
    if new is Some {
        new
    } else {
        known
    }
}

/// A row after a later event of its call: the state is the new one, and what is known is never
/// lost.
pub open spec fn refreshed(
    row: RowView,
    status: ToolStatus,
    agent: AgentView,
    diff: Option<Seq<char>>,
) -> RowView {
    match row {
        RowView::Tool { id, name, summary, status: old_status, agent: known, diff: old_diff } =>
        RowView::Tool {
            id,
            name,
            summary,
            status,
            agent: AgentView {
                spawned_agent_id: newer(agent.spawned_agent_id, known.spawned_agent_id),
                launched_name: newer(agent.launched_name, known.launched_name),
                ..known
            },
            diff: newer(diff, old_diff),
        },
        other => other,
    }
}

/// The rows after an event of a call: its row refreshed, or a new row.
pub open spec fn with_call(items: Seq<RowView>, row: RowView) -> Seq<RowView> {
    match row {
        RowView::Tool { id, name, summary, status, agent, diff } => {
            let i = row_of(items, id);
            if i < items.len() {
                items.update(i, refreshed(items[i], status, agent, diff))
            } else {
                items.push(row)
            }
        },
        other => items,
    }
}

/// The rows with the row of a call marked as refused.
pub open spec fn with_denial(items: Seq<RowView>, id: Seq<char>) -> Seq<RowView> {
    let i = row_of(items, id);
    if i < items.len() {
        match items[i] {
            RowView::Tool { id: x, name, summary, status, agent, diff } => items.update(
                i,
                RowView::Tool {
                    id: x,
                    name,
                    summary,
                    status: ToolStatus::Deny,
                    agent,
                    diff,
                },
            ),
            other => items,
        }
    } else {
        items
    }
}

pub open spec fn narrations(texts: Seq<Seq<char>>) -> Seq<RowView> {
    texts.map_values(|t: Seq<char>| RowView::Narration { text: t })
}

/// What a [`StickyBoard`] holds.
#[verifier::ext_equal]
pub struct BoardView {
    pub stickies: Map<Seq<char>, StickyView>,
    pub settled: Map<Seq<char>, bool>,
    pub held: Map<Seq<char>, Seq<Seq<char>>>,
    pub closed: Set<Seq<char>>,
}

/// The answers that leave no text.
pub open spec fn is_silent(kind: Seq<char>) -> bool {
    kind == "no_reply"@ || kind == "react"@
}

impl BoardView {
    /// A board without threads.
    pub open spec fn empty() -> BoardView {
        BoardView {
            stickies: Map::empty(),
            settled: Map::empty(),
            held: Map::empty(),
            closed: Set::empty(),
        }
    }

    pub open spec fn ok(self) -> bool {
        forall|k: Seq<char>| self.stickies.dom().contains(k) ==> (#[trigger] self.stickies[k]).ok()
    }

    /// The progress message of a thread, a fresh one where there is none.
    pub open spec fn at(self, k: Seq<char>) -> StickyView {
        if self.stickies.dom().contains(k) {
            self.stickies[k]
        } else {
            StickyView::fresh()
        }
    }

    pub open spec fn put(self, k: Seq<char>, s: StickyView) -> BoardView {
        BoardView { stickies: self.stickies.insert(k, s), ..self }
    }

    pub open spec fn turn_started(self, k: Seq<char>) -> BoardView {
        BoardView {
            stickies: self.stickies.insert(k, StickyView::fresh()),
            settled: self.settled.remove(k),
            held: self.held.remove(k),
            closed: self.closed.remove(k),
        }
    }

    pub open spec fn turn_ended(self, k: Seq<char>) -> BoardView {
        BoardView { held: self.held.remove(k), closed: self.closed.insert(k), ..self }
    }

    pub open spec fn is_settled(self, k: Seq<char>) -> bool {
        self.settled.dom().contains(k)
    }

    /// A row may be drawn: not after the turn ended; after a silent settlement only a tool's.
    pub open spec fn may_draw(self, k: Seq<char>, by_tool: bool) -> bool {
        !self.closed.contains(k) && (by_tool || !self.is_settled(k) || self.settled[k])
    }

    /// Work goes on after the answer: a new progress message, with what was held in front.
    pub open spec fn opened(self, k: Seq<char>, by_tool: bool) -> BoardView {
        if self.may_draw(k, by_tool) && self.is_settled(k) {
            let held = if self.held.dom().contains(k) {
                self.held[k]
            } else {
                Seq::empty()
            };
            BoardView {
                stickies: self.stickies.insert(
                    k,
                    StickyView { items: narrations(held), ..StickyView::fresh() },
                ),
                settled: self.settled.remove(k),
                held: self.held.remove(k),
                closed: self.closed,
            }
        } else {
            self
        }
    }

    /// A row for a call, or its refreshed row.
    pub open spec fn with_tool(self, k: Seq<char>, row: RowView) -> BoardView {
        if row is Tool && !rows::is_denied_name(row->name) && self.may_draw(k, true) {
            let b = self.opened(k, true);
            let s = b.at(k);
            b.put(k, StickyView { items: with_call(s.items, row), dirty: true, ..s })
        } else {
            self
        }
    }

    /// A narration: after an answer it is held back until a tool runs.
    pub open spec fn with_narration(self, k: Seq<char>, words: Seq<char>) -> BoardView {
        if self.closed.contains(k) {
            self
        } else if self.is_settled(k) && self.settled[k] {
            let held = if self.held.dom().contains(k) {
                self.held[k]
            } else {
                Seq::empty()
            };
            BoardView { held: self.held.insert(k, held.push(words)), ..self }
        } else if self.is_settled(k) {
            self
        } else {
            let s = self.at(k);
            self.put(
                k,
                StickyView {
                    items: s.items.push(RowView::Narration { text: words }),
                    dirty: true,
                    ..s
                },
            )
        }
    }

    pub open spec fn perm_expired(self, k: Seq<char>) -> BoardView {
        if self.is_settled(k) {
            self
        } else {
            self.put(k, StickyView { perm_timed_out: true, dirty: true, ..self.at(k) })
        }
    }

    pub open spec fn perm_denied(self, k: Seq<char>, id: Seq<char>) -> BoardView {
        if self.is_settled(k) || id.len() == 0 || !self.stickies.dom().contains(k) || row_of(
            self.at(k).items,
            id,
        ) >= self.at(k).items.len() {
            self
        } else {
            let s = self.at(k);
            self.put(k, StickyView { items: with_denial(s.items, id), dirty: true, ..s })
        }
    }

    pub open spec fn interrupted(self, k: Seq<char>) -> BoardView {
        if self.is_settled(k) {
            self
        } else {
            let s = self.at(k);
            let b = self.put(
                k,
                StickyView { items: s.items.push(RowView::Interrupted), dirty: true, ..s },
            );
            BoardView { settled: b.settled.insert(k, false), ..b }
        }
    }

    /// The ts of a post: a sealed page's is not taken.
    pub open spec fn posted(self, k: Seq<char>, ts: Seq<char>) -> BoardView {
        let s = self.at(k);
        if s.sealed_awaiting_post > 0 {
            self.put(k, StickyView { sealed_awaiting_post: s.sealed_awaiting_post - 1, ..s })
        } else {
            self.put(k, StickyView { posted_ts: Some(ts), ..s })
        }
    }

    /// The round is settled: nothing tracks its message any more.
    pub open spec fn settled_by(self, k: Seq<char>, kind: Seq<char>) -> BoardView {
        BoardView {
            settled: self.settled.insert(k, !is_silent(kind)),
            stickies: self.stickies.remove(k),
            ..self
        }
    }

    /// All that is due was flushed.
    pub open spec fn flushed(self, now_ms: u64, lang: Lang) -> BoardView {
        BoardView {
            stickies: self.stickies.map_values(|s: StickyView| s.flushed(now_ms, lang)),
            ..self
        }
    }

    /// What is due can be drawn.
    pub open spec fn drawable(self, now_ms: u64, lang: Lang) -> bool {
        forall|k: Seq<char>|
            self.stickies.dom().contains(k) && (#[trigger] self.stickies[k]).due(now_ms)
                ==> self.stickies[k].drawable(lang)
    }
}

/// The progress messages in flight, one per thread.
pub struct StickyBoard {
    stickies: Table<Sticky>,
    /// Settled threads, and whether work after the answer may open a new progress message.
    settled: Table<bool>,
    /// Narrations that arrived after the answer, kept back.
    held: Table<Vec<String>>,
    /// Threads whose turn is over.
    closed: Table<()>,
}

pub open spec fn sticky_views(m: Map<Seq<char>, Sticky>) -> Map<Seq<char>, StickyView> {
    m.map_values(|s: Sticky| s@)
}

pub open spec fn held_views(m: Map<Seq<char>, Vec<String>>) -> Map<Seq<char>, Seq<Seq<char>>> {
    m.map_values(|v: Vec<String>| text::views(v@))
}

impl View for StickyBoard {
    type V = BoardView;

    closed spec fn view(&self) -> BoardView {
        BoardView {
            stickies: sticky_views(self.stickies@),
            settled: self.settled@,
            held: held_views(self.held@),
            closed: self.closed@.dom(),
        }
    }
}

/// What is posted: the thread, the message to edit (a new one where there is none) and the body.
pub open spec fn posts(
    order: Seq<(Seq<char>, StickyView)>,
    n: nat,
    now_ms: u64,
    lang: Lang,
) -> Seq<(Seq<char>, Option<Seq<char>>, Seq<char>)>
    decreases n,
{
    if n == 0 {
        Seq::empty()
    } else {
        let before = posts(order, (n - 1) as nat, now_ms, lang);
        let (k, s) = order[n - 1];
        if s.due(now_ms) {
            before.push((k, s.posted_ts, s.page(lang).0))
        } else {
            before
        }
    }
}

pub open spec fn post_views(out: Seq<(ThreadKey, Option<String>, String)>) -> Seq<
    (Seq<char>, Option<Seq<char>>, Seq<char>),
> {
    out.map_values(
        |p: (ThreadKey, Option<String>, String)| (p.0@, text::opt_view(p.1), p.2@),
    )
}

fn fresh() -> (s: Sticky)
    ensures
        s@ == StickyView::fresh(),
{
    let s: Sticky = Sticky {
        items: Vec::new(),
        posted_ts: None,
        dirty: false,
        last_flush_ms: None,
        perm_timed_out: false,
        sealed_lines: 0,
        sealed_open_fence: false,
        sealed_awaiting_post: 0,
    };
    proof {
        assert(row_views(s.items@) =~= Seq::empty());
    }
    s
}

proof fn lemma_row_of(items: Seq<RowView>, id: Seq<char>)
    ensures
        0 <= row_of(items, id) <= items.len(),
        row_of(items, id) < items.len() ==> items[row_of(items, id)] is Tool && items[row_of(
            items,
            id,
        )]->id == id,
        forall|j: int|
            0 <= j < row_of(items, id) ==> !(#[trigger] items[j] is Tool && items[j]->id == id),
    decreases items.len(),
{
    if items.len() > 0 {
        lemma_row_of(items.drop_last(), id);
        assert forall|j: int| 0 <= j < row_of(items, id) implies !(#[trigger] items[j] is Tool
            && items[j]->id == id) by {
            if j < items.len() - 1 {
                assert(items.drop_last()[j] == items[j]);
            }
        }
    }
}

fn find_row(items: &Vec<RenderItem>, id: &str) -> (r: usize)
    ensures
        r == row_of(row_views(items@), id@),
        r <= items@.len(),
{
    let ghost v = row_views(items@);
    let mut i: usize = 0;
    while i < items.len()
        invariant
            i <= items@.len(),
            v == row_views(items@),
            forall|j: int| 0 <= j < i ==> !(#[trigger] v[j] is Tool && v[j]->id == id@),
        decreases items@.len() - i,
    {
        proof {
            assert(v[i as int] == items@[i as int]@);
            lemma_row_of(v, id@);
        }
        match &items[i] {
            RenderItem::Tool { id: x, name, summary, status, agent, diff } => {
                if text::same(x.as_str(), id) {
                    return i;
                }
            },
            _ => {},
        }
        i = i + 1;
    }
    proof {
        lemma_row_of(v, id@);
    }
    i
}

fn keep_newer(new: &Option<String>, known: Option<String>) -> (r: Option<String>)
    ensures
        text::opt_view(r) == newer(text::opt_view(*new), text::opt_view(known)),
{
    match new {
        Some(s) => Some(s.clone()),
        None => known,
    }
}

fn upsert_row(
    items: &mut Vec<RenderItem>,
    tool_use_id: &str,
    name: &str,
    summary: &str,
    status: ToolStatus,
    agent: &AgentRef,
    diff: Option<String>,
)
    ensures
        row_views(final(items)@) == with_call(
            row_views(old(items)@),
            (RowView::Tool {
                id: tool_use_id@,
                name: name@,
                summary: summary@,
                status,
                agent: agent@,
                diff: text::opt_view(diff),
            }),
        ),
{
    let ghost v = row_views(items@);
    let i: usize = find_row(items, tool_use_id);
    proof {
        lemma_row_of(v, tool_use_id@);
    }
    if i < items.len() {
        proof {
            assert(v[i as int] == items@[i as int]@);
        }
        let row: RenderItem = items.remove(i);
        let row2: RenderItem = match row {
            RenderItem::Tool {
                id,
                name: n,
                summary: s,
                status: old_status,
                agent: known,
                diff: old_diff,
            } => RenderItem::Tool {
                id,
                name: n,
                summary: s,
                status,
                agent: AgentRef {
                    agent_id: known.agent_id,
                    agent_type: known.agent_type,
                    spawned_agent_id: keep_newer(&agent.spawned_agent_id, known.spawned_agent_id),
                    launched_name: keep_newer(&agent.launched_name, known.launched_name),
                },
                diff: keep_newer(&diff, old_diff),
            },
            other => other,
        };
        items.insert(i, row2);
        proof {
            assert(row_views(items@) =~= v.update(
                i as int,
                refreshed(v[i as int], status, agent@, text::opt_view(diff)),
            ));
        }
    } else {
        let row: RenderItem = RenderItem::Tool {
            id: tool_use_id.to_owned(),
            name: name.to_owned(),
            summary: summary.to_owned(),
            status,
            agent: agent.clone(),
            diff,
        };
        let ghost new = row@;
        items.push(row);
        proof {
            assert(row_views(items@) =~= v.push(new));
        }
    }
}

proof fn lemma_put_sticky(m: Map<Seq<char>, Sticky>, k: Seq<char>, s: Sticky)
    ensures
        sticky_views(m.insert(k, s)) == sticky_views(m).insert(k, s@),
        sticky_views(m.remove(k)) == sticky_views(m).remove(k),
        sticky_views(m).dom() == m.dom(),
{
    assert(sticky_views(m.insert(k, s)) =~= sticky_views(m).insert(k, s@));
    assert(sticky_views(m.remove(k)) =~= sticky_views(m).remove(k));
    assert(sticky_views(m).dom() =~= m.dom());
}

impl StickyBoard {
    /// A board without threads.
    pub fn new() -> (b: Self)
        ensures
            b@ == BoardView::empty(),
            b@.ok(),
            b.in_order() == Seq::<(Seq<char>, StickyView)>::empty(),
    {
        let b: StickyBoard = StickyBoard {
            stickies: Table::new(),
            settled: Table::new(),
            held: Table::new(),
            closed: Table::new(),
        };
        proof {
            assert(b@ =~= BoardView::empty());
            assert(b.in_order() =~= Seq::empty());
        }
        b
    }

    /// Takes a thread's message off the board to change it; a fresh one where there is none.
    fn take(&mut self, key: &ThreadKey) -> (s: Sticky)
        ensures
            s@ == old(self)@.at(key@),
            final(self).stickies@ == old(self).stickies@.remove(key@),
            final(self).settled == old(self).settled,
            final(self).held == old(self).held,
            final(self).closed == old(self).closed,
    {
        proof {
            assert(sticky_views(self.stickies@).dom() =~= self.stickies@.dom());
        }
        match self.stickies.remove(key.as_str()) {
            Some(s) => s,
            None => fresh(),
        }
    }

    fn put_back(&mut self, key: &ThreadKey, s: Sticky)
        ensures
            final(self).stickies@ == old(self).stickies@.insert(key@, s),
            final(self).settled == old(self).settled,
            final(self).held == old(self).held,
            final(self).closed == old(self).closed,
    {
        let _ = self.stickies.insert(key.as_str().to_owned(), s);
    }

    /// A new round. The message before it stays as a record that nothing tracks.
    pub fn on_turn_start(&mut self, key: &ThreadKey)
        ensures
            final(self)@ == old(self)@.turn_started(key@),
            old(self)@.ok() ==> final(self)@.ok(),
    {
        let s: Sticky = fresh();
        proof {
            lemma_put_sticky(self.stickies@, key@, s);
        }
        self.put_back(key, s);
        let _ = self.settled.remove(key.as_str());
        let _ = self.held.remove(key.as_str());
        let _ = self.closed.remove(key.as_str());
        proof {
            assert(self@ =~= old(self)@.turn_started(key@)) by {
                assert(held_views(self.held@) =~= held_views(old(self).held@).remove(key@));
            }
        }
    }

    /// The turn ended: what was held back was a closing remark, and nothing is drawn any more.
    pub fn on_turn_end(&mut self, key: &ThreadKey)
        ensures
            final(self)@ == old(self)@.turn_ended(key@),
            old(self)@.ok() ==> final(self)@.ok(),
    {
        let _ = self.held.remove(key.as_str());
        let _ = self.closed.insert(key.as_str().to_owned(), ());
        proof {
            assert(self@ =~= old(self)@.turn_ended(key@)) by {
                assert(held_views(self.held@) =~= held_views(old(self).held@).remove(key@));
            }
        }
    }

    /// Whether a row may be drawn now; after an answer this opens a new message for it.
    fn open_after_answer(&mut self, key: &ThreadKey, by_tool: bool) -> (r: bool)
        ensures
            r == old(self)@.may_draw(key@, by_tool),
            final(self)@ == old(self)@.opened(key@, by_tool),
            old(self)@.ok() ==> final(self)@.ok(),
    {
        if self.closed.has(key.as_str()) {
            return false;
        }
        let answered: bool = match self.settled.get(key.as_str()) {
            None => return true,
            Some(b) => *b,
        };
        if !answered && !by_tool {
            return false;
        }
        let _ = self.settled.remove(key.as_str());
        let mut s: Sticky = fresh();
        proof {
            assert(held_views(self.held@).dom() =~= self.held@.dom());
        }
        match self.held.remove(key.as_str()) {
            Some(texts) => {
                let mut items: Vec<RenderItem> = Vec::new();
                let mut i: usize = 0;
                let ghost all = narrations(text::views(texts@));
                while i < texts.len()
                    invariant
                        i <= texts@.len(),
                        all == narrations(text::views(texts@)),
                        row_views(items@) =~= all.take(i as int),
                    decreases texts@.len() - i,
                {
                    let ghost before = row_views(items@);
                    items.push(RenderItem::Narration { text: texts[i].clone() });
                    proof {
                        assert(row_views(items@) =~= before.push(
                            RowView::Narration { text: texts@[i as int]@ },
                        ));
                        assert(text::views(texts@)[i as int] == texts@[i as int]@);
                        assert(all[i as int] == RowView::Narration { text: texts@[i as int]@ });
                    }
                    i = i + 1;
                }
                proof {
                    assert(all.take(all.len() as int) =~= all);
                }
                s.items = items;
            },
            None => {
                proof {
                    assert(narrations(Seq::empty()) =~= Seq::empty());
                }
            },
        }
        proof {
            lemma_put_sticky(self.stickies@, key@, s);
        }
        self.put_back(key, s);
        proof {
            assert(held_views(self.held@) =~= held_views(old(self).held@).remove(key@));
            assert(self@ =~= old(self)@.opened(key@, by_tool));
        }
        true
    }

    /// An event of a tool call. A later event of the same call refreshes its row; only a finished
    /// edit comes with a diff.
    pub fn upsert_tool(
        &mut self,
        key: &ThreadKey,
        tool_use_id: &str,
        name: &str,
        summary: &str,
        status: ToolStatus,
        agent: &AgentRef,
        input: &ToolInput,
    )
        ensures
            final(self)@ == old(self)@.with_tool(
                key@,
                (RowView::Tool {
                    id: tool_use_id@,
                    name: name@,
                    summary: summary@,
                    status,
                    agent: agent@,
                    diff: if status == ToolStatus::Done && rows::is_edit_name(name@) {
                        diff::diff_text(diff::hunks_of(name@, input))
                    } else {
                        None
                    },
                }),
            ),
            old(self)@.ok() ==> final(self)@.ok(),
    {
        if rows::is_denied(name) {
            return ;
        }
        if !self.open_after_answer(key, true) {
            return ;
        }
        let ghost b = self@;
        let d: Option<String> = if status == ToolStatus::Done && rows::is_edit_tool(name) {
            diff::render_edit_diff(name, input)
        } else {
            None
        };
        let mut s: Sticky = self.take(key);
        upsert_row(&mut s.items, tool_use_id, name, summary, status, agent, d);
        s.dirty = true;
        proof {
            lemma_put_sticky(self.stickies@, key@, s);
        }
        self.put_back(key, s);
        proof {
            assert(self@.stickies =~= b.stickies.insert(key@, s@));
            assert(self@ =~= b.put(key@, s@));
        }
    }

    /// A narration that became final.
    pub fn push_narration(&mut self, key: &ThreadKey, words: &str)
        ensures
            final(self)@ == old(self)@.with_narration(key@, words@),
            old(self)@.ok() ==> final(self)@.ok(),
    {
        broadcast use text::lemma_views_push, text::lemma_views_empty;

        if self.closed.has(key.as_str()) {
            return ;
        }
        let answered: bool = match self.settled.get(key.as_str()) {
            Some(b) => *b,
            None => false,
        };
        if answered {
            proof {
                assert(held_views(self.held@).dom() =~= self.held@.dom());
            }
            let mut texts: Vec<String> = match self.held.remove(key.as_str()) {
                Some(v) => v,
                None => Vec::new(),
            };
            texts.push(words.to_owned());
            let ghost v = text::views(texts@);
            let _ = self.held.insert(key.as_str().to_owned(), texts);
            proof {
                assert(held_views(self.held@) =~= held_views(old(self).held@).insert(key@, v));
                assert(self@ =~= old(self)@.with_narration(key@, words@));
            }
            return ;
        }
        if !self.open_after_answer(key, false) {
            return ;
        }
        let ghost b = self@;
        let mut s: Sticky = self.take(key);
        let ghost before = row_views(s.items@);
        s.items.push(RenderItem::Narration { text: words.to_owned() });
        s.dirty = true;
        proof {
            assert(row_views(s.items@) =~= before.push(RowView::Narration { text: words@ }));
            lemma_put_sticky(self.stickies@, key@, s);
        }
        self.put_back(key, s);
        proof {
            assert(self@.stickies =~= b.stickies.insert(key@, s@));
            assert(self@ =~= b.put(key@, s@));
        }
    }

    /// A permission prompt expired: a note is added, and no row is touched.
    pub fn on_perm_timeout(&mut self, key: &ThreadKey)
        ensures
            final(self)@ == old(self)@.perm_expired(key@),
            old(self)@.ok() ==> final(self)@.ok(),
    {
        if self.settled.has(key.as_str()) {
            return ;
        }
        let mut s: Sticky = self.take(key);
        s.perm_timed_out = true;
        s.dirty = true;
        proof {
            lemma_put_sticky(self.stickies@, key@, s);
        }
        self.put_back(key, s);
        proof {
            assert(self@.stickies =~= old(self)@.stickies.insert(key@, s@));
            assert(self@ =~= old(self)@.put(key@, s@));
        }
    }

    /// A permission was refused: that call's row is marked, and nothing is added.
    pub fn on_perm_denied(&mut self, key: &ThreadKey, tool_use_id: &str)
        ensures
            final(self)@ == old(self)@.perm_denied(key@, tool_use_id@),
            old(self)@.ok() ==> final(self)@.ok(),
    {
        if self.settled.has(key.as_str()) || tool_use_id.is_empty() {
            return ;
        }
        proof {
            assert(sticky_views(self.stickies@).dom() =~= self.stickies@.dom());
        }
        let i: usize = match self.stickies.get(key.as_str()) {
            None => return ,
            Some(s) => {
                let i: usize = find_row(&s.items, tool_use_id);
                if i >= s.items.len() {
                    return ;
                }
                i
            },
        };
        let mut s: Sticky = self.take(key);
        let ghost v = row_views(s.items@);
        proof {
            lemma_row_of(v, tool_use_id@);
            assert(v[i as int] == s.items@[i as int]@);
        }
        let row: RenderItem = s.items.remove(i);
        let row2: RenderItem = match row {
            RenderItem::Tool { id, name, summary, status, agent, diff } => RenderItem::Tool {
                id,
                name,
                summary,
                status: ToolStatus::Deny,
                agent,
                diff,
            },
            other => other,
        };
        s.items.insert(i, row2);
        s.dirty = true;
        proof {
            assert(row_views(s.items@) =~= with_denial(v, tool_use_id@));
            lemma_put_sticky(self.stickies@, key@, s);
        }
        self.put_back(key, s);
        proof {
            assert(self@.stickies =~= old(self)@.stickies.insert(key@, s@));
            assert(self@ =~= old(self)@.put(key@, s@));
        }
    }

    /// The round was cut off: a closing line is added and the round goes silent; the message stays.
    pub fn on_interrupted(&mut self, key: &ThreadKey)
        ensures
            final(self)@ == old(self)@.interrupted(key@),
            old(self)@.ok() ==> final(self)@.ok(),
    {
        if self.settled.has(key.as_str()) {
            return ;
        }
        let mut s: Sticky = self.take(key);
        let ghost before = row_views(s.items@);
        s.items.push(RenderItem::Interrupted);
        s.dirty = true;
        proof {
            assert(row_views(s.items@) =~= before.push(RowView::Interrupted));
            lemma_put_sticky(self.stickies@, key@, s);
        }
        self.put_back(key, s);
        let _ = self.settled.insert(key.as_str().to_owned(), false);
        proof {
            assert(self@.stickies =~= old(self)@.stickies.insert(key@, s@));
            assert(self@ =~= old(self)@.interrupted(key@));
        }
    }

    /// Remembers the ts of a post, so that it is edited from then on. The ts of a sealed page is
    /// let go.
    pub fn set_posted(&mut self, key: &ThreadKey, ts: &str)
        ensures
            final(self)@ == old(self)@.posted(key@, ts@),
            old(self)@.ok() ==> final(self)@.ok(),
    {
        let mut s: Sticky = self.take(key);
        if s.sealed_awaiting_post > 0 {
            s.sealed_awaiting_post = s.sealed_awaiting_post - 1;
        } else {
            s.posted_ts = Some(ts.to_owned());
        }
        proof {
            lemma_put_sticky(self.stickies@, key@, s);
        }
        self.put_back(key, s);
        proof {
            assert(self@.stickies =~= old(self)@.stickies.insert(key@, s@));
            assert(self@ =~= old(self)@.put(key@, s@));
        }
    }

    /// The ts of the progress message that a thread shows now.
    pub fn sticky_ts(&self, key: &ThreadKey) -> (r: Option<String>)
        ensures
            text::opt_view(r) == if self@.stickies.dom().contains(key@) {
                self@.stickies[key@].posted_ts
            } else {
                None
            },
    {
        proof {
            assert(sticky_views(self.stickies@).dom() =~= self.stickies@.dom());
        }
        match self.stickies.get(key.as_str()) {
            Some(s) => s.posted_ts.clone(),
            None => None,
        }
    }

    /// The threads' messages, in the order of their keys.
    pub closed spec fn in_order(&self) -> Seq<(Seq<char>, StickyView)> {
        self.stickies.entries().map_values(|r: (Seq<char>, Sticky)| (r.0, r.1@))
    }

    /// Settles a round. A message that led to an answer stays as a record; one of a round that went
    /// silent, or only reacted, is deleted.
    pub fn settle(&mut self, key: &ThreadKey, kind: &str) -> (r: StickyAction)
        ensures
            final(self)@ == old(self)@.settled_by(key@, kind@),
            ({
                let ts = if old(self)@.stickies.dom().contains(key@) {
                    old(self)@.stickies[key@].posted_ts
                } else {
                    None
                };
                if is_silent(kind@) && ts is Some {
                    r matches StickyAction::Delete(s) && s@ == ts->0
                } else {
                    r is Keep
                }
            }),
            old(self)@.ok() ==> final(self)@.ok(),
    {
        let silent: bool = text::same(kind, "no_reply") || text::same(kind, "react");
        let ts: Option<String> = self.sticky_ts(key);
        let _ = self.settled.insert(key.as_str().to_owned(), !silent);
        let _ = self.stickies.remove(key.as_str());
        proof {
            assert(sticky_views(self.stickies@) =~= sticky_views(old(self).stickies@).remove(key@));
            assert(self@ =~= old(self)@.settled_by(key@, kind@));
        }
        if silent {
            match ts {
                Some(s) => StickyAction::Delete(s),
                None => StickyAction::Keep,
            }
        } else {
            StickyAction::Keep
        }
    }

    /// Whether all that is due can be drawn: no message lost lines that stand on sealed pages.
    pub fn is_drawable(&self, now_ms: u64, lang: Lang) -> (r: bool)
        ensures
            r == self@.drawable(now_ms, lang),
    {
        let n: usize = self.stickies.len();
        let ghost rows = self.stickies.entries();
        let mut i: usize = 0;
        while i < n
            invariant
                i <= n == rows.len(),
                rows == self.stickies.entries(),
                table::ascending(rows),
                forall|j: int|
                    0 <= j < i && (#[trigger] rows[j]).1@.due(now_ms) ==> rows[j].1@.drawable(lang),
            decreases n - i,
        {
            let s: &Sticky = self.stickies.value_at(i);
            if is_due(s, now_ms) {
                let shown: Vec<String> = lines::lines_of(&s.items, s.perm_timed_out, lang);
                if s.sealed_lines > shown.len() {
                    proof {
                        let k = rows[i as int].0;
                        assert(sticky_views(self.stickies@).dom().contains(k));
                        assert(self@.stickies[k] == s@);
                    }
                    return false;
                }
            }
            i = i + 1;
        }
        proof {
            assert forall|k: Seq<char>|
                self@.stickies.dom().contains(k) && (#[trigger] self@.stickies[k]).due(
                    now_ms,
                ) implies self@.stickies[k].drawable(lang) by {
                let j = choose|j: int| table::has_row(rows, k, j);
                table::lemma_row_in_map(rows, j);
                assert(rows[j].1@.due(now_ms));
            }
        }
        true
    }

    /// The bodies that are due, each with its thread and the message to edit, and the board after
    /// they are posted. A message is flushed at most once a second; a page that is full is sealed,
    /// and the rest goes to a new message.
    pub fn take_dirty(&mut self, now_ms: u64, lang: Lang) -> (out: Vec<
        (ThreadKey, Option<String>, String),
    >)
        requires
            old(self)@.ok(),
            old(self)@.drawable(now_ms, lang),
        ensures
            final(self)@ == old(self)@.flushed(now_ms, lang),
            final(self)@.ok(),
            post_views(out@) == posts(
                old(self).in_order(),
                old(self).in_order().len(),
                now_ms,
                lang,
            ),
    {
        let n: usize = self.stickies.len();
        let ghost rows = self.stickies.entries();
        let ghost order = self.in_order();
        let mut out: Vec<(ThreadKey, Option<String>, String)> = Vec::new();
        let mut i: usize = 0;
        proof {
            assert(post_views(out@) =~= Seq::empty());
        }
        while i < n
            invariant
                i <= n == rows.len(),
                rows == old(self).stickies.entries(),
                order == old(self).in_order(),
                order.len() == n,
                old(self)@.ok(),
                old(self)@.drawable(now_ms, lang),
                table::ascending(rows),
                self.settled == old(self).settled,
                self.held == old(self).held,
                self.closed == old(self).closed,
                self.stickies.entries().len() == n,
                forall|j: int|
                    0 <= j < n ==> (#[trigger] self.stickies.entries()[j]).0 == rows[j].0,
                forall|j: int|
                    0 <= j < i ==> (#[trigger] self.stickies.entries()[j]).1@ == rows[j].1@.flushed(
                        now_ms,
                        lang,
                    ),
                forall|j: int|
                    i <= j < n ==> (#[trigger] self.stickies.entries()[j]).1 == rows[j].1,
                post_views(out@) == posts(order, i as nat, now_ms, lang),
            decreases n - i,
        {
            let key: ThreadKey = ThreadKey::parse(self.stickies.key_at(i).as_str());
            let mut s: Sticky = fresh();
            self.stickies.swap_at(i, &mut s);
            let ghost was = s@;
            proof {
                assert(rows[i as int].1@ == was);
                assert(order[i as int] == (rows[i as int].0, was));
                let k = rows[i as int].0;
                table::lemma_row_in_map(rows, i as int);
                assert(sticky_views(old(self).stickies@).dom().contains(k));
                assert(old(self)@.stickies[k] == was);
            }
            let ghost before = post_views(out@);
            match flush_one(&mut s, now_ms, lang) {
                Some((ts, body)) => {
                    let ghost text_of_page = body@;
                    out.push((key, ts, body));
                    proof {
                        assert(post_views(out@) =~= before.push(
                            (rows[i as int].0, was.posted_ts, text_of_page),
                        ));
                    }
                },
                None => {},
            }
            self.stickies.swap_at(i, &mut s);
            i = i + 1;
        }
        proof {
            let now = self.stickies.entries();
            assert(self@.stickies =~= old(self)@.flushed(now_ms, lang).stickies) by {
                lemma_rows_flushed(rows, now, now_ms, lang);
            }
            assert(self@ =~= old(self)@.flushed(now_ms, lang));
            assert forall|k: Seq<char>| self@.stickies.dom().contains(k) implies (
            #[trigger] self@.stickies[k]).ok() by {
                assert(old(self)@.stickies.dom().contains(k));
                let was = old(self)@.stickies[k];
                assert(was.ok());
                if was.due(now_ms) {
                    assert(was.drawable(lang));
                    pages::law_pages_advance(
                        was.shown(lang),
                        was.sealed_lines,
                        was.sealed_open_fence,
                    );
                }
            }
        }
        out
    }

    /// Whether the last drawing of a round can be made.
    pub fn can_finish(&self, key: &ThreadKey, lang: Lang) -> (r: bool)
        ensures
            r == (self@.stickies.dom().contains(key@) && self@.stickies[key@].dirty
                ==> self@.stickies[key@].drawable(lang)),
    {
        proof {
            assert(sticky_views(self.stickies@).dom() =~= self.stickies@.dom());
        }
        match self.stickies.get(key.as_str()) {
            None => true,
            Some(s) => {
                let shown: Vec<String> = lines::lines_of(&s.items, s.perm_timed_out, lang);
                proof {
                    assert(text::views(shown@).len() == shown@.len());
                }
                !s.dirty || s.sealed_lines <= shown.len()
            },
        }
    }

    /// The last drawing of a round, whatever the time, right before it is settled: the message to
    /// edit and the body of the current page. `None` where nothing changed.
    pub fn take_final(&mut self, key: &ThreadKey, lang: Lang) -> (r: Option<
        (Option<String>, String),
    >)
        requires
            old(self)@.stickies.dom().contains(key@) && old(self)@.stickies[key@].dirty
                ==> old(self)@.stickies[key@].drawable(lang),
        ensures
            ({
                let b = old(self)@;
                if b.stickies.dom().contains(key@) && b.stickies[key@].dirty {
                    &&& r matches Some(p) && text::opt_view(p.0) == b.stickies[key@].posted_ts
                        && p.1@ == b.stickies[key@].page(lang).0
                    &&& final(self)@ == b.put(
                        key@,
                        (StickyView { dirty: false, ..b.stickies[key@] }),
                    )
                } else {
                    r is None && final(self)@ == b
                }
            }),
            old(self)@.ok() ==> final(self)@.ok(),
    {
        proof {
            assert(sticky_views(self.stickies@).dom() =~= self.stickies@.dom());
        }
        let dirty: bool = match self.stickies.get(key.as_str()) {
            None => return None,
            Some(s) => s.dirty,
        };
        if !dirty {
            return None;
        }
        let mut s: Sticky = self.take(key);
        s.dirty = false;
        let shown: Vec<String> = lines::lines_of(&s.items, s.perm_timed_out, lang);
        let (body, next, open) = pages::page(&shown, s.sealed_lines, s.sealed_open_fence);
        let ts: Option<String> = s.posted_ts.clone();
        proof {
            lemma_put_sticky(self.stickies@, key@, s);
        }
        self.put_back(key, s);
        proof {
            assert(self@.stickies =~= old(self)@.stickies.insert(key@, s@));
            assert(self@ =~= old(self)@.put(key@, s@));
        }
        Some((ts, body))
    }

    /// Whether a tool never becomes a row.
    pub fn is_denied(name: &str) -> (r: bool)
        ensures
            r == rows::is_denied_name(name@),
    {
        rows::is_denied(name)
    }

    /// Whether a tool's finished rows may be folded.
    pub fn is_foldable(name: &str) -> (r: bool)
        ensures
            r == rows::is_foldable_name(name@),
    {
        rows::is_foldable(name)
    }

    /// The most telling argument of a tool's input, on one line.
    pub fn summarize(name: &str, input: &ToolInput) -> (out: String)
        ensures
            out@ == rows::summary_of(name@, input),
    {
        rows::summarize(name, input)
    }

    /// Whether a shell command is really a search.
    pub fn bash_is_search(command: &str) -> (r: bool)
        ensures
            r == rows::is_search_command(command@),
    {
        rows::bash_is_search(command)
    }

    /// What a list of tools did.
    pub fn tool_breakdown(items: &[(&str, &str)]) -> (out: String)
        ensures
            out@ == rows::breakdown(rows::pairs(items@)),
    {
        rows::tool_breakdown(items)
    }

    /// Cuts `line` to `room` bytes and says so with `…`.
    pub fn clip(line: &str, room: usize) -> (out: String)
        ensures
            out@ == pages::clip_text(line@, room as nat),
    {
        pages::clip(line, room)
    }
}

fn is_due(s: &Sticky, now_ms: u64) -> (r: bool)
    ensures
        r == s@.due(now_ms),
{
    if !s.dirty {
        return false;
    }
    match s.last_flush_ms {
        Some(t) => !(now_ms < t || now_ms - t < 1000),
        None => true,
    }
}

/// Flushes one message where it is due.
fn flush_one(s: &mut Sticky, now_ms: u64, lang: Lang) -> (r: Option<(Option<String>, String)>)
    requires
        old(s)@.ok(),
        old(s)@.due(now_ms) ==> old(s)@.drawable(lang),
    ensures
        final(s)@ == old(s)@.flushed(now_ms, lang),
        match r {
            Some(p) => old(s)@.due(now_ms) && text::opt_view(p.0) == old(s)@.posted_ts && p.1@
                == old(s)@.page(lang).0,
            None => !old(s)@.due(now_ms),
        },
{
    if !is_due(s, now_ms) {
        return None;
    }
    let shown: Vec<String> = lines::lines_of(&s.items, s.perm_timed_out, lang);
    let (body, next, open) = pages::page(&shown, s.sealed_lines, s.sealed_open_fence);
    if next < shown.len() {
        let ts: Option<String> = s.posted_ts.take();
        if ts.is_none() {
            s.sealed_awaiting_post = s.sealed_awaiting_post + 1;
        }
        s.sealed_lines = next;
        s.sealed_open_fence = open;
        Some((ts, body))
    } else {
        s.dirty = false;
        s.last_flush_ms = Some(now_ms);
        Some((s.posted_ts.clone(), body))
    }
}

proof fn lemma_rows_flushed(
    before: Seq<(Seq<char>, Sticky)>,
    after: Seq<(Seq<char>, Sticky)>,
    now_ms: u64,
    lang: Lang,
)
    requires
        table::ascending(before),
        before.len() == after.len(),
        forall|j: int| 0 <= j < before.len() ==> (#[trigger] after[j]).0 == before[j].0,
        forall|j: int|
            0 <= j < before.len() ==> (#[trigger] after[j]).1@ == before[j].1@.flushed(
                now_ms,
                lang,
            ),
    ensures
        sticky_views(table::rows_map(after)) == sticky_views(table::rows_map(before)).map_values(
            |s: StickyView| s.flushed(now_ms, lang),
        ),
{
    let a = sticky_views(table::rows_map(after));
    let b = sticky_views(table::rows_map(before)).map_values(
        |s: StickyView| s.flushed(now_ms, lang),
    );
    assert(table::ascending(after)) by {
        assert forall|i: int, j: int| 0 <= i < j < after.len() implies text::before(
            #[trigger] after[i].0,
            #[trigger] after[j].0,
        ) by {
            assert(after[i].0 == before[i].0 && after[j].0 == before[j].0);
        }
    }
    assert forall|k: Seq<char>| #[trigger] a.dom().contains(k) == b.dom().contains(k) && (
    a.dom().contains(k) ==> a[k] == b[k]) by {
        if a.dom().contains(k) {
            let j = choose|j: int| table::has_row(after, k, j);
            table::lemma_row_in_map(after, j);
            table::lemma_row_in_map(before, j);
        }
        if b.dom().contains(k) {
            let j = choose|j: int| table::has_row(before, k, j);
            table::lemma_row_in_map(before, j);
            assert(table::has_row(after, k, j));
        }
    }
    assert(a =~= b);
}

// ── what holds of the board ─────────────────────────────────────────────────

/// After the turn ended nothing reaches the thread: no narration and no tool changes the board,
/// until the next turn starts.
pub proof fn law_silence_after_turn_end(b: BoardView, k: Seq<char>, words: Seq<char>, row: RowView)
    requires
        b.closed.contains(k),
    ensures
        b.with_narration(k, words) == b,
        b.with_tool(k, row) == b,
        !b.turn_started(k).closed.contains(k),
{
}

/// A closing remark behind an answer opens nothing: what was said after the answer is dropped when
/// the turn ends, and no message shows it.
pub proof fn law_closing_remark_is_dropped(b: BoardView, k: Seq<char>, words: Seq<char>)
    requires
        b.is_settled(k),
        !b.closed.contains(k),
    ensures
        b.with_narration(k, words).stickies == b.stickies,
        !b.with_narration(k, words).turn_ended(k).held.dom().contains(k),
{
}

/// Work that goes on behind an answer opens a new message: it is not yet posted, it holds what was
/// said since the answer, and nothing of the message before.
pub proof fn law_work_after_answer(
    b: BoardView,
    k: Seq<char>,
    ts: Seq<char>,
    words: Seq<char>,
    row: RowView,
)
    requires
        row is Tool,
        !rows::is_denied_name(row->name),
        !b.closed.contains(k),
        !b.held.dom().contains(k),
    ensures
        ({
            let after = b.settled_by(k, "reply"@).with_narration(k, words).with_tool(k, row);
            &&& after.stickies.dom().contains(k)
            &&& after.stickies[k].posted_ts is None
            &&& after.stickies[k].items == seq![RowView::Narration { text: words }, row]
            &&& after.stickies[k].dirty
        }),
{
    reveal_strlit("reply");
    reveal_strlit("no_reply");
    reveal_strlit("react");
    assert("reply"@.len() == 5 && "no_reply"@.len() == 8 && "react"@.len() == 5);
    assert("reply"@[2] == 'p' && "react"@[2] == 'a');
    assert(!is_silent("reply"@));
    let c = b.settled_by(k, "reply"@).with_narration(k, words);
    assert(c.held[k] =~= seq![words]);
    let d = c.opened(k, true);
    assert(d.at(k).items =~= seq![RowView::Narration { text: words }]);
    lemma_row_of(d.at(k).items, row->id);
    let after = c.with_tool(k, row);
    assert(after.stickies[k].items =~= seq![RowView::Narration { text: words }, row]);
}

/// A round that went silent stays silent for words, and shows work again.
pub proof fn law_silence_stays_silent(b: BoardView, k: Seq<char>, kind: Seq<char>, words: Seq<char>)
    requires
        is_silent(kind),
    ensures
        b.settled_by(k, kind).with_narration(k, words) == b.settled_by(k, kind),
        !b.settled_by(k, kind).may_draw(k, false),
        b.settled_by(k, kind).may_draw(k, true) == !b.closed.contains(k),
{
}

/// What happens in one thread leaves the other threads alone.
pub proof fn law_threads_are_apart(
    b: BoardView,
    k: Seq<char>,
    other: Seq<char>,
    words: Seq<char>,
    row: RowView,
    kind: Seq<char>,
)
    requires
        k != other,
    ensures
        b.with_tool(k, row).at(other) == b.at(other),
        b.with_narration(k, words).at(other) == b.at(other),
        b.perm_expired(k).at(other) == b.at(other),
        b.perm_denied(k, words).at(other) == b.at(other),
        b.interrupted(k).at(other) == b.at(other),
        b.posted(k, words).at(other) == b.at(other),
        b.settled_by(k, kind).at(other) == b.at(other),
        b.turn_started(k).at(other) == b.at(other),
        b.turn_ended(k).at(other) == b.at(other),
{
}

/// A later event of a call never makes a second row of it.
pub proof fn law_one_row_per_call(items: Seq<RowView>, row: RowView, again: RowView)
    requires
        row is Tool,
        again is Tool,
        row->id == again->id,
    ensures
        with_call(with_call(items, row), again).len() == with_call(items, row).len(),
{
    lemma_row_of(items, row->id);
    let once = with_call(items, row);
    lemma_row_of(once, row->id);
    let i = row_of(items, row->id);
    if row_of(once, row->id) >= once.len() {
        assert(once[i] is Tool && once[i]->id == row->id);
    }
}

/// The progress messages are listed in the order of their threads, each once.
pub proof fn law_messages_are_listed(x: StickyBoard)
    ensures
        table::lists(x.in_order(), x@.stickies),
{
    let f = |v: Sticky| v@;
    table::lemma_entries_seen(x.stickies, f);
    assert(x.in_order() =~= x.stickies.entries().map_values(|r: (Seq<char>, Sticky)| (r.0, f(r.1))));
    assert(x@.stickies =~= x.stickies@.map_values(f));
}

/// A row follows its call: what came of the call shows whatever it was before, a failure and a refusal
/// too. What the row is called stays as it was first told; of its helper and its difference, what is
/// newly told replaces what was known, and what is not told is kept. No other row changes.
pub proof fn law_row_follows_its_call(items: Seq<RowView>, row: RowView, i: int)
    requires
        row is Tool,
        0 <= i < items.len(),
        items[i] is Tool,
        items[i]->id == row->id,
        forall|j: int| 0 <= j < i ==> !(#[trigger] items[j] is Tool && items[j]->id == row->id),
    ensures
        with_call(items, row).len() == items.len(),
        forall|j: int|
            0 <= j < items.len() && j != i ==> #[trigger] with_call(items, row)[j] == items[j],
        ({
            let now = with_call(items, row)[i];
            let was = items[i];
            &&& now is Tool
            &&& now->id == row->id
            &&& now->status == row->status
            &&& now->name == was->name
            &&& now->summary == was->summary
            &&& now->agent.agent_id == was->agent.agent_id
            &&& now->agent.agent_type == was->agent.agent_type
            &&& row->diff is Some ==> now->diff == row->diff
            &&& row->diff is None ==> now->diff == was->diff
            &&& row->agent.spawned_agent_id is Some ==> now->agent.spawned_agent_id
                == row->agent.spawned_agent_id
            &&& row->agent.spawned_agent_id is None ==> now->agent.spawned_agent_id
                == was->agent.spawned_agent_id
            &&& row->agent.launched_name is Some ==> now->agent.launched_name
                == row->agent.launched_name
            &&& row->agent.launched_name is None ==> now->agent.launched_name
                == was->agent.launched_name
        }),
{
    lemma_row_of(items, row->id);
    assert(row_of(items, row->id) == i);
}

/// A call that has no row yet gets one at the end, as it was told.
pub proof fn law_new_call_is_a_new_row(items: Seq<RowView>, row: RowView)
    requires
        row is Tool,
        forall|j: int|
            0 <= j < items.len() ==> !(#[trigger] items[j] is Tool && items[j]->id == row->id),
    ensures
        with_call(items, row) == items.push(row),
{
    lemma_row_of(items, row->id);
}

/// What is told of a call last is what shows, and two calls do not mix.
pub proof fn law_last_told_shows(items: Seq<RowView>, row: RowView)
    requires
        row is Tool,
    ensures
        exists|i: int|
            #![trigger with_call(items, row)[i]]
            0 <= i < with_call(items, row).len() && with_call(items, row)[i] is Tool && with_call(
                items,
                row,
            )[i]->id == row->id && with_call(items, row)[i]->status == row->status,
        forall|j: int|
            0 <= j < items.len() && !(items[j] is Tool && items[j]->id == row->id)
                ==> #[trigger] with_call(items, row)[j] == items[j],
{
    lemma_row_of(items, row->id);
    let i = row_of(items, row->id);
    let x = with_call(items, row)[i];
    assert(x is Tool && x->id == row->id && x->status == row->status);
}

/// A refused call is marked as refused; its row keeps all else, and the other rows stay.
pub proof fn law_denial_marks_its_row(items: Seq<RowView>, id: Seq<char>, i: int)
    requires
        0 <= i < items.len(),
        items[i] is Tool,
        items[i]->id == id,
        forall|j: int| 0 <= j < i ==> !(#[trigger] items[j] is Tool && items[j]->id == id),
    ensures
        with_denial(items, id) == items.update(
            i,
            RowView::Tool {
                id,
                name: items[i]->name,
                summary: items[i]->summary,
                status: ToolStatus::Deny,
                agent: items[i]->agent,
                diff: items[i]->diff,
            },
        ),
{
    lemma_row_of(items, id);
    assert(row_of(items, id) == i);
}

/// A tool that shows is drawn in its thread: the message has a row that carries the call's state, and
/// it is to be drawn anew.
pub proof fn law_tools_are_drawn(b: BoardView, k: Seq<char>, row: RowView)
    requires
        row is Tool,
        row->name != "TodoWrite"@,
        row->name != "ToolSearch"@,
        row->name != "advisor"@,
        !"mcp__agentgw__"@.is_prefix_of(row->name),
        !b.closed.contains(k),
    ensures
        ({
            let s = b.with_tool(k, row).stickies[k];
            &&& b.with_tool(k, row).stickies.dom().contains(k)
            &&& s.dirty
            &&& exists|i: int|
                0 <= i < s.items.len() && #[trigger] s.items[i] is Tool && s.items[i]->id == row->id
                    && s.items[i]->status == row->status
            &&& !b.settled.dom().contains(k) && b.stickies.dom().contains(k) ==> {
                &&& s.posted_ts == b.stickies[k].posted_ts
                &&& s.last_flush_ms == b.stickies[k].last_flush_ms
                &&& s.sealed_lines == b.stickies[k].sealed_lines
                &&& s.items.len() >= b.stickies[k].items.len()
            }
            &&& b.settled.dom().contains(k) ==> {
                &&& s.posted_ts is None
                &&& s.last_flush_ms is None
                &&& s.sealed_lines == 0
                &&& !b.with_tool(k, row).settled.dom().contains(k)
                &&& !b.with_tool(k, row).held.dom().contains(k)
            }
        }),
{
    let o = b.opened(k, true);
    law_last_told_shows(o.at(k).items, row);
    let s = b.with_tool(k, row).stickies[k];
    let i = choose|i: int|
        #![trigger with_call(o.at(k).items, row)[i]]
        0 <= i < with_call(o.at(k).items, row).len() && with_call(o.at(k).items, row)[i] is Tool
            && with_call(o.at(k).items, row)[i]->id == row->id && with_call(
            o.at(k).items,
            row,
        )[i]->status == row->status;
    lemma_row_of(o.at(k).items, row->id);
    assert(s.items == with_call(o.at(k).items, row));
    assert(s.items[i] is Tool && s.items[i]->id == row->id && s.items[i]->status == row->status);
}

/// The bridge's own tools, and those that only keep the agent's books, are never drawn.
pub proof fn law_own_tools_are_not_drawn(b: BoardView, k: Seq<char>, row: RowView)
    requires
        row is Tool ==> row->name == "TodoWrite"@ || row->name == "ToolSearch"@ || row->name
            == "advisor"@ || "mcp__agentgw__"@.is_prefix_of(row->name),
    ensures
        b.with_tool(k, row) == b,
{
}

/// Words said before the answer are drawn as they came, behind what was drawn; words said after a reply
/// are held back, in order; words said after a silent end are dropped.
pub proof fn law_words_are_drawn(b: BoardView, k: Seq<char>, words: Seq<char>)
    requires
        !b.closed.contains(k),
    ensures
        ({
            let after = b.with_narration(k, words);
            &&& !b.settled.dom().contains(k) ==> {
                &&& after.stickies.dom().contains(k)
                &&& after.stickies[k].dirty
                &&& after.stickies[k].items == b.at(k).items.push(
                    RowView::Narration { text: words },
                )
                &&& after.stickies[k].posted_ts == b.at(k).posted_ts
                &&& after.held == b.held
            }
            &&& b.settled.dom().contains(k) && b.settled[k] ==> {
                &&& after.stickies == b.stickies
                &&& after.held.dom().contains(k)
                &&& after.held[k] == (if b.held.dom().contains(k) {
                    b.held[k]
                } else {
                    Seq::empty()
                }).push(words)
            }
            &&& b.settled.dom().contains(k) && !b.settled[k] ==> after == b
            &&& after.settled == b.settled
            &&& after.closed == b.closed
        }),
{
}

/// A thread that is settled has no message any more; how it was settled is kept: in words, or silently.
pub proof fn law_settled(b: BoardView, k: Seq<char>, kind: Seq<char>)
    ensures
        ({
            let after = b.settled_by(k, kind);
            &&& !after.stickies.dom().contains(k)
            &&& after.settled.dom().contains(k)
            &&& after.settled[k] <==> kind != "no_reply"@ && kind != "react"@
            &&& after.held == b.held
            &&& after.closed == b.closed
        }),
{
}

/// A new turn starts on a clean sheet: an empty message, nothing settled, nothing held back, not ended.
pub proof fn law_turn_starts_clean(b: BoardView, k: Seq<char>)
    ensures
        ({
            let after = b.turn_started(k);
            let s = after.stickies[k];
            &&& after.stickies.dom().contains(k)
            &&& s.items.len() == 0 && s.posted_ts is None && !s.dirty && s.last_flush_ms is None
            &&& !s.perm_timed_out && s.sealed_lines == 0 && !s.sealed_open_fence
            &&& s.sealed_awaiting_post == 0
            &&& !after.settled.dom().contains(k)
            &&& !after.held.dom().contains(k)
            &&& !after.closed.contains(k)
        }),
{
}

/// An expired wait and an interruption show in a message that is still open, and in no other; an
/// interruption is a row of its own and ends the drawing.
pub proof fn law_notes_show_while_open(b: BoardView, k: Seq<char>)
    ensures
        b.settled.dom().contains(k) ==> b.perm_expired(k) == b && b.interrupted(k) == b,
        !b.settled.dom().contains(k) ==> {
            let e = b.perm_expired(k);
            let n = b.interrupted(k);
            &&& e.stickies.dom().contains(k) && e.stickies[k].perm_timed_out && e.stickies[k].dirty
            &&& e.stickies[k].items == b.at(k).items
            &&& e.settled == b.settled
            &&& n.stickies.dom().contains(k) && n.stickies[k].dirty
            &&& n.stickies[k].items == b.at(k).items.push(RowView::Interrupted)
            &&& n.stickies[k].perm_timed_out == b.at(k).perm_timed_out
            &&& n.settled.dom().contains(k) && !n.settled[k]
            &&& n.stickies[k].posted_ts == b.at(k).posted_ts
        },
{
}

/// A refusal shows where the message is open and has a row of the call; else nothing changes.
pub proof fn law_refusal_shows(b: BoardView, k: Seq<char>, id: Seq<char>)
    ensures
        ({
            let known = b.stickies.dom().contains(k) && exists|i: int|
                0 <= i < b.stickies[k].items.len() && #[trigger] b.stickies[k].items[i] is Tool
                    && b.stickies[k].items[i]->id == id;
            if known && id.len() > 0 && !b.settled.dom().contains(k) {
                let s = b.perm_denied(k, id).stickies[k];
                &&& b.perm_denied(k, id).stickies.dom().contains(k)
                &&& s.dirty
                &&& s.items.len() == b.stickies[k].items.len()
                &&& exists|i: int|
                    0 <= i < s.items.len() && #[trigger] s.items[i] is Tool && s.items[i]->id == id
                        && s.items[i]->status == ToolStatus::Deny
            } else {
                b.perm_denied(k, id) == b
            }
        }),
{
    lemma_row_of(b.at(k).items, id);
    let s = b.perm_denied(k, id).stickies[k];
    let i = row_of(b.at(k).items, id);
    if b.stickies.dom().contains(k) && i < b.stickies[k].items.len() {
        assert(b.stickies[k].items[i] is Tool);
        if id.len() > 0 && !b.settled.dom().contains(k) {
            assert(s.items[i] is Tool);
        }
    }
}

/// A message is drawn when it changed, and no sooner than a second after it was drawn last.
pub proof fn law_drawn_once_a_second(s: StickyView, now_ms: u64, then_ms: u64)
    ensures
        s.last_flush_ms is None ==> (s.due(now_ms) <==> s.dirty),
        s.last_flush_ms == Some(then_ms) ==> (s.due(now_ms) <==> s.dirty && now_ms >= then_ms
            + 1000),
{
}

/// A drawing takes the next page. Where more lines follow, the page is sealed and the next one begins
/// behind it, in a post of its own; where none follow, the message is up to date. What is drawn of is
/// not changed by drawing it.
pub proof fn law_drawing_moves_on(s: StickyView, now_ms: u64, lang: Lang)
    ensures
        ({
            let after = s.flushed(now_ms, lang);
            let next = s.page(lang).1;
            &&& after.items == s.items
            &&& after.perm_timed_out == s.perm_timed_out
            &&& !s.due(now_ms) ==> after == s
            &&& s.due(now_ms) && next < s.shown(lang).len() ==> {
                &&& after.dirty
                &&& after.posted_ts is None
                &&& after.sealed_lines == next
                &&& after.sealed_open_fence == s.page(lang).2
                &&& after.last_flush_ms == s.last_flush_ms
                &&& after.sealed_awaiting_post - s.sealed_awaiting_post == if s.posted_ts is None {
                    1int
                } else {
                    0int
                }
            }
            &&& s.due(now_ms) && next >= s.shown(lang).len() ==> {
                &&& !after.dirty
                &&& after.last_flush_ms == Some(now_ms)
                &&& after.posted_ts == s.posted_ts
                &&& after.sealed_lines == s.sealed_lines
                &&& after.sealed_awaiting_post == s.sealed_awaiting_post
            }
        }),
{
}

/// Posts are told apart in order: as many as were sealed before they were posted are not remembered,
/// and the first behind them is the message.
pub proof fn law_sealed_posts_are_passed_over(b: BoardView, k: Seq<char>, ts: Seq<char>)
    ensures
        b.posted(k, ts).stickies.dom().contains(k),
        b.at(k).sealed_awaiting_post > 0 ==> b.posted(k, ts).stickies[k].posted_ts == b.at(
            k,
        ).posted_ts && b.posted(k, ts).stickies[k].sealed_awaiting_post == b.at(
            k,
        ).sealed_awaiting_post - 1,
        b.at(k).sealed_awaiting_post == 0 ==> b.posted(k, ts).stickies[k].posted_ts == Some(ts)
            && b.posted(k, ts).stickies[k].sealed_awaiting_post == 0,
        b.posted(k, ts).stickies[k].items == b.at(k).items,
        b.posted(k, ts).stickies[k].dirty == b.at(k).dirty,
{
}

/// Every message that is due is posted once, in order, and none that is not.
pub proof fn law_due_messages_are_posted(
    order: Seq<(Seq<char>, StickyView)>,
    n: nat,
    now_ms: u64,
    lang: Lang,
    i: int,
)
    requires
        0 <= i < n <= order.len(),
    ensures
        order[i].1.due(now_ms) ==> posts(order, n, now_ms, lang).contains(
            (order[i].0, order[i].1.posted_ts, order[i].1.page(lang).0),
        ),
        (forall|j: int| 0 <= j < n ==> !(#[trigger] order[j]).1.due(now_ms)) ==> posts(
            order,
            n,
            now_ms,
            lang,
        ).len() == 0,
    decreases n,
{
    let before = posts(order, (n - 1) as nat, now_ms, lang);
    let all = posts(order, n, now_ms, lang);
    if i < n - 1 {
        law_due_messages_are_posted(order, (n - 1) as nat, now_ms, lang, i);
        if order[i].1.due(now_ms) {
            let x = (order[i].0, order[i].1.posted_ts, order[i].1.page(lang).0);
            let j = choose|j: int| 0 <= j < before.len() && before[j] == x;
            assert(all[j] == x);
        }
    } else if order[i].1.due(now_ms) {
        assert(all.last() == (order[i].0, order[i].1.posted_ts, order[i].1.page(lang).0));
    }
    if forall|j: int| 0 <= j < n ==> !(#[trigger] order[j]).1.due(now_ms) {
        assert(!order[n - 1].1.due(now_ms));
        if n > 1 {
            law_due_messages_are_posted(order, (n - 1) as nat, now_ms, lang, 0);
        }
    }
}

} // verus!
