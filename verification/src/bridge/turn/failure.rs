//! A turn that failed.
use super::usage::UsageState;
use crate::bridge::render::failure::{failure_said, TurnFailureClass};
use crate::bridge::render::notice::Notice;
use crate::bridge::state::ledger::{self, Ledger, LedgerView};
use crate::bridge::state::threads::{EntryView, ThreadEntry, Threads};
use crate::bridge::worker::seats::{window_name, WorkerState, Workers, WorkersView};
use crate::bridge::worker::steps::window_target;
use crate::chat::{self, ThreadKey};
use crate::i18n::Lang;
use crate::json;
use crate::product::{Product, ProductView};
use crate::text;
use vstd::prelude::*;

verus! {

/// How often a message is sent again after a failure. A failure that comes twice is told to the
/// person.
pub const TURN_FAILURE_RETRY_CAP: u32 = 1;

/// What is done where a message might be sent again.
#[derive(Debug)]
pub enum RetryStep {
    /// Nothing can be sent again.
    Nothing,
    /// The agent would not hear it.
    NotReady(WorkerState),
    /// It was sent again before.
    Spent,
    /// It is sent again: where to, and what, as ids and envelopes.
    Send { target: String, items: Vec<(String, String)> },
}

/// What a [`RetryStep`] says.
pub enum RetryView {
    Nothing,
    NotReady(WorkerState),
    Spent,
    Send(Seq<char>, Seq<(Seq<char>, Seq<char>)>),
}

impl View for RetryStep {
    type V = RetryView;

    open spec fn view(&self) -> RetryView {
        match self {
            RetryStep::Nothing => RetryView::Nothing,
            RetryStep::NotReady(s) => RetryView::NotReady(*s),
            RetryStep::Spent => RetryView::Spent,
            RetryStep::Send { target, items } => RetryView::Send(target@, text::pair_views(items@)),
        }
    }
}

/// The session that answers the thread of a key; a key without a thread is looked up as an empty one.
pub open spec fn agent_for(m: Map<Seq<char>, EntryView>, key: Seq<char>) -> Option<Seq<char>> {
    let root = match chat::key_parts(key).1 {
        Some(ts) => ts,
        None => Seq::empty(),
    };
    if m.dom().contains(root) {
        m[root].agent_id
    } else {
        None
    }
}

pub open spec fn ids_in(items: Seq<(Seq<char>, Seq<char>)>) -> Seq<Seq<char>> {
    items.map_values(|p: (Seq<char>, Seq<char>)| p.0)
}

/// The state of the agent of a thread.
pub open spec fn agent_state(w: WorkersView, sid: Option<Seq<char>>, pid: Option<u32>) -> WorkerState {
    match sid {
        Some(s) => w.state_with(s, pid),
        None => WorkerState::Absent,
    }
}

/// What is done with the messages of a failed turn: those that can be sent again are, where their
/// agent takes messages and none of them was sent again before.
pub open spec fn retry_for(
    l: LedgerView,
    m: Map<Seq<char>, EntryView>,
    w: WorkersView,
    key: Seq<char>,
    pid: Option<u32>,
) -> RetryView {
    let items = ledger::sendable(l.at(key));
    let sid = agent_for(m, key);
    if items.len() == 0 {
        RetryView::Nothing
    } else if agent_state(w, sid, pid) != WorkerState::Ready {
        RetryView::NotReady(agent_state(w, sid, pid))
    } else if !ledger::has_budget(l.at(key), ids_in(items), TURN_FAILURE_RETRY_CAP) {
        RetryView::Spent
    } else {
        RetryView::Send(window_target(w, sid->0), items)
    }
}

/// Decides what is done with the messages of a failed turn, and spends the sending where they are
/// sent again. `pid` is the process of the thread's agent.
pub fn retry_turn_failure(
    ledger: &mut Ledger,
    threads: &Threads,
    workers: &Workers,
    key: &ThreadKey,
    pid: Option<u32>,
) -> (r: RetryStep)
    ensures
        r@ == retry_for(old(ledger)@, threads@, workers@, key@, pid),
        final(ledger)@ == if r@ is Send {
            old(ledger)@.retried(
                key@,
                ids_in(ledger::sendable(old(ledger)@.at(key@))),
                TURN_FAILURE_RETRY_CAP,
            )
        } else {
            old(ledger)@
        },
        old(ledger)@.ok() ==> final(ledger)@.ok(),
{
    let ghost l = ledger@;
    let items: Vec<(String, String)> = ledger.undisposed(key);
    proof {
        assert(text::pair_views(items@) =~= ledger::sendable(l.at(key@)));
    }
    if items.len() == 0 {
        return RetryStep::Nothing;
    }
    let root: String = match key.split().1 {
        Some(ts) => ts,
        None => String::new(),
    };
    proof {
        if chat::key_parts(key@).1 is None {
            assert(root@ =~= Seq::empty());
        }
    }
    let entry: Option<&ThreadEntry> = threads.get(root.as_str());
    let state: WorkerState = workers.state_of(entry, pid);
    if state != WorkerState::Ready {
        return RetryStep::NotReady(state);
    }
    let sid: String = match entry {
        Some(e) => match &e.agent_id {
            Some(s) => s.clone(),
            None => return RetryStep::NotReady(state),
        },
        None => return RetryStep::NotReady(state),
    };
    let mut ids: Vec<String> = Vec::new();
    let ghost all = ids_in(ledger::sendable(l.at(key@)));
    let mut i: usize = 0;
    while i < items.len()
        invariant
            i <= items@.len() == all.len(),
            all == ids_in(text::pair_views(items@)),
            text::views(ids@) =~= all.take(i as int),
        decreases items@.len() - i,
    {
        broadcast use text::lemma_views_push;

        ids.push(items[i].0.clone());
        proof {
            assert(all[i as int] == items@[i as int].0@);
            assert(all.take(i + 1) =~= all.take(i as int).push(all[i as int]));
        }
        i = i + 1;
    }
    proof {
        assert(all.take(all.len() as int) =~= all);
        if !l.by_key.dom().contains(key@) {
            assert(ledger::sendable(l.at(key@)).len() == 0);
        }
    }
    if !ledger.spend_retry(key, ids.as_slice(), TURN_FAILURE_RETRY_CAP) {
        return RetryStep::Spent;
    }
    let target: String = match workers.window_of(sid.as_str()) {
        Some(id) => id,
        None => window_name(sid.as_str()),
    };
    RetryStep::Send { target, items }
}

/// What is said in a thread where something failed.
pub fn error_frame(words: &str) -> (out: String)
    ensures
        out@ == "⚠️ "@ + words@,
{
    text::cat("⚠️ ", words)
}

/// What follows on a turn that failed.
#[derive(Debug)]
pub enum FailureStep {
    /// No thread is known to say anything in.
    Untold,
    /// The limit is reached, and the thread is told until when.
    Limited(String),
    /// The messages are sent again one after another, and nothing is said while that works. `told` is
    /// what is said where it does not.
    Resend { target: String, items: Vec<(String, String)>, told: String },
    /// The thread is told.
    Tell(String),
}

/// What a [`FailureStep`] says.
pub enum FailureView {
    Untold,
    Limited(Seq<char>),
    Resend(Seq<char>, Seq<(Seq<char>, Seq<char>)>, Seq<char>),
    Tell(Seq<char>),
}

impl View for FailureStep {
    type V = FailureView;

    open spec fn view(&self) -> FailureView {
        match self {
            FailureStep::Untold => FailureView::Untold,
            FailureStep::Limited(said) => FailureView::Limited(said@),
            FailureStep::Resend { target, items, told } => FailureView::Resend(
                target@,
                text::pair_views(items@),
                told@,
            ),
            FailureStep::Tell(words) => FailureView::Tell(words@),
        }
    }
}

/// Whether a key names a thread.
pub open spec fn in_thread(key: Option<Seq<char>>) -> bool {
    key is Some && chat::key_parts(key->0).1 is Some
}

/// What follows on a turn that failed. The limit comes before all else: to send again into it is the
/// one answer that never works. Only what may pass is sent again, and where that cannot be done, or
/// was done before, the thread is told.
pub open spec fn failure_step(
    l: LedgerView,
    m: Map<Seq<char>, EntryView>,
    w: WorkersView,
    key: Option<Seq<char>>,
    limit: Option<u64>,
    class: TurnFailureClass,
    words: Seq<char>,
    pid: Option<u32>,
    p: ProductView,
    lang: Lang,
) -> FailureView {
    if !in_thread(key) {
        FailureView::Untold
    } else if limit is Some {
        FailureView::Limited((Notice::Limited { until_ms: limit->0 }).said(p, lang))
    } else if class == TurnFailureClass::Retry {
        match retry_for(l, m, w, key->0, pid) {
            RetryView::Send(target, items) => FailureView::Resend(target, items, "⚠️ "@ + words),
            _ => FailureView::Tell("⚠️ "@ + words),
        }
    } else {
        FailureView::Tell("⚠️ "@ + words)
    }
}

/// What a failed turn was reported with.
pub open spec fn reason_in(payload: Seq<char>) -> Seq<char> {
    match json::json_text(payload, "/error_type"@) {
        Some(r) => r,
        None => ""@,
    }
}

/// The limit that counts: of an agent without a session none is known.
pub open spec fn limit_of(sid: Seq<char>, limit: Option<u64>) -> Option<u64> {
    if sid.len() > 0 {
        limit
    } else {
        None
    }
}

/// Decides what follows on a turn that failed, given what is done about such a failure and what is
/// said of it. `limit` is when the limit ends that the agent's own record says was reached.
pub fn after_failure(
    usage: &mut UsageState,
    ledger: &mut Ledger,
    threads: &Threads,
    workers: &Workers,
    key: Option<&ThreadKey>,
    limit: Option<u64>,
    class: TurnFailureClass,
    words: &str,
    pid: Option<u32>,
    product: &Product,
    lang: Lang,
) -> (r: FailureStep)
    ensures
        ({
            let k = match key {
                Some(k) => Some(k@),
                None => None,
            };
            &&& r@ == failure_step(
                old(ledger)@,
                threads@,
                workers@,
                k,
                limit,
                class,
                words@,
                pid,
                product@,
                lang,
            )
            &&& *final(usage) == (if r@ is Limited {
                UsageState { limited_until_ms: limit->0, ..*old(usage) }
            } else {
                *old(usage)
            })
            &&& final(ledger)@ == (if r@ is Resend {
                old(ledger)@.retried(
                    k->0,
                    ids_in(ledger::sendable(old(ledger)@.at(k->0))),
                    TURN_FAILURE_RETRY_CAP,
                )
            } else {
                old(ledger)@
            })
            &&& old(ledger)@.ok() ==> final(ledger)@.ok()
        }),
{
    let key: &ThreadKey = match key {
        Some(k) => k,
        None => return FailureStep::Untold,
    };
    if key.split().1.is_none() {
        return FailureStep::Untold;
    }
    match limit {
        Some(until_ms) => {
            usage.limited_until_ms = until_ms;
            let notice: Notice = Notice::Limited { until_ms };
            return FailureStep::Limited(notice.render(product, lang));
        },
        None => {},
    }
    if class == TurnFailureClass::Retry {
        match retry_turn_failure(ledger, threads, workers, key, pid) {
            RetryStep::Send { target, items } => {
                return FailureStep::Resend { target, items, told: error_frame(words) };
            },
            _ => {},
        }
    }
    FailureStep::Tell(error_frame(words))
}

/// A turn failed. `payload` is what it was reported with, as JSON.
pub fn on_turn_failure(
    usage: &mut UsageState,
    ledger: &mut Ledger,
    threads: &Threads,
    workers: &Workers,
    key: Option<&ThreadKey>,
    session_id: &str,
    limit: Option<u64>,
    payload: &str,
    pid: Option<u32>,
    product: &Product,
    lang: Lang,
) -> (r: FailureStep)
    ensures
        ({
            let k = match key {
                Some(k) => Some(k@),
                None => None,
            };
            let reason = reason_in(payload@);
            let (class, words) = failure_said(
                reason,
                text::lowercase(reason),
                product@,
                lang,
            );
            let counted = limit_of(session_id@, limit);
            &&& r@ == failure_step(
                old(ledger)@,
                threads@,
                workers@,
                k,
                counted,
                class,
                words,
                pid,
                product@,
                lang,
            )
            &&& *final(usage) == (if r@ is Limited {
                UsageState { limited_until_ms: counted->0, ..*old(usage) }
            } else {
                *old(usage)
            })
            &&& final(ledger)@ == (if r@ is Resend {
                old(ledger)@.retried(
                    k->0,
                    ids_in(ledger::sendable(old(ledger)@.at(k->0))),
                    TURN_FAILURE_RETRY_CAP,
                )
            } else {
                old(ledger)@
            })
            &&& old(ledger)@.ok() ==> final(ledger)@.ok()
        }),
{
    let reason: String = match json::text_at(payload, "/error_type") {
        Some(r) => r,
        None => "".to_owned(),
    };
    let (class, words) = TurnFailureClass::of(reason.as_str(), product, lang);
    let counted: Option<u64> = if session_id.is_empty() {
        None
    } else {
        limit
    };
    after_failure(
        usage,
        ledger,
        threads,
        workers,
        key,
        counted,
        class,
        words.as_str(),
        pid,
        product,
        lang,
    )
}

/// What follows on one message that was sent again.
#[derive(Debug, PartialEq, Eq)]
pub enum ResendStep {
    /// The next one is sent.
    Next,
    /// All were sent: the thread is shown as typing.
    Typing,
    /// The agent could not be reached. No more is sent, and the thread is told this.
    Tell(String),
}

/// What a [`ResendStep`] says.
pub enum ResendView {
    Next,
    Typing,
    Tell(Seq<char>),
}

impl View for ResendStep {
    type V = ResendView;

    open spec fn view(&self) -> ResendView {
        match self {
            ResendStep::Next => ResendView::Next,
            ResendStep::Typing => ResendView::Typing,
            ResendStep::Tell(said) => ResendView::Tell(said@),
        }
    }
}

/// Takes in what came of sending message `i` of those that are sent again. One that was delivered is
/// in the ledger as a new delivery, not read yet; the first that was not ends it, and the thread is
/// told.
pub fn resent(
    ledger: &mut Ledger,
    key: &ThreadKey,
    items: &[(String, String)],
    i: usize,
    delivered: &Result<(), String>,
    told: &str,
) -> (r: ResendStep)
    requires
        i < items@.len(),
    ensures
        match delivered {
            Ok(_) => final(ledger)@ == old(ledger)@.noted(key@, items@[i as int].0@) && r@ == if i + 1
                < items@.len() {
                ResendView::Next
            } else {
                ResendView::Typing
            },
            Err(_) => final(ledger)@ == old(ledger)@ && r@ == ResendView::Tell(told@),
        },
        old(ledger)@.ok() ==> final(ledger)@.ok(),
{
    match delivered {
        Ok(_) => {
            ledger.track(key, items[i].0.as_str());
            if i < items.len() - 1 {
                ResendStep::Next
            } else {
                ResendStep::Typing
            }
        },
        Err(_) => ResendStep::Tell(told.to_owned()),
    }
}

// ── what holds of failures ──────────────────────────────────────────────────

proof fn lemma_sendable_len(s: Seq<ledger::InflightView>)
    ensures
        ledger::sendable(s).len() <= s.len(),
        ledger::sendable(s).len() > 0 ==> exists|i: int|
            0 <= i < s.len() && ledger::sendable(s)[0].0 == (#[trigger] s[i]).id,
    decreases s.len(),
{
    if s.len() > 0 {
        let t = s.drop_last();
        lemma_sendable_len(t);
        if ledger::sendable(t).len() > 0 {
            let i = choose|i: int|
                0 <= i < t.len() && ledger::sendable(t)[0].0 == (#[trigger] t[i]).id;
            assert(s[i] == t[i]);
        } else {
            assert(s[s.len() - 1] == s.last());
        }
    }
}

proof fn lemma_sendable_spent(s: Seq<ledger::InflightView>, ids: Seq<Seq<char>>)
    ensures
        ledger::sendable(ledger::spent(s, ids)) == ledger::sendable(s),
    decreases s.len(),
{
    if s.len() > 0 {
        let t = s.drop_last();
        lemma_sendable_spent(t, ids);
        assert(ledger::spent(s, ids).drop_last() =~= ledger::spent(t, ids));
        assert(ledger::spent(s, ids).last().envelope == s.last().envelope);
        assert(ledger::spent(s, ids).last().id == s.last().id);
    }
}

/// Nothing is sent again into a limit that is reached: the thread is told until when it lasts.
pub proof fn law_limit_is_told(
    l: LedgerView,
    m: Map<Seq<char>, EntryView>,
    w: WorkersView,
    key: Seq<char>,
    until_ms: u64,
    class: TurnFailureClass,
    words: Seq<char>,
    pid: Option<u32>,
    p: ProductView,
    lang: Lang,
)
    requires
        in_thread(Some(key)),
    ensures
        failure_step(l, m, w, Some(key), Some(until_ms), class, words, pid, p, lang)
            == FailureView::Limited((Notice::Limited { until_ms }).said(p, lang)),
{
}

/// A failed turn is never passed over where its thread is known: the thread is told, or its messages
/// are sent again.
pub proof fn law_failure_is_not_silent(
    l: LedgerView,
    m: Map<Seq<char>, EntryView>,
    w: WorkersView,
    key: Seq<char>,
    limit: Option<u64>,
    class: TurnFailureClass,
    words: Seq<char>,
    pid: Option<u32>,
    p: ProductView,
    lang: Lang,
)
    requires
        in_thread(Some(key)),
    ensures
        ({
            let s = failure_step(l, m, w, Some(key), limit, class, words, pid, p, lang);
            &&& s !is Untold
            &&& s is Resend ==> s->Resend_1.len() > 0
        }),
{
}

/// A message is sent again once: after a second failure the person is told.
pub proof fn law_sent_again_once(
    l: LedgerView,
    m: Map<Seq<char>, EntryView>,
    w: WorkersView,
    key: Seq<char>,
    pid: Option<u32>,
)
    requires
        retry_for(l, m, w, key, pid) is Send,
    ensures
        retry_for(
            l.retried(key, ids_in(ledger::sendable(l.at(key))), TURN_FAILURE_RETRY_CAP),
            m,
            w,
            key,
            pid,
        ) is Spent,
{
    let s = l.at(key);
    let items = ledger::sendable(s);
    let ids = ids_in(items);
    lemma_sendable_len(s);
    lemma_sendable_spent(s, ids);
    let i = choose|i: int| 0 <= i < s.len() && items[0].0 == (#[trigger] s[i]).id;
    assert(ids[0] == s[i].id);
    assert(ids.contains(s[i].id));
    let after = l.retried(key, ids, TURN_FAILURE_RETRY_CAP);
    assert(after.at(key) == ledger::spent(s, ids));
    assert(ledger::spent(s, ids)[i].retries == s[i].retries + 1);
    assert(ledger::spent(s, ids)[i].id == s[i].id);
}

/// What was owed is sent again where there is something to send, the agent is ready for it, and none of
/// it was sent again already; else it is said what is missing, in that order. What is sent is all of it,
/// to the agent of the thread.
pub proof fn law_when_it_is_sent_again(
    l: LedgerView,
    m: Map<Seq<char>, EntryView>,
    w: WorkersView,
    key: Seq<char>,
    pid: Option<u32>,
)
    ensures
        ({
            let r = retry_for(l, m, w, key, pid);
            let items = ledger::sendable(l.at(key));
            let sid = agent_for(m, key);
            let ready = sid is Some && w.state_with(sid->0, pid) == WorkerState::Ready;
            &&& r == RetryView::Nothing <==> items.len() == 0
            &&& items.len() > 0 && sid is None ==> r == RetryView::NotReady(WorkerState::Absent)
            &&& items.len() > 0 && sid is Some && !ready ==> r == RetryView::NotReady(
                w.state_with(sid->0, pid),
            )
            &&& items.len() > 0 && ready && !ledger::has_budget(l.at(key), ids_in(items), 1)
                ==> r == RetryView::Spent
            &&& items.len() > 0 && ready && ledger::has_budget(l.at(key), ids_in(items), 1)
                ==> r == RetryView::Send(window_target(w, sid->0), items)
        }),
{
}

/// The agent of a thread is the one that the thread's record names.
pub proof fn law_agent_of_a_thread(
    m: Map<Seq<char>, EntryView>,
    channel: Seq<char>,
    ts: Seq<char>,
)
    requires
        !channel.contains(':'),
    ensures
        m.dom().contains(ts) ==> agent_for(m, channel + ":"@ + ts) == m[ts].agent_id,
        !m.dom().contains(ts) ==> agent_for(m, channel + ":"@ + ts) is None,
{
    chat::law_key_round_trip(channel, ts);
}

/// A turn that failed is told in its thread, with the words for it, unless it is tried again; only what
/// may pass is tried again, and a limit is told as the limit that it is. Outside a thread nothing is
/// told.
pub proof fn law_how_a_failure_ends(
    l: LedgerView,
    m: Map<Seq<char>, EntryView>,
    w: WorkersView,
    key: Option<Seq<char>>,
    limit: Option<u64>,
    class: TurnFailureClass,
    words: Seq<char>,
    pid: Option<u32>,
    p: ProductView,
    lang: Lang,
)
    ensures
        ({
            let s = failure_step(l, m, w, key, limit, class, words, pid, p, lang);
            let home = key is Some && chat::key_parts(key->0).1 is Some;
            &&& s is Untold <==> !home
            &&& s is Limited <==> home && limit is Some
            &&& home && limit is None && class != TurnFailureClass::Retry ==> s
                == FailureView::Tell("⚠️ "@ + words)
            &&& s is Resend <==> home && limit is None && class == TurnFailureClass::Retry
                && retry_for(l, m, w, key->0, pid) is Send
            &&& s is Tell ==> s->Tell_0 == "⚠️ "@ + words
            &&& s matches FailureView::Resend(target, items, told) ==> told == "⚠️ "@ + words
                && items == ledger::sendable(l.at(key->0))
        }),
{
}

/// A limit counts against the agent's account only where the agent is known.
pub proof fn law_whose_limit(sid: Seq<char>, limit: Option<u64>)
    ensures
        sid.len() > 0 ==> limit_of(sid, limit) == limit,
        sid.len() == 0 ==> limit_of(sid, limit) is None,
{
}

} // verus!
