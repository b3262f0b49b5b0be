//! The ledger of messages that were delivered and are not answered yet.
use super::threads::{self, EntryView, ThreadEntry, Threads};
use crate::chat::{self, ThreadKey};
use crate::table::{self, Table};
use crate::text;
use vstd::prelude::*;

verus! {

/// One message that is not answered yet.
#[derive(Debug, PartialEq, Eq)]
pub struct Inflight {
    pub id: String,
    /// The agent has read it.
    pub received: bool,
    /// What was delivered; without it nothing can be sent again.
    pub envelope: Option<String>,
    /// How often it was sent again.
    pub retries: u32,
}

impl Clone for Inflight {
    fn clone(&self) -> (r: Self)
        ensures
            r == *self,
    {
        Inflight {
            id: self.id.clone(),
            received: self.received,
            envelope: self.envelope.clone(),
            retries: self.retries,
        }
    }
}

/// What an [`Inflight`] holds.
pub struct InflightView {
    pub id: Seq<char>,
    pub received: bool,
    pub envelope: Option<Seq<char>>,
    pub retries: u32,
}

impl View for Inflight {
    type V = InflightView;

    open spec fn view(&self) -> InflightView {
        InflightView {
            id: self.id@,
            received: self.received,
            envelope: text::opt_view(self.envelope),
            retries: self.retries,
        }
    }
}

/// What a list of messages holds.
pub open spec fn item_views(v: Seq<Inflight>) -> Seq<InflightView> {
    v.map_values(|e: Inflight| e@)
}

/// A copy of a list of messages.
pub fn copy_items(v: &Vec<Inflight>) -> (out: Vec<Inflight>)
    ensures
        out@ == v@,
{
    let mut out: Vec<Inflight> = Vec::new();
    let mut i: usize = 0;
    while i < v.len()
        invariant
            i <= v@.len(),
            out@ =~= v@.take(i as int),
        decreases v@.len() - i,
    {
        out.push(v[i].clone());
        i = i + 1;
    }
    out
}

// ── lists of messages ───────────────────────────────────────────────────────

/// The place of a message in a list; its length where it is not there.
pub open spec fn place(s: Seq<InflightView>, id: Seq<char>) -> int
    decreases s.len(),
{
    if s.len() == 0 {
        0
    } else {
        let i = place(s.drop_last(), id);
        if i < s.len() - 1 || s.last().id == id {
            i
        } else {
            s.len() as int
        }
    }
}

pub proof fn lemma_place(s: Seq<InflightView>, id: Seq<char>)
    ensures
        0 <= place(s, id) <= s.len(),
        place(s, id) < s.len() ==> s[place(s, id)].id == id,
        forall|j: int| 0 <= j < place(s, id) ==> (#[trigger] s[j]).id != id,
    decreases s.len(),
{
    if s.len() > 0 {
        lemma_place(s.drop_last(), id);
        assert forall|j: int| 0 <= j < place(s, id) implies (#[trigger] s[j]).id != id by {
            if j < s.len() - 1 {
                assert(s.drop_last()[j] == s[j]);
            }
        }
    }
}

/// The list after a delivery: a message that is delivered again is not read again yet.
pub open spec fn delivered(s: Seq<InflightView>, id: Seq<char>) -> Seq<InflightView> {
    let i = place(s, id);
    if i < s.len() {
        s.update(i, InflightView { received: false, ..s[i] })
    } else {
        s.push(InflightView { id, received: false, envelope: None, retries: 0 })
    }
}

/// The list after an envelope is remembered.
pub open spec fn enveloped(s: Seq<InflightView>, id: Seq<char>, envelope: Seq<char>) -> Seq<
    InflightView,
> {
    let i = place(s, id);
    if i < s.len() {
        s.update(i, InflightView { envelope: Some(envelope), ..s[i] })
    } else {
        s
    }
}

pub open spec fn ids_of(s: Seq<InflightView>) -> Seq<Seq<char>> {
    s.map_values(|e: InflightView| e.id)
}

/// The ids of those not read yet, in order; of those among `ids` where `ids` is given.
pub open spec fn unread(s: Seq<InflightView>, ids: Option<Seq<Seq<char>>>) -> Seq<Seq<char>>
    decreases s.len(),
{
    if s.len() == 0 {
        Seq::empty()
    } else {
        let before = unread(s.drop_last(), ids);
        if !s.last().received && (ids is None || ids->0.contains(s.last().id)) {
            before.push(s.last().id)
        } else {
            before
        }
    }
}

/// The list after those were read; after those among `ids` were read where `ids` is given.
pub open spec fn read(s: Seq<InflightView>, ids: Option<Seq<Seq<char>>>) -> Seq<InflightView> {
    s.map_values(
        |e: InflightView|
            if ids is None || ids->0.contains(e.id) {
                InflightView { received: true, ..e }
            } else {
                e
            },
    )
}

/// The list without the messages of `ids`.
pub open spec fn answered(s: Seq<InflightView>, ids: Seq<Seq<char>>) -> Seq<InflightView>
    decreases s.len(),
{
    if s.len() == 0 {
        s
    } else if ids.contains(s.last().id) {
        answered(s.drop_last(), ids)
    } else {
        answered(s.drop_last(), ids).push(s.last())
    }
}

/// What can be sent again: the ids and envelopes of those that have one.
pub open spec fn sendable(s: Seq<InflightView>) -> Seq<(Seq<char>, Seq<char>)>
    decreases s.len(),
{
    if s.len() == 0 {
        Seq::empty()
    } else {
        let before = sendable(s.drop_last());
        match s.last().envelope {
            Some(env) => before.push((s.last().id, env)),
            None => before,
        }
    }
}

/// How many of the list are among `ids`.
pub open spec fn hits(s: Seq<InflightView>, ids: Seq<Seq<char>>) -> nat
    decreases s.len(),
{
    if s.len() == 0 {
        0
    } else {
        hits(s.drop_last(), ids) + if ids.contains(s.last().id) {
            1nat
        } else {
            0nat
        }
    }
}

/// All of `ids` are in the list, and each of them may be sent again.
pub open spec fn has_budget(s: Seq<InflightView>, ids: Seq<Seq<char>>, cap: u32) -> bool {
    hits(s, ids) == ids.len() && forall|i: int|
        0 <= i < s.len() && ids.contains((#[trigger] s[i]).id) ==> s[i].retries < cap
}

/// The list after those of `ids` were sent again.
pub open spec fn spent(s: Seq<InflightView>, ids: Seq<Seq<char>>) -> Seq<InflightView> {
    s.map_values(
        |e: InflightView|
            if ids.contains(e.id) {
                InflightView { retries: (e.retries + 1) as u32, ..e }
            } else {
                e
            },
    )
}

fn find(v: &Vec<Inflight>, id: &str) -> (r: usize)
    ensures
        r == place(item_views(v@), id@),
        r <= v@.len(),
{
    let ghost s = item_views(v@);
    let mut i: usize = 0;
    while i < v.len() && !text::same(v[i].id.as_str(), id)
        invariant
            i <= v@.len(),
            s == item_views(v@),
            forall|j: int| 0 <= j < i ==> (#[trigger] s[j]).id != id@,
        decreases v@.len() - i,
    {
        proof {
            assert(s[i as int] == v@[i as int]@);
        }
        i = i + 1;
    }
    proof {
        lemma_place(s, id@);
        if i < v@.len() {
            assert(s[i as int] == v@[i as int]@);
        }
    }
    i
}

fn mark(v: &mut Vec<Inflight>, ids: Option<&[String]>) -> (flipped: Vec<String>)
    ensures
        ({
            let want = match ids {
                Some(l) => Some(text::views(l@)),
                None => None,
            };
            &&& text::views(flipped@) == unread(item_views(old(v)@), want)
            &&& item_views(final(v)@) == read(item_views(old(v)@), want)
        }),
{
    broadcast use text::lemma_views_push, text::lemma_views_empty;

    let ghost want = match ids {
        Some(l) => Some(text::views(l@)),
        None => None,
    };
    let ghost s = item_views(v@);
    let mut flipped: Vec<String> = Vec::new();
    let mut done: Vec<Inflight> = Vec::new();
    let n: usize = v.len();
    let mut i: usize = 0;
    proof {
        assert(s.take(0) =~= Seq::empty());
        assert(item_views(done@) =~= Seq::empty());
    }
    while i < n
        invariant
            i <= n == v@.len(),
            s == item_views(v@),
            want == (match ids {
                Some(l) => Some(text::views(l@)),
                None => None,
            }),
            text::views(flipped@) == unread(s.take(i as int), want),
            item_views(done@) =~= read(s, want).take(i as int),
        decreases n - i,
    {
        let mut e: Inflight = v[i].clone();
        proof {
            assert(s[i as int] == e@);
            assert(s.take(i + 1).drop_last() =~= s.take(i as int));
        }
        let mine: bool = match ids {
            Some(l) => text::among(l, e.id.as_str()),
            None => true,
        };
        if mine {
            if !e.received {
                flipped.push(e.id.clone());
            }
            e.received = true;
        }
        let ghost before = item_views(done@);
        let ghost new = e@;
        done.push(e);
        proof {
            assert(item_views(done@) =~= before.push(new));
            assert(read(s, want)[i as int] == new);
            assert(read(s, want).take(i + 1) =~= read(s, want).take(i as int).push(new));
        }
        i = i + 1;
    }
    proof {
        assert(s.take(n as int) =~= s);
        assert(read(s, want).take(n as int) =~= read(s, want));
    }
    *v = done;
    flipped
}

// ── the ledger ──────────────────────────────────────────────────────────────

/// What a [`Ledger`] holds.
#[verifier::ext_equal]
pub struct LedgerView {
    pub by_key: Map<Seq<char>, Seq<InflightView>>,
    pub dirty: bool,
}

impl LedgerView {
    /// The messages of a thread that are not answered.
    pub open spec fn at(self, k: Seq<char>) -> Seq<InflightView> {
        if self.by_key.dom().contains(k) {
            self.by_key[k]
        } else {
            Seq::empty()
        }
    }

    /// A thread is in the ledger exactly where something of it is not answered, and no message is
    /// in it twice.
    pub open spec fn ok(self) -> bool {
        &&& forall|k: Seq<char>|
            self.by_key.dom().contains(k) ==> (#[trigger] self.by_key[k]).len() > 0
        &&& forall|k: Seq<char>|
            self.by_key.dom().contains(k) ==> #[trigger] ids_of(self.by_key[k]).no_duplicates()
    }

    pub open spec fn put(self, k: Seq<char>, s: Seq<InflightView>, dirty: bool) -> LedgerView {
        LedgerView { by_key: self.by_key.insert(k, s), dirty: self.dirty || dirty }
    }

    pub open spec fn noted(self, k: Seq<char>, id: Seq<char>) -> LedgerView {
        self.put(k, delivered(self.at(k), id), true)
    }

    pub open spec fn remembered(self, k: Seq<char>, id: Seq<char>, env: Seq<char>) -> LedgerView {
        if place(self.at(k), id) < self.at(k).len() {
            self.put(k, enveloped(self.at(k), id, env), true)
        } else {
            self
        }
    }

    pub open spec fn received(self, k: Seq<char>, ids: Option<Seq<Seq<char>>>) -> LedgerView {
        if self.by_key.dom().contains(k) {
            self.put(k, read(self.at(k), ids), unread(self.at(k), ids).len() > 0)
        } else {
            self
        }
    }

    pub open spec fn disposed(self, k: Seq<char>, ids: Seq<Seq<char>>) -> LedgerView {
        if self.by_key.dom().contains(k) {
            let left = answered(self.by_key[k], ids);
            if left.len() == 0 {
                LedgerView { by_key: self.by_key.remove(k), dirty: true }
            } else {
                self.put(k, left, true)
            }
        } else {
            self
        }
    }

    pub open spec fn disposed_all(self, k: Seq<char>) -> LedgerView {
        LedgerView {
            by_key: self.by_key.remove(k),
            dirty: self.dirty || self.at(k).len() > 0,
        }
    }

    pub open spec fn retried(self, k: Seq<char>, ids: Seq<Seq<char>>, cap: u32) -> LedgerView {
        if self.by_key.dom().contains(k) && has_budget(self.by_key[k], ids, cap) {
            self.put(k, spent(self.by_key[k], ids), true)
        } else {
            self
        }
    }

    /// Only the threads of `keep` are left.
    pub open spec fn kept(self, keep: Seq<Seq<char>>) -> LedgerView {
        LedgerView {
            by_key: self.by_key.restrict(keep.to_set()),
            dirty: self.dirty || exists|k: Seq<char>|
                self.by_key.dom().contains(k) && !keep.contains(k),
        }
    }
}

/// Messages that were delivered and are not answered, by thread.
pub struct Ledger {
    by_key: Table<Vec<Inflight>>,
    dirty: bool,
}

pub open spec fn list_views(m: Map<Seq<char>, Vec<Inflight>>) -> Map<Seq<char>, Seq<InflightView>> {
    m.map_values(|v: Vec<Inflight>| item_views(v@))
}

impl View for Ledger {
    type V = LedgerView;

    closed spec fn view(&self) -> LedgerView {
        LedgerView { by_key: list_views(self.by_key@), dirty: self.dirty }
    }
}

proof fn lemma_lists(m: Map<Seq<char>, Vec<Inflight>>, k: Seq<char>, v: Vec<Inflight>)
    ensures
        list_views(m.insert(k, v)) == list_views(m).insert(k, item_views(v@)),
        list_views(m.remove(k)) == list_views(m).remove(k),
        list_views(m).dom() == m.dom(),
{
    assert(list_views(m.insert(k, v)) =~= list_views(m).insert(k, item_views(v@)));
    assert(list_views(m.remove(k)) =~= list_views(m).remove(k));
    assert(list_views(m).dom() =~= m.dom());
}

impl Ledger {
    /// An empty ledger.
    pub fn new() -> (l: Self)
        ensures
            l@.by_key == Map::<Seq<char>, Seq<InflightView>>::empty(),
            !l@.dirty,
            l@.ok(),
            l.rows() == Seq::<(Seq<char>, Seq<InflightView>)>::empty(),
    {
        let l: Ledger = Ledger { by_key: Table::new(), dirty: false };
        proof {
            assert(l.rows() =~= Seq::empty());
            assert(l@.by_key =~= Map::<Seq<char>, Seq<InflightView>>::empty());
        }
        l
    }

    /// Takes a thread's list out to change it.
    fn take(&mut self, key: &ThreadKey) -> (r: Option<Vec<Inflight>>)
        ensures
            match r {
                Some(v) => old(self)@.by_key.dom().contains(key@) && item_views(v@)
                    == old(self)@.by_key[key@],
                None => !old(self)@.by_key.dom().contains(key@),
            },
            final(self)@.by_key == old(self)@.by_key.remove(key@),
            final(self)@.dirty == old(self)@.dirty,
    {
        proof {
            assert(list_views(self.by_key@).dom() =~= self.by_key@.dom());
        }
        let r: Option<Vec<Inflight>> = self.by_key.remove(key.as_str());
        proof {
            assert(list_views(self.by_key@) =~= list_views(old(self).by_key@).remove(key@));
        }
        r
    }

    fn put_back(&mut self, key: &ThreadKey, v: Vec<Inflight>, dirty: bool)
        ensures
            final(self)@.by_key == old(self)@.by_key.insert(key@, item_views(v@)),
            final(self)@.dirty == (old(self)@.dirty || dirty),
    {
        proof {
            lemma_lists(self.by_key@, key@, v);
        }
        let _ = self.by_key.insert(key.as_str().to_owned(), v);
        self.dirty = self.dirty || dirty;
    }

    /// Records a delivery. A message that is delivered again counts as not read.
    pub fn track(&mut self, key: &ThreadKey, id: &str)
        ensures
            final(self)@ == old(self)@.noted(key@, id@),
            old(self)@.ok() ==> final(self)@.ok(),
    {
        let mut v: Vec<Inflight> = match self.take(key) {
            Some(v) => v,
            None => Vec::new(),
        };
        let ghost s = item_views(v@);
        proof {
            assert(s =~= old(self)@.at(key@));
            lemma_place(s, id@);
        }
        let i: usize = find(&v, id);
        if i < v.len() {
            proof {
                assert(s[i as int] == v@[i as int]@);
            }
            let mut e: Inflight = v.remove(i);
            e.received = false;
            v.insert(i, e);
        } else {
            v.push(
                Inflight { id: id.to_owned(), received: false, envelope: None, retries: 0 },
            );
        }
        proof {
            assert(item_views(v@) =~= delivered(s, id@));
            lemma_delivered_ok(s, id@);
        }
        self.put_back(key, v, true);
        proof {
            assert(self@ =~= old(self)@.noted(key@, id@));
        }
    }

    /// Remembers what was delivered.
    pub fn remember_envelope(&mut self, key: &ThreadKey, id: &str, envelope: &str)
        ensures
            final(self)@ == old(self)@.remembered(key@, id@, envelope@),
            old(self)@.ok() ==> final(self)@.ok(),
    {
        let mut v: Vec<Inflight> = match self.take(key) {
            Some(v) => v,
            None => {
                proof {
                    assert(self@ =~= old(self)@);
                }
                return ;
            },
        };
        let ghost s = item_views(v@);
        proof {
            assert(s =~= old(self)@.at(key@));
            lemma_place(s, id@);
        }
        let i: usize = find(&v, id);
        let mut dirty: bool = false;
        if i < v.len() {
            proof {
                assert(s[i as int] == v@[i as int]@);
            }
            let mut e: Inflight = v.remove(i);
            e.envelope = Some(envelope.to_owned());
            v.insert(i, e);
            dirty = true;
        }
        proof {
            assert(item_views(v@) =~= enveloped(s, id@, envelope@));
            assert(ids_of(enveloped(s, id@, envelope@)) =~= ids_of(s));
        }
        self.put_back(key, v, dirty);
        proof {
            assert(self@ =~= old(self)@.remembered(key@, id@, envelope@));
        }
    }

    /// What can be sent again, as ids and envelopes.
    pub fn undisposed(&self, key: &ThreadKey) -> (out: Vec<(String, String)>)
        ensures
            out@.map_values(|p: (String, String)| (p.0@, p.1@)) == sendable(self@.at(key@)),
    {
        proof {
            assert(list_views(self.by_key@).dom() =~= self.by_key@.dom());
        }
        let mut out: Vec<(String, String)> = Vec::new();
        proof {
            assert(out@.map_values(|p: (String, String)| (p.0@, p.1@)) =~= Seq::empty());
        }
        match self.by_key.get(key.as_str()) {
            None => out,
            Some(v) => {
                let ghost s = item_views(v@);
                let mut i: usize = 0;
                proof {
                    assert(s.take(0) =~= Seq::empty());
                }
                while i < v.len()
                    invariant
                        i <= v@.len(),
                        s == item_views(v@),
                        out@.map_values(|p: (String, String)| (p.0@, p.1@)) == sendable(
                            s.take(i as int),
                        ),
                    decreases v@.len() - i,
                {
                    proof {
                        assert(s[i as int] == v@[i as int]@);
                        assert(s.take(i + 1).drop_last() =~= s.take(i as int));
                    }
                    match &v[i].envelope {
                        Some(env) => {
                            let ghost before = out@;
                            out.push((v[i].id.clone(), env.clone()));
                            proof {
                                assert(out@.map_values(|p: (String, String)| (p.0@, p.1@))
                                    =~= before.map_values(
                                    |p: (String, String)| (p.0@, p.1@),
                                ).push((v@[i as int].id@, env@)));
                            }
                        },
                        None => {},
                    }
                    i = i + 1;
                }
                proof {
                    assert(s.take(s.len() as int) =~= s);
                }
                out
            },
        }
    }

    /// Spends one sending of each of `ids`, where all of them are there and have one left; of none
    /// of them otherwise.
    pub fn spend_retry(&mut self, key: &ThreadKey, ids: &[String], cap: u32) -> (r: bool)
        ensures
            final(self)@ == old(self)@.retried(key@, text::views(ids@), cap),
            r == (old(self)@.by_key.dom().contains(key@) && has_budget(
                old(self)@.by_key[key@],
                text::views(ids@),
                cap,
            )),
            old(self)@.ok() ==> final(self)@.ok(),
    {
        let mut v: Vec<Inflight> = match self.take(key) {
            Some(v) => v,
            None => {
                proof {
                    assert(self@ =~= old(self)@);
                }
                return false;
            },
        };
        let ghost s = item_views(v@);
        let ghost want = text::views(ids@);
        let mut count: usize = 0;
        let mut free: bool = true;
        let n: usize = v.len();
        let mut i: usize = 0;
        proof {
            assert(s.take(0) =~= Seq::empty());
        }
        while i < n
            invariant
                i <= n == v@.len(),
                s == item_views(v@),
                want == text::views(ids@),
                count <= i,
                count == hits(s.take(i as int), want),
                free == (forall|j: int|
                    0 <= j < i && want.contains((#[trigger] s[j]).id) ==> s[j].retries < cap),
            decreases n - i,
        {
            proof {
                assert(s[i as int] == v@[i as int]@);
                assert(s.take(i + 1).drop_last() =~= s.take(i as int));
            }
            if text::among(ids, v[i].id.as_str()) {
                count = count + 1;
                if v[i].retries >= cap {
                    free = false;
                }
            }
            i = i + 1;
        }
        proof {
            assert(s.take(n as int) =~= s);
        }
        if count != ids.len() || !free {
            self.put_back(key, v, false);
            proof {
                assert(self@ =~= old(self)@);
            }
            return false;
        }
        let mut done: Vec<Inflight> = Vec::new();
        let mut k: usize = 0;
        proof {
            assert(item_views(done@) =~= Seq::empty());
        }
        while k < n
            invariant
                k <= n == v@.len(),
                s == item_views(v@),
                want == text::views(ids@),
                forall|j: int|
                    0 <= j < n && want.contains((#[trigger] s[j]).id) ==> s[j].retries < cap,
                item_views(done@) =~= spent(s, want).take(k as int),
            decreases n - k,
        {
            let mut e: Inflight = v[k].clone();
            proof {
                assert(s[k as int] == e@);
            }
            if text::among(ids, e.id.as_str()) {
                e.retries = e.retries + 1;
            }
            let ghost before = item_views(done@);
            let ghost new = e@;
            done.push(e);
            proof {
                assert(item_views(done@) =~= before.push(new));
                assert(spent(s, want)[k as int] == new);
                assert(spent(s, want).take(k + 1) =~= spent(s, want).take(k as int).push(new));
            }
            k = k + 1;
        }
        proof {
            assert(spent(s, want).take(n as int) =~= spent(s, want));
            assert(ids_of(spent(s, want)) =~= ids_of(s));
        }
        self.put_back(key, done, true);
        proof {
            assert(self@ =~= old(self)@.retried(key@, want, cap));
        }
        true
    }

    /// Marks a thread's messages as read, and returns the ids that were not read before.
    pub fn mark_received(&mut self, key: &ThreadKey) -> (flipped: Vec<String>)
        ensures
            final(self)@ == old(self)@.received(key@, None),
            text::views(flipped@) == unread(old(self)@.at(key@), None),
            old(self)@.ok() ==> final(self)@.ok(),
    {
        broadcast use text::lemma_views_empty;

        let mut v: Vec<Inflight> = match self.take(key) {
            Some(v) => v,
            None => {
                proof {
                    assert(self@ =~= old(self)@);
                }
                return Vec::new();
            },
        };
        let ghost s = item_views(v@);
        let flipped: Vec<String> = mark(&mut v, None);
        proof {
            assert(ids_of(read(s, None)) =~= ids_of(s));
        }
        let dirty: bool = flipped.len() > 0;
        self.put_back(key, v, dirty);
        proof {
            assert(self@ =~= old(self)@.received(key@, None));
        }
        flipped
    }

    /// Marks those of `ids` as read, and returns the ones that were not read before.
    pub fn mark_received_ids(&mut self, key: &ThreadKey, ids: &[String]) -> (flipped: Vec<String>)
        ensures
            final(self)@ == old(self)@.received(key@, Some(text::views(ids@))),
            text::views(flipped@) == unread(old(self)@.at(key@), Some(text::views(ids@))),
            old(self)@.ok() ==> final(self)@.ok(),
    {
        broadcast use text::lemma_views_empty;

        let mut v: Vec<Inflight> = match self.take(key) {
            Some(v) => v,
            None => {
                proof {
                    assert(self@ =~= old(self)@);
                }
                return Vec::new();
            },
        };
        let ghost s = item_views(v@);
        let ghost want = Some(text::views(ids@));
        let flipped: Vec<String> = mark(&mut v, Some(ids));
        proof {
            assert(ids_of(read(s, want)) =~= ids_of(s));
        }
        let dirty: bool = flipped.len() > 0;
        self.put_back(key, v, dirty);
        proof {
            assert(self@ =~= old(self)@.received(key@, want));
        }
        flipped
    }

    /// Drops the messages that an answer covered.
    pub fn disposed(&mut self, key: &ThreadKey, ids: &[String])
        ensures
            final(self)@ == old(self)@.disposed(key@, text::views(ids@)),
            old(self)@.ok() ==> final(self)@.ok(),
    {
        let v: Vec<Inflight> = match self.take(key) {
            Some(v) => v,
            None => {
                proof {
                    assert(self@ =~= old(self)@);
                }
                return ;
            },
        };
        let ghost s = item_views(v@);
        let ghost want = text::views(ids@);
        let mut left: Vec<Inflight> = Vec::new();
        let mut i: usize = 0;
        proof {
            assert(s.take(0) =~= Seq::empty());
            assert(item_views(left@) =~= Seq::empty());
        }
        while i < v.len()
            invariant
                i <= v@.len(),
                s == item_views(v@),
                want == text::views(ids@),
                item_views(left@) == answered(s.take(i as int), want),
            decreases v@.len() - i,
        {
            proof {
                assert(s[i as int] == v@[i as int]@);
                assert(s.take(i + 1).drop_last() =~= s.take(i as int));
            }
            if !text::among(ids, v[i].id.as_str()) {
                let ghost before = item_views(left@);
                left.push(v[i].clone());
                proof {
                    assert(item_views(left@) =~= before.push(s[i as int]));
                }
            }
            i = i + 1;
        }
        proof {
            assert(s.take(s.len() as int) =~= s);
            lemma_answered_ok(s, want);
        }
        if left.len() > 0 {
            self.put_back(key, left, true);
        } else {
            self.dirty = true;
        }
        proof {
            assert(self@ =~= old(self)@.disposed(key@, want));
        }
    }

    /// Drops all of a thread's messages, and returns their ids.
    pub fn dispose_all(&mut self, key: &ThreadKey) -> (dropped: Vec<String>)
        ensures
            final(self)@ == old(self)@.disposed_all(key@),
            text::views(dropped@) == ids_of(old(self)@.at(key@)),
            old(self)@.ok() ==> final(self)@.ok(),
    {
        let dropped: Vec<String> = self.pending(key);
        let r: Option<Vec<Inflight>> = self.take(key);
        self.dirty = self.dirty || dropped.len() > 0;
        proof {
            assert(text::views(dropped@).len() == old(self)@.at(key@).len());
            assert(self@ =~= old(self)@.disposed_all(key@));
        }
        dropped
    }

    /// The ids of a thread's messages that are not read yet.
    pub fn unreceived(&self, key: &ThreadKey) -> (out: Vec<String>)
        ensures
            text::views(out@) == unread(self@.at(key@), None),
    {
        broadcast use text::lemma_views_push, text::lemma_views_empty;

        proof {
            assert(list_views(self.by_key@).dom() =~= self.by_key@.dom());
        }
        let mut out: Vec<String> = Vec::new();
        match self.by_key.get(key.as_str()) {
            None => out,
            Some(v) => {
                let ghost s = item_views(v@);
                let mut i: usize = 0;
                proof {
                    assert(s.take(0) =~= Seq::empty());
                }
                while i < v.len()
                    invariant
                        i <= v@.len(),
                        s == item_views(v@),
                        text::views(out@) == unread(s.take(i as int), None),
                    decreases v@.len() - i,
                {
                    proof {
                        assert(s[i as int] == v@[i as int]@);
                        assert(s.take(i + 1).drop_last() =~= s.take(i as int));
                    }
                    if !v[i].received {
                        out.push(v[i].id.clone());
                    }
                    i = i + 1;
                }
                proof {
                    assert(s.take(s.len() as int) =~= s);
                }
                out
            },
        }
    }

    /// The ids of a thread's messages that are not answered.
    pub fn pending(&self, key: &ThreadKey) -> (out: Vec<String>)
        ensures
            text::views(out@) == ids_of(self@.at(key@)),
    {
        proof {
            assert(list_views(self.by_key@).dom() =~= self.by_key@.dom());
        }
        let mut out: Vec<String> = Vec::new();
        match self.by_key.get(key.as_str()) {
            None => {
                proof {
                    assert(text::views(out@) =~= ids_of(self@.at(key@)));
                }
                out
            },
            Some(v) => {
                let ghost s = item_views(v@);
                let mut i: usize = 0;
                while i < v.len()
                    invariant
                        i <= v@.len(),
                        s == item_views(v@),
                        text::views(out@) =~= ids_of(s).take(i as int),
                    decreases v@.len() - i,
                {
                    broadcast use text::lemma_views_push;

                    proof {
                        assert(s[i as int] == v@[i as int]@);
                        assert(ids_of(s).take(i + 1) =~= ids_of(s).take(i as int).push(
                            s[i as int].id,
                        ));
                    }
                    out.push(v[i].id.clone());
                    i = i + 1;
                }
                proof {
                    assert(ids_of(s).take(s.len() as int) =~= ids_of(s));
                }
                out
            },
        }
    }

    /// The threads that hold messages without an answer, in the order of their keys.
    pub fn pending_keys(&self) -> (out: Vec<ThreadKey>)
        ensures
            forall|k: Seq<char>|
                self@.by_key.dom().contains(k) <==> exists|i: int|
                    0 <= i < out@.len() && (#[trigger] out@[i])@ == k,
            forall|i: int, j: int|
                0 <= i < j < out@.len() ==> text::before(
                    (#[trigger] out@[i])@,
                    (#[trigger] out@[j])@,
                ),
    {
        let n: usize = self.by_key.len();
        let ghost rows = self.by_key.entries();
        let mut out: Vec<ThreadKey> = Vec::new();
        let mut i: usize = 0;
        while i < n
            invariant
                i <= n == rows.len(),
                rows == self.by_key.entries(),
                out@.len() == i,
                forall|j: int| 0 <= j < i ==> (#[trigger] out@[j])@ == rows[j].0,
            decreases n - i,
        {
            out.push(ThreadKey::parse(self.by_key.key_at(i).as_str()));
            i = i + 1;
        }
        proof {
            assert(list_views(self.by_key@).dom() =~= self.by_key@.dom());
            assert forall|k: Seq<char>|
                self@.by_key.dom().contains(k) implies exists|i: int|
                0 <= i < out@.len() && (#[trigger] out@[i])@ == k by {
                let j = choose|j: int| table::has_row(rows, k, j);
                assert(out@[j]@ == k);
            }
            assert forall|k: Seq<char>|
                (exists|i: int|
                    0 <= i < out@.len() && (#[trigger] out@[i])@
                        == k) implies self@.by_key.dom().contains(k) by {
                let i = choose|i: int| 0 <= i < out@.len() && (#[trigger] out@[i])@ == k;
                table::lemma_row_in_map(rows, i);
            }
        }
        out
    }

    /// The thread that holds a message without an answer; the first one, by key, where several do.
    pub fn key_of_id(&self, id: &str) -> (r: Option<ThreadKey>)
        ensures
            match r {
                Some(k) => self@.by_key.dom().contains(k@) && ids_of(
                    self@.by_key[k@],
                ).contains(id@) && forall|x: Seq<char>|
                    self@.by_key.dom().contains(x) && text::before(x, k@) ==> !(#[trigger] ids_of(
                        self@.by_key[x],
                    )).contains(id@),
                None => forall|x: Seq<char>|
                    self@.by_key.dom().contains(x) ==> !(#[trigger] ids_of(
                        self@.by_key[x],
                    )).contains(id@),
            },
    {
        let n: usize = self.by_key.len();
        let ghost rows = self.by_key.entries();
        let mut i: usize = 0;
        proof {
            assert(list_views(self.by_key@).dom() =~= self.by_key@.dom());
        }
        while i < n
            invariant
                i <= n == rows.len(),
                rows == self.by_key.entries(),
                table::ascending(rows),
                list_views(self.by_key@).dom() == self.by_key@.dom(),
                forall|j: int|
                    0 <= j < i ==> !ids_of(item_views((#[trigger] rows[j]).1@)).contains(id@),
            decreases n - i,
        {
            let v: &Vec<Inflight> = self.by_key.value_at(i);
            let ghost s = item_views(v@);
            let p: usize = find(v, id);
            proof {
                lemma_place(s, id@);
            }
            if p < v.len() {
                let k: ThreadKey = ThreadKey::parse(self.by_key.key_at(i).as_str());
                proof {
                    assert(ids_of(s)[p as int] == id@);
                    assert forall|x: Seq<char>|
                        self@.by_key.dom().contains(x) && text::before(x, k@) implies !(
                    #[trigger] ids_of(self@.by_key[x])).contains(id@) by {
                        let j = choose|j: int| table::has_row(rows, x, j);
                        table::lemma_row_in_map(rows, j);
                        if j >= i {
                            text::lemma_before_irreflexive(x);
                            if j > i {
                                text::lemma_before_transitive(x, k@, x);
                            }
                        }
                    }
                }
                return Some(k);
            }
            proof {
                assert forall|q: int| 0 <= q < ids_of(s).len() implies ids_of(s)[q] != id@ by {
                    assert(s[q].id != id@);
                }
            }
            i = i + 1;
        }
        proof {
            assert forall|x: Seq<char>| self@.by_key.dom().contains(x) implies !(#[trigger] ids_of(
                self@.by_key[x],
            )).contains(id@) by {
                let j = choose|j: int| table::has_row(rows, x, j);
                table::lemma_row_in_map(rows, j);
            }
        }
        None
    }

    /// Keeps only the threads of `keep`.
    pub fn retain_keys(&mut self, keep: &[ThreadKey])
        ensures
            final(self)@ == old(self)@.kept(keep@.map_values(|k: ThreadKey| k@)),
            old(self)@.ok() ==> final(self)@.ok(),
    {
        let ghost want = keep@.map_values(|k: ThreadKey| k@);
        let all: Vec<ThreadKey> = self.pending_keys();
        let mut i: usize = 0;
        let mut cut: bool = false;
        let ghost m = self@.by_key;
        while i < all.len()
            invariant
                i <= all@.len(),
                want == keep@.map_values(|k: ThreadKey| k@),
                m == old(self)@.by_key,
                self@.dirty == old(self)@.dirty,
                forall|k: Seq<char>|
                    m.dom().contains(k) <==> exists|i: int|
                        0 <= i < all@.len() && (#[trigger] all@[i])@ == k,
                cut == (exists|j: int| 0 <= j < i && !want.contains((#[trigger] all@[j])@)),
                forall|k: Seq<char>| #[trigger]
                    self@.by_key.dom().contains(k) <==> m.dom().contains(k) && (want.contains(k)
                        || !exists|j: int| 0 <= j < i && (#[trigger] all@[j])@ == k),
                forall|k: Seq<char>|
                    self@.by_key.dom().contains(k) ==> #[trigger] self@.by_key[k] == m[k],
            decreases all@.len() - i,
        {
            let mut found: bool = false;
            let mut j: usize = 0;
            while j < keep.len()
                invariant
                    j <= keep@.len(),
                    i < all@.len(),
                    want == keep@.map_values(|k: ThreadKey| k@),
                    found == (exists|q: int| 0 <= q < j && #[trigger] want[q] == all@[i as int]@),
                decreases keep@.len() - j,
            {
                proof {
                    assert(want[j as int] == keep@[j as int]@);
                }
                if keep[j].same(&all[i]) {
                    found = true;
                }
                j = j + 1;
            }
            proof {
                assert(found == want.contains(all@[i as int]@));
            }
            if !found {
                let _ = self.take(&all[i]);
                cut = true;
            }
            i = i + 1;
        }
        let ghost left = self@.by_key;
        self.dirty = self.dirty || cut;
        proof {
            assert(self@.by_key == left);
            let after = old(self)@.kept(want);
            assert forall|k: Seq<char>| #[trigger]
                left.dom().contains(k) <==> after.by_key.dom().contains(k) by {
                if m.dom().contains(k) {
                    let j = choose|j: int| 0 <= j < all@.len() && (#[trigger] all@[j])@ == k;
                    assert(all@[j]@ == k);
                }
            }
            assert(self@.by_key =~= after.by_key);
            if cut {
                let j = choose|j: int| 0 <= j < all@.len() && !want.contains((#[trigger] all@[j])@);
                assert(m.dom().contains(all@[j]@));
            }
            if exists|k: Seq<char>| m.dom().contains(k) && !want.contains(k) {
                let k = choose|k: Seq<char>| m.dom().contains(k) && !want.contains(k);
                let j = choose|j: int| 0 <= j < all@.len() && (#[trigger] all@[j])@ == k;
                assert(!want.contains(all@[j]@));
            }
            assert(self@ =~= after);
        }
    }
}

proof fn lemma_delivered_ok(s: Seq<InflightView>, id: Seq<char>)
    ensures
        delivered(s, id).len() > 0,
        ids_of(s).no_duplicates() ==> ids_of(delivered(s, id)).no_duplicates(),
{
    lemma_place(s, id);
    let d = delivered(s, id);
    if place(s, id) < s.len() {
        assert(ids_of(d) =~= ids_of(s));
    } else if ids_of(s).no_duplicates() {
        let x = ids_of(d);
        assert forall|i: int, j: int| 0 <= i < x.len() && 0 <= j < x.len() && i != j implies x[i]
            != x[j] by {
            assert(i < s.len() ==> x[i] == ids_of(s)[i] && s[i].id != id);
            assert(j < s.len() ==> x[j] == ids_of(s)[j] && s[j].id != id);
        }
    }
}

proof fn lemma_answered_ok(s: Seq<InflightView>, ids: Seq<Seq<char>>)
    ensures
        ids_of(s).no_duplicates() ==> ids_of(answered(s, ids)).no_duplicates(),
        forall|x: Seq<char>| #[trigger]
            ids_of(answered(s, ids)).contains(x) ==> ids_of(s).contains(x) && !ids.contains(x),
    decreases s.len(),
{
    if s.len() > 0 {
        let t = s.drop_last();
        lemma_answered_ok(t, ids);
        let a = answered(s, ids);
        let b = answered(t, ids);
        assert(ids_of(s) =~= ids_of(t).push(s.last().id));
        if ids_of(s).no_duplicates() {
            assert(ids_of(t).no_duplicates()) by {
                assert forall|i: int, j: int| 0 <= i < t.len() && 0 <= j < t.len() && i
                    != j implies ids_of(t)[i] != ids_of(t)[j] by {
                    assert(ids_of(s)[i] != ids_of(s)[j]);
                }
            }
        }
        assert forall|x: Seq<char>| #[trigger] ids_of(a).contains(x) implies ids_of(s).contains(x)
            && !ids.contains(x) by {
            let i = choose|i: int| 0 <= i < ids_of(a).len() && ids_of(a)[i] == x;
            if ids.contains(s.last().id) || i < b.len() {
                assert(ids_of(b)[i] == x);
                assert(ids_of(b).contains(x));
                let j = choose|j: int| 0 <= j < ids_of(t).len() && ids_of(t)[j] == x;
                assert(ids_of(s)[j] == x);
            } else {
                assert(ids_of(s)[s.len() - 1] == x);
            }
        }
        if ids_of(s).no_duplicates() && !ids.contains(s.last().id) {
            assert(ids_of(a) =~= ids_of(b).push(s.last().id));
            assert(!ids_of(b).contains(s.last().id)) by {
                if ids_of(b).contains(s.last().id) {
                    let j = choose|j: int|
                        0 <= j < ids_of(t).len() && ids_of(t)[j] == s.last().id;
                    assert(ids_of(s)[j] == ids_of(s)[s.len() - 1]);
                }
            }
            assert forall|i: int, j: int| 0 <= i < ids_of(a).len() && 0 <= j < ids_of(a).len() && i
                != j implies ids_of(a)[i] != ids_of(a)[j] by {
                if i < b.len() && j < b.len() {
                    assert(ids_of(b)[i] != ids_of(b)[j]);
                } else if i < b.len() {
                    assert(ids_of(b).contains(ids_of(b)[i]));
                } else {
                    assert(ids_of(b).contains(ids_of(b)[j]));
                }
            }
        }
    }
}

// ── what holds of the ledger ────────────────────────────────────────────────

/// Reading is noted once: what was marked as read is not reported again.
pub proof fn law_received_once(s: Seq<InflightView>, ids: Option<Seq<Seq<char>>>)
    ensures
        unread(read(s, ids), ids) == Seq::<Seq<char>>::empty(),
        read(read(s, ids), ids) == read(s, ids),
    decreases s.len(),
{
    assert(read(read(s, ids), ids) =~= read(s, ids));
    if s.len() > 0 {
        law_received_once(s.drop_last(), ids);
        assert(read(s, ids).drop_last() =~= read(s.drop_last(), ids));
    }
}

/// Reading is not answering: the messages of a thread stay in the ledger.
pub proof fn law_received_is_not_answered(l: LedgerView, k: Seq<char>, ids: Option<Seq<Seq<char>>>)
    ensures
        ids_of(l.received(k, ids).at(k)) == ids_of(l.at(k)),
        l.received(k, ids).by_key.dom() == l.by_key.dom(),
{
    assert(ids_of(l.received(k, ids).at(k)) =~= ids_of(l.at(k)));
    assert(l.received(k, ids).by_key.dom() =~= l.by_key.dom());
}

/// An answer takes exactly the messages it covers off the ledger.
pub proof fn law_answer_covers(l: LedgerView, k: Seq<char>, ids: Seq<Seq<char>>, x: Seq<char>)
    ensures
        ids_of(l.disposed(k, ids).at(k)).contains(x) <==> ids_of(l.at(k)).contains(x)
            && !ids.contains(x),
{
    lemma_answered_ids(l.at(k), ids, x);
    if l.by_key.dom().contains(k) && answered(l.by_key[k], ids).len() == 0 {
        assert(ids_of(l.disposed(k, ids).at(k)).len() == 0);
        assert(ids_of(answered(l.by_key[k], ids)).len() == 0);
    } else if !l.by_key.dom().contains(k) {
        assert(ids_of(l.at(k)).len() == 0);
    }
}

proof fn lemma_answered_ids(s: Seq<InflightView>, ids: Seq<Seq<char>>, x: Seq<char>)
    ensures
        ids_of(answered(s, ids)).contains(x) <==> ids_of(s).contains(x) && !ids.contains(x),
    decreases s.len(),
{
    lemma_answered_ok(s, ids);
    if s.len() > 0 {
        let t = s.drop_last();
        lemma_answered_ids(t, ids, x);
        if ids_of(s).contains(x) && !ids.contains(x) {
            let i = choose|i: int| 0 <= i < ids_of(s).len() && ids_of(s)[i] == x;
            let a = answered(s, ids);
            if i < t.len() {
                assert(ids_of(t)[i] == x);
                let b = answered(t, ids);
                let j = choose|j: int| 0 <= j < ids_of(b).len() && ids_of(b)[j] == x;
                assert(ids_of(a)[j] == x);
            } else {
                assert(ids_of(a)[a.len() - 1] == x);
            }
        }
    }
}

/// A delivery is in the ledger once, not read, and a second delivery of it changes nothing but that.
pub proof fn law_delivered_once(s: Seq<InflightView>, id: Seq<char>)
    ensures
        delivered(delivered(s, id), id) == delivered(s, id),
        ids_of(delivered(s, id)).contains(id),
{
    let d = delivered(s, id);
    lemma_place(s, id);
    lemma_place(d, id);
    let i = place(s, id);
    if i < s.len() {
        assert(d[i].id == id);
        assert(ids_of(d)[i] == id);
        let j = place(d, id);
        if j < i {
            assert(d[j].id == s[j].id);
        }
        assert(j == i);
        assert(delivered(d, id) =~= d);
    } else {
        assert(ids_of(d)[i] == id);
        assert forall|k: int| 0 <= k < i implies (#[trigger] d[k]).id != id by {
            assert(d[k] == s[k]);
        }
        assert(place(d, id) == i);
        assert(delivered(d, id) =~= d);
    }
}

/// A spent sending is spent of all or of none: where it is refused the ledger does not change.
pub proof fn law_retry_all_or_none(l: LedgerView, k: Seq<char>, ids: Seq<Seq<char>>, cap: u32)
    ensures
        !(l.by_key.dom().contains(k) && has_budget(l.by_key[k], ids, cap)) ==> l.retried(k, ids, cap)
            == l,
        l.by_key.dom().contains(k) && has_budget(l.by_key[k], ids, cap) ==> forall|i: int|
            0 <= i < l.by_key[k].len() && ids.contains((#[trigger] l.by_key[k][i]).id)
                ==> l.retried(k, ids, cap).by_key[k][i].retries == l.by_key[k][i].retries + 1,
{
}

// ── the ledger on disk ──────────────────────────────────────────────────────

/// What the ledger takes from the records of the threads: those that name their channel and hold
/// something without an answer.
pub open spec fn loaded(rows: Seq<(Seq<char>, EntryView)>) -> Map<Seq<char>, Seq<InflightView>>
    decreases rows.len(),
{
    if rows.len() == 0 {
        Map::empty()
    } else {
        let m = loaded(rows.drop_last());
        match row_key(rows.last()) {
            Some(k) => m.insert(k, rows.last().1.inflight),
            None => m,
        }
    }
}

/// The key under which a record is taken into the ledger.
pub open spec fn row_key(row: (Seq<char>, EntryView)) -> Option<Seq<char>> {
    match row.1.channel_id {
        Some(c) => if row.1.inflight.len() > 0 {
            Some(chat::key_of(c, row.0))
        } else {
            None
        },
        None => None,
    }
}

/// What the ledger holds for a thread, by its root.
pub open spec fn held_for(rows: Seq<(Seq<char>, Seq<InflightView>)>, ts: Seq<char>) -> Seq<
    InflightView,
>
    decreases rows.len(),
{
    if rows.len() == 0 {
        Seq::empty()
    } else if chat::key_parts(rows.last().0).1 == Some(ts) {
        rows.last().1
    } else {
        held_for(rows.drop_last(), ts)
    }
}

/// The records of the threads with what the ledger holds for them.
pub open spec fn mirrored(
    rows: Seq<(Seq<char>, EntryView)>,
    held: Seq<(Seq<char>, Seq<InflightView>)>,
) -> Seq<(Seq<char>, EntryView)> {
    rows.map_values(
        |r: (Seq<char>, EntryView)| (r.0, EntryView { inflight: held_for(held, r.0), ..r.1 }),
    )
}

/// The threads, by their roots, for which the ledger holds something and of which there is no
/// record.
pub open spec fn homeless(
    held: Seq<(Seq<char>, Seq<InflightView>)>,
    m: Map<Seq<char>, EntryView>,
) -> Seq<Seq<char>>
    decreases held.len(),
{
    if held.len() == 0 {
        Seq::empty()
    } else {
        let rest = homeless(held.drop_last(), m);
        match chat::key_parts(held.last().0).1 {
            Some(ts) => if m.dom().contains(ts) {
                rest
            } else {
                threads::with_item(rest, ts)
            },
            None => rest,
        }
    }
}

impl Ledger {
    /// What the ledger holds, in the order of the keys.
    pub closed spec fn rows(&self) -> Seq<(Seq<char>, Seq<InflightView>)> {
        self.by_key.entries().map_values(
            |r: (Seq<char>, Vec<Inflight>)| (r.0, item_views(r.1@)),
        )
    }

    /// The ledger as the records of the threads have it.
    pub fn load(threads: &Threads) -> (l: Self)
        ensures
            l@.by_key == loaded(threads.rows()),
            !l@.dirty,
    {
        let ghost rows = threads.rows();
        let n: usize = threads.entries.len();
        let mut l: Ledger = Ledger::new();
        let mut i: usize = 0;
        proof {
            assert(rows.take(0) =~= Seq::empty());
        }
        while i < n
            invariant
                i <= n == rows.len(),
                n == threads.entries.entries().len(),
                rows == threads.rows(),
                l@.by_key == loaded(rows.take(i as int)),
                !l@.dirty,
            decreases n - i,
        {
            let e: &ThreadEntry = threads.entries.value_at(i);
            proof {
                assert(rows[i as int].1 == e@);
                assert(rows.take(i + 1).drop_last() =~= rows.take(i as int));
            }
            if e.inflight.len() > 0 {
                match &e.channel_id {
                    Some(c) => {
                        let key: ThreadKey = ThreadKey::new(
                            c.as_str(),
                            threads.entries.key_at(i).as_str(),
                        );
                        l.put_back(&key, copy_items(&e.inflight), false);
                    },
                    None => {},
                }
            }
            i = i + 1;
        }
        proof {
            assert(rows.take(n as int) =~= rows);
        }
        l
    }

    fn held(&self, ts: &str) -> (v: Vec<Inflight>)
        ensures
            item_views(v@) == held_for(self.rows(), ts@),
    {
        let ghost rows = self.rows();
        let mut i: usize = self.by_key.len();
        proof {
            assert(rows.take(i as int) =~= rows);
        }
        while i > 0
            invariant
                i <= rows.len(),
                rows == self.rows(),
                rows.len() == self.by_key.entries().len(),
                held_for(rows, ts@) == held_for(rows.take(i as int), ts@),
            decreases i,
        {
            let key: ThreadKey = ThreadKey::parse(self.by_key.key_at(i - 1).as_str());
            proof {
                assert(rows.take(i as int).drop_last() =~= rows.take(i - 1));
                assert(rows.take(i as int).last() == rows[i - 1]);
            }
            match key.split().1 {
                Some(x) => if text::same(x.as_str(), ts) {
                    return copy_items(self.by_key.value_at(i - 1));
                },
                None => {},
            }
            i = i - 1;
        }
        let v: Vec<Inflight> = Vec::new();
        proof {
            assert(item_views(v@) =~= Seq::empty());
        }
        v
    }

    fn without_home(&self, threads: &Threads) -> (out: Vec<String>)
        ensures
            text::views(out@) == homeless(self.rows(), threads@),
    {
        broadcast use text::lemma_views_push, text::lemma_views_empty;

        let ghost rows = self.rows();
        let n: usize = self.by_key.len();
        let mut out: Vec<String> = Vec::new();
        let mut i: usize = 0;
        proof {
            assert(rows.take(0) =~= Seq::empty());
        }
        while i < n
            invariant
                i <= n == rows.len(),
                rows == self.rows(),
                rows.len() == self.by_key.entries().len(),
                text::views(out@) == homeless(rows.take(i as int), threads@),
            decreases n - i,
        {
            let key: ThreadKey = ThreadKey::parse(self.by_key.key_at(i).as_str());
            proof {
                assert(rows.take(i + 1).drop_last() =~= rows.take(i as int));
                assert(rows.take(i + 1).last() == rows[i as int]);
            }
            match key.split().1 {
                Some(ts) => if !threads.entries.has(ts.as_str()) {
                    if !text::among(out.as_slice(), ts.as_str()) {
                        out.push(ts);
                    }
                },
                None => {},
            }
            i = i + 1;
        }
        proof {
            assert(rows.take(n as int) =~= rows);
        }
        out
    }

    /// Writes the ledger into the records of the threads where it changed since the last time; the
    /// records are then to be saved. Returns the threads of which there is no record: what is held
    /// for them is not written.
    pub fn flush(&mut self, threads: &mut Threads) -> (r: Option<Vec<String>>)
        ensures
            final(self)@.by_key == old(self)@.by_key,
            final(self).rows() == old(self).rows(),
            !final(self)@.dirty,
            old(self)@.by_key == table::rows_map(old(self).rows()),
            match r {
                None => !old(self)@.dirty && *final(threads) == *old(threads),
                Some(lost) => old(self)@.dirty && final(threads).rows() == mirrored(
                    old(threads).rows(),
                    old(self).rows(),
                ) && text::views(lost@) == homeless(old(self).rows(), old(threads)@),
            },
    {
        let known: usize = self.by_key.len();
        proof {
            lemma_rows_hold(self.by_key.entries(), self.rows());
        }
        if !self.dirty {
            return None;
        }
        let lost: Vec<String> = self.without_home(threads);
        let ghost rows = threads.rows();
        let ghost held = self.rows();
        let n: usize = threads.entries.len();
        let mut i: usize = 0;
        while i < n
            invariant
                i <= n == rows.len(),
                n == threads.entries.entries().len(),
                held == self.rows(),
                threads.rows().len() == n,
                forall|j: int| 0 <= j < i ==> #[trigger] threads.rows()[j] == mirrored(rows, held)[j],
                forall|j: int| i <= j < n ==> #[trigger] threads.rows()[j] == rows[j],
            decreases n - i,
        {
            let v: Vec<Inflight> = self.held(threads.entries.key_at(i).as_str());
            let ghost all = threads.entries.entries();
            let ghost was = threads.rows();
            let mut e: ThreadEntry = ThreadEntry::default();
            threads.entries.swap_at(i, &mut e);
            proof {
                assert(was[i as int] == rows[i as int]);
                assert(e@ == rows[i as int].1);
            }
            e.inflight = v;
            let ghost new = e;
            threads.entries.swap_at(i, &mut e);
            proof {
                assert(threads.entries.entries() =~= all.update(
                    i as int,
                    (all[i as int].0, new),
                ));
                assert(threads.rows() =~= was.update(i as int, (all[i as int].0, new@)));
                assert(all[i as int].0 == rows[i as int].0);
                assert(new@ =~= EntryView {
                    inflight: held_for(held, rows[i as int].0),
                    ..rows[i as int].1
                });
                assert(threads.rows()[i as int] == mirrored(rows, held)[i as int]);
                assert forall|j: int| 0 <= j < i + 1 implies #[trigger] threads.rows()[j]
                    == mirrored(rows, held)[j] by {
                    if j < i {
                        assert(threads.rows()[j] == was[j]);
                    }
                }
                assert forall|j: int| i + 1 <= j < n implies #[trigger] threads.rows()[j]
                    == rows[j] by {
                    assert(threads.rows()[j] == was[j]);
                }
            }
            i = i + 1;
        }
        proof {
            assert(threads.rows() =~= mirrored(rows, held));
        }
        self.dirty = false;
        Some(lost)
    }
}

proof fn lemma_rows_hold(
    entries: Seq<(Seq<char>, Vec<Inflight>)>,
    rows: Seq<(Seq<char>, Seq<InflightView>)>,
)
    requires
        table::ascending(entries),
        rows == entries.map_values(|r: (Seq<char>, Vec<Inflight>)| (r.0, item_views(r.1@))),
    ensures
        list_views(table::rows_map(entries)) == table::rows_map(rows),
{
    let a = list_views(table::rows_map(entries));
    let b = table::rows_map(rows);
    assert(table::ascending(rows)) by {
        assert forall|i: int, j: int| 0 <= i < j < rows.len() implies text::before(
            #[trigger] rows[i].0,
            #[trigger] rows[j].0,
        ) by {
            assert(rows[i].0 == entries[i].0 && rows[j].0 == entries[j].0);
        }
    }
    assert forall|k: Seq<char>| #[trigger] a.dom().contains(k) <==> b.dom().contains(k) by {
        if a.dom().contains(k) {
            let i = choose|i: int| table::has_row(entries, k, i);
            assert(table::has_row(rows, k, i));
        }
        if b.dom().contains(k) {
            let i = choose|i: int| table::has_row(rows, k, i);
            assert(table::has_row(entries, k, i));
        }
    }
    assert forall|k: Seq<char>| #[trigger] a.dom().contains(k) implies a[k] == b[k] by {
        let i = choose|i: int| table::has_row(entries, k, i);
        table::lemma_row_in_map(entries, i);
        table::lemma_row_in_map(rows, i);
        assert(rows[i].0 == k);
    }
    assert(a =~= b);
}

/// Every thread in the ledger has a record, which names its channel, and no channel's name holds a
/// `:`; so it is where each message was delivered to a recorded thread.
pub open spec fn at_home(
    rows: Seq<(Seq<char>, EntryView)>,
    held: Seq<(Seq<char>, Seq<InflightView>)>,
) -> bool {
    forall|i: int|
        0 <= i < held.len() ==> (#[trigger] held[i]).1.len() > 0 && exists|j: int|
            is_home(rows, held[i].0, j)
}

/// The record in row `j` is the one of the thread under `key`.
pub open spec fn is_home(rows: Seq<(Seq<char>, EntryView)>, key: Seq<char>, j: int) -> bool {
    0 <= j < rows.len() && match rows[j].1.channel_id {
        Some(c) => !c.contains(':') && key == chat::key_of(c, rows[j].0),
        None => false,
    }
}

proof fn lemma_held(
    rows: Seq<(Seq<char>, EntryView)>,
    held: Seq<(Seq<char>, Seq<InflightView>)>,
    i: int,
    j: int,
)
    requires
        table::ascending(rows),
        table::ascending(held),
        at_home(rows, held),
        0 <= i < held.len(),
        is_home(rows, held[i].0, j),
    ensures
        held_for(held, rows[j].0) == held[i].1,
    decreases held.len(),
{
    let ts = rows[j].0;
    chat::law_key_round_trip(rows[j].1.channel_id->0, ts);
    let last = held.len() - 1;
    let t = held.drop_last();
    if i < last {
        let q = choose|q: int| is_home(rows, held[last].0, q);
        chat::law_key_round_trip(rows[q].1.channel_id->0, rows[q].0);
        if rows[q].0 == ts {
            if q != j {
                text::lemma_before_irreflexive(ts);
                if q < j {
                    assert(text::before(rows[q].0, rows[j].0));
                } else {
                    assert(text::before(rows[j].0, rows[q].0));
                }
            }
            assert(text::before(held[i].0, held[last].0));
            text::lemma_before_irreflexive(held[i].0);
        }
        assert(at_home(rows, t)) by {
            assert forall|x: int| 0 <= x < t.len() implies (#[trigger] t[x]).1.len() > 0 && exists|
                y: int,
            | is_home(rows, t[x].0, y) by {
                assert(held[x] == t[x]);
            }
        }
        assert(table::ascending(t)) by {
            assert forall|a: int, b: int| 0 <= a < b < t.len() implies text::before(
                #[trigger] t[a].0,
                #[trigger] t[b].0,
            ) by {
                assert(held[a] == t[a] && held[b] == t[b]);
            }
        }
        assert(t[i] == held[i]);
        lemma_held(rows, t, i, j);
    }
}

proof fn lemma_not_held(
    rows: Seq<(Seq<char>, EntryView)>,
    held: Seq<(Seq<char>, Seq<InflightView>)>,
    j: int,
)
    requires
        table::ascending(rows),
        at_home(rows, held),
        0 <= j < rows.len(),
        forall|i: int| 0 <= i < held.len() ==> !#[trigger] is_home(rows, held[i].0, j),
    ensures
        held_for(held, rows[j].0).len() == 0,
    decreases held.len(),
{
    if held.len() > 0 {
        let last = held.len() - 1;
        let t = held.drop_last();
        assert(at_home(rows, t)) by {
            assert forall|x: int| 0 <= x < t.len() implies (#[trigger] t[x]).1.len() > 0 && exists|
                y: int,
            | is_home(rows, t[x].0, y) by {
                assert(held[x] == t[x]);
            }
        }
        assert forall|i: int| 0 <= i < t.len() implies !#[trigger] is_home(rows, t[i].0, j) by {
            assert(t[i] == held[i]);
        }
        lemma_not_held(rows, t, j);
        assert(held[last].1.len() > 0);
        let q = choose|q: int| is_home(rows, held[last].0, q);
        chat::law_key_round_trip(rows[q].1.channel_id->0, rows[q].0);
        assert(!is_home(rows, held[last].0, j));
        if rows[q].0 == rows[j].0 {
            text::lemma_before_irreflexive(rows[j].0);
            if q < j {
                assert(text::before(rows[q].0, rows[j].0));
            } else if j < q {
                assert(text::before(rows[j].0, rows[q].0));
            }
        }
    }
}

proof fn lemma_loaded(rows: Seq<(Seq<char>, EntryView)>)
    requires
        forall|i: int, j: int|
            0 <= i < j < rows.len() && row_key(#[trigger] rows[i]) is Some ==> row_key(rows[i])
                != row_key(#[trigger] rows[j]),
    ensures
        forall|k: Seq<char>|
            loaded(rows).dom().contains(k) ==> exists|j: int|
                0 <= j < rows.len() && row_key(#[trigger] rows[j]) == Some(k),
        forall|j: int|
            0 <= j < rows.len() && row_key(#[trigger] rows[j]) is Some ==> loaded(
                rows,
            ).dom().contains(row_key(rows[j])->0) && loaded(rows)[row_key(rows[j])->0]
                == rows[j].1.inflight,
    decreases rows.len(),
{
    if rows.len() > 0 {
        let t = rows.drop_last();
        let last = rows.len() - 1;
        assert forall|i: int, j: int|
            0 <= i < j < t.len() && row_key(#[trigger] t[i]) is Some implies row_key(t[i])
            != row_key(#[trigger] t[j]) by {
            assert(t[i] == rows[i] && t[j] == rows[j]);
        }
        lemma_loaded(t);
        assert forall|k: Seq<char>| loaded(rows).dom().contains(k) implies exists|j: int|
            0 <= j < rows.len() && row_key(#[trigger] rows[j]) == Some(k) by {
            if loaded(t).dom().contains(k) {
                let j = choose|j: int| 0 <= j < t.len() && row_key(#[trigger] t[j]) == Some(k);
                assert(row_key(rows[j]) == Some(k));
            } else {
                assert(row_key(rows[last]) == Some(k));
            }
        }
        assert forall|j: int|
            0 <= j < rows.len() && row_key(#[trigger] rows[j]) is Some implies loaded(
            rows,
        ).dom().contains(row_key(rows[j])->0) && loaded(rows)[row_key(rows[j])->0]
            == rows[j].1.inflight by {
            if j < last {
                assert(t[j] == rows[j]);
                assert(row_key(rows[j]) != row_key(rows[last]));
            }
        }
    }
}

/// What is not answered outlives the process: a ledger that is written into the records of its
/// threads and read from them again is the same.
pub proof fn law_ledger_outlives_process(
    rows: Seq<(Seq<char>, EntryView)>,
    held: Seq<(Seq<char>, Seq<InflightView>)>,
)
    requires
        table::ascending(rows),
        table::ascending(held),
        at_home(rows, held),
    ensures
        loaded(mirrored(rows, held)) == table::rows_map(held),
{
    let r = mirrored(rows, held);
    let a = loaded(r);
    let b = table::rows_map(held);
    assert forall|j: int| 0 <= j < r.len() && row_key(#[trigger] r[j]) is Some implies exists|
        i: int,
    |
        0 <= i < held.len() && is_home(rows, #[trigger] held[i].0, j) && row_key(r[j]) == Some(
            held[i].0,
        ) && r[j].1.inflight == held[i].1 by {
        if forall|i: int| 0 <= i < held.len() ==> !#[trigger] is_home(rows, held[i].0, j) {
            lemma_not_held(rows, held, j);
        } else {
            let i = choose|i: int| 0 <= i < held.len() && #[trigger] is_home(rows, held[i].0, j);
            lemma_held(rows, held, i, j);
            assert(held[i].1.len() > 0);
        }
    }
    assert forall|i: int, j: int|
        0 <= i < j < r.len() && row_key(#[trigger] r[i]) is Some implies row_key(r[i]) != row_key(
        #[trigger] r[j],
    ) by {
        if row_key(r[i]) == row_key(r[j]) {
            let x = choose|x: int|
                0 <= x < held.len() && is_home(rows, #[trigger] held[x].0, i) && row_key(r[i])
                    == Some(held[x].0);
            let y = choose|y: int|
                0 <= y < held.len() && is_home(rows, #[trigger] held[y].0, j) && row_key(r[j])
                    == Some(held[y].0);
            chat::law_key_round_trip(rows[i].1.channel_id->0, rows[i].0);
            chat::law_key_round_trip(rows[j].1.channel_id->0, rows[j].0);
            assert(text::before(rows[i].0, rows[j].0));
            text::lemma_before_irreflexive(rows[i].0);
        }
    }
    lemma_loaded(r);
    assert forall|k: Seq<char>| #[trigger] a.dom().contains(k) <==> b.dom().contains(k) by {
        if a.dom().contains(k) {
            let j = choose|j: int| 0 <= j < r.len() && row_key(#[trigger] r[j]) == Some(k);
            let i = choose|i: int|
                0 <= i < held.len() && is_home(rows, #[trigger] held[i].0, j) && row_key(r[j])
                    == Some(held[i].0);
            assert(table::has_row(held, k, i));
        }
        if b.dom().contains(k) {
            let i = choose|i: int| table::has_row(held, k, i);
            assert(held[i].1.len() > 0);
            let j = choose|j: int| is_home(rows, held[i].0, j);
            lemma_held(rows, held, i, j);
            assert(row_key(r[j]) == Some(k));
        }
    }
    assert forall|k: Seq<char>| #[trigger] a.dom().contains(k) implies a[k] == b[k] by {
        let j = choose|j: int| 0 <= j < r.len() && row_key(#[trigger] r[j]) == Some(k);
        let i = choose|i: int|
            0 <= i < held.len() && is_home(rows, #[trigger] held[i].0, j) && row_key(r[j]) == Some(
                held[i].0,
            ) && r[j].1.inflight == held[i].1;
        table::lemma_row_in_map(held, i);
    }
    assert(a =~= b);
}

// ── receipt from a transcript ───────────────────────────────────────────────

/// What may stand between `message_id` and the id itself in a transcript.
pub open spec fn is_separator(c: char) -> bool {
    c == '\\' || c == '"' || c == '\'' || c == ':' || c == '=' || c == ' ' || c == '\t' || c == '\n'
        || c == '\r'
}

/// `s` without separators at its end.
pub open spec fn bare_end(s: Seq<char>) -> Seq<char>
    decreases s.len(),
{
    if s.len() > 0 && is_separator(s.last()) {
        bare_end(s.drop_last())
    } else {
        s
    }
}

/// The id that stands at `at` is a message's own: `message_id` leads to it, and no digit follows.
pub open spec fn is_receipt(s: Seq<char>, id: Seq<char>, at: int) -> bool {
    let end = at + id.len();
    !(end < s.len() && text::is_ascii_digit(s[end])) && "message_id"@.is_suffix_of(
        bare_end(s.take(at)),
    )
}

/// The first place at or behind `i` at which `p` stands.
pub open spec fn first_at(s: Seq<char>, p: Seq<char>, i: int) -> Option<int>
    decreases s.len() + 1 - i,
{
    if i + p.len() > s.len() {
        None
    } else if text::stands_at(s, p, i) {
        Some(i)
    } else {
        first_at(s, p, i + 1)
    }
}

pub proof fn lemma_first_at(s: Seq<char>, p: Seq<char>, i: int)
    requires
        0 <= i,
    ensures
        first_at(s, p, i) matches Some(k) ==> i <= k && text::stands_at(s, p, k) && forall|j: int|
            i <= j < k ==> !text::stands_at(s, p, j),
        first_at(s, p, i) is None ==> forall|j: int| i <= j ==> !text::stands_at(s, p, j),
    decreases s.len() + 1 - i,
{
    if i + p.len() <= s.len() && !text::stands_at(s, p, i) {
        lemma_first_at(s, p, i + 1);
        assert forall|j: int|
            i <= j && (first_at(s, p, i) is None || j < first_at(s, p, i)->0) implies !text::stands_at(
            s,
            p,
            j,
        ) by {
            if j > i {
            }
        }
    }
}

/// An id is read in `s` from `i` on: one of its places, taken one behind the other, is a receipt.
pub open spec fn is_read_in(s: Seq<char>, id: Seq<char>, i: int) -> bool
    decreases s.len() - i,
{
    match first_at(s, id, i) {
        Some(at) => {
            let next = at + if id.len() == 0 {
                1int
            } else {
                id.len() as int
            };
            is_receipt(s, id, at) || (i < next <= s.len() && is_read_in(s, id, next))
        },
        None => false,
    }
}

/// Those of the first `n` ids that are read in `s`.
pub open spec fn read_ids(s: Seq<char>, ids: Seq<Seq<char>>, n: nat) -> Seq<Seq<char>>
    decreases n,
{
    if n == 0 {
        Seq::empty()
    } else if is_read_in(s, ids[n - 1], 0) {
        read_ids(s, ids, (n - 1) as nat).push(ids[n - 1])
    } else {
        read_ids(s, ids, (n - 1) as nat)
    }
}

fn ends_in_label(s: &Vec<char>, at: usize) -> (r: bool)
    requires
        at <= s@.len(),
    ensures
        r == "message_id"@.is_suffix_of(bare_end(s@.take(at as int))),
{
    let mut n: usize = at;
    while n > 0 && (s[n - 1] == '\\' || s[n - 1] == '"' || s[n - 1] == '\'' || s[n - 1] == ':'
        || s[n - 1] == '=' || s[n - 1] == ' ' || s[n - 1] == '\t' || s[n - 1] == '\n' || s[n - 1]
        == '\r')
        invariant
            n <= at <= s@.len(),
            bare_end(s@.take(at as int)) == bare_end(s@.take(n as int)),
        decreases n,
    {
        proof {
            assert(s@.take(n as int).drop_last() =~= s@.take(n - 1));
        }
        n = n - 1;
    }
    let head: String = text::text_of(s, 0, n);
    proof {
        assert(s@.take(n as int) =~= s@.subrange(0, n as int));
    }
    text::ends_with(head.as_str(), "message_id")
}

fn read_in(s: &Vec<char>, id: &Vec<char>) -> (r: bool)
    ensures
        r == is_read_in(s@, id@, 0),
{
    let n: usize = s.len();
    let mut i: usize = 0;
    loop
        invariant
            n == s@.len(),
            i <= n,
            is_read_in(s@, id@, 0) == is_read_in(s@, id@, i as int),
        decreases n - i,
    {
        proof {
            lemma_first_at(s@, id@, i as int);
        }
        let at: usize = match text::find_from(s, id, i) {
            Some(at) => at,
            None => return false,
        };
        proof {
            assert(text::stands_at(s@, id@, at as int));
            assert(first_at(s@, id@, i as int) == Some(at as int));
        }
        let end: usize = at + id.len();
        let digit: bool = end < n && '0' <= s[end] && s[end] <= '9';
        if !digit && ends_in_label(s, at) {
            return true;
        }
        if id.len() == 0 {
            if at >= n {
                return false;
            }
            i = at + 1;
        } else {
            i = end;
        }
    }
}

impl Ledger {
    /// Those of `ids` that a transcript shows as read. Only the singular `message_id` counts, and
    /// not an id that goes on in more digits.
    pub fn find_received_ids(new_bytes: &str, ids: &[String]) -> (out: Vec<String>)
        ensures
            text::views(out@) == read_ids(new_bytes@, text::views(ids@), ids@.len()),
    {
        broadcast use text::lemma_views_push, text::lemma_views_empty;

        let s: Vec<char> = text::chars_of(new_bytes);
        let ghost v = text::views(ids@);
        let mut out: Vec<String> = Vec::new();
        let mut i: usize = 0;
        while i < ids.len()
            invariant
                i <= ids@.len(),
                v == text::views(ids@),
                s@ == new_bytes@,
                text::views(out@) == read_ids(new_bytes@, v, i as nat),
            decreases ids@.len() - i,
        {
            proof {
                assert(v[i as int] == ids@[i as int]@);
            }
            let id: Vec<char> = text::chars_of(ids[i].as_str());
            if read_in(&s, &id) {
                out.push(ids[i].clone());
            }
            i = i + 1;
        }
        out
    }
}

/// The threads that are owed an answer are listed in the order of their keys, each once.
pub proof fn law_ledger_is_listed(x: Ledger)
    ensures
        table::lists(x.rows(), x@.by_key),
{
    let f = |v: Vec<Inflight>| item_views(v@);
    table::lemma_entries_seen(x.by_key, f);
    assert(x.rows() =~= x.by_key.entries().map_values(|r: (Seq<char>, Vec<Inflight>)| (r.0, f(r.1))));
    assert(x@.by_key =~= x.by_key@.map_values(f));
}

/// A delivery that is new is noted last: unread, with nothing to send again, never sent again. One that
/// is known is unread again and keeps the rest. No other message changes.
pub proof fn law_delivery_is_noted(s: Seq<InflightView>, id: Seq<char>, i: int)
    ensures
        (forall|j: int| 0 <= j < s.len() ==> (#[trigger] s[j]).id != id) ==> delivered(s, id)
            == s.push((InflightView { id, received: false, envelope: None, retries: 0 })),
        0 <= i < s.len() && s[i].id == id && (forall|j: int|
            0 <= j < i ==> (#[trigger] s[j]).id != id) ==> delivered(s, id) == s.update(
            i,
            (InflightView {
                id,
                received: false,
                envelope: s[i].envelope,
                retries: s[i].retries,
            }),
        ),
{
    lemma_place(s, id);
    if 0 <= i < s.len() && s[i].id == id && (forall|j: int|
        0 <= j < i ==> (#[trigger] s[j]).id != id) {
        assert(place(s, id) == i);
    }
}

/// What was delivered is remembered of the message it was, and of no other.
pub proof fn law_envelope_is_remembered(
    s: Seq<InflightView>,
    id: Seq<char>,
    envelope: Seq<char>,
    i: int,
)
    ensures
        (forall|j: int| 0 <= j < s.len() ==> (#[trigger] s[j]).id != id) ==> enveloped(
            s,
            id,
            envelope,
        ) == s,
        0 <= i < s.len() && s[i].id == id && (forall|j: int|
            0 <= j < i ==> (#[trigger] s[j]).id != id) ==> enveloped(s, id, envelope) == s.update(
            i,
            (InflightView {
                id,
                received: s[i].received,
                envelope: Some(envelope),
                retries: s[i].retries,
            }),
        ),
{
    lemma_place(s, id);
    if 0 <= i < s.len() && s[i].id == id && (forall|j: int|
        0 <= j < i ==> (#[trigger] s[j]).id != id) {
        assert(place(s, id) == i);
    }
}

/// A message counts as unread where it was not read yet and, where some are named, is one of them.
pub proof fn law_unread(s: Seq<InflightView>, ids: Option<Seq<Seq<char>>>, x: Seq<char>)
    ensures
        unread(s, ids).contains(x) <==> (ids is None || ids->0.contains(x)) && exists|i: int|
            0 <= i < s.len() && (#[trigger] s[i]).id == x && !s[i].received,
        unread(s, ids).len() <= s.len(),
    decreases s.len(),
{
    if s.len() > 0 {
        let t = s.drop_last();
        law_unread(t, ids, x);
        let before = unread(t, ids);
        let all = unread(s, ids);
        if all.contains(x) {
            let j = choose|j: int| 0 <= j < all.len() && all[j] == x;
            if j < before.len() {
                assert(before[j] == x);
                let i = choose|i: int|
                    0 <= i < t.len() && (#[trigger] t[i]).id == x && !t[i].received;
                assert(s[i].id == x);
            } else {
                assert(s[s.len() - 1].id == x);
            }
        }
        if (ids is None || ids->0.contains(x)) && exists|i: int|
            0 <= i < s.len() && (#[trigger] s[i]).id == x && !s[i].received {
            let i = choose|i: int| 0 <= i < s.len() && (#[trigger] s[i]).id == x && !s[i].received;
            if i < t.len() {
                assert(t[i].id == x && !t[i].received);
                let j = choose|j: int| 0 <= j < before.len() && before[j] == x;
                assert(all[j] == x);
            } else {
                assert(all.last() == x);
            }
        }
    }
}

/// What is unread of two lists is what is unread of each, in order.
pub proof fn law_unread_in_order(
    a: Seq<InflightView>,
    b: Seq<InflightView>,
    ids: Option<Seq<Seq<char>>>,
)
    ensures
        unread(a + b, ids) == unread(a, ids) + unread(b, ids),
    decreases b.len(),
{
    if b.len() > 0 {
        law_unread_in_order(a, b.drop_last(), ids);
        assert((a + b).drop_last() =~= a + b.drop_last());
        assert(unread(a + b, ids) =~= unread(a, ids) + unread(b, ids));
    } else {
        assert(a + b =~= a);
        assert(unread(a, ids) + unread(b, ids) =~= unread(a, ids));
    }
}

/// To read marks the messages that are named, or all, as read; it changes nothing else of any.
pub proof fn law_reading_marks(s: Seq<InflightView>, ids: Option<Seq<Seq<char>>>, i: int)
    requires
        0 <= i < s.len(),
    ensures
        read(s, ids).len() == s.len(),
        read(s, ids)[i].received <==> s[i].received || ids is None || ids->0.contains(s[i].id),
        read(s, ids)[i].id == s[i].id,
        read(s, ids)[i].envelope == s[i].envelope,
        read(s, ids)[i].retries == s[i].retries,
{
}

/// What is answered goes, and what is not stays, as it was and in order.
pub proof fn law_answered_in_order(
    a: Seq<InflightView>,
    b: Seq<InflightView>,
    ids: Seq<Seq<char>>,
    x: InflightView,
)
    ensures
        answered(a + b, ids) == answered(a, ids) + answered(b, ids),
        ids.contains(x.id) ==> answered(seq![x], ids).len() == 0,
        !ids.contains(x.id) ==> answered(seq![x], ids) == seq![x],
    decreases b.len(),
{
    if b.len() > 0 {
        law_answered_in_order(a, b.drop_last(), ids, x);
        assert((a + b).drop_last() =~= a + b.drop_last());
        assert(answered(a + b, ids) =~= answered(a, ids) + answered(b, ids));
    } else {
        assert(a + b =~= a);
        assert(answered(a, ids) + answered(b, ids) =~= answered(a, ids));
    }
    assert(seq![x].drop_last() =~= Seq::<InflightView>::empty());
    assert(answered(seq![x].drop_last(), ids) =~= Seq::<InflightView>::empty());
    if !ids.contains(x.id) {
        assert(answered(seq![x], ids) =~= seq![x]);
    }
}

/// Whatever was delivered and is not answered can be sent again, in order, read or not; only a message
/// of which nothing is remembered cannot.
pub proof fn law_sendable_in_order(a: Seq<InflightView>, b: Seq<InflightView>, x: InflightView)
    ensures
        sendable(a + b) == sendable(a) + sendable(b),
        x.envelope is Some ==> sendable(seq![x]) == seq![(x.id, x.envelope->0)],
        x.envelope is None ==> sendable(seq![x]).len() == 0,
    decreases b.len(),
{
    if b.len() > 0 {
        law_sendable_in_order(a, b.drop_last(), x);
        assert((a + b).drop_last() =~= a + b.drop_last());
        assert(sendable(a + b) =~= sendable(a) + sendable(b));
    } else {
        assert(a + b =~= a);
        assert(sendable(a) + sendable(b) =~= sendable(a));
    }
    assert(seq![x].drop_last() =~= Seq::<InflightView>::empty());
    assert(sendable(seq![x].drop_last()) =~= Seq::<(Seq<char>, Seq<char>)>::empty());
    if let Some(env) = x.envelope {
        assert(sendable(seq![x]) =~= seq![(x.id, env)]);
    }
}

proof fn lemma_hits(s: Seq<InflightView>, ids: Seq<Seq<char>>)
    requires
        ids_of(s).no_duplicates(),
    ensures
        hits(s, ids) == ids_of(s).to_set().intersect(ids.to_set()).len(),
        ids_of(s).to_set().intersect(ids.to_set()).finite(),
    decreases s.len(),
{
    let all = ids_of(s).to_set();
    let want = ids.to_set();
    if s.len() == 0 {
        assert(all.intersect(want) =~= Set::<Seq<char>>::empty());
    } else {
        let t = s.drop_last();
        assert(ids_of(t) =~= ids_of(s).drop_last());
        lemma_hits(t, ids);
        let rest = ids_of(t).to_set();
        let x = s.last().id;
        assert(ids_of(s).last() == x);
        assert(!rest.contains(x)) by {
            if rest.contains(x) {
                let i = choose|i: int| 0 <= i < ids_of(t).len() && ids_of(t)[i] == x;
                assert(ids_of(s)[i] == x && ids_of(s)[s.len() - 1] == x);
            }
        }
        assert(all =~= rest.insert(x)) by {
            assert forall|y: Seq<char>| #[trigger] all.contains(y) implies rest.insert(x).contains(
                y,
            ) by {
                let i = choose|i: int| 0 <= i < ids_of(s).len() && ids_of(s)[i] == y;
                if i < t.len() {
                    assert(ids_of(t)[i] == y);
                }
            }
            assert forall|y: Seq<char>| #[trigger]
                rest.insert(x).contains(y) implies all.contains(y) by {
                if y == x {
                    assert(ids_of(s)[s.len() - 1] == y);
                } else {
                    let i = choose|i: int| 0 <= i < ids_of(t).len() && ids_of(t)[i] == y;
                    assert(ids_of(s)[i] == y);
                }
            }
        }
        if ids.contains(x) {
            assert(all.intersect(want) =~= rest.intersect(want).insert(x));
        } else {
            assert(all.intersect(want) =~= rest.intersect(want));
        }
    }
}

/// Messages may be sent again where every one of them is still open and none was sent again as often as
/// is allowed.
pub proof fn law_budget(s: Seq<InflightView>, ids: Seq<Seq<char>>, cap: u32)
    requires
        ids_of(s).no_duplicates(),
        ids.no_duplicates(),
    ensures
        has_budget(s, ids, cap) <==> forall|x: Seq<char>|
            #![trigger ids.contains(x)]
            ids.contains(x) ==> exists|i: int|
                0 <= i < s.len() && (#[trigger] s[i]).id == x && s[i].retries < cap,
{
    lemma_hits(s, ids);
    ids.unique_seq_to_set();
    let all = ids_of(s).to_set();
    let want = ids.to_set();
    if has_budget(s, ids, cap) {
        vstd::set_lib::lemma_subset_equality(all.intersect(want), want);
        assert forall|x: Seq<char>| #![trigger ids.contains(x)] ids.contains(x) implies exists|
            i: int,
        | 0 <= i < s.len() && (#[trigger] s[i]).id == x && s[i].retries < cap by {
            assert(want.contains(x));
            assert(all.contains(x));
            let i = choose|i: int| 0 <= i < ids_of(s).len() && ids_of(s)[i] == x;
            assert(s[i].id == x);
        }
    }
    if forall|x: Seq<char>|
        #![trigger ids.contains(x)]
        ids.contains(x) ==> exists|i: int|
            0 <= i < s.len() && (#[trigger] s[i]).id == x && s[i].retries < cap {
        assert(all.intersect(want) =~= want) by {
            assert forall|x: Seq<char>| #[trigger] want.contains(x) implies all.intersect(
                want,
            ).contains(x) by {
                assert(ids.contains(x));
                let i = choose|i: int|
                    0 <= i < s.len() && (#[trigger] s[i]).id == x && s[i].retries < cap;
                assert(ids_of(s)[i] == x);
            }
        }
        assert forall|i: int| 0 <= i < s.len() && ids.contains((#[trigger] s[i]).id) implies s[i].retries
            < cap by {
            let j = choose|j: int|
                0 <= j < s.len() && (#[trigger] s[j]).id == s[i].id && s[j].retries < cap;
            assert(ids_of(s)[i] == ids_of(s)[j]);
        }
    }
}

/// To send again counts one more for each message that is named, and changes nothing else.
pub proof fn law_sending_again_counts(s: Seq<InflightView>, ids: Seq<Seq<char>>, i: int)
    requires
        0 <= i < s.len(),
        s[i].retries < u32::MAX,
    ensures
        spent(s, ids).len() == s.len(),
        spent(s, ids)[i].retries - s[i].retries == if ids.contains(s[i].id) {
            1int
        } else {
            0int
        },
        spent(s, ids)[i].id == s[i].id,
        spent(s, ids)[i].received == s[i].received,
        spent(s, ids)[i].envelope == s[i].envelope,
{
}

/// What is done to one thread's messages leaves the other threads' as they are.
pub proof fn law_ledger_threads_are_apart(
    l: LedgerView,
    k: Seq<char>,
    other: Seq<char>,
    id: Seq<char>,
    ids: Seq<Seq<char>>,
    cap: u32,
)
    requires
        other != k,
    ensures
        l.noted(k, id).at(other) == l.at(other),
        l.remembered(k, id, id).at(other) == l.at(other),
        l.received(k, None).at(other) == l.at(other),
        l.received(k, Some(ids)).at(other) == l.at(other),
        l.disposed(k, ids).at(other) == l.at(other),
        l.disposed_all(k).at(other) == l.at(other),
        l.retried(k, ids, cap).at(other) == l.at(other),
{
}

/// What changes the ledger is to be written, and what is to be written stays so; what changes nothing
/// asks for no writing.
pub proof fn law_changes_are_written(
    l: LedgerView,
    k: Seq<char>,
    id: Seq<char>,
    ids: Seq<Seq<char>>,
    keep: Seq<Seq<char>>,
    cap: u32,
)
    ensures
        l.noted(k, id).dirty,
        l.disposed(k, ids).by_key != l.by_key ==> l.disposed(k, ids).dirty,
        l.ok() && l.disposed_all(k).by_key != l.by_key ==> l.disposed_all(k).dirty,
        l.ok() && l.received(k, None).by_key != l.by_key ==> l.received(k, None).dirty,
        l.retried(k, ids, cap).by_key != l.by_key ==> l.retried(k, ids, cap).dirty,
        l.remembered(k, id, id).by_key != l.by_key ==> l.remembered(k, id, id).dirty,
        l.kept(keep).by_key != l.by_key ==> l.kept(keep).dirty,
        l.dirty ==> l.noted(k, id).dirty && l.disposed(k, ids).dirty && l.disposed_all(k).dirty
            && l.received(k, None).dirty && l.retried(k, ids, cap).dirty && l.kept(keep).dirty
            && l.remembered(k, id, id).dirty,
{
    if l.ok() && !l.disposed_all(k).dirty {
        if l.by_key.dom().contains(k) {
            assert(l.by_key[k].len() > 0);
        }
        assert(l.by_key.remove(k) =~= l.by_key);
    }
    if l.ok() && !l.received(k, None).dirty && l.by_key.dom().contains(k) {
        let s = l.by_key[k];
        assert(read(s, None) =~= s) by {
            assert forall|i: int| 0 <= i < s.len() implies read(s, None)[i] == #[trigger] s[i] by {
                if !s[i].received {
                    law_unread(s, None, s[i].id);
                    assert(unread(s, None).len() > 0);
                }
            }
        }
        assert(l.by_key.insert(k, s) =~= l.by_key);
    }
    if !l.kept(keep).dirty {
        assert(l.kept(keep).by_key =~= l.by_key) by {
            assert forall|x: Seq<char>| #[trigger] l.by_key.dom().contains(x) implies keep.to_set().contains(
                x,
            ) by {
                assert(keep.contains(x));
            }
        }
    }
}

/// The threads that are kept keep their messages; all others lose them.
pub proof fn law_kept_threads(l: LedgerView, keep: Seq<Seq<char>>, k: Seq<char>)
    ensures
        keep.contains(k) ==> l.kept(keep).at(k) == l.at(k),
        !keep.contains(k) ==> l.kept(keep).at(k).len() == 0,
{
    if keep.contains(k) {
        assert(keep.to_set().contains(k));
    } else {
        assert(!keep.to_set().contains(k));
    }
}

/// All of a thread's messages can be settled at once: none is left.
pub proof fn law_all_settled(l: LedgerView, k: Seq<char>)
    ensures
        l.disposed_all(k).at(k).len() == 0,
        !l.disposed_all(k).by_key.dom().contains(k),
{
}

proof fn lemma_bare_end_of(s: Seq<char>, seps: Seq<char>)
    requires
        s.len() > 0 ==> !is_separator(s.last()),
        forall|i: int| 0 <= i < seps.len() ==> is_separator(#[trigger] seps[i]),
    ensures
        bare_end(s + seps) == s,
    decreases seps.len(),
{
    if seps.len() == 0 {
        assert(s + seps =~= s);
    } else {
        lemma_bare_end_of(s, seps.drop_last());
        assert((s + seps).drop_last() =~= s + seps.drop_last());
        assert((s + seps).last() == seps[seps.len() - 1]);
    }
}

proof fn lemma_read_from(s: Seq<char>, id: Seq<char>, i: int, at: int)
    requires
        id.len() > 0,
        0 <= i <= at,
        text::stands_at(s, id, at),
        is_receipt(s, id, at),
        forall|j: int| at - id.len() < j < at ==> !text::stands_at(s, id, j),
    ensures
        is_read_in(s, id, i),
    decreases s.len() - i,
{
    lemma_first_at(s, id, i);
    let f = first_at(s, id, i)->0;
    assert(first_at(s, id, i) is Some);
    if f < at {
        assert(text::stands_at(s, id, f));
        lemma_read_from(s, id, f + id.len(), at);
    }
}

/// A message counts as read where the transcript names its id behind the word for it, with nothing but
/// quotes, blanks and signs between, and the number goes on no further.
pub proof fn law_named_message_is_read(
    a: Seq<char>,
    seps: Seq<char>,
    id: Seq<char>,
    b: Seq<char>,
)
    requires
        id.len() > 0,
        forall|i: int|
            0 <= i < seps.len() ==> (#[trigger] seps[i] == '"' || seps[i] == '\\' || seps[i] == '\''
                || seps[i] == ':' || seps[i] == '=' || seps[i] == ' ' || seps[i] == '\t' || seps[i]
                == '\n' || seps[i] == '\r'),
        b.len() > 0 ==> !('0' <= b[0] <= '9'),
        ({
            let s = a + "message_id"@ + seps + id + b;
            let at = (a + "message_id"@ + seps).len() as int;
            forall|j: int| at - id.len() < j < at ==> !text::stands_at(s, id, j)
        }),
    ensures
        is_read_in(a + "message_id"@ + seps + id + b, id, 0),
{
    let head = a + "message_id"@;
    let s = head + seps + id + b;
    let at = (head + seps).len() as int;
    reveal_strlit("message_id");
    assert("message_id"@.len() == 10 && "message_id"@[9] == 'd');
    assert(head.last() == 'd');
    lemma_bare_end_of(head, seps);
    assert(s.take(at) =~= head + seps);
    assert(head.subrange(a.len() as int, head.len() as int) =~= "message_id"@);
    assert(s.subrange(at, at + id.len()) =~= id);
    assert(text::stands_at(s, id, at));
    if at + id.len() < s.len() {
        assert(s[at + id.len()] == b[0]);
    }
    lemma_read_from(s, id, 0, at);
}

/// What counts as read is named: its id stands in the transcript behind the word for it, and is not the
/// beginning of a longer number.
pub proof fn law_read_is_named(s: Seq<char>, id: Seq<char>, i: int)
    requires
        0 <= i,
        is_read_in(s, id, i),
    ensures
        exists|at: int|
            #![trigger text::stands_at(s, id, at)]
            text::stands_at(s, id, at) && !(at + id.len() < s.len() && '0' <= s[at + id.len()]
                <= '9') && "message_id"@.is_suffix_of(bare_end(s.take(at))),
    decreases s.len() - i,
{
    lemma_first_at(s, id, i);
    let at = first_at(s, id, i)->0;
    if is_receipt(s, id, at) {
        assert(text::stands_at(s, id, at));
    } else {
        let next = at + if id.len() == 0 {
            1int
        } else {
            id.len() as int
        };
        law_read_is_named(s, id, next);
    }
}

/// Of the messages that are asked for, those that the transcript names are read: each of them, and no
/// other.
pub proof fn law_read_ids(s: Seq<char>, ids: Seq<Seq<char>>, n: nat, x: Seq<char>)
    requires
        n <= ids.len(),
    ensures
        read_ids(s, ids, n).contains(x) <==> ids.take(n as int).contains(x) && is_read_in(s, x, 0),
    decreases n,
{
    if n > 0 {
        let m = (n - 1) as nat;
        law_read_ids(s, ids, m, x);
        let before = read_ids(s, ids, m);
        let all = read_ids(s, ids, n);
        let t = ids.take(n as int);
        assert(t.drop_last() =~= ids.take(m as int));
        assert(t.last() == ids[n - 1]);
        if all.contains(x) {
            let j = choose|j: int| 0 <= j < all.len() && all[j] == x;
            if j < before.len() {
                assert(before[j] == x);
                let i = choose|i: int| 0 <= i < m && ids.take(m as int)[i] == x;
                assert(t[i] == x);
            } else {
                assert(t[n - 1] == x);
            }
        }
        if t.contains(x) && is_read_in(s, x, 0) {
            let i = choose|i: int| 0 <= i < t.len() && t[i] == x;
            if i < m {
                assert(ids.take(m as int)[i] == x);
                let j = choose|j: int| 0 <= j < before.len() && before[j] == x;
                assert(all[j] == x);
            } else {
                assert(all.last() == x);
            }
        }
    }
}

} // verus!
