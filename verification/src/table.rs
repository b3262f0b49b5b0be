//! Tables: values under text keys, kept in the order of the keys.
use crate::text;
use vstd::prelude::*;

verus! {

/// Values under distinct text keys, in ascending key order.
#[derive(Debug)]
pub struct Table<V> {
    keys: Vec<String>,
    vals: Vec<V>,
}

/// Keys and values as rows.
pub open spec fn rows_of<V>(keys: Seq<String>, vals: Seq<V>) -> Seq<(Seq<char>, V)> {
    Seq::new(keys.len(), |i: int| (keys[i]@, vals[i]))
}

/// Every key comes before the next ones.
pub open spec fn ascending<V>(rows: Seq<(Seq<char>, V)>) -> bool {
    forall|i: int, j: int|
        0 <= i < j < rows.len() ==> text::before(#[trigger] rows[i].0, #[trigger] rows[j].0)
}

/// Keys that stand in key order, each once.
pub open spec fn in_key_order(keys: Seq<Seq<char>>) -> bool {
    forall|i: int, j: int|
        0 <= i < j < keys.len() ==> text::before(#[trigger] keys[i], #[trigger] keys[j])
}

/// The row for `k`.
pub open spec fn has_row<V>(rows: Seq<(Seq<char>, V)>, k: Seq<char>, i: int) -> bool {
    0 <= i < rows.len() && rows[i].0 == k
}

/// What the rows say, as a map.
pub open spec fn rows_map<V>(rows: Seq<(Seq<char>, V)>) -> Map<Seq<char>, V> {
    Map::new(
        |k: Seq<char>| exists|i: int| has_row(rows, k, i),
        |k: Seq<char>| rows[choose|i: int| has_row(rows, k, i)].1,
    )
}

/// The rows list a map in key order: each key once, with what the map holds under it.
pub open spec fn lists<V>(rows: Seq<(Seq<char>, V)>, m: Map<Seq<char>, V>) -> bool {
    &&& ascending(rows)
    &&& forall|k: Seq<char>, v: V| #[trigger]
        rows.contains((k, v)) <==> m.dom().contains(k) && m[k] == v
}

/// Every table's rows list what it holds.
pub proof fn lemma_entries<V>(t: Table<V>)
    ensures
        ascending(t.entries()),
        lists(t.entries(), t@),
{
    let rows = t.entries();
    t.lemma_ascend();
    assert forall|k: Seq<char>, v: V| #[trigger] rows.contains((k, v)) <==> t@.dom().contains(k)
        && t@[k] == v by {
        if rows.contains((k, v)) {
            let i = choose|i: int| 0 <= i < rows.len() && rows[i] == (k, v);
            lemma_row_in_map(rows, i);
        }
        if t@.dom().contains(k) && t@[k] == v {
            let i = choose|i: int| has_row(rows, k, i);
            lemma_row_in_map(rows, i);
            assert(rows[i] == (k, v));
        }
    }
}

/// The rows list what the table holds, also where both are seen through what the values hold.
pub proof fn lemma_entries_seen<V, W>(t: Table<V>, f: spec_fn(V) -> W)
    ensures
        lists(t.entries().map_values(|r: (Seq<char>, V)| (r.0, f(r.1))), t@.map_values(f)),
{
    lemma_entries(t);
    let rows = t.entries();
    let seen = rows.map_values(|r: (Seq<char>, V)| (r.0, f(r.1)));
    let m = t@.map_values(f);
    assert forall|i: int, j: int| 0 <= i < j < seen.len() implies text::before(
        #[trigger] seen[i].0,
        #[trigger] seen[j].0,
    ) by {
        assert(text::before(rows[i].0, rows[j].0));
    }
    assert forall|k: Seq<char>, w: W| #[trigger] seen.contains((k, w)) <==> m.dom().contains(k)
        && m[k] == w by {
        if seen.contains((k, w)) {
            let i = choose|i: int| 0 <= i < seen.len() && seen[i] == (k, w);
            assert(rows[i].0 == k);
            assert(rows.contains((k, rows[i].1)));
        }
        if m.dom().contains(k) && m[k] == w {
            assert(rows.contains((k, t@[k])));
            let i = choose|i: int| 0 <= i < rows.len() && rows[i] == (k, t@[k]);
            assert(seen[i] == (k, w));
        }
    }
}

/// There is one listing of a map: its rows do not depend on how it was filled.
pub proof fn lemma_one_listing<V>(
    a: Seq<(Seq<char>, V)>,
    b: Seq<(Seq<char>, V)>,
    m: Map<Seq<char>, V>,
)
    requires
        lists(a, m),
        lists(b, m),
    ensures
        a == b,
    decreases a.len(),
{
    if a.len() == 0 {
        if b.len() > 0 {
            assert(b.contains((b[0].0, b[0].1)));
            assert(a.contains((b[0].0, b[0].1)));
        }
        assert(a =~= b);
    } else {
        let x = a.last();
        assert(a.contains((x.0, x.1)));
        assert(b.contains((x.0, x.1)));
        let j = choose|j: int| 0 <= j < b.len() && b[j] == x;
        let y = b.last();
        assert(b.contains((y.0, y.1)));
        assert(a.contains((y.0, y.1)));
        let i = choose|i: int| 0 <= i < a.len() && a[i] == y;
        if x != y {
            assert(text::before(a[i].0, a[a.len() - 1].0));
            assert(text::before(b[j].0, b[b.len() - 1].0));
            text::lemma_before_transitive(x.0, y.0, x.0);
            text::lemma_before_irreflexive(x.0);
        }
        let n = m.remove(x.0);
        lemma_short_listing(a, m);
        lemma_short_listing(b, m);
        lemma_one_listing(a.drop_last(), b.drop_last(), n);
        assert(a =~= a.drop_last().push(x));
        assert(b =~= b.drop_last().push(x));
    }
}

proof fn lemma_short_listing<V>(a: Seq<(Seq<char>, V)>, m: Map<Seq<char>, V>)
    requires
        lists(a, m),
        a.len() > 0,
    ensures
        lists(a.drop_last(), m.remove(a.last().0)),
{
    let x = a.last();
    let s = a.drop_last();
    let n = m.remove(x.0);
    assert forall|i: int, j: int| 0 <= i < j < s.len() implies text::before(
        #[trigger] s[i].0,
        #[trigger] s[j].0,
    ) by {
        assert(text::before(a[i].0, a[j].0));
    }
    assert forall|k: Seq<char>, v: V| #[trigger] s.contains((k, v)) <==> n.dom().contains(k) && n[k]
        == v by {
        if s.contains((k, v)) {
            let i = choose|i: int| 0 <= i < s.len() && s[i] == (k, v);
            assert(a[i] == (k, v));
            assert(a.contains((k, v)));
            assert(text::before(a[i].0, a[a.len() - 1].0));
            text::lemma_before_irreflexive(k);
        }
        if n.dom().contains(k) && n[k] == v {
            assert(a.contains((k, v)));
            let i = choose|i: int| 0 <= i < a.len() && a[i] == (k, v);
            assert(i < s.len());
            assert(s[i] == (k, v));
        }
    }
}

pub proof fn lemma_row_in_map<V>(rows: Seq<(Seq<char>, V)>, i: int)
    requires
        ascending(rows),
        0 <= i < rows.len(),
    ensures
        rows_map(rows).dom().contains(rows[i].0),
        rows_map(rows)[rows[i].0] == rows[i].1,
{
    let k = rows[i].0;
    assert(has_row(rows, k, i));
    let c = choose|c: int| has_row(rows, k, c);
    text::lemma_before_irreflexive(k);
    if c < i {
        assert(text::before(rows[c].0, rows[i].0));
    } else if i < c {
        assert(text::before(rows[i].0, rows[c].0));
    }
}

proof fn lemma_rows_ascend<V>(keys: Seq<String>, vals: Seq<V>)
    requires
        in_key_order(text::views(keys)),
    ensures
        ascending(rows_of(keys, vals)),
{
    let rows = rows_of(keys, vals);
    let k = text::views(keys);
    assert forall|i: int, j: int| 0 <= i < j < rows.len() implies text::before(
        #[trigger] rows[i].0,
        #[trigger] rows[j].0,
    ) by {
        assert(text::before(k[i], k[j]));
    }
}

proof fn lemma_keys_ascend<V>(keys: Seq<String>, vals: Seq<V>)
    requires
        ascending(rows_of(keys, vals)),
    ensures
        in_key_order(text::views(keys)),
{
    let rows = rows_of(keys, vals);
    let k = text::views(keys);
    assert forall|i: int, j: int| 0 <= i < j < k.len() implies text::before(
        #[trigger] k[i],
        #[trigger] k[j],
    ) by {
        assert(text::before(rows[i].0, rows[j].0));
    }
}

impl<V> Table<V> {
    #[verifier::type_invariant]
    closed spec fn wf(&self) -> bool {
        self.keys@.len() == self.vals@.len() && in_key_order(text::views(self.keys@))
    }

    /// The rows, in key order.
    pub closed spec fn entries(&self) -> Seq<(Seq<char>, V)> {
        if self.wf() {
            rows_of(self.keys@, self.vals@)
        } else {
            Seq::empty()
        }
    }

    proof fn lemma_ascend(self)
        ensures
            ascending(self.entries()),
    {
        if self.wf() {
            lemma_rows_ascend(self.keys@, self.vals@);
        }
    }

    /// The table as a map.
    pub open spec fn view(&self) -> Map<Seq<char>, V> {
        rows_map(self.entries())
    }

    /// An empty table.
    pub fn new() -> (t: Self)
        ensures
            t.entries().len() == 0,
            t@ == Map::<Seq<char>, V>::empty(),
    {
        let t = Table { keys: Vec::new(), vals: Vec::new() };
        proof {
            use_type_invariant(&t);
            assert(t@ =~= Map::<Seq<char>, V>::empty());
        }
        t
    }

    /// How many rows there are.
    pub fn len(&self) -> (n: usize)
        ensures
            n == self.entries().len(),
            ascending(self.entries()),
    {
        proof {
            use_type_invariant(self);
            lemma_rows_ascend(self.keys@, self.vals@);
        }
        self.keys.len()
    }

    /// The key in row `i`.
    pub fn key_at(&self, i: usize) -> (k: &String)
        requires
            i < self.entries().len(),
        ensures
            k@ == self.entries()[i as int].0,
    {
        proof {
            use_type_invariant(self);
        }
        &self.keys[i]
    }

    /// The value in row `i`.
    pub fn value_at(&self, i: usize) -> (v: &V)
        requires
            i < self.entries().len(),
        ensures
            *v == self.entries()[i as int].1,
            self@.dom().contains(self.entries()[i as int].0),
            self@[self.entries()[i as int].0] == *v,
    {
        proof {
            use_type_invariant(self);
            lemma_rows_ascend(self.keys@, self.vals@);
            lemma_row_in_map(self.entries(), i as int);
        }
        &self.vals[i]
    }

    /// The value in row `i`, to change it.
    pub fn slot(&mut self, i: usize) -> (v: &mut V)
        requires
            i < old(self).entries().len(),
        ensures
            *v == old(self).entries()[i as int].1,
            final(self).entries() == old(self).entries().update(
                i as int,
                (old(self).entries()[i as int].0, *final(v)),
            ),
            final(self)@ == old(self)@.insert(old(self).entries()[i as int].0, *final(v)),
    {
        proof {
            use_type_invariant(&*self);
            let before = self.entries();
            assert forall|x: V| #[trigger]
                rows_map(before.update(i as int, (before[i as int].0, x))) == rows_map(
                    before,
                ).insert(before[i as int].0, x) by {
                let after = before.update(i as int, (before[i as int].0, x));
                lemma_rows_ascend(self.keys@, self.vals@);
                assert(after =~= rows_of(self.keys@, self.vals@.update(i as int, x)));
                lemma_rows_ascend(self.keys@, self.vals@.update(i as int, x));
                lemma_put(before, after, i as int, true, before[i as int].0, x);
            }
        }
        &mut self.vals[i]
    }

    /// The first row whose key does not come before `k`, and whether it is `k`'s.
    fn place(&self, k: &str) -> (r: (usize, bool))
        ensures
            r.0 <= self.entries().len(),
            r.1 ==> has_row(self.entries(), k@, r.0 as int),
            !r.1 ==> !self@.dom().contains(k@),
            forall|i: int| 0 <= i < r.0 ==> text::before(#[trigger] self.entries()[i].0, k@),
            !r.1 ==> forall|i: int|
                r.0 <= i < self.entries().len() ==> text::before(
                    k@,
                    #[trigger] self.entries()[i].0,
                ),
    {
        proof {
            use_type_invariant(self);
            lemma_rows_ascend(self.keys@, self.vals@);
        }
        let ghost rows = self.entries();
        let mut p: usize = 0;
        while p < self.keys.len() && text::is_before(self.keys[p].as_str(), k)
            invariant
                p <= self.keys@.len(),
                rows == rows_of(self.keys@, self.vals@),
                forall|i: int| 0 <= i < p ==> text::before(#[trigger] rows[i].0, k@),
            decreases self.keys@.len() - p,
        {
            p = p + 1;
        }
        let hit: bool = p < self.keys.len() && text::same(self.keys[p].as_str(), k);
        proof {
            if !hit {
                assert forall|i: int| p <= i < rows.len() implies text::before(
                    k@,
                    #[trigger] rows[i].0,
                ) by {
                    text::lemma_before_total(rows[p as int].0, k@);
                    if p < i {
                        text::lemma_before_transitive(k@, rows[p as int].0, rows[i].0);
                    }
                }
                assert forall|i: int| !has_row(rows, k@, i) by {
                    if has_row(rows, k@, i) {
                        text::lemma_before_irreflexive(k@);
                    }
                }
            }
        }
        (p, hit)
    }

    /// The value under `k`.
    pub fn get(&self, k: &str) -> (r: Option<&V>)
        ensures
            match r {
                Some(v) => self@.dom().contains(k@) && *v == self@[k@],
                None => !self@.dom().contains(k@),
            },
    {
        let (p, hit) = self.place(k);
        if hit {
            proof {
                use_type_invariant(self);
                lemma_rows_ascend(self.keys@, self.vals@);
                lemma_row_in_map(self.entries(), p as int);
            }
            Some(&self.vals[p])
        } else {
            None
        }
    }

    /// The row of `k`.
    pub fn row_of(&self, k: &str) -> (r: Option<usize>)
        ensures
            match r {
                Some(i) => has_row(self.entries(), k@, i as int),
                None => !self@.dom().contains(k@),
            },
    {
        let (p, hit) = self.place(k);
        if hit {
            Some(p)
        } else {
            None
        }
    }

    /// Whether there is a value under `k`.
    pub fn has(&self, k: &str) -> (r: bool)
        ensures
            r == self@.dom().contains(k@),
    {
        match self.get(k) {
            Some(_) => true,
            None => false,
        }
    }

    /// Puts `v` under `k` and hands back what stood there.
    pub fn insert(&mut self, k: String, v: V) -> (r: Option<V>)
        ensures
            final(self)@ == old(self)@.insert(k@, v),
            match r {
                Some(x) => old(self)@.dom().contains(k@) && x == old(self)@[k@],
                None => !old(self)@.dom().contains(k@),
            },
    {
        let (p, hit) = self.place(k.as_str());
        let mut whole: Table<V> = Table::new();
        proof {
            use_type_invariant(&*self);
            lemma_rows_ascend(self.keys@, self.vals@);
        }
        let ghost before = self.entries();
        let ghost key = k@;
        std::mem::swap(&mut whole, self);
        let Table { mut keys, mut vals } = whole;
        let old_value: Option<V> = if hit {
            let _ = keys.remove(p);
            let x: V = vals.remove(p);
            proof {
                lemma_row_in_map(before, p as int);
            }
            Some(x)
        } else {
            None
        };
        keys.insert(p, k);
        vals.insert(p, v);
        proof {
            let after = rows_of(keys@, vals@);
            if hit {
                assert(after =~= before.update(p as int, (key, v)));
            } else {
                assert(after =~= before.insert(p as int, (key, v)));
            }
            assert(ascending(after)) by {
                assert forall|i: int, j: int| 0 <= i < j < after.len() implies text::before(
                    #[trigger] after[i].0,
                    #[trigger] after[j].0,
                ) by {
                    if hit {
                        assert(after[i].0 == before[i].0 && after[j].0 == before[j].0);
                    } else {
                        assert(i < p ==> after[i] == before[i]);
                        assert(i > p ==> after[i] == before[i - 1]);
                        assert(j < p ==> after[j] == before[j]);
                        assert(j > p ==> after[j] == before[j - 1]);
                    }
                }
            }
            lemma_put(before, after, p as int, hit, key, v);
            lemma_keys_ascend(keys@, vals@);
        }
        *self = Table { keys, vals };
        old_value
    }

    /// Swaps the value in row `i` with `v`.
    pub fn swap_at(&mut self, i: usize, v: &mut V)
        requires
            i < old(self).entries().len(),
        ensures
            *final(v) == old(self).entries()[i as int].1,
            final(self).entries() == old(self).entries().update(
                i as int,
                (old(self).entries()[i as int].0, *old(v)),
            ),
            final(self)@ == old(self)@.insert(old(self).entries()[i as int].0, *old(v)),
    {
        std::mem::swap(self.slot(i), v);
    }

    /// Takes the value under `k` out.
    pub fn remove(&mut self, k: &str) -> (r: Option<V>)
        ensures
            final(self)@ == old(self)@.remove(k@),
            match r {
                Some(x) => old(self)@.dom().contains(k@) && x == old(self)@[k@],
                None => !old(self)@.dom().contains(k@) && final(self)@ == old(self)@,
            },
    {
        let (p, hit) = self.place(k);
        let mut whole: Table<V> = Table::new();
        proof {
            use_type_invariant(&*self);
            lemma_rows_ascend(self.keys@, self.vals@);
        }
        let ghost before = self.entries();
        if !hit {
            proof {
                assert(self@.remove(k@) =~= self@);
            }
            return None;
        }
        std::mem::swap(&mut whole, self);
        let Table { mut keys, mut vals } = whole;
        let _ = keys.remove(p);
        let x: V = vals.remove(p);
        proof {
            lemma_row_in_map(before, p as int);
            let after = rows_of(keys@, vals@);
            assert(after =~= before.remove(p as int));
            assert(ascending(after)) by {
                assert forall|i: int, j: int| 0 <= i < j < after.len() implies text::before(
                    #[trigger] after[i].0,
                    #[trigger] after[j].0,
                ) by {
                    assert(after[i] == before[if i < p { i } else { i + 1 }]);
                    assert(after[j] == before[if j < p { j } else { j + 1 }]);
                }
            }
            lemma_cut(before, after, p as int);
            lemma_keys_ascend(keys@, vals@);
        }
        *self = Table { keys, vals };
        Some(x)
    }
}

impl<V: Clone> Clone for Table<V> {
    fn clone(&self) -> (r: Self)
        ensures
            r.entries().len() == self.entries().len(),
            forall|i: int|
                0 <= i < self.entries().len() ==> (#[trigger] r.entries()[i]).0
                    == self.entries()[i].0 && cloned(self.entries()[i].1, r.entries()[i].1),
    {
        proof {
            use_type_invariant(self);
        }
        let mut keys: Vec<String> = Vec::new();
        let mut vals: Vec<V> = Vec::new();
        let mut i: usize = 0;
        while i < self.keys.len()
            invariant
                i <= self.keys@.len() == self.vals@.len(),
                keys@ =~= self.keys@.take(i as int),
                vals@.len() == i,
                forall|j: int| 0 <= j < i ==> cloned(self.vals@[j], #[trigger] vals@[j]),
            decreases self.keys@.len() - i,
        {
            keys.push(self.keys[i].clone());
            vals.push(self.vals[i].clone());
            i = i + 1;
        }
        proof {
            assert(keys@ =~= self.keys@);
        }
        Table { keys, vals }
    }
}

proof fn lemma_put<V>(
    before: Seq<(Seq<char>, V)>,
    after: Seq<(Seq<char>, V)>,
    p: int,
    hit: bool,
    k: Seq<char>,
    v: V,
)
    requires
        ascending(before),
        ascending(after),
        0 <= p <= before.len(),
        hit ==> has_row(before, k, p) && after == before.update(p, (k, v)),
        !hit ==> !rows_map(before).dom().contains(k) && after == before.insert(p, (k, v)),
    ensures
        rows_map(after) == rows_map(before).insert(k, v),
{
    let m = rows_map(before);
    let n = rows_map(after);
    assert(after[p] == (k, v));
    lemma_row_in_map(after, p);
    assert forall|x: Seq<char>| #[trigger] n.dom().contains(x) == m.insert(k, v).dom().contains(x)
        && (n.dom().contains(x) ==> n[x] == m.insert(k, v)[x]) by {
        if n.dom().contains(x) && x != k {
            let i = choose|i: int| has_row(after, x, i);
            lemma_row_in_map(after, i);
            let j = if hit || i < p {
                i
            } else {
                i - 1
            };
            assert(before[j] == after[i]);
            lemma_row_in_map(before, j);
        }
        if m.dom().contains(x) && x != k {
            let i = choose|i: int| has_row(before, x, i);
            let j = if hit || i < p {
                i
            } else {
                i + 1
            };
            assert(after[j] == before[i]);
            assert(has_row(after, x, j));
        }
    }
    assert(n =~= m.insert(k, v));
}

proof fn lemma_cut<V>(before: Seq<(Seq<char>, V)>, after: Seq<(Seq<char>, V)>, p: int)
    requires
        ascending(before),
        ascending(after),
        0 <= p < before.len(),
        after == before.remove(p),
    ensures
        rows_map(after) == rows_map(before).remove(before[p].0),
{
    let k = before[p].0;
    let m = rows_map(before);
    let n = rows_map(after);
    assert forall|x: Seq<char>| #[trigger] n.dom().contains(x) == m.remove(k).dom().contains(x) && (
    n.dom().contains(x) ==> n[x] == m.remove(k)[x]) by {
        if n.dom().contains(x) {
            let i = choose|i: int| has_row(after, x, i);
            lemma_row_in_map(after, i);
            let j = if i < p {
                i
            } else {
                i + 1
            };
            assert(before[j] == after[i]);
            lemma_row_in_map(before, j);
            text::lemma_before_irreflexive(x);
            if j < p {
                assert(text::before(before[j].0, before[p].0));
            } else {
                assert(text::before(before[p].0, before[j].0));
            }
        }
        if m.dom().contains(x) && x != k {
            let i = choose|i: int| has_row(before, x, i);
            let j = if i < p {
                i
            } else {
                i - 1
            };
            assert(after[j] == before[i]);
            assert(has_row(after, x, j));
        }
    }
    assert(n =~= m.remove(k));
}

} // verus!
