//! Which session waits in which directory.
use crate::json;
use crate::table::{self, Table};
use crate::text;
use vstd::prelude::*;

verus! {

/// The session that is named for each directory an agent waits in. The naming outlives the
/// process: a named session is taken up again rather than a new one begun.
pub struct Pools {
    pub entries: Table<String>,
}

pub open spec fn text_views(m: Map<Seq<char>, String>) -> Map<Seq<char>, Seq<char>> {
    m.map_values(|s: String| s@)
}

impl View for Pools {
    type V = Map<Seq<char>, Seq<char>>;

    open spec fn view(&self) -> Map<Seq<char>, Seq<char>> {
        text_views(self.entries@)
    }
}

/// The first directory, in order, for which a session is named.
pub open spec fn first_home(rows: Seq<(Seq<char>, Seq<char>)>, session: Seq<char>) -> Option<
    Seq<char>,
>
    decreases rows.len(),
{
    if rows.len() == 0 {
        None
    } else if rows[0].1 == session {
        Some(rows[0].0)
    } else {
        first_home(rows.drop_first(), session)
    }
}

impl Pools {
    /// The directories and their sessions, in the order of the directories.
    pub open spec fn pairs(&self) -> Seq<(Seq<char>, Seq<char>)> {
        self.entries.entries().map_values(|r: (Seq<char>, String)| (r.0, r.1@))
    }

    /// No session is named.
    pub fn new() -> (p: Self)
        ensures
            p@ == Map::<Seq<char>, Seq<char>>::empty(),
            p.pairs() == Seq::<(Seq<char>, Seq<char>)>::empty(),
    {
        let p: Pools = Pools { entries: Table::new() };
        proof {
            assert(p.pairs() =~= Seq::empty());
            assert(p@ =~= Map::<Seq<char>, Seq<char>>::empty());
        }
        p
    }

    /// Reads the naming from JSON: an object that holds a session under each directory.
    pub fn from_str(src: &str) -> (r: Result<Self, String>)
        ensures
            match r {
                Ok(p) => json::holds_texts(src@, p@),
                Err(e) => json::json_texts(src@) matches Err(why) && why == e@,
            },
    {
        let pairs: Vec<(String, String)> = match json::texts_in(src) {
            Ok(v) => v,
            Err(e) => return Err(e),
        };
        let ghost all = text::pair_views(pairs@);
        let mut p: Pools = Pools::new();
        let mut i: usize = 0;
        proof {
            assert(all.take(0) =~= Seq::empty());
        }
        while i < pairs.len()
            invariant
                i <= pairs@.len(),
                all == text::pair_views(pairs@),
                p@ == json::pairs_map(all.take(i as int)),
            decreases pairs@.len() - i,
        {
            p.nominate(pairs[i].0.as_str(), pairs[i].1.as_str());
            proof {
                assert(all.take(i + 1).drop_last() =~= all.take(i as int));
                assert(all.take(i + 1).last() == all[i as int]);
            }
            i = i + 1;
        }
        proof {
            assert(all.take(all.len() as int) =~= all);
        }
        Ok(p)
    }

    /// Writes the naming as JSON.
    pub fn to_string_pretty(&self) -> (out: String)
        ensures
            json::holds_texts(out@, self@),
    {
        let _ = self.entries.len();
        proof {
            lemma_pairs_map(self.entries.entries());
            assert(text_views(table::rows_map(self.entries.entries())) == self@);
        }
        json::texts_json(self.rows())
    }

    /// The named sessions, in the order of their directories.
    pub fn sessions(&self) -> (out: Vec<String>)
        ensures
            text::views(out@) == self.pairs().map_values(|p: (Seq<char>, Seq<char>)| p.1),
    {
        let n: usize = self.entries.len();
        let ghost all = self.pairs().map_values(|p: (Seq<char>, Seq<char>)| p.1);
        let mut out: Vec<String> = Vec::new();
        let mut i: usize = 0;
        while i < n
            invariant
                i <= n == all.len(),
                n == self.entries.entries().len(),
                all == self.pairs().map_values(|p: (Seq<char>, Seq<char>)| p.1),
                text::views(out@) =~= all.take(i as int),
            decreases n - i,
        {
            broadcast use text::lemma_views_push;

            out.push(self.entries.value_at(i).clone());
            proof {
                assert(all.take(i + 1) =~= all.take(i as int).push(all[i as int]));
            }
            i = i + 1;
        }
        proof {
            assert(all.take(n as int) =~= all);
        }
        out
    }

    /// The session that is named for a directory.
    pub fn session_of(&self, cwd: &str) -> (r: Option<&str>)
        ensures
            match r {
                Some(s) => self@.dom().contains(cwd@) && s@ == self@[cwd@],
                None => !self@.dom().contains(cwd@),
            },
    {
        match self.entries.get(cwd) {
            Some(s) => Some(s.as_str()),
            None => None,
        }
    }

    /// Names a session for a directory.
    pub fn nominate(&mut self, cwd: &str, session_id: &str)
        ensures
            final(self)@ == old(self)@.insert(cwd@, session_id@),
    {
        let s: String = session_id.to_owned();
        let _ = self.entries.insert(cwd.to_owned(), s);
        proof {
            assert(self@ =~= old(self)@.insert(cwd@, session_id@));
        }
    }

    /// Drops the naming of a directory, and returns the session that was named.
    pub fn release(&mut self, cwd: &str) -> (r: Option<String>)
        ensures
            final(self)@ == old(self)@.remove(cwd@),
            match r {
                Some(s) => old(self)@.dom().contains(cwd@) && s@ == old(self)@[cwd@],
                None => !old(self)@.dom().contains(cwd@),
            },
    {
        let r: Option<String> = self.entries.remove(cwd);
        proof {
            assert(self@ =~= old(self)@.remove(cwd@));
        }
        r
    }

    /// Drops the naming of a session, and returns its directory.
    pub fn release_session(&mut self, session_id: &str) -> (r: Option<String>)
        ensures
            text::opt_view(r) == first_home(old(self).pairs(), session_id@),
            final(self)@ == match first_home(old(self).pairs(), session_id@) {
                Some(cwd) => old(self)@.remove(cwd),
                None => old(self)@,
            },
    {
        let ghost all = self.pairs();
        let n: usize = self.entries.len();
        let mut i: usize = 0;
        proof {
            assert(all.skip(0) =~= all);
        }
        while i < n
            invariant
                i <= n == all.len(),
                n == self.entries.entries().len(),
                all == self.pairs(),
                *self == *old(self),
                first_home(all, session_id@) == first_home(all.skip(i as int), session_id@),
            decreases n - i,
        {
            proof {
                assert(all.skip(i as int)[0] == all[i as int]);
                assert(all.skip(i as int).drop_first() =~= all.skip(i + 1));
            }
            if text::same(self.entries.value_at(i).as_str(), session_id) {
                let cwd: String = self.entries.key_at(i).clone();
                let _ = self.release(cwd.as_str());
                return Some(cwd);
            }
            i = i + 1;
        }
        None
    }

    /// The directories and the sessions that are named for them, in the order of the directories.
    pub fn rows(&self) -> (out: Vec<(String, String)>)
        ensures
            text::pair_views(out@) == self.pairs(),
    {
        let n: usize = self.entries.len();
        let ghost all = self.pairs();
        let mut out: Vec<(String, String)> = Vec::new();
        let mut i: usize = 0;
        while i < n
            invariant
                i <= n == all.len(),
                n == self.entries.entries().len(),
                all == self.pairs(),
                text::pair_views(out@) =~= all.take(i as int),
            decreases n - i,
        {
            let ghost before = out@;
            out.push((self.entries.key_at(i).clone(), self.entries.value_at(i).clone()));
            proof {
                assert(text::pair_views(out@) =~= text::pair_views(before).push(all[i as int]));
                assert(all.take(i + 1) =~= all.take(i as int).push(all[i as int]));
            }
            i = i + 1;
        }
        proof {
            assert(all.take(n as int) =~= all);
        }
        out
    }
}

proof fn lemma_pairs_map(rows: Seq<(Seq<char>, String)>)
    requires
        table::ascending(rows),
    ensures
        json::pairs_map(rows.map_values(|r: (Seq<char>, String)| (r.0, r.1@))) == text_views(
            table::rows_map(rows),
        ),
    decreases rows.len(),
{
    let pairs = rows.map_values(|r: (Seq<char>, String)| (r.0, r.1@));
    let m = text_views(table::rows_map(rows));
    if rows.len() == 0 {
        assert(m =~= Map::empty());
    } else {
        let t = rows.drop_last();
        assert forall|i: int, j: int| 0 <= i < j < t.len() implies text::before(
            #[trigger] t[i].0,
            #[trigger] t[j].0,
        ) by {
            assert(text::before(rows[i].0, rows[j].0));
        }
        lemma_pairs_map(t);
        assert(t.map_values(|r: (Seq<char>, String)| (r.0, r.1@)) =~= pairs.drop_last());
        let last = rows.len() - 1;
        table::lemma_row_in_map(rows, last);
        let built = text_views(table::rows_map(t)).insert(rows[last].0, rows[last].1@);
        assert forall|k: Seq<char>| built.dom().contains(k) == m.dom().contains(k) by {
            if m.dom().contains(k) {
                let i = choose|i: int| table::has_row(rows, k, i);
                if i < last {
                    assert(table::has_row(t, k, i));
                }
            }
            if built.dom().contains(k) && k != rows[last].0 {
                let i = choose|i: int| table::has_row(t, k, i);
                assert(table::has_row(rows, k, i));
            }
        }
        assert forall|k: Seq<char>| m.dom().contains(k) implies built[k] == m[k] by {
            if k != rows[last].0 {
                let i = choose|i: int| table::has_row(rows, k, i);
                assert(i < last);
                assert(t[i] == rows[i]);
                table::lemma_row_in_map(rows, i);
                table::lemma_row_in_map(t, i);
            }
        }
        assert(built =~= m);
    }
}

/// The naming outlives the process: what is written is read back.
pub proof fn law_naming_is_read_back(written: Pools, src: Seq<char>, read: Pools)
    requires
        json::holds_texts(src, written@),
        json::holds_texts(src, read@),
    ensures
        read@ == written@,
{
}

/// The directory whose naming is dropped with a session is one it was named for.
pub proof fn law_released_was_named(rows: Seq<(Seq<char>, Seq<char>)>, session: Seq<char>)
    ensures
        match first_home(rows, session) {
            Some(cwd) => exists|i: int|
                0 <= i < rows.len() && #[trigger] rows[i] == (cwd, session),
            None => forall|i: int| 0 <= i < rows.len() ==> (#[trigger] rows[i]).1 != session,
        },
    decreases rows.len(),
{
    if rows.len() > 0 && rows[0].1 != session {
        let t = rows.drop_first();
        law_released_was_named(t, session);
        match first_home(rows, session) {
            Some(cwd) => {
                let i = choose|i: int| 0 <= i < t.len() && #[trigger] t[i] == (cwd, session);
                assert(rows[i + 1] == t[i]);
            },
            None => {
                assert forall|i: int| 0 <= i < rows.len() implies (#[trigger] rows[i]).1
                    != session by {
                    if i > 0 {
                        assert(t[i - 1] == rows[i]);
                    }
                }
            },
        }
    } else if rows.len() > 0 {
        assert(rows[0] == (rows[0].0, session));
    }
}

/// The named sessions are listed by directory, each directory once.
pub proof fn law_naming_is_listed(x: Pools)
    ensures
        table::lists(x.pairs(), x@),
{
    let f = |v: String| v@;
    table::lemma_entries_seen(x.entries, f);
    assert(x.pairs() =~= x.entries.entries().map_values(|r: (Seq<char>, String)| (r.0, f(r.1))));
    assert(x@ =~= x.entries@.map_values(f));
}

/// Of several pools that name a session, the first one is its home.
pub proof fn law_first_home_is_first(
    rows: Seq<(Seq<char>, Seq<char>)>,
    session: Seq<char>,
    i: int,
)
    requires
        0 <= i < rows.len(),
        rows[i].1 == session,
        forall|j: int| 0 <= j < i ==> (#[trigger] rows[j]).1 != session,
    ensures
        first_home(rows, session) == Some(rows[i].0),
    decreases rows.len(),
{
    if i > 0 {
        assert(rows[0].1 != session);
        let t = rows.drop_first();
        assert(t[i - 1] == rows[i]);
        assert forall|j: int| 0 <= j < i - 1 implies (#[trigger] t[j]).1 != session by {
            assert(t[j] == rows[j + 1]);
        }
        law_first_home_is_first(t, session, i - 1);
    }
}

} // verus!
