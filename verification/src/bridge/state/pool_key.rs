//! A short, stable key for each project directory, and the timeline of each thread.
use crate::chat::ThreadKey;
use crate::table::Table;
use crate::text;
use vstd::prelude::*;

verus! {

/// A stable key per project directory, short whatever the path's length.
#[derive(Debug, PartialEq, Eq, Hash, PartialOrd, Ord)]
pub struct PoolKey {
    raw: String,
}

impl View for PoolKey {
    type V = Seq<char>;

    closed spec fn view(&self) -> Seq<char> {
        self.raw@
    }
}

impl Clone for PoolKey {
    fn clone(&self) -> (r: Self)
        ensures
            r == *self,
            r@ == self@,
    {
        PoolKey { raw: self.raw.clone() }
    }
}

/// One more UTF-16 unit in a hash of 32 bits.
pub open spec fn hash_unit(h: int, unit: int) -> int {
    (h * 33 + unit) % 0x1_0000_0000
}

/// One more character in a hash: its UTF-16 units, one after the other.
pub open spec fn hash_char(h: int, c: char) -> int {
    let u = c as u32 as int;
    if u < 0x10000 {
        hash_unit(h, u)
    } else {
        hash_unit(hash_unit(h, 0xD800 + (u - 0x10000) / 0x400), 0xDC00 + (u - 0x10000) % 0x400)
    }
}

/// The hash of a text: djb2 over its UTF-16 units.
pub open spec fn hash_text(s: Seq<char>) -> int
    decreases s.len(),
{
    if s.len() == 0 {
        5381
    } else {
        hash_char(hash_text(s.drop_last()), s.last())
    }
}

/// The key of a directory.
pub open spec fn pool_key_of(cwd: Seq<char>) -> Seq<char> {
    "repo-"@ + text::digits_in(hash_text(cwd) as nat, 36)
}

fn next_hash(h: u64, unit: u64) -> (r: u64)
    requires
        h < 0x1_0000_0000,
        unit < 0x10000,
    ensures
        r == hash_unit(h as int, unit as int),
        r < 0x1_0000_0000,
{
    (h * 33 + unit) % 0x1_0000_0000
}

fn hash(s: &str) -> (r: u64)
    ensures
        r == hash_text(s@),
        r < 0x1_0000_0000,
{
    let chars: Vec<char> = text::chars_of(s);
    let mut h: u64 = 5381;
    let mut i: usize = 0;
    proof {
        assert(s@.take(0) =~= Seq::<char>::empty());
    }
    while i < chars.len()
        invariant
            i <= chars@.len(),
            chars@ == s@,
            h == hash_text(s@.take(i as int)),
            h < 0x1_0000_0000,
        decreases chars@.len() - i,
    {
        let c: char = chars[i];
        let code: u32 = c as u32;
        proof {
            vstd::utf8::char_is_scalar(c);
        }
        let u: u64 = code as u64;
        proof {
            assert(s@.take(i + 1).drop_last() =~= s@.take(i as int));
        }
        if u < 0x10000 {
            h = next_hash(h, u);
        } else {
            let rest: u64 = u - 0x10000;
            h = next_hash(h, 0xD800 + rest / 0x400);
            h = next_hash(h, 0xDC00 + rest % 0x400);
        }
        i = i + 1;
    }
    proof {
        assert(s@.take(s@.len() as int) =~= s@);
    }
    h
}

impl PoolKey {
    /// The key of a directory.
    pub fn of_cwd(cwd: &str) -> (k: PoolKey)
        ensures
            k@ == pool_key_of(cwd@),
    {
        let h: u64 = hash(cwd);
        let mut raw: String = "repo-".to_owned();
        text::push_digits(&mut raw, h, 36);
        PoolKey { raw }
    }

    /// The key with a known text.
    pub(crate) fn known(raw: &str) -> (k: PoolKey)
        ensures
            k@ == raw@,
    {
        PoolKey { raw: raw.to_owned() }
    }

    /// The key as text.
    pub fn as_str(&self) -> (s: &str)
        ensures
            s@ == self@,
    {
        self.raw.as_str()
    }
}

/// One event in a thread's life: which one it is, and how long after the one before and after the
/// start.
#[derive(Clone, Copy, Debug, PartialEq, Eq, Structural)]
pub struct Milestone {
    pub seq: u32,
    pub since_prev_ms: u64,
    pub since_spawn_ms: u64,
}

impl Milestone {
    /// The line a log holds for an event.
    pub open spec fn line(self, key: Seq<char>, event: Seq<char>) -> Seq<char> {
        "thread="@ + key + " #"@ + text::decimal(self.seq as int) + " "@ + event + " +"@
            + text::decimal(self.since_prev_ms as int) + "ms (since spawn +"@ + text::decimal(
            self.since_spawn_ms as int,
        ) + "ms)"@
    }

    /// The line a log holds for an event.
    pub fn message(&self, key: &ThreadKey, event: &str) -> (out: String)
        ensures
            out@ == self.line(key@, event@),
    {
        let mut out: String = "thread=".to_owned();
        out.append(key.as_str());
        out.append(" #");
        let n: String = text::number(self.seq as u64);
        out.append(n.as_str());
        out.append(" ");
        out.append(event);
        out.append(" +");
        let prev: String = text::number(self.since_prev_ms);
        out.append(prev.as_str());
        out.append("ms (since spawn +");
        let spawn: String = text::number(self.since_spawn_ms);
        out.append(spawn.as_str());
        out.append("ms)");
        out
    }
}

/// Where a thread's timeline stands: when it started, when its last event was, and how many there
/// were.
#[derive(Clone, Copy, Debug, PartialEq, Eq, Structural)]
pub struct Timeline {
    pub spawn_at: u64,
    pub prev_at: u64,
    pub seq: u32,
}

impl Timeline {
    /// A timeline that starts now.
    pub open spec fn starting(now_ms: u64) -> Timeline {
        Timeline { spawn_at: now_ms, prev_at: now_ms, seq: 0 }
    }
}

/// What is subtracted, but not below zero: a wall clock can go back.
pub open spec fn gap(now_ms: u64, then_ms: u64) -> u64 {
    if now_ms >= then_ms {
        (now_ms - then_ms) as u64
    } else {
        0
    }
}

/// The timelines of all threads, by one clock.
pub struct Lifecycle {
    state: Table<Timeline>,
}

impl View for Lifecycle {
    type V = Map<Seq<char>, Timeline>;

    closed spec fn view(&self) -> Map<Seq<char>, Timeline> {
        self.state@
    }
}

/// The timeline that an event counts on: a new one where the thread starts or is not known.
pub open spec fn timeline_for(
    m: Map<Seq<char>, Timeline>,
    key: Seq<char>,
    event: Seq<char>,
    now_ms: u64,
) -> Timeline {
    if event != "spawn"@ && m.dom().contains(key) {
        m[key]
    } else {
        Timeline::starting(now_ms)
    }
}

impl Lifecycle {
    /// No timelines yet.
    pub fn new() -> (l: Self)
        ensures
            l@ == Map::<Seq<char>, Timeline>::empty(),
    {
        Lifecycle { state: Table::new() }
    }

    /// How many events a thread had since it started.
    pub fn count(&self, key: &ThreadKey) -> (n: u32)
        ensures
            n == if self@.dom().contains(key@) {
                self@[key@].seq
            } else {
                0
            },
    {
        match self.state.get(key.as_str()) {
            Some(t) => t.seq,
            None => 0,
        }
    }

    /// Notes an event. `spawn`, or the first event of a thread, starts its timeline anew.
    pub fn record(&mut self, key: &ThreadKey, event: &str, now_ms: u64) -> (m: Milestone)
        requires
            event@ != "spawn"@ && old(self)@.dom().contains(key@) ==> old(self)@[key@].seq
                < u32::MAX,
        ensures
            ({
                let t = timeline_for(old(self)@, key@, event@, now_ms);
                &&& m == (Milestone {
                    seq: (t.seq + 1) as u32,
                    since_prev_ms: gap(now_ms, t.prev_at),
                    since_spawn_ms: gap(now_ms, t.spawn_at),
                })
                &&& final(self)@ == old(self)@.insert(
                    key@,
                    (Timeline { spawn_at: t.spawn_at, prev_at: now_ms, seq: (t.seq + 1) as u32 }),
                )
            }),
    {
        let fresh: Timeline = Timeline { spawn_at: now_ms, prev_at: now_ms, seq: 0 };
        let t: Timeline = if text::same(event, "spawn") {
            fresh
        } else {
            match self.state.get(key.as_str()) {
                Some(t) => *t,
                None => fresh,
            }
        };
        let m: Milestone = Milestone {
            seq: t.seq + 1,
            since_prev_ms: if now_ms >= t.prev_at {
                now_ms - t.prev_at
            } else {
                0
            },
            since_spawn_ms: if now_ms >= t.spawn_at {
                now_ms - t.spawn_at
            } else {
                0
            },
        };
        let _ = self.state.insert(
            key.as_str().to_owned(),
            Timeline { spawn_at: t.spawn_at, prev_at: now_ms, seq: t.seq + 1 },
        );
        m
    }
}

/// A thread's timeline starts over with `spawn`: that event is the first, and no time has passed.
pub proof fn law_spawn_starts_over(m: Map<Seq<char>, Timeline>, key: Seq<char>, now_ms: u64)
    ensures
        timeline_for(m, key, "spawn"@, now_ms) == Timeline::starting(now_ms),
{
}

/// The gap between two times is how long it is from one to the other; a clock that went back makes
/// none.
pub proof fn law_gap(now_ms: u64, then_ms: u64)
    ensures
        now_ms >= then_ms ==> gap(now_ms, then_ms) + then_ms == now_ms,
        now_ms < then_ms ==> gap(now_ms, then_ms) == 0,
{
}

/// A thread's timeline goes on until it is started over; a thread that has none begins one.
pub proof fn law_timeline_goes_on(
    m: Map<Seq<char>, Timeline>,
    key: Seq<char>,
    event: Seq<char>,
    now_ms: u64,
)
    ensures
        m.dom().contains(key) && event != "spawn"@ ==> timeline_for(m, key, event, now_ms) == m[key],
        !m.dom().contains(key) || event == "spawn"@ ==> ({
            let t = timeline_for(m, key, event, now_ms);
            t.spawn_at == now_ms && t.prev_at == now_ms && t.seq == 0
        }),
{
}

/// A folder's hash takes in one character after another: each counts once, behind thirty-three times
/// what was there; one beyond the basic plane counts as its two halves.
pub proof fn law_hash_takes_in(s: Seq<char>, c: char)
    ensures
        hash_text(Seq::<char>::empty()) == 5381,
        (c as u32) < 0x10000 ==> hash_text(s.push(c)) == (hash_text(s) * 33 + c as u32 as int)
            % 0x1_0000_0000,
        (c as u32) >= 0x10000 ==> hash_text(s.push(c)) == (((hash_text(s) * 33 + (0xD800 + (
        c as u32 - 0x10000) / 0x400)) % 0x1_0000_0000) * 33 + (0xDC00 + (c as u32 - 0x10000)
            % 0x400)) % 0x1_0000_0000,
{
    assert(s.push(c).drop_last() =~= s);
    assert(s.push(c).last() == c);
}

/// A pool's key is the mark of a folder and the folder's hash, from which the hash reads back.
pub proof fn law_pool_key(cwd: Seq<char>)
    ensures
        "repo-"@.is_prefix_of(pool_key_of(cwd)),
        text::number_of(pool_key_of(cwd).skip("repo-"@.len() as int), 36) == hash_text(cwd),
{
    let k = pool_key_of(cwd);
    let d = text::digits_in(hash_text(cwd) as nat, 36);
    assert(k.subrange(0, "repo-"@.len() as int) =~= "repo-"@);
    assert(k.skip("repo-"@.len() as int) =~= d);
    lemma_hash_is_positive(cwd);
    text::law_digits_read_back(hash_text(cwd) as nat, 36);
}

proof fn lemma_hash_is_positive(s: Seq<char>)
    ensures
        0 <= hash_text(s) < 0x1_0000_0000,
{
}

} // verus!
