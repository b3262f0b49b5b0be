//! The watch on how much of the service may still be used.
use crate::bridge::render::notice::{warning_lines, Notice};
use crate::bridge::render::reports::{as_lines, UsageProjection, UsageRow};
use crate::chat::{self, ThreadKey};
use crate::clock::WallClock;
use crate::i18n::Lang;
use crate::product::Product;
use crate::text;
use vstd::prelude::*;

verus! {

/// How long the first look is put off after the start.
pub const USAGE_MONITOR_STARTUP_DELAY_MS: u64 = 60_000;

/// How often it is looked: each hour, and each quarter where the limit is near.
pub const POLL_MS: u64 = 3_600_000;

pub const POLL_AT_RISK_MS: u64 = 900_000;

/// The shares, in percent, that are warned of.
pub const FIRST_WARNING_PCT: u32 = 80;

pub const SECOND_WARNING_PCT: u32 = 90;

/// What is known of the use.
#[derive(Clone, Copy, Debug, PartialEq, Eq, Structural)]
pub struct UsageState {
    /// When it was last looked; zero before the first time.
    pub polled_at_ms: u64,
    /// The limit is expected to be reached.
    pub at_risk: bool,
    /// The highest share that was warned of.
    pub warned_pct: u32,
    /// Until when the service is limited.
    pub limited_until_ms: u64,
}

/// What a look at the use changed.
#[derive(Debug, PartialEq, Eq)]
pub struct UsageSeen {
    /// A new period began: warnings are given anew.
    pub rearmed: bool,
    /// The service is limited until another time than was known.
    pub gated: bool,
    /// The shares that were passed since the last warning, lowest first.
    pub crossed: Vec<u32>,
}

/// The time between two looks.
pub open spec fn poll_interval(at_risk: bool) -> u64 {
    if at_risk {
        POLL_AT_RISK_MS
    } else {
        POLL_MS
    }
}

/// Whether it is time to look, and what is known afterwards. The first time only sets the clock.
pub open spec fn polled(s: UsageState, started_at_ms: u64, now_ms: u64, has_owner: bool) -> (
    bool,
    UsageState,
) {
    if s.polled_at_ms == 0 {
        (
            false,
            UsageState {
                polled_at_ms: (started_at_ms + USAGE_MONITOR_STARTUP_DELAY_MS) as u64,
                ..s
            },
        )
    } else if now_ms < s.polled_at_ms + poll_interval(s.at_risk) || !has_owner {
        (false, s)
    } else {
        (true, UsageState { polled_at_ms: now_ms, ..s })
    }
}

/// The shares that are passed at `pct` and were not warned of.
pub open spec fn crossed_at(pct: u32, warned: u32) -> Seq<u32> {
    let a = FIRST_WARNING_PCT <= pct && FIRST_WARNING_PCT > warned;
    let b = SECOND_WARNING_PCT <= pct && SECOND_WARNING_PCT > warned;
    if a && b {
        seq![FIRST_WARNING_PCT, SECOND_WARNING_PCT]
    } else if a {
        seq![FIRST_WARNING_PCT]
    } else if b {
        seq![SECOND_WARNING_PCT]
    } else {
        Seq::empty()
    }
}

/// The highest share that was warned of, counted anew where the use has gone down.
pub open spec fn warned_now(s: UsageState, pct: u32) -> u32 {
    if pct < s.warned_pct {
        0
    } else {
        s.warned_pct
    }
}

/// What is known after a look at the use.
pub open spec fn seen(s: UsageState, pct: u32, at_risk: bool, limit: Option<u64>) -> UsageState {
    let crossed = crossed_at(pct, warned_now(s, pct));
    UsageState {
        at_risk,
        warned_pct: if crossed.len() > 0 {
            crossed.last()
        } else {
            warned_now(s, pct)
        },
        limited_until_ms: match limit {
            Some(t) => t,
            None => s.limited_until_ms,
        },
        polled_at_ms: s.polled_at_ms,
    }
}

/// The shares that are passed at `pct` and were not warned of, lowest first.
pub fn newly_crossed(pct: u32, warned: u32) -> (out: Vec<u32>)
    ensures
        out@ == crossed_at(pct, warned),
{
    let mut out: Vec<u32> = Vec::new();
    if FIRST_WARNING_PCT <= pct && FIRST_WARNING_PCT > warned {
        out.push(FIRST_WARNING_PCT);
    }
    if SECOND_WARNING_PCT <= pct && SECOND_WARNING_PCT > warned {
        out.push(SECOND_WARNING_PCT);
    }
    proof {
        assert(out@ =~= crossed_at(pct, warned));
    }
    out
}

/// Whether a label, in small letters, is that of the current session.
pub open spec fn is_session(lowered: Seq<char>) -> bool {
    text::has(lowered, "current session"@)
}

/// The first row of the current session.
pub open spec fn session_at(lowered: Seq<Seq<char>>) -> Option<int>
    decreases lowered.len(),
{
    if lowered.len() == 0 {
        None
    } else {
        match session_at(lowered.drop_last()) {
            Some(i) => Some(i),
            None => if is_session(lowered.last()) {
                Some(lowered.len() - 1)
            } else {
                None
            },
        }
    }
}

/// The first row of the current session, given the rows' labels in small letters.
pub fn session_among(lowered: &[String]) -> (r: Option<usize>)
    ensures
        session_at(text::views(lowered@)) == (match r {
            Some(i) => Some(i as int),
            None => None,
        }),
        r is Some ==> r->0 < lowered@.len(),
{
    let ghost all = text::views(lowered@);
    let mut found: Option<usize> = None;
    let mut i: usize = 0;
    proof {
        assert(all.take(0) =~= Seq::<Seq<char>>::empty());
    }
    while i < lowered.len()
        invariant
            i <= lowered@.len(),
            all == text::views(lowered@),
            session_at(all.take(i as int)) == (match found {
                Some(k) => Some(k as int),
                None => None,
            }),
            found is Some ==> found->0 < i,
        decreases lowered@.len() - i,
    {
        proof {
            assert(all.take(i + 1).drop_last() =~= all.take(i as int));
            assert(all.take(i + 1).last() == lowered@[i as int]@);
        }
        if found.is_none() && text::contains(lowered[i].as_str(), "current session") {
            found = Some(i);
        }
        i = i + 1;
    }
    proof {
        assert(all.take(all.len() as int) =~= all);
    }
    found
}

/// The rows' labels in small letters.
pub open spec fn small_labels(rows: Seq<UsageRow>) -> Seq<Seq<char>> {
    rows.map_values(|r: UsageRow| text::lowercase(r.label@))
}

/// The first row of the current session.
pub fn session_row(rows: &[UsageRow]) -> (r: Option<usize>)
    ensures
        session_at(small_labels(rows@)) == (match r {
            Some(i) => Some(i as int),
            None => None,
        }),
        r is Some ==> r->0 < rows@.len(),
{
    let ghost all = small_labels(rows@);
    let mut lowered: Vec<String> = Vec::new();
    let mut i: usize = 0;
    while i < rows.len()
        invariant
            i <= rows@.len() == all.len(),
            all == small_labels(rows@),
            text::views(lowered@) =~= all.take(i as int),
        decreases rows@.len() - i,
    {
        broadcast use text::lemma_views_push;

        lowered.push(text::to_lowercase(rows[i].label.as_str()));
        proof {
            assert(all.take(i + 1) =~= all.take(i as int).push(all[i as int]));
        }
        i = i + 1;
    }
    proof {
        assert(all.take(all.len() as int) =~= all);
        assert(text::views(lowered@).len() == lowered@.len());
    }
    session_among(lowered.as_slice())
}

/// A look at the use.
#[derive(Debug)]
pub struct Look {
    /// The share of the current session, in percent.
    pub pct: u32,
    /// When the session's limit starts over, as it was printed.
    pub reset: String,
    /// Whether the session's limit will be reached, where its reset could be read.
    pub projection: Option<UsageProjection>,
    /// Until when the service is limited, where some limit is reached.
    pub limit: Option<u64>,
}

/// The limit is expected to be reached.
pub open spec fn is_at_risk(p: Option<UsageProjection>) -> bool {
    p matches Some(p) && p.enough_data && p.at_risk
}

/// When the limit is expected to be reached, in minutes.
pub open spec fn hit_of(p: Option<UsageProjection>) -> Option<int> {
    if is_at_risk(p) {
        match p->0.projected_hit {
            Some(w) => Some(w.minutes()),
            None => None,
        }
    } else {
        None
    }
}

/// What is said where a share was passed.
pub open spec fn warning_of(look: Look, lang: Lang) -> Seq<char> {
    as_lines(warning_lines(look.pct, look.reset@, hit_of(look.projection), lang))
}

/// The threads that keys name, as channel and root; a key without a thread is passed over.
pub open spec fn threads_in(keys: Seq<ThreadKey>) -> Seq<(Seq<char>, Seq<char>)>
    decreases keys.len(),
{
    if keys.len() == 0 {
        Seq::empty()
    } else {
        let rest = threads_in(keys.drop_last());
        let (channel, root) = chat::key_parts(keys.last()@);
        match root {
            Some(ts) => rest.push((channel, ts)),
            None => rest,
        }
    }
}

/// The threads that keys name, as channel and root.
fn name_threads(keys: &[ThreadKey]) -> (out: Vec<(String, String)>)
    ensures
        text::pair_views(out@) == threads_in(keys@),
{
    let ghost all = keys@;
    let mut out: Vec<(String, String)> = Vec::new();
    let mut i: usize = 0;
    proof {
        assert(all.take(0) =~= Seq::empty());
        assert(text::pair_views(out@) =~= Seq::empty());
    }
    while i < keys.len()
        invariant
            i <= keys@.len(),
            all == keys@,
            text::pair_views(out@) == threads_in(all.take(i as int)),
        decreases keys@.len() - i,
    {
        let (channel, root) = keys[i].split();
        proof {
            assert(all.take(i + 1).drop_last() =~= all.take(i as int));
            assert(all.take(i + 1).last() == all[i as int]);
        }
        match root {
            Some(ts) => {
                let ghost before = out@;
                let ghost named = (channel@, ts@);
                out.push((channel, ts));
                proof {
                    assert(text::pair_views(out@) =~= text::pair_views(before).push(named));
                }
            },
            None => {},
        }
        i = i + 1;
    }
    proof {
        assert(all.take(all.len() as int) =~= all);
    }
    out
}

impl UsageState {
    /// Nothing is known.
    pub fn new() -> (s: Self)
        ensures
            s == (UsageState {
                polled_at_ms: 0,
                at_risk: false,
                warned_pct: 0,
                limited_until_ms: 0,
            }),
    {
        UsageState { polled_at_ms: 0, at_risk: false, warned_pct: 0, limited_until_ms: 0 }
    }

    /// Whether it is time to look at the use; if so, the next time is one interval on.
    pub fn poll(&mut self, started_at_ms: u64, now_ms: u64, has_owner: bool) -> (r: bool)
        requires
            old(self).polled_at_ms == 0 ==> started_at_ms + USAGE_MONITOR_STARTUP_DELAY_MS
                <= u64::MAX,
            old(self).polled_at_ms + poll_interval(old(self).at_risk) <= u64::MAX,
        ensures
            (r, *final(self)) == polled(*old(self), started_at_ms, now_ms, has_owner),
    {
        if self.polled_at_ms == 0 {
            self.polled_at_ms = started_at_ms + USAGE_MONITOR_STARTUP_DELAY_MS;
            return false;
        }
        let due: u64 = self.polled_at_ms + if self.at_risk {
            POLL_AT_RISK_MS
        } else {
            POLL_MS
        };
        if now_ms < due || !has_owner {
            return false;
        }
        self.polled_at_ms = now_ms;
        true
    }

    /// Takes in a look at the use: the share of the current session, whether its limit is near, and
    /// until when the service is limited, where some limit is reached.
    pub fn take_in(&mut self, pct: u32, at_risk: bool, limit: Option<u64>) -> (r: UsageSeen)
        ensures
            *final(self) == seen(*old(self), pct, at_risk, limit),
            r.rearmed == (pct < old(self).warned_pct),
            r.gated == (limit matches Some(t) && t != old(self).limited_until_ms),
            r.crossed@ == crossed_at(pct, warned_now(*old(self), pct)),
    {
        let rearmed: bool = pct < self.warned_pct;
        if rearmed {
            self.warned_pct = 0;
        }
        self.at_risk = at_risk;
        let mut gated: bool = false;
        match limit {
            Some(t) => if t != self.limited_until_ms {
                self.limited_until_ms = t;
                gated = true;
            },
            None => {},
        }
        let crossed: Vec<u32> = newly_crossed(pct, self.warned_pct);
        if crossed.len() > 0 {
            self.warned_pct = crossed[crossed.len() - 1];
        }
        UsageSeen { rearmed, gated, crossed }
    }

    /// Takes in a look at the use. Where it passed a share that was not warned of, each live thread is
    /// told: returns what is said, and the threads as channel and root.
    pub fn on_look(
        &mut self,
        look: Look,
        live: &[ThreadKey],
        product: &Product,
        lang: Lang,
    ) -> (r: (UsageSeen, Option<(String, Vec<(String, String)>)>))
        ensures
            *final(self) == seen(*old(self), look.pct, is_at_risk(look.projection), look.limit),
            r.0.rearmed == (look.pct < old(self).warned_pct),
            r.0.gated == (look.limit matches Some(t) && t != old(self).limited_until_ms),
            r.0.crossed@ == crossed_at(look.pct, warned_now(*old(self), look.pct)),
            match r.1 {
                Some((said, to)) => r.0.crossed@.len() > 0 && said@ == warning_of(look, lang)
                    && text::pair_views(to@) == threads_in(live@),
                None => r.0.crossed@.len() == 0,
            },
    {
        let at_risk: bool = match &look.projection {
            Some(p) => p.enough_data && p.at_risk,
            None => false,
        };
        let projected_hit: Option<WallClock> = match &look.projection {
            Some(p) => p.warning(),
            None => None,
        };
        let seen: UsageSeen = self.take_in(look.pct, at_risk, look.limit);
        if seen.crossed.len() == 0 {
            return (seen, None);
        }
        let notice: Notice = Notice::UsageWarning { pct: look.pct, reset: look.reset, projected_hit };
        let said: String = notice.render(product, lang);
        (seen, Some((said, name_threads(live))))
    }
}

/// Where every key names a thread, each of them is warned once, in their order.
pub proof fn law_every_live_thread_is_warned(keys: Seq<ThreadKey>)
    requires
        forall|i: int| 0 <= i < keys.len() ==> chat::key_parts((#[trigger] keys[i])@).1 is Some,
    ensures
        threads_in(keys).len() == keys.len(),
        forall|i: int|
            0 <= i < keys.len() ==> (#[trigger] threads_in(keys)[i]) == (
                chat::key_parts(keys[i]@).0,
                chat::key_parts(keys[i]@).1->0,
            ),
    decreases keys.len(),
{
    if keys.len() > 0 {
        let rest = keys.drop_last();
        assert forall|i: int| 0 <= i < rest.len() implies chat::key_parts(
            (#[trigger] rest[i])@,
        ).1 is Some by {
            assert(rest[i] == keys[i]);
        }
        law_every_live_thread_is_warned(rest);
        assert(keys.last() == keys[keys.len() - 1]);
        assert forall|i: int| 0 <= i < keys.len() implies (#[trigger] threads_in(keys)[i]) == (
            chat::key_parts(keys[i]@).0,
            chat::key_parts(keys[i]@).1->0,
        ) by {
            if i < rest.len() {
                assert(threads_in(rest)[i] == threads_in(keys)[i]);
                assert(rest[i] == keys[i]);
            }
        }
    }
}

/// Of one share it is warned once while the use does not go down.
pub proof fn law_warned_once(
    s: UsageState,
    pct: u32,
    at_risk: bool,
    limit: Option<u64>,
    next_pct: u32,
)
    requires
        next_pct <= pct,
        next_pct >= seen(s, pct, at_risk, limit).warned_pct,
    ensures
        crossed_at(next_pct, warned_now(seen(s, pct, at_risk, limit), next_pct)).len() == 0,
{
}

/// Once the use has gone down, the shares are warned of again.
pub proof fn law_warned_again(s: UsageState, pct: u32, again: u32)
    requires
        pct < s.warned_pct,
        pct < FIRST_WARNING_PCT,
        again >= SECOND_WARNING_PCT,
    ensures
        ({
            let t = seen(s, pct, false, None);
            crossed_at(again, warned_now(t, again)) == seq![FIRST_WARNING_PCT, SECOND_WARNING_PCT]
        }),
{
}

/// The first look is a minute after the start; each later one comes an hour after the last, or a quarter
/// of an hour where the limit is near, and only where there is an owner to tell. A look is noted.
pub proof fn law_when_usage_is_looked_at(
    s: UsageState,
    started_at_ms: u64,
    now_ms: u64,
    has_owner: bool,
)
    requires
        started_at_ms + 60_000 <= u64::MAX,
    ensures
        ({
            let (look, after) = polled(s, started_at_ms, now_ms, has_owner);
            &&& s.polled_at_ms == 0 ==> !look && after.polled_at_ms == started_at_ms + 60_000
            &&& s.polled_at_ms > 0 ==> (look <==> has_owner && now_ms >= s.polled_at_ms
                + if s.at_risk {
                900_000int
            } else {
                3_600_000int
            })
            &&& look ==> after.polled_at_ms == now_ms
            &&& s.polled_at_ms > 0 && !look ==> after == s
            &&& after.at_risk == s.at_risk && after.warned_pct == s.warned_pct
                && after.limited_until_ms == s.limited_until_ms
        }),
{
}

/// A mark that is reached and was not warned of yet is warned of, at eighty and at ninety per cent, the
/// lower one first.
pub proof fn law_marks_are_warned_of(pct: u32, warned: u32)
    ensures
        crossed_at(pct, warned).contains(80) <==> pct >= 80 && warned < 80,
        crossed_at(pct, warned).contains(90) <==> pct >= 90 && warned < 90,
        forall|x: u32| #[trigger] crossed_at(pct, warned).contains(x) ==> x == 80 || x == 90,
        crossed_at(pct, warned).len() == 2 ==> crossed_at(pct, warned) == seq![80u32, 90u32],
        crossed_at(pct, warned).no_duplicates(),
{
    let c = crossed_at(pct, warned);
    assert(FIRST_WARNING_PCT == 80 && SECOND_WARNING_PCT == 90);
    assert(c.len() >= 1 ==> c.contains(c[0]));
    assert(c.len() >= 2 ==> c.contains(c[1]));
}

/// What was warned of is kept, and forgotten when the usage falls below it; what is known of the limit
/// is kept until it is told anew.
pub proof fn law_usage_seen(s: UsageState, pct: u32, at_risk: bool, limit: Option<u64>)
    ensures
        ({
            let after = seen(s, pct, at_risk, limit);
            &&& after.at_risk == at_risk
            &&& after.polled_at_ms == s.polled_at_ms
            &&& limit is Some ==> after.limited_until_ms == limit->0
            &&& limit is None ==> after.limited_until_ms == s.limited_until_ms
            &&& pct >= 90 && s.warned_pct <= 90 ==> after.warned_pct == 90
            &&& 80 <= pct < 90 && s.warned_pct <= 80 ==> after.warned_pct == 80
            &&& 80 <= pct < 90 && s.warned_pct == 90 ==> after.warned_pct == 80
            &&& pct < 80 && pct < s.warned_pct ==> after.warned_pct == 0
            &&& pct < 80 && s.warned_pct == 0 ==> after.warned_pct == 0
        }),
{
}

/// The session's row is the first that speaks of it.
pub proof fn law_session_row(lowered: Seq<Seq<char>>)
    ensures
        match session_at(lowered) {
            Some(i) => 0 <= i < lowered.len() && text::has(lowered[i], "current session"@)
                && forall|j: int|
                0 <= j < i ==> !text::has(#[trigger] lowered[j], "current session"@),
            None => forall|j: int|
                0 <= j < lowered.len() ==> !text::has(#[trigger] lowered[j], "current session"@),
        },
    decreases lowered.len(),
{
    if lowered.len() > 0 {
        let t = lowered.drop_last();
        law_session_row(t);
        assert forall|j: int| 0 <= j < t.len() implies t[j] == #[trigger] lowered[j] by {}
    }
}

/// A limit is near where there is enough to go by and what there is says so; only then is it told when it
/// would be hit.
pub proof fn law_at_risk(p: Option<UsageProjection>)
    ensures
        is_at_risk(p) <==> p is Some && p->0.enough_data && p->0.at_risk,
        hit_of(p) is Some <==> p is Some && p->0.enough_data && p->0.at_risk
            && p->0.projected_hit is Some,
        hit_of(p) is Some ==> hit_of(p)->0 == p->0.projected_hit->0.minutes(),
{
}

} // verus!
