//! The answer to `status`: which agents run, and which wait.
use super::reports::{as_lines, filled_in, non_empty};
use crate::bridge::state::pool_key::gap;
use crate::i18n::Lang;
use crate::order::{self, Ranked};
use crate::text;
use vstd::prelude::*;

verus! {

/// One thread whose agent runs.
#[derive(Debug)]
pub struct StatusThread {
    pub channel_id: String,
    pub thread_ts: String,
    /// When something last happened; zero where that is not known.
    pub last_activity_ms: u64,
    pub repo_path: Option<String>,
    pub permalink: Option<String>,
    /// What the thread began with.
    pub topic: Option<String>,
    /// The channel's name, or the person's.
    pub channel_name: Option<String>,
}

/// All that `status` shows.
#[derive(Debug)]
pub struct StatusReport {
    pub bridge_version: String,
    pub now_ms: u64,
    pub home: String,
    /// How the bridge is connected.
    pub mode: String,
    pub threads: Vec<StatusThread>,
    /// The directories in which agents wait.
    pub pools: Vec<String>,
}

// ── how long ago ────────────────────────────────────────────────────────────

/// What a power of two leaves, divided by five, at the exponent's remainder by four.
pub open spec fn power_of_two_mod_five(phase: nat) -> nat {
    if phase == 0 {
        1
    } else if phase == 1 {
        2
    } else if phase == 2 {
        4
    } else {
        3
    }
}

/// Whether the binary fraction of 53 digits that is nearest to `a`/20 lies above it, for an `a` that
/// five does not divide. With 2^e <= `a`/20 < 2^(e+1) the fraction counts steps of 2^(e-52), and
/// `a`*2^(50-e)/5 of them are rounded to a whole number: up where three or four fifths are left.
/// `scale` is 20*2^e and `phase` the remainder of 50-e by four.
pub open spec fn lies_above(a: nat, scale: nat, phase: nat) -> bool
    decreases a - scale,
{
    if scale == 0 || a < 2 * scale {
        (a % 5) * power_of_two_mod_five(phase) % 5 >= 3
    } else {
        lies_above(a, 2 * scale, (phase + 3) % 4)
    }
}

/// Minutes as tenths of an hour, to the nearest tenth. A half, which decimal digits write exactly, is
/// decided as its binary fraction lies; where that is exact too, it goes to the even tenth.
pub open spec fn tenths_of_hour(mins: nat) -> nat {
    let q = mins / 6;
    let rest = mins % 6;
    let up = if rest == 3 {
        if (mins / 3) % 5 == 0 {
            q % 2 == 1
        } else {
            lies_above(mins / 3, 20, 2)
        }
    } else {
        rest > 3
    };
    if up {
        q + 1
    } else {
        q
    }
}

/// How long ago something happened; nothing where that is not known.
pub open spec fn idle_said(now_ms: u64, last_activity_ms: u64, lang: Lang) -> Option<Seq<char>> {
    if last_activity_ms == 0 {
        None
    } else {
        let mins = gap(now_ms, last_activity_ms) as nat / 60_000;
        if mins < 1 {
            Some(lang.of("just now"@, "たった今"@))
        } else if mins < 60 {
            Some(text::decimal(mins as int) + lang.of("m ago"@, "分前"@))
        } else {
            let t = tenths_of_hour(mins) as int;
            Some(
                text::decimal(t / 10) + "."@ + text::decimal(t % 10) + lang.of(
                    "h ago"@,
                    "時間前"@,
                ),
            )
        }
    }
}

fn tenths(mins: u64) -> (r: u64)
    requires
        mins <= u64::MAX / 60_000,
    ensures
        r == tenths_of_hour(mins as nat),
{
    let q: u64 = mins / 6;
    let rest: u64 = mins % 6;
    let up: bool = if rest == 3 {
        let a: u64 = mins / 3;
        if a % 5 == 0 {
            q % 2 == 1
        } else {
            let mut scale: u64 = 20;
            let mut phase: u64 = 2;
            while a >= 2 * scale
                invariant
                    20 <= scale,
                    scale <= a || scale == 20,
                    a <= u64::MAX / 180_000,
                    phase < 4,
                    lies_above(a as nat, 20, 2) == lies_above(
                        a as nat,
                        scale as nat,
                        phase as nat,
                    ),
                decreases a + 40 - scale,
            {
                scale = 2 * scale;
                phase = (phase + 3) % 4;
            }
            let p: u64 = if phase == 0 {
                1
            } else if phase == 1 {
                2
            } else if phase == 2 {
                4
            } else {
                3
            };
            (a % 5) * p % 5 >= 3
        }
    } else {
        rest > 3
    };
    if up {
        q + 1
    } else {
        q
    }
}

// ── the link to a thread ────────────────────────────────────────────────────

/// A mention, a channel or a command begins here.
pub open spec fn token_end(s: Seq<char>) -> Option<int> {
    if s.len() > 1 && s[0] == '<' && (s[1] == '@' || s[1] == '#' || s[1] == '!') && s.contains(
        '>',
    ) {
        Some(text::index_of(s, '>'))
    } else {
        None
    }
}

/// A text without mentions, channels and commands.
pub open spec fn without_tokens(s: Seq<char>) -> Seq<char>
    decreases s.len(),
{
    if s.len() == 0 {
        s
    } else {
        match token_end(s) {
            Some(j) => if 0 <= j < s.len() {
                without_tokens(s.skip(j + 1))
            } else {
                s
            },
            None => seq![s[0]] + without_tokens(s.skip(1)),
        }
    }
}

/// A text with each run of white space as one blank.
pub open spec fn single_spaced(s: Seq<char>) -> Seq<char>
    decreases s.len(),
{
    if s.len() == 0 {
        s
    } else {
        let rest = single_spaced(s.drop_last());
        if text::is_space(s.last()) {
            if rest.len() > 0 && rest.last() == ' ' {
                rest
            } else {
                rest.push(' ')
            }
        } else {
            rest.push(s.last())
        }
    }
}

/// How much of a topic is shown.
pub const TOPIC_CHARS: usize = 50;

/// A topic as the text of a link: without what Slack reads as marks, on one line, clipped.
pub open spec fn link_said(topic: Option<Seq<char>>, lang: Lang) -> Seq<char> {
    let raw = match topic {
        Some(t) => t,
        None => ""@,
    };
    let bare = text::without(text::without(text::without(without_tokens(raw), '<'), '>'), '|');
    let t = text::trimmed(single_spaced(bare));
    if t.len() == 0 {
        lang.of("(untitled)"@, "(無題)"@)
    } else {
        text::clipped(t, TOPIC_CHARS as nat, "…"@)
    }
}

fn drop_tokens(raw: &str) -> (out: String)
    ensures
        out@ == without_tokens(raw@),
{
    let s: Vec<char> = text::chars_of(raw);
    let n: usize = s.len();
    let mut out: String = String::new();
    let mut i: usize = 0;
    proof {
        assert(s@.skip(0) =~= s@);
        assert(out@ + without_tokens(s@) =~= without_tokens(s@));
    }
    while i < n
        invariant
            i <= n == s@.len(),
            s@ == raw@,
            out@ + without_tokens(s@.skip(i as int)) == without_tokens(s@),
        decreases n - i,
    {
        let ghost rest = s@.skip(i as int);
        let mut end: Option<usize> = None;
        if s[i] == '<' && i + 1 < n && (s[i + 1] == '@' || s[i + 1] == '#' || s[i + 1] == '!') {
            let mut j: usize = i;
            while j < n && s[j] != '>'
                invariant
                    i <= j <= n == s@.len(),
                    forall|k: int| i <= k < j ==> s@[k] != '>',
                decreases n - j,
            {
                j = j + 1;
            }
            if j < n {
                end = Some(j);
            }
            proof {
                text::lemma_index_of(rest, '>');
                let x = text::index_of(rest, '>');
                if j < n {
                    assert(rest[j - i] == '>');
                    assert(rest.contains('>'));
                    assert(x == j - i) by {
                        assert forall|k: int| 0 <= k < j - i implies rest[k] != '>' by {
                            assert(rest[k] == s@[i + k]);
                        }
                    }
                } else {
                    assert forall|k: int| 0 <= k < rest.len() implies rest[k] != '>' by {
                        assert(rest[k] == s@[i + k]);
                    }
                }
            }
        }
        proof {
            assert(rest[0] == s@[i as int]);
            if i + 1 < n {
                assert(rest[1] == s@[i + 1]);
            }
        }
        match end {
            Some(j) => {
                proof {
                    assert(rest.skip(j - i + 1) =~= s@.skip(j + 1));
                }
                i = j + 1;
            },
            None => {
                let ghost was = out@;
                out.push(s[i]);
                proof {
                    assert(rest.skip(1) =~= s@.skip(i + 1));
                    assert(out@ + without_tokens(s@.skip(i + 1)) =~= was + (seq![rest[0]]
                        + without_tokens(rest.skip(1))));
                }
                i = i + 1;
            },
        }
    }
    proof {
        assert(s@.skip(n as int) =~= Seq::empty());
        assert(out@ + without_tokens(s@.skip(n as int)) =~= out@);
    }
    out
}

fn squeeze(raw: &str) -> (out: String)
    ensures
        out@ == single_spaced(raw@),
{
    let s: Vec<char> = text::chars_of(raw);
    let mut out: String = String::new();
    let mut blank: bool = false;
    let mut i: usize = 0;
    proof {
        assert(s@.take(0) =~= Seq::empty());
        assert(out@ =~= Seq::empty());
    }
    while i < s.len()
        invariant
            i <= s@.len(),
            s@ == raw@,
            out@ == single_spaced(s@.take(i as int)),
            blank == (out@.len() > 0 && out@.last() == ' '),
        decreases s@.len() - i,
    {
        let c: char = s[i];
        proof {
            assert(s@.take(i + 1).drop_last() =~= s@.take(i as int));
        }
        if text::space(c) {
            if !blank {
                out.push(' ');
                blank = true;
            }
        } else {
            out.push(c);
            blank = false;
            proof {
                assert(text::is_space(' '));
            }
        }
        i = i + 1;
    }
    proof {
        assert(s@.take(s@.len() as int) =~= s@);
    }
    out
}

impl StatusThread {
    /// The line of one thread: how long ago, and a link with its topic.
    pub open spec fn row(&self, now_ms: u64, lang: Lang) -> Seq<char> {
        let label = link_said(text::opt_view(self.topic), lang);
        let words = match filled_in(text::opt_view(self.permalink)) {
            Some(p) => "<"@ + p + "|"@ + label + ">"@,
            None => label,
        };
        match idle_said(now_ms, self.last_activity_ms, lang) {
            None => "　"@ + words,
            Some(idle) => "`"@ + idle + "`　"@ + words,
        }
    }

    fn line(&self, now_ms: u64, lang: Lang) -> (out: String)
        ensures
            out@ == self.row(now_ms, lang),
    {
        let topic: Option<&str> = match &self.topic {
            Some(t) => Some(t.as_str()),
            None => None,
        };
        let label: String = Self::link_text(topic, lang);
        let words: String = match non_empty(&self.permalink) {
            Some(p) => text::cat5("<", p.as_str(), "|", label.as_str(), ">"),
            None => label,
        };
        match Self::idle_label(now_ms, self.last_activity_ms, lang) {
            None => text::cat("　", words.as_str()),
            Some(idle) => text::cat4("`", idle.as_str(), "`　", words.as_str()),
        }
    }

    /// How long ago something happened; nothing where that is not known.
    pub fn idle_label(now_ms: u64, last_activity_ms: u64, lang: Lang) -> (r: Option<String>)
        ensures
            text::opt_view(r) == idle_said(now_ms, last_activity_ms, lang),
    {
        if last_activity_ms == 0 {
            return None;
        }
        let passed: u64 = if now_ms >= last_activity_ms {
            now_ms - last_activity_ms
        } else {
            0
        };
        let mins: u64 = passed / 60_000;
        if mins < 1 {
            return Some(lang.pick("just now", "たった今").to_owned());
        }
        if mins < 60 {
            let n: String = text::number(mins);
            return Some(text::cat(n.as_str(), lang.pick("m ago", "分前")));
        }
        let t: u64 = tenths(mins);
        let whole: String = text::number(t / 10);
        let tenth: String = text::number(t % 10);
        Some(text::cat4(whole.as_str(), ".", tenth.as_str(), lang.pick("h ago", "時間前")))
    }

    /// A topic as the text of a link.
    pub fn link_text(topic: Option<&str>, lang: Lang) -> (out: String)
        ensures
            out@ == link_said(
                match topic {
                    Some(t) => Some(t@),
                    None => None,
                },
                lang,
            ),
    {
        let raw: &str = match topic {
            Some(t) => t,
            None => "",
        };
        let a: String = drop_tokens(raw);
        let b: String = text::drop_char(a.as_str(), '<');
        let c: String = text::drop_char(b.as_str(), '>');
        let d: String = text::drop_char(c.as_str(), '|');
        let e: String = squeeze(d.as_str());
        let t: String = text::trim(e.as_str());
        if t.as_str().is_empty() {
            lang.pick("(untitled)", "(無題)").to_owned()
        } else {
            text::clip_chars(t.as_str(), TOPIC_CHARS, "…")
        }
    }
}

// ── the groups ──────────────────────────────────────────────────────────────

/// A channel that is a direct message.
pub open spec fn is_dm(channel: Seq<char>) -> bool {
    channel.len() > 0 && channel[0] == 'D'
}

/// No thread before `i` is in its channel.
pub open spec fn is_first(ts: Seq<StatusThread>, i: int) -> bool {
    forall|j: int| 0 <= j < i ==> (#[trigger] ts[j]).channel_id@ != ts[i].channel_id@
}

/// The first thread of each channel, among the first `n`.
pub open spec fn firsts(ts: Seq<StatusThread>, n: nat) -> Seq<int>
    decreases n,
{
    if n == 0 {
        Seq::empty()
    } else if is_first(ts, n - 1) {
        firsts(ts, (n - 1) as nat).push(n - 1)
    } else {
        firsts(ts, (n - 1) as nat)
    }
}

/// The threads of a channel, among the first `n`.
pub open spec fn members(ts: Seq<StatusThread>, channel: Seq<char>, n: nat) -> Seq<int>
    decreases n,
{
    if n == 0 {
        Seq::empty()
    } else if ts[n - 1].channel_id@ == channel {
        members(ts, channel, (n - 1) as nat).push(n - 1)
    } else {
        members(ts, channel, (n - 1) as nat)
    }
}

/// What groups are ordered by: direct messages first, then the channels with more threads, then by
/// name.
#[derive(Debug)]
pub struct GroupRank {
    pub dm: bool,
    pub count: usize,
    pub id: String,
}

impl Ranked for GroupRank {
    open spec fn ranks_before(&self, other: &Self) -> bool {
        if self.dm != other.dm {
            self.dm
        } else if self.count != other.count {
            self.count > other.count
        } else {
            text::before(self.id@, other.id@)
        }
    }

    fn goes_before(&self, other: &Self) -> (r: bool) {
        if self.dm != other.dm {
            self.dm
        } else if self.count != other.count {
            self.count > other.count
        } else {
            text::is_before(self.id.as_str(), other.id.as_str())
        }
    }

    proof fn lemma_one_way(a: &Self, b: &Self) {
        if text::before(a.id@, b.id@) && text::before(b.id@, a.id@) {
            text::lemma_before_transitive(a.id@, b.id@, a.id@);
            text::lemma_before_irreflexive(a.id@);
        }
    }

    proof fn lemma_chain(a: &Self, b: &Self, c: &Self) {
        if text::before(c.id@, a.id@) {
            text::lemma_before_total(a.id@, b.id@);
            text::lemma_before_total(b.id@, c.id@);
            if text::before(a.id@, b.id@) {
                text::lemma_before_transitive(c.id@, a.id@, b.id@);
            }
        }
    }
}

/// What threads of a channel are ordered by: those left alone for longest come first.
#[derive(Clone, Copy, Debug, PartialEq, Eq, Structural)]
pub struct Age {
    pub last_activity_ms: u64,
}

impl Ranked for Age {
    open spec fn ranks_before(&self, other: &Self) -> bool {
        self.last_activity_ms < other.last_activity_ms
    }

    fn goes_before(&self, other: &Self) -> (r: bool) {
        self.last_activity_ms < other.last_activity_ms
    }

    proof fn lemma_one_way(a: &Self, b: &Self) {
    }

    proof fn lemma_chain(a: &Self, b: &Self, c: &Self) {
    }
}

/// The rank of the group that thread `f` is the first of.
pub open spec fn rank_of(ts: Seq<StatusThread>, f: int) -> GroupRank {
    GroupRank {
        dm: is_dm(ts[f].channel_id@),
        count: members(ts, ts[f].channel_id@, ts.len()).len() as usize,
        id: ts[f].channel_id,
    }
}

/// The first threads of the groups, as the groups are ordered.
pub open spec fn groups(ts: Seq<StatusThread>) -> Seq<int> {
    let f = firsts(ts, ts.len());
    order::sorted_order(f.map_values(|i: int| rank_of(ts, i))).map_values(|p: int| f[p])
}

/// The threads of a group, as they are ordered.
pub open spec fn ordered(ts: Seq<StatusThread>, m: Seq<int>) -> Seq<int> {
    order::sorted_order(
        m.map_values(|i: int| Age { last_activity_ms: ts[i].last_activity_ms }),
    ).map_values(|p: int| m[p])
}

/// The first name that a group's threads know of their channel.
pub open spec fn known_name(ts: Seq<StatusThread>, m: Seq<int>) -> Option<Seq<char>>
    decreases m.len(),
{
    if m.len() == 0 {
        None
    } else {
        match filled_in(text::opt_view(ts[m[0]].channel_name)) {
            Some(n) => Some(n),
            None => known_name(ts, m.drop_first()),
        }
    }
}

/// The first directory that a group's threads know.
pub open spec fn known_repo(ts: Seq<StatusThread>, m: Seq<int>) -> Option<Seq<char>>
    decreases m.len(),
{
    if m.len() == 0 {
        None
    } else {
        match filled_in(text::opt_view(ts[m[0]].repo_path)) {
            Some(n) => Some(n),
            None => known_repo(ts, m.drop_first()),
        }
    }
}

/// A path, with the home directory as `~`.
pub open spec fn path_said(p: Option<Seq<char>>, home: Seq<char>, lang: Lang) -> Seq<char> {
    match filled_in(p) {
        None => lang.of("(unknown)"@, "(不明)"@),
        Some(s) => match text::after_prefix(s, home) {
            Some(rest) => if home.len() > 0 && (rest.len() == 0 || rest[0] == '/') {
                "~"@ + rest
            } else {
                s
            },
            None => s,
        },
    }
}

/// The name of a group: a person's, a channel's as a link, or what is left.
pub open spec fn group_name(channel: Seq<char>, name: Option<Seq<char>>) -> Seq<char> {
    match name {
        Some(n) => if is_dm(channel) {
            n
        } else {
            "<#"@ + channel + "|"@ + (match text::after_prefix(n, "#"@) {
                Some(bare) => bare,
                None => n,
            }) + ">"@
        },
        None => if is_dm(channel) {
            "DM"@
        } else {
            "<#"@ + channel + ">"@
        },
    }
}

/// The head of a group: its name and, where it is known, its directory.
pub open spec fn group_head(
    ts: Seq<StatusThread>,
    channel: Seq<char>,
    home: Seq<char>,
    lang: Lang,
) -> Seq<char> {
    let m = members(ts, channel, ts.len());
    let head = group_name(channel, known_name(ts, m));
    match known_repo(ts, m) {
        Some(r) => head + " · `"@ + path_said(Some(r), home, lang) + "`"@,
        None => head,
    }
}

/// The lines of a group.
pub open spec fn group_lines(
    ts: Seq<StatusThread>,
    channel: Seq<char>,
    home: Seq<char>,
    now_ms: u64,
    lang: Lang,
) -> Seq<Seq<char>> {
    seq![group_head(ts, channel, home, lang)] + ordered(
        ts,
        members(ts, channel, ts.len()),
    ).map_values(|i: int| ts[i].row(now_ms, lang))
}

/// The lines of the first `n` groups, with an empty line between.
pub open spec fn groups_lines(
    ts: Seq<StatusThread>,
    g: Seq<int>,
    n: nat,
    home: Seq<char>,
    now_ms: u64,
    lang: Lang,
) -> Seq<Seq<char>>
    decreases n,
{
    if n == 0 {
        Seq::empty()
    } else {
        let channel = ts[g[n - 1]].channel_id@;
        groups_lines(ts, g, (n - 1) as nat, home, now_ms, lang) + (if n > 1 {
            seq![""@]
        } else {
            Seq::empty()
        }) + group_lines(ts, channel, home, now_ms, lang)
    }
}

/// The directories in which agents wait, side by side.
pub open spec fn pool_chips(pools: Seq<Seq<char>>, home: Seq<char>, lang: Lang) -> Seq<Seq<char>> {
    pools.map_values(|p: Seq<char>| "`"@ + path_said(Some(p), home, lang) + "`"@)
}

impl StatusReport {
    /// The lines of the threads.
    pub open spec fn thread_lines(&self, lang: Lang) -> Seq<Seq<char>> {
        let ts = self.threads@;
        if ts.len() == 0 {
            seq![lang.of("*Active threads* — none"@, "*動いているスレッド* — なし"@)]
        } else {
            seq![
                lang.of("*Active threads* — "@, "*動いているスレッド* — "@) + text::decimal(
                    ts.len() as int,
                ),
            ] + groups_lines(ts, groups(ts), groups(ts).len(), self.home@, self.now_ms, lang)
        }
    }

    /// The lines of the pool.
    pub open spec fn pool_lines(&self, lang: Lang) -> Seq<Seq<char>> {
        let p = text::views(self.pools@);
        if p.len() == 0 {
            seq![lang.of("*Warm agents* — none"@, "*待機中のエージェント* — なし"@)]
        } else {
            seq![
                lang.of("*Warm agents* — "@, "*待機中のエージェント* — "@) + text::decimal(
                    p.len() as int,
                ),
                text::joined(pool_chips(p, self.home@, lang), "　"@),
            ]
        }
    }

    /// The first line: the version, and how the bridge is connected.
    pub open spec fn head_line(&self) -> Seq<char> {
        "🟢 *agentgw* `"@ + (if self.bridge_version@.len() == 0 {
            "(unversioned)"@
        } else {
            self.bridge_version@
        }) + "`"@ + (if self.mode@.len() == 0 {
            ""@
        } else {
            " · "@ + self.mode@
        })
    }

    /// The whole answer.
    pub open spec fn said(&self, lang: Lang) -> Seq<char> {
        as_lines(
            seq![self.head_line(), "　"@] + self.thread_lines(lang) + seq![""@] + self.pool_lines(
                lang,
            ),
        )
    }

    /// A path, with the home directory as `~`. What is elsewhere is left as it is.
    pub fn short_path(p: Option<&str>, home: &str, lang: Lang) -> (out: String)
        ensures
            out@ == path_said(
                match p {
                    Some(s) => Some(s@),
                    None => None,
                },
                home@,
                lang,
            ),
    {
        let s: &str = match p {
            Some(s) => s,
            None => return lang.pick("(unknown)", "(不明)").to_owned(),
        };
        if s.is_empty() {
            return lang.pick("(unknown)", "(不明)").to_owned();
        }
        match text::strip_prefix(s, home) {
            Some(rest) => {
                let cs: Vec<char> = text::chars_of(rest.as_str());
                if !home.is_empty() && (cs.len() == 0 || cs[0] == '/') {
                    text::cat("~", rest.as_str())
                } else {
                    s.to_owned()
                }
            },
            None => s.to_owned(),
        }
    }

    fn first_threads(&self) -> (out: Vec<usize>)
        ensures
            order::ints(out@) == firsts(self.threads@, self.threads@.len()),
            forall|k: int| 0 <= k < out@.len() ==> (#[trigger] out@[k]) < self.threads@.len(),
    {
        let ghost ts = self.threads@;
        let mut out: Vec<usize> = Vec::new();
        let mut i: usize = 0;
        proof {
            assert(order::ints(out@) =~= Seq::empty());
        }
        while i < self.threads.len()
            invariant
                i <= ts.len(),
                ts == self.threads@,
                order::ints(out@) == firsts(ts, i as nat),
                forall|k: int| 0 <= k < out@.len() ==> (#[trigger] out@[k]) < i,
            decreases ts.len() - i,
        {
            let mut first: bool = true;
            let mut j: usize = 0;
            while j < i
                invariant
                    j <= i < ts.len(),
                    ts == self.threads@,
                    first == (forall|k: int|
                        0 <= k < j ==> (#[trigger] ts[k]).channel_id@ != ts[i as int].channel_id@),
                decreases i - j,
            {
                if text::same(
                    self.threads[j].channel_id.as_str(),
                    self.threads[i].channel_id.as_str(),
                ) {
                    proof {
                        assert(ts[j as int].channel_id@ == ts[i as int].channel_id@);
                    }
                    first = false;
                }
                j = j + 1;
            }
            if first {
                let ghost before = out@;
                out.push(i);
                proof {
                    assert(order::ints(out@) =~= order::ints(before).push(i as int));
                }
            }
            i = i + 1;
        }
        out
    }

    fn members_of(&self, channel: &str) -> (out: Vec<usize>)
        ensures
            order::ints(out@) == members(self.threads@, channel@, self.threads@.len()),
            forall|k: int| 0 <= k < out@.len() ==> (#[trigger] out@[k]) < self.threads@.len(),
    {
        let ghost ts = self.threads@;
        let mut out: Vec<usize> = Vec::new();
        let mut i: usize = 0;
        proof {
            assert(order::ints(out@) =~= Seq::empty());
        }
        while i < self.threads.len()
            invariant
                i <= ts.len(),
                ts == self.threads@,
                order::ints(out@) == members(ts, channel@, i as nat),
                forall|k: int| 0 <= k < out@.len() ==> (#[trigger] out@[k]) < i,
            decreases ts.len() - i,
        {
            if text::same(self.threads[i].channel_id.as_str(), channel) {
                let ghost before = out@;
                out.push(i);
                proof {
                    assert(order::ints(out@) =~= order::ints(before).push(i as int));
                }
            }
            i = i + 1;
        }
        out
    }

    fn group_order(&self) -> (out: Vec<usize>)
        ensures
            order::ints(out@) == groups(self.threads@),
            forall|k: int| 0 <= k < out@.len() ==> (#[trigger] out@[k]) < self.threads@.len(),
    {
        let ghost ts = self.threads@;
        let f: Vec<usize> = self.first_threads();
        let ghost fi = order::ints(f@);
        let ghost keys = fi.map_values(|i: int| rank_of(ts, i));
        let mut ranks: Vec<GroupRank> = Vec::new();
        let mut i: usize = 0;
        while i < f.len()
            invariant
                i <= f@.len(),
                ts == self.threads@,
                fi == order::ints(f@),
                keys == fi.map_values(|i: int| rank_of(ts, i)),
                forall|k: int| 0 <= k < f@.len() ==> (#[trigger] f@[k]) < ts.len(),
                ranks@ =~= keys.take(i as int),
            decreases f@.len() - i,
        {
            let id: String = self.threads[f[i]].channel_id.clone();
            let cs: Vec<char> = text::chars_of(id.as_str());
            let m: Vec<usize> = self.members_of(id.as_str());
            proof {
                assert(order::ints(m@).len() == m@.len());
                assert(fi[i as int] == f@[i as int]);
            }
            let dm: bool = cs.len() > 0 && cs[0] == 'D';
            ranks.push(GroupRank { dm, count: m.len(), id });
            proof {
                assert(ranks@[i as int] == keys[i as int]);
                assert(keys.take(i + 1) =~= keys.take(i as int).push(keys[i as int]));
            }
            i = i + 1;
        }
        proof {
            assert(keys.take(keys.len() as int) =~= keys);
        }
        let sorted: Vec<usize> = order::sort_order(&ranks);
        proof {
            lemma_in_range(keys, sorted@);
        }
        let out: Vec<usize> = chosen(&f, &sorted);
        proof {
            assert(order::ints(out@) =~= groups(ts));
        }
        out
    }

    fn thread_order(&self, m: &Vec<usize>) -> (out: Vec<usize>)
        requires
            forall|k: int| 0 <= k < m@.len() ==> (#[trigger] m@[k]) < self.threads@.len(),
        ensures
            order::ints(out@) == ordered(self.threads@, order::ints(m@)),
            forall|k: int| 0 <= k < out@.len() ==> (#[trigger] out@[k]) < self.threads@.len(),
    {
        let ghost ts = self.threads@;
        let ghost mi = order::ints(m@);
        let ghost keys = mi.map_values(
            |i: int| Age { last_activity_ms: ts[i].last_activity_ms },
        );
        let mut ages: Vec<Age> = Vec::new();
        let mut i: usize = 0;
        while i < m.len()
            invariant
                i <= m@.len(),
                ts == self.threads@,
                mi == order::ints(m@),
                keys == mi.map_values(
                    |i: int| Age { last_activity_ms: ts[i].last_activity_ms },
                ),
                forall|k: int| 0 <= k < m@.len() ==> (#[trigger] m@[k]) < ts.len(),
                ages@ =~= keys.take(i as int),
            decreases m@.len() - i,
        {
            ages.push(Age { last_activity_ms: self.threads[m[i]].last_activity_ms });
            proof {
                assert(mi[i as int] == m@[i as int]);
                assert(ages@[i as int] == keys[i as int]);
                assert(keys.take(i + 1) =~= keys.take(i as int).push(keys[i as int]));
            }
            i = i + 1;
        }
        proof {
            assert(keys.take(keys.len() as int) =~= keys);
        }
        let sorted: Vec<usize> = order::sort_order(&ages);
        proof {
            lemma_in_range(keys, sorted@);
        }
        let out: Vec<usize> = chosen(m, &sorted);
        proof {
            assert(order::ints(out@) =~= ordered(ts, mi));
        }
        out
    }

    fn name_of(&self, m: &Vec<usize>) -> (r: Option<String>)
        requires
            forall|k: int| 0 <= k < m@.len() ==> (#[trigger] m@[k]) < self.threads@.len(),
        ensures
            text::opt_view(r) == known_name(self.threads@, order::ints(m@)),
    {
        let ghost mi = order::ints(m@);
        let mut i: usize = 0;
        proof {
            assert(mi.skip(0) =~= mi);
        }
        while i < m.len()
            invariant
                i <= m@.len(),
                mi == order::ints(m@),
                forall|k: int| 0 <= k < m@.len() ==> (#[trigger] m@[k]) < self.threads@.len(),
                known_name(self.threads@, mi) == known_name(self.threads@, mi.skip(i as int)),
            decreases m@.len() - i,
        {
            proof {
                assert(mi.skip(i as int)[0] == m@[i as int]);
                assert(mi.skip(i as int).drop_first() =~= mi.skip(i + 1));
            }
            match non_empty(&self.threads[m[i]].channel_name) {
                Some(n) => return Some(n.clone()),
                None => {},
            }
            i = i + 1;
        }
        None
    }

    fn repo_of(&self, m: &Vec<usize>) -> (r: Option<String>)
        requires
            forall|k: int| 0 <= k < m@.len() ==> (#[trigger] m@[k]) < self.threads@.len(),
        ensures
            text::opt_view(r) == known_repo(self.threads@, order::ints(m@)),
    {
        let ghost mi = order::ints(m@);
        let mut i: usize = 0;
        proof {
            assert(mi.skip(0) =~= mi);
        }
        while i < m.len()
            invariant
                i <= m@.len(),
                mi == order::ints(m@),
                forall|k: int| 0 <= k < m@.len() ==> (#[trigger] m@[k]) < self.threads@.len(),
                known_repo(self.threads@, mi) == known_repo(self.threads@, mi.skip(i as int)),
            decreases m@.len() - i,
        {
            proof {
                assert(mi.skip(i as int)[0] == m@[i as int]);
                assert(mi.skip(i as int).drop_first() =~= mi.skip(i + 1));
            }
            match non_empty(&self.threads[m[i]].repo_path) {
                Some(n) => return Some(n.clone()),
                None => {},
            }
            i = i + 1;
        }
        None
    }

    fn head_of(&self, channel: &str, m: &Vec<usize>, lang: Lang) -> (out: String)
        requires
            order::ints(m@) == members(self.threads@, channel@, self.threads@.len()),
            forall|k: int| 0 <= k < m@.len() ==> (#[trigger] m@[k]) < self.threads@.len(),
        ensures
            out@ == group_head(self.threads@, channel@, self.home@, lang),
    {
        let cs: Vec<char> = text::chars_of(channel);
        let dm: bool = cs.len() > 0 && cs[0] == 'D';
        let head: String = match self.name_of(m) {
            Some(n) => if dm {
                n
            } else {
                match text::strip_prefix(n.as_str(), "#") {
                    Some(bare) => text::cat5("<#", channel, "|", bare.as_str(), ">"),
                    None => text::cat5("<#", channel, "|", n.as_str(), ">"),
                }
            },
            None => if dm {
                "DM".to_owned()
            } else {
                text::cat3("<#", channel, ">")
            },
        };
        match self.repo_of(m) {
            Some(r) => {
                let p: String = Self::short_path(Some(r.as_str()), self.home.as_str(), lang);
                text::cat4(head.as_str(), " · `", p.as_str(), "`")
            },
            None => head,
        }
    }

    fn push_group(&self, lines: &mut Vec<String>, channel: &str, lang: Lang)
        ensures
            text::views(final(lines)@) == text::views(old(lines)@) + group_lines(
                self.threads@,
                channel@,
                self.home@,
                self.now_ms,
                lang,
            ),
    {
        broadcast use text::lemma_views_push;

        let ghost ts = self.threads@;
        let ghost was = text::views(lines@);
        let m: Vec<usize> = self.members_of(channel);
        let o: Vec<usize> = self.thread_order(&m);
        lines.push(self.head_of(channel, &m, lang));
        let ghost first = text::views(lines@);
        let ghost rows = order::ints(o@).map_values(|i: int| ts[i].row(self.now_ms, lang));
        let mut i: usize = 0;
        proof {
            assert(first + rows.take(0) =~= first);
        }
        while i < o.len()
            invariant
                i <= o@.len() == rows.len(),
                ts == self.threads@,
                rows == order::ints(o@).map_values(|i: int| ts[i].row(self.now_ms, lang)),
                forall|k: int| 0 <= k < o@.len() ==> (#[trigger] o@[k]) < ts.len(),
                text::views(lines@) =~= first + rows.take(i as int),
            decreases o@.len() - i,
        {
            broadcast use text::lemma_views_push;

            lines.push(self.threads[o[i]].line(self.now_ms, lang));
            proof {
                assert(order::ints(o@)[i as int] == o@[i as int]);
                assert(rows.take(i + 1) =~= rows.take(i as int).push(rows[i as int]));
            }
            i = i + 1;
        }
        proof {
            assert(rows.take(rows.len() as int) =~= rows);
            assert(text::views(lines@) =~= was + group_lines(
                ts,
                channel@,
                self.home@,
                self.now_ms,
                lang,
            ));
        }
    }

    fn push_groups(&self, lines: &mut Vec<String>, lang: Lang)
        ensures
            text::views(final(lines)@) == text::views(old(lines)@) + groups_lines(
                self.threads@,
                groups(self.threads@),
                groups(self.threads@).len(),
                self.home@,
                self.now_ms,
                lang,
            ),
    {
        let ghost ts = self.threads@;
        let ghost was = text::views(lines@);
        let g: Vec<usize> = self.group_order();
        let ghost gi = order::ints(g@);
        let mut i: usize = 0;
        proof {
            assert(was + groups_lines(ts, gi, 0, self.home@, self.now_ms, lang) =~= was);
        }
        while i < g.len()
            invariant
                i <= g@.len() == gi.len(),
                ts == self.threads@,
                gi == order::ints(g@),
                forall|k: int| 0 <= k < g@.len() ==> (#[trigger] g@[k]) < ts.len(),
                text::views(lines@) == was + groups_lines(
                    ts,
                    gi,
                    i as nat,
                    self.home@,
                    self.now_ms,
                    lang,
                ),
            decreases g@.len() - i,
        {
            broadcast use text::lemma_views_push;

            let ghost before = groups_lines(ts, gi, i as nat, self.home@, self.now_ms, lang);
            proof {
                assert(gi[i as int] == g@[i as int]);
            }
            if i > 0 {
                lines.push("".to_owned());
            }
            let ghost mid = if i > 0 {
                seq![""@]
            } else {
                Seq::<Seq<char>>::empty()
            };
            proof {
                assert(text::views(lines@) =~= was + before + mid);
            }
            self.push_group(lines, self.threads[g[i]].channel_id.as_str(), lang);
            proof {
                let more = group_lines(
                    ts,
                    ts[gi[i as int]].channel_id@,
                    self.home@,
                    self.now_ms,
                    lang,
                );
                assert(was + before + mid + more =~= was + (before + mid + more));
            }
            i = i + 1;
        }
    }

    fn chips(&self, lang: Lang) -> (out: String)
        ensures
            out@ == text::joined(
                pool_chips(text::views(self.pools@), self.home@, lang),
                "　"@,
            ),
    {
        let ghost all = pool_chips(text::views(self.pools@), self.home@, lang);
        let mut list: Vec<String> = Vec::new();
        let mut i: usize = 0;
        while i < self.pools.len()
            invariant
                i <= self.pools@.len(),
                all == pool_chips(text::views(self.pools@), self.home@, lang),
                text::views(list@) =~= all.take(i as int),
            decreases self.pools@.len() - i,
        {
            broadcast use text::lemma_views_push;

            let p: String = Self::short_path(
                Some(self.pools[i].as_str()),
                self.home.as_str(),
                lang,
            );
            list.push(text::cat3("`", p.as_str(), "`"));
            proof {
                assert(text::views(self.pools@)[i as int] == self.pools@[i as int]@);
                assert(all.take(i + 1) =~= all.take(i as int).push(all[i as int]));
            }
            i = i + 1;
        }
        proof {
            assert(all.take(all.len() as int) =~= all);
        }
        text::join(list.as_slice(), "　")
    }

    /// The answer: the version; the threads by channel, direct messages first and busy channels
    /// before quiet ones, those left alone for longest first; and the directories in which agents
    /// wait.
    pub fn render(&self, lang: Lang) -> (out: String)
        ensures
            out@ == self.said(lang),
    {
        broadcast use text::lemma_views_push, text::lemma_views_empty;

        let version: &str = if self.bridge_version.as_str().is_empty() {
            "(unversioned)"
        } else {
            self.bridge_version.as_str()
        };
        let mode: String = if self.mode.as_str().is_empty() {
            "".to_owned()
        } else {
            text::cat(" · ", self.mode.as_str())
        };
        let mut lines: Vec<String> = Vec::new();
        lines.push(text::cat4("🟢 *agentgw* `", version, "`", mode.as_str()));
        lines.push("　".to_owned());
        let ghost top = text::views(lines@);
        proof {
            assert(top =~= seq![self.head_line(), "　"@]);
        }
        if self.threads.len() == 0 {
            lines.push(
                lang.pick("*Active threads* — none", "*動いているスレッド* — なし").to_owned(),
            );
        } else {
            let n: String = text::number(self.threads.len() as u64);
            lines.push(
                text::cat(
                    lang.pick("*Active threads* — ", "*動いているスレッド* — "),
                    n.as_str(),
                ),
            );
            self.push_groups(&mut lines, lang);
        }
        proof {
            assert(text::views(lines@) =~= top + self.thread_lines(lang));
        }
        lines.push("".to_owned());
        proof {
            assert(text::views(self.pools@).len() == self.pools@.len());
        }
        if self.pools.len() == 0 {
            lines.push(
                lang.pick("*Warm agents* — none", "*待機中のエージェント* — なし").to_owned(),
            );
        } else {
            let n: String = text::number(self.pools.len() as u64);
            lines.push(
                text::cat(
                    lang.pick("*Warm agents* — ", "*待機中のエージェント* — "),
                    n.as_str(),
                ),
            );
            lines.push(self.chips(lang));
        }
        proof {
            assert(text::views(lines@) =~= top + self.thread_lines(lang) + seq![""@]
                + self.pool_lines(lang));
        }
        text::join(lines.as_slice(), "\n")
    }
}

/// The positions of a sorted order are positions.
proof fn lemma_in_range<K: Ranked>(keys: Seq<K>, sorted: Seq<usize>)
    requires
        order::ints(sorted) == order::sorted_order(keys),
    ensures
        forall|k: int| 0 <= k < sorted.len() ==> (#[trigger] sorted[k]) < keys.len(),
{
    order::law_sorted_order(keys, keys.len());
    assert forall|k: int| 0 <= k < sorted.len() implies (#[trigger] sorted[k]) < keys.len() by {
        assert(order::ints(sorted)[k] == sorted[k]);
    }
}

fn chosen(f: &Vec<usize>, p: &Vec<usize>) -> (out: Vec<usize>)
    requires
        forall|k: int| 0 <= k < p@.len() ==> (#[trigger] p@[k]) < f@.len(),
    ensures
        order::ints(out@) == order::ints(p@).map_values(|x: int| order::ints(f@)[x]),
        out@.len() == p@.len(),
        forall|k: int| 0 <= k < out@.len() ==> #[trigger] out@[k] == f@[p@[k] as int],
{
    let mut out: Vec<usize> = Vec::new();
    let mut i: usize = 0;
    while i < p.len()
        invariant
            i <= p@.len(),
            out@.len() == i,
            forall|k: int| 0 <= k < p@.len() ==> (#[trigger] p@[k]) < f@.len(),
            forall|k: int| 0 <= k < i ==> #[trigger] out@[k] == f@[p@[k] as int],
        decreases p@.len() - i,
    {
        out.push(f[p[i]]);
        i = i + 1;
    }
    proof {
        assert(order::ints(out@) =~= order::ints(p@).map_values(|x: int| order::ints(f@)[x]));
    }
    out
}

// ── what holds of the status ────────────────────────────────────────────────

proof fn lemma_members(ts: Seq<StatusThread>, channel: Seq<char>, n: nat, i: int)
    requires
        n <= ts.len(),
    ensures
        members(ts, channel, n).contains(i) <==> 0 <= i < n && ts[i].channel_id@ == channel,
    decreases n,
{
    if n > 0 {
        let m = (n - 1) as nat;
        lemma_members(ts, channel, m, i);
        let a = members(ts, channel, m);
        let b = members(ts, channel, n);
        if a.contains(i) {
            let k = choose|k: int| 0 <= k < a.len() && a[k] == i;
            assert(b[k] == i);
        }
        if i == n - 1 && ts[i].channel_id@ == channel {
            assert(b[a.len() as int] == i);
        }
        if b.contains(i) && !a.contains(i) {
            let k = choose|k: int| 0 <= k < b.len() && b[k] == i;
            if k < a.len() {
                assert(a[k] == i);
            }
        }
    }
}

/// The channel of any of the first `n` threads has a first thread.
proof fn lemma_has_first(ts: Seq<StatusThread>, n: nat, i: int) -> (k: int)
    requires
        0 <= i < n <= ts.len(),
    ensures
        0 <= k < firsts(ts, n).len(),
        0 <= firsts(ts, n)[k] < n,
        ts[firsts(ts, n)[k]].channel_id@ == ts[i].channel_id@,
    decreases n,
{
    let m = (n - 1) as nat;
    if i < m {
        lemma_has_first(ts, m, i)
    } else if is_first(ts, n - 1) {
        firsts(ts, m).len() as int
    } else {
        let j = choose|j: int|
            0 <= j < m && (#[trigger] ts[j]).channel_id@ == ts[n - 1].channel_id@;
        lemma_has_first(ts, m, j)
    }
}

/// Every thread is listed: its channel has a group, and the thread stands among that group's
/// threads. It stands in no other.
pub proof fn law_every_thread_is_listed(ts: Seq<StatusThread>, channel: Seq<char>, i: int)
    requires
        0 <= i < ts.len(),
    ensures
        exists|g: int|
            0 <= g < groups(ts).len() && ts[#[trigger] groups(ts)[g]].channel_id@
                == ts[i].channel_id@,
        ordered(ts, members(ts, channel, ts.len())).contains(i) <==> ts[i].channel_id@ == channel,
{
    let f = firsts(ts, ts.len());
    let ranks = f.map_values(|i: int| rank_of(ts, i));
    let k = lemma_has_first(ts, ts.len(), i);
    order::law_sorted_order(ranks, ranks.len());
    let s = order::sorted_order(ranks);
    assert(s.contains(k));
    let g = choose|g: int| 0 <= g < s.len() && s[g] == k;
    assert(groups(ts)[g] == f[k]);
    let m = members(ts, channel, ts.len());
    let ages = m.map_values(|i: int| Age { last_activity_ms: ts[i].last_activity_ms });
    lemma_members(ts, channel, ts.len(), i);
    order::law_sorted_order(ages, ages.len());
    let o = order::sorted_order(ages);
    let out = ordered(ts, m);
    if m.contains(i) {
        let p = choose|p: int| 0 <= p < m.len() && m[p] == i;
        assert(o.contains(p));
        let q = choose|q: int| 0 <= q < o.len() && o[q] == p;
        assert(out[q] == i);
    }
    if out.contains(i) {
        let q = choose|q: int| 0 <= q < out.len() && out[q] == i;
        assert(out[q] == m[o[q]]);
        assert(m.contains(i));
    }
}

proof fn lemma_firsts(ts: Seq<StatusThread>, n: nat)
    requires
        n <= ts.len(),
    ensures
        forall|i: int|
            0 <= i < firsts(ts, n).len() ==> 0 <= #[trigger] firsts(ts, n)[i] < n && is_first(
                ts,
                firsts(ts, n)[i],
            ),
        forall|i: int, j: int|
            0 <= i < j < firsts(ts, n).len() ==> #[trigger] firsts(ts, n)[i]
                < #[trigger] firsts(ts, n)[j],
    decreases n,
{
    if n > 0 {
        lemma_firsts(ts, (n - 1) as nat);
        let before = firsts(ts, (n - 1) as nat);
        let all = firsts(ts, n);
        assert forall|i: int| 0 <= i < all.len() implies 0 <= #[trigger] all[i] < n && is_first(
            ts,
            all[i],
        ) by {
            if i < before.len() {
                assert(all[i] == before[i]);
            }
        }
        assert forall|i: int, j: int| 0 <= i < j < all.len() implies #[trigger] all[i]
            < #[trigger] all[j] by {
            assert(all[i] == before[i]);
            if j < before.len() {
                assert(all[j] == before[j]);
            }
        }
    }
}

/// The groups of direct messages come before those of channels; among either, those with more threads
/// come before those with fewer; and those with as many stand in the order of their ids.
pub proof fn law_groups_are_ordered(ts: Seq<StatusThread>, a: int, b: int)
    requires
        0 <= a < b < groups(ts).len(),
    ensures
        ({
            let x = rank_of(ts, groups(ts)[a]);
            let y = rank_of(ts, groups(ts)[b]);
            &&& y.dm ==> x.dm
            &&& x.dm == y.dm ==> x.count >= y.count
            &&& x.dm == y.dm && x.count == y.count ==> text::before(x.id@, y.id@)
        }),
{
    let f = firsts(ts, ts.len());
    let ranks = f.map_values(|i: int| rank_of(ts, i));
    order::law_sorted_order(ranks, ranks.len());
    let s = order::sorted_order(ranks);
    assert(!ranks[s[b]].ranks_before(&ranks[s[a]]));
    lemma_firsts(ts, ts.len());
    let (i, j) = (f[s[a]], f[s[b]]);
    assert(i != j) by {
        if s[a] < s[b] {
            assert(f[s[a]] < f[s[b]]);
        } else {
            assert(f[s[b]] < f[s[a]]);
        }
    }
    assert(ts[i].channel_id@ != ts[j].channel_id@) by {
        assert(is_first(ts, i) && is_first(ts, j));
    }
    text::lemma_before_total(ts[i].channel_id@, ts[j].channel_id@);
}

/// The text of a link holds none of the marks that Slack reads as one, and stands on one line.
pub proof fn law_link_is_plain(topic: Option<Seq<char>>, lang: Lang, x: char)
    requires
        x == '<' || x == '>' || x == '|' || x == '\n',
    ensures
        !link_said(topic, lang).contains(x),
{
    let raw = match topic {
        Some(t) => t,
        None => ""@,
    };
    let a = text::without(without_tokens(raw), '<');
    let b = text::without(a, '>');
    let c = text::without(b, '|');
    if x == '<' {
        lemma_without(without_tokens(raw), '<', x);
    }
    if x == '<' || x == '>' {
        lemma_without(a, '>', x);
    }
    if x != '\n' {
        lemma_without(b, '|', x);
    }
    lemma_spaced(c, x);
    let s = single_spaced(c);
    text::lemma_trimmed_lacks(s, x);
    let t = text::trimmed(s);
    reveal_strlit("(untitled)");
    reveal_strlit("(無題)");
    reveal_strlit("…");
    let out = link_said(topic, lang);
    if out.contains(x) {
        let k = choose|k: int| 0 <= k < out.len() && out[k] == x;
        if t.len() > 0 && k < t.len() && k < TOPIC_CHARS {
            assert(t[k] == x);
        }
    }
}

proof fn lemma_spaced(s: Seq<char>, x: char)
    requires
        x == '\n' || (x != ' ' && !s.contains(x)),
    ensures
        !single_spaced(s).contains(x),
    decreases s.len(),
{
    if s.len() > 0 {
        let t = s.drop_last();
        if t.contains(x) {
            let k = choose|k: int| 0 <= k < t.len() && t[k] == x;
            assert(s[k] == x);
        }
        lemma_spaced(t, x);
        let w = single_spaced(s);
        let v = single_spaced(t);
        if w.contains(x) {
            let k = choose|k: int| 0 <= k < w.len() && w[k] == x;
            if k < v.len() {
                assert(v[k] == x);
            } else {
                assert(s[s.len() - 1] == x);
            }
        }
    }
}

proof fn lemma_without(s: Seq<char>, c: char, x: char)
    requires
        x == c || !s.contains(x),
    ensures
        !text::without(s, c).contains(x),
    decreases s.len(),
{
    if s.len() > 0 {
        let t = s.drop_last();
        if t.contains(x) && x != c {
            let k = choose|k: int| 0 <= k < t.len() && t[k] == x;
            assert(s[k] == x);
        }
        lemma_without(t, c, x);
        let w = text::without(s, c);
        let v = text::without(t, c);
        if w.contains(x) {
            let k = choose|k: int| 0 <= k < w.len() && w[k] == x;
            if k < v.len() {
                assert(v[k] == x);
                assert(v.contains(x));
            } else {
                assert(s[s.len() - 1] == x);
                assert(s.contains(x));
            }
        }
    }
}

} // verus!
