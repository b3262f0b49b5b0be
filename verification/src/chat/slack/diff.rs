//! What an editing tool changed, as a git-style diff.
use crate::chat::slack::input::{or_empty, ToolInput};
use crate::text;
use vstd::prelude::*;

verus! {

/// Lines of context kept around a change.
pub const DIFF_CTX: usize = 3;

/// The most lines that are shown.
pub const DIFF_MAX_LINES: usize = 16;

/// The most bytes that are shown, line ends included.
pub const DIFF_MAX_BYTES: usize = 900;

/// The most characters of one line that are shown.
pub const DIFF_MAX_LINE: usize = 120;

/// Longer inputs are not compared line by line.
pub const DIFF_MAX_INPUT_LINES: usize = 200;

// ── one line ────────────────────────────────────────────────────────────────

/// So many backquotes in a row; from three on, a zero-width space stands between them.
pub open spec fn ticks(n: nat, broken: bool) -> Seq<char>
    decreases n,
{
    if n == 0 {
        Seq::empty()
    } else if n == 1 || !broken {
        ticks((n - 1) as nat, broken).push('`')
    } else {
        ticks((n - 1) as nat, broken).push('\u{200b}').push('`')
    }
}

pub open spec fn tick_run(n: nat) -> Seq<char> {
    ticks(n, n >= 3)
}

/// `s` up to its trailing backquotes, runs of three and more broken up, and how many backquotes
/// trail.
pub open spec fn tick_state(s: Seq<char>) -> (Seq<char>, nat)
    decreases s.len(),
{
    if s.len() == 0 {
        (Seq::empty(), 0)
    } else {
        let (done, run) = tick_state(s.drop_last());
        if s.last() == '`' {
            (done, run + 1)
        } else {
            ((done + tick_run(run)).push(s.last()), 0)
        }
    }
}

/// `s` with runs of three and more backquotes broken up.
pub open spec fn defused(s: Seq<char>) -> Seq<char> {
    tick_state(s).0 + tick_run(tick_state(s).1)
}

/// One line of a diff as it is shown: no code fence in it, and not too long.
pub open spec fn shown_line(s: Seq<char>) -> Seq<char> {
    text::clipped(defused(s), DIFF_MAX_LINE as nat, "…"@)
}

fn push_ticks(out: &mut String, run: usize)
    ensures
        final(out)@ == old(out)@ + tick_run(run as nat),
{
    let broken: bool = run >= 3;
    let mut k: usize = 0;
    proof {
        assert(out@ + ticks(0, broken) =~= out@);
    }
    while k < run
        invariant
            k <= run,
            out@ == old(out)@ + ticks(k as nat, broken),
            broken == (run >= 3),
        decreases run - k,
    {
        let ghost before = ticks(k as nat, broken);
        if broken && k > 0 {
            out.push('\u{200b}');
        }
        out.push('`');
        k = k + 1;
        proof {
            assert(out@ =~= old(out)@ + ticks(k as nat, broken));
        }
    }
}

/// Breaks up runs of backquotes, so that no line can close the fence it is shown in, and clips.
pub fn clip_diff_line(s: &str) -> (out: String)
    ensures
        out@ == shown_line(s@),
{
    let chars: Vec<char> = text::chars_of(s);
    let mut out: String = String::new();
    let mut run: usize = 0;
    let mut i: usize = 0;
    proof {
        assert(s@.take(0) =~= Seq::<char>::empty());
    }
    while i < chars.len()
        invariant
            i <= chars@.len(),
            run <= i,
            chars@ == s@,
            (out@, run as nat) == tick_state(s@.take(i as int)),
        decreases chars@.len() - i,
    {
        let c: char = chars[i];
        proof {
            assert(s@.take(i + 1).drop_last() =~= s@.take(i as int));
        }
        if c == '`' {
            run = run + 1;
        } else {
            push_ticks(&mut out, run);
            run = 0;
            out.push(c);
        }
        i = i + 1;
    }
    proof {
        assert(s@.take(s@.len() as int) =~= s@);
    }
    push_ticks(&mut out, run);
    text::clip_chars(out.as_str(), DIFF_MAX_LINE, "…")
}

/// No three backquotes in a row.
pub open spec fn no_fence(s: Seq<char>) -> bool {
    forall|i: int|
        0 <= i && i + 2 < s.len() ==> !(#[trigger] s[i] == '`' && s[i + 1] == '`' && s[i + 2]
            == '`')
}

proof fn lemma_ticks(n: nat, broken: bool)
    requires
        broken || n < 3,
    ensures
        no_fence(ticks(n, broken)),
        ticks(n, broken).len() >= n,
        n > 0 ==> ticks(n, broken).last() == '`' && ticks(n, broken)[0] == '`',
        broken && n > 1 ==> ticks(n, broken).len() >= 3 && ticks(n, broken)[1] == '\u{200b}'
            && ticks(n, broken)[ticks(n, broken).len() - 2] == '\u{200b}',
        !broken ==> ticks(n, broken).len() == n,
    decreases n,
{
    reveal_with_fuel(ticks, 4);
    if broken && n > 1 {
        lemma_ticks((n - 1) as nat, broken);
    }
}

proof fn lemma_tick_state(s: Seq<char>)
    ensures
        no_fence(tick_state(s).0),
        tick_state(s).0.len() > 0 ==> tick_state(s).0.last() != '`',
    decreases s.len(),
{
    if s.len() > 0 {
        lemma_tick_state(s.drop_last());
        let (done, run) = tick_state(s.drop_last());
        lemma_ticks(run, run >= 3);
        lemma_no_fence_add(done, tick_run(run));
        if s.last() != '`' {
            let d = done + tick_run(run);
            assert forall|i: int| 0 <= i && i + 2 < d.push(s.last()).len() implies !(
            #[trigger] d.push(s.last())[i] == '`' && d.push(s.last())[i + 1] == '`' && d.push(
                s.last(),
            )[i + 2] == '`') by {
                if i + 2 < d.len() {
                    assert(d[i] == d.push(s.last())[i]);
                }
            }
        }
    }
}

proof fn lemma_no_fence_add(a: Seq<char>, b: Seq<char>)
    requires
        no_fence(a),
        no_fence(b),
        a.len() > 0 ==> a.last() != '`',
    ensures
        no_fence(a + b),
{
    let s = a + b;
    assert forall|i: int| 0 <= i && i + 2 < s.len() implies !(#[trigger] s[i] == '`' && s[i + 1]
        == '`' && s[i + 2] == '`') by {
        if i + 2 < a.len() {
            assert(a[i] == s[i]);
        } else if i >= a.len() {
            assert(b[i - a.len()] == s[i]);
        } else {
            assert(s[a.len() - 1] == a.last());
        }
    }
}

/// Whatever a line of a diff holds, no code fence is left in it.
pub proof fn law_no_fence_in_line(s: Seq<char>)
    ensures
        no_fence(shown_line(s)),
{
    lemma_tick_state(s);
    let (done, run) = tick_state(s);
    lemma_ticks(run, run >= 3);
    lemma_no_fence_add(done, tick_run(run));
    let d = defused(s);
    if d.len() > DIFF_MAX_LINE {
        reveal_strlit("…");
        let t = shown_line(s);
        assert forall|i: int| 0 <= i && i + 2 < t.len() implies !(#[trigger] t[i] == '`' && t[i + 1]
            == '`' && t[i + 2] == '`') by {
            if i + 2 < DIFF_MAX_LINE {
                assert(d[i] == t[i]);
            }
        }
    }
}

// ── lines against lines ─────────────────────────────────────────────────────

/// The length of the longest common subsequence of `a` from `i` on and `b` from `j` on.
pub open spec fn lcs(a: Seq<Seq<char>>, b: Seq<Seq<char>>, i: int, j: int) -> nat
    decreases a.len() - i + b.len() - j,
{
    if i >= a.len() || j >= b.len() {
        0
    } else if a[i] == b[j] {
        1 + lcs(a, b, i + 1, j + 1)
    } else if lcs(a, b, i + 1, j) >= lcs(a, b, i, j + 1) {
        lcs(a, b, i + 1, j)
    } else {
        lcs(a, b, i, j + 1)
    }
}

/// Lines with one mark in front: ` ` kept, `-` removed, `+` added.
pub open spec fn marked(mark: char, lines: Seq<Seq<char>>) -> Seq<(char, Seq<char>)> {
    lines.map_values(|l: Seq<char>| (mark, l))
}

/// The diff of `a` from `i` on against `b` from `j` on, along a longest common subsequence.
pub open spec fn walk(a: Seq<Seq<char>>, b: Seq<Seq<char>>, i: int, j: int) -> Seq<
    (char, Seq<char>),
>
    decreases a.len() - i + b.len() - j,
{
    if i < a.len() && j < b.len() {
        if a[i] == b[j] {
            seq![(' ', a[i])] + walk(a, b, i + 1, j + 1)
        } else if lcs(a, b, i + 1, j) >= lcs(a, b, i, j + 1) {
            seq![('-', a[i])] + walk(a, b, i + 1, j)
        } else {
            seq![('+', b[j])] + walk(a, b, i, j + 1)
        }
    } else {
        marked('-', a.skip(i)) + marked('+', b.skip(j))
    }
}

/// The lines of a text; an empty text has none.
pub open spec fn lines_in(s: Seq<char>) -> Seq<Seq<char>> {
    if s.len() == 0 {
        Seq::empty()
    } else {
        text::split_on(s, '\n')
    }
}

/// The diff of two texts.
pub open spec fn diff_of(old_text: Seq<char>, new_text: Seq<char>) -> Seq<(char, Seq<char>)> {
    let a = lines_in(old_text);
    let b = lines_in(new_text);
    if a.len() > DIFF_MAX_INPUT_LINES || b.len() > DIFF_MAX_INPUT_LINES {
        marked('-', a) + marked('+', b)
    } else {
        walk(a, b, 0, 0)
    }
}

/// What a diff's lines hold.
pub open spec fn diff_view(d: Seq<(char, String)>) -> Seq<(char, Seq<char>)> {
    d.map_values(|x: (char, String)| (x.0, x.1@))
}

fn lines_of(s: &str) -> (out: Vec<String>)
    ensures
        text::views(out@) == lines_in(s@),
{
    broadcast use text::lemma_views_empty;

    if s.is_empty() {
        Vec::new()
    } else {
        text::split(s, '\n')
    }
}

fn push_marked(out: &mut Vec<(char, String)>, mark: char, lines: &Vec<String>, from: usize)
    requires
        from <= lines@.len(),
    ensures
        diff_view(final(out)@) == diff_view(old(out)@) + marked(
            mark,
            text::views(lines@).skip(from as int),
        ),
{
    let mut i: usize = from;
    let ghost all = marked(mark, text::views(lines@).skip(from as int));
    proof {
        assert(diff_view(out@) + all.take(0) =~= diff_view(out@));
    }
    while i < lines.len()
        invariant
            from <= i <= lines@.len(),
            all == marked(mark, text::views(lines@).skip(from as int)),
            diff_view(out@) == diff_view(old(out)@) + all.take(i - from),
        decreases lines@.len() - i,
    {
        let ghost before = diff_view(out@);
        out.push((mark, lines[i].clone()));
        proof {
            assert(diff_view(out@) =~= before.push((mark, lines@[i as int]@)));
            assert(all[i - from] == (mark, lines@[i as int]@));
            assert(all.take(i - from + 1) =~= all.take(i - from).push(all[i - from]));
            assert(diff_view(out@) =~= diff_view(old(out)@) + all.take(i + 1 - from));
        }
        i = i + 1;
    }
    proof {
        assert(all.take(all.len() as int) =~= all);
    }
}

/// The table of the lengths: `table[i][j]` is `lcs` from there.
pub open spec fn is_table(
    t: Seq<Vec<usize>>,
    a: Seq<Seq<char>>,
    b: Seq<Seq<char>>,
    from: int,
) -> bool {
    &&& t.len() == a.len() + 1
    &&& forall|i: int| 0 <= i < t.len() ==> #[trigger] t[i]@.len() == b.len() + 1
    &&& forall|i: int, j: int|
        from <= i < t.len() && 0 <= j <= b.len() ==> #[trigger] t[i]@[j] == lcs(a, b, i, j)
}

proof fn lemma_lcs_bound(a: Seq<Seq<char>>, b: Seq<Seq<char>>, i: int, j: int)
    requires
        0 <= i <= a.len(),
        0 <= j <= b.len(),
    ensures
        lcs(a, b, i, j) <= a.len() - i,
        lcs(a, b, i, j) <= b.len() - j,
    decreases a.len() - i + b.len() - j,
{
    if i < a.len() && j < b.len() {
        lemma_lcs_bound(a, b, i + 1, j + 1);
        lemma_lcs_bound(a, b, i + 1, j);
        lemma_lcs_bound(a, b, i, j + 1);
    }
}

fn lcs_row(a: &Vec<String>, b: &Vec<String>, i: usize, below: &Vec<usize>) -> (row: Vec<usize>)
    requires
        i < a@.len() <= DIFF_MAX_INPUT_LINES,
        b@.len() <= DIFF_MAX_INPUT_LINES,
        below@.len() == b@.len() + 1,
        forall|j: int|
            0 <= j <= b@.len() ==> #[trigger] below@[j] == lcs(
                text::views(a@),
                text::views(b@),
                i + 1,
                j,
            ),
    ensures
        row@.len() == b@.len() + 1,
        forall|j: int|
            0 <= j <= b@.len() ==> #[trigger] row@[j] == lcs(
                text::views(a@),
                text::views(b@),
                i as int,
                j,
            ),
{
    let m: usize = b.len();
    let ghost x = text::views(a@);
    let ghost y = text::views(b@);
    let mut row: Vec<usize> = vec![0usize; m + 1];
    let mut j: usize = m;
    while j > 0
        invariant
            j <= m == b@.len(),
            i < a@.len() <= DIFF_MAX_INPUT_LINES,
            m <= DIFF_MAX_INPUT_LINES,
            x == text::views(a@),
            y == text::views(b@),
            below@.len() == m + 1,
            row@.len() == m + 1,
            forall|k: int| 0 <= k <= m ==> #[trigger] below@[k] == lcs(x, y, i + 1, k),
            forall|k: int| j <= k <= m ==> #[trigger] row@[k] == lcs(x, y, i as int, k),
        decreases j,
    {
        j = j - 1;
        proof {
            lemma_lcs_bound(x, y, i + 1, j + 1);
            assert(x[i as int] == a@[i as int]@ && y[j as int] == b@[j as int]@);
        }
        let v: usize = if text::same(a[i].as_str(), b[j].as_str()) {
            below[j + 1] + 1
        } else if below[j] >= row[j + 1] {
            below[j]
        } else {
            row[j + 1]
        };
        row.set(j, v);
    }
    row
}

fn lcs_table(a: &Vec<String>, b: &Vec<String>) -> (t: Vec<Vec<usize>>)
    requires
        a@.len() <= DIFF_MAX_INPUT_LINES,
        b@.len() <= DIFF_MAX_INPUT_LINES,
    ensures
        is_table(t@, text::views(a@), text::views(b@), 0),
{
    let n: usize = a.len();
    let m: usize = b.len();
    let ghost x = text::views(a@);
    let ghost y = text::views(b@);
    // Rows are made from the last one up, and turned round at the end.
    let mut up: Vec<Vec<usize>> = Vec::new();
    let last: Vec<usize> = vec![0usize; m + 1];
    up.push(last);
    let mut i: usize = n;
    while i > 0
        invariant
            i <= n == a@.len(),
            m == b@.len(),
            n <= DIFF_MAX_INPUT_LINES,
            m <= DIFF_MAX_INPUT_LINES,
            x == text::views(a@),
            y == text::views(b@),
            up@.len() == n - i + 1,
            forall|r: int| 0 <= r < up@.len() ==> #[trigger] up@[r]@.len() == m + 1,
            forall|r: int, j: int|
                0 <= r < up@.len() && 0 <= j <= m ==> #[trigger] up@[r]@[j] == lcs(x, y, n - r, j),
        decreases i,
    {
        i = i - 1;
        let row: Vec<usize> = lcs_row(a, b, i, &up[n - i - 1]);
        up.push(row);
    }
    let mut t: Vec<Vec<usize>> = Vec::new();
    let ghost all = up@;
    while up.len() > 0
        invariant
            x == text::views(a@),
            y == text::views(b@),
            n == x.len(),
            m == y.len(),
            up@.len() + t@.len() == n + 1,
            forall|r: int| 0 <= r < up@.len() ==> #[trigger] up@[r]@.len() == m + 1,
            forall|r: int, j: int|
                0 <= r < up@.len() && 0 <= j <= m ==> #[trigger] up@[r]@[j] == lcs(x, y, n - r, j),
            forall|r: int| 0 <= r < t@.len() ==> #[trigger] t@[r]@.len() == m + 1,
            forall|r: int, j: int|
                0 <= r < t@.len() && 0 <= j <= m ==> #[trigger] t@[r]@[j] == lcs(x, y, r, j),
        decreases up@.len(),
    {
        match up.pop() {
            Some(row) => t.push(row),
            None => {},
        }
    }
    t
}

/// The lines of `new_text` against those of `old_text`: kept ones behind ` `, removed ones behind
/// `-`, added ones behind `+`.
pub fn diff_lines(old_text: &str, new_text: &str) -> (out: Vec<(char, String)>)
    ensures
        diff_view(out@) == diff_of(old_text@, new_text@),
{
    let a: Vec<String> = lines_of(old_text);
    let b: Vec<String> = lines_of(new_text);
    let ghost x = text::views(a@);
    let ghost y = text::views(b@);
    let mut out: Vec<(char, String)> = Vec::new();
    proof {
        assert(diff_view(out@) =~= Seq::empty());
        assert(x.skip(0) =~= x);
        assert(y.skip(0) =~= y);
    }
    if a.len() > DIFF_MAX_INPUT_LINES || b.len() > DIFF_MAX_INPUT_LINES {
        push_marked(&mut out, '-', &a, 0);
        push_marked(&mut out, '+', &b, 0);
        proof {
            assert(diff_view(out@) =~= marked('-', x) + marked('+', y));
        }
        return out;
    }
    let t: Vec<Vec<usize>> = lcs_table(&a, &b);
    let mut i: usize = 0;
    let mut j: usize = 0;
    proof {
        assert(diff_view(out@) + walk(x, y, 0, 0) =~= walk(x, y, 0, 0));
    }
    while i < a.len() && j < b.len()
        invariant
            i <= a@.len(),
            j <= b@.len(),
            x == text::views(a@),
            y == text::views(b@),
            is_table(t@, x, y, 0),
            diff_view(out@) + walk(x, y, i as int, j as int) == walk(x, y, 0, 0),
        decreases a@.len() - i + b@.len() - j,
    {
        let ghost before = diff_view(out@);
        proof {
            assert(x[i as int] == a@[i as int]@ && y[j as int] == b@[j as int]@);
        }
        if text::same(a[i].as_str(), b[j].as_str()) {
            out.push((' ', a[i].clone()));
            proof {
                assert(diff_view(out@) =~= before.push((' ', x[i as int])));
                assert(before + (seq![(' ', x[i as int])] + walk(x, y, i + 1, j + 1)) =~= diff_view(
                    out@,
                ) + walk(x, y, i + 1, j + 1));
            }
            i = i + 1;
            j = j + 1;
        } else if t[i + 1][j] >= t[i][j + 1] {
            out.push(('-', a[i].clone()));
            proof {
                assert(diff_view(out@) =~= before.push(('-', x[i as int])));
                assert(before + (seq![('-', x[i as int])] + walk(x, y, i + 1, j as int))
                    =~= diff_view(out@) + walk(x, y, i + 1, j as int));
            }
            i = i + 1;
        } else {
            out.push(('+', b[j].clone()));
            proof {
                assert(diff_view(out@) =~= before.push(('+', y[j as int])));
                assert(before + (seq![('+', y[j as int])] + walk(x, y, i as int, j + 1))
                    =~= diff_view(out@) + walk(x, y, i as int, j + 1));
            }
            j = j + 1;
        }
    }
    let ghost before = diff_view(out@);
    push_marked(&mut out, '-', &a, i);
    push_marked(&mut out, '+', &b, j);
    proof {
        assert(diff_view(out@) =~= before + (marked('-', x.skip(i as int)) + marked(
            '+',
            y.skip(j as int),
        )));
    }
    out
}

// ── what holds of a diff ────────────────────────────────────────────────────

/// The lines of a diff that are not behind `mark`.
pub open spec fn side(d: Seq<(char, Seq<char>)>, mark: char) -> Seq<Seq<char>>
    decreases d.len(),
{
    if d.len() == 0 {
        Seq::empty()
    } else if d[0].0 == mark {
        side(d.skip(1), mark)
    } else {
        seq![d[0].1] + side(d.skip(1), mark)
    }
}

proof fn lemma_side_cons(x: (char, Seq<char>), d: Seq<(char, Seq<char>)>, mark: char)
    ensures
        side(seq![x] + d, mark) == (if x.0 == mark {
            side(d, mark)
        } else {
            seq![x.1] + side(d, mark)
        }),
{
    assert((seq![x] + d).skip(1) =~= d);
}

proof fn lemma_side_add(a: Seq<(char, Seq<char>)>, b: Seq<(char, Seq<char>)>, mark: char)
    ensures
        side(a + b, mark) == side(a, mark) + side(b, mark),
    decreases a.len(),
{
    if a.len() == 0 {
        assert(a + b =~= b);
        assert(side(a, mark) + side(b, mark) =~= side(b, mark));
    } else {
        lemma_side_add(a.skip(1), b, mark);
        assert((a + b).skip(1) =~= a.skip(1) + b);
        assert(side(a + b, mark) =~= side(a, mark) + side(b, mark));
    }
}

proof fn lemma_side_marked(m: char, lines: Seq<Seq<char>>, mark: char)
    ensures
        side(marked(m, lines), mark) == if m == mark {
            Seq::<Seq<char>>::empty()
        } else {
            lines
        },
    decreases lines.len(),
{
    if lines.len() == 0 {
        assert(marked(m, lines).len() == 0);
        assert(lines =~= Seq::<Seq<char>>::empty());
    } else {
        lemma_side_marked(m, lines.skip(1), mark);
        assert(marked(m, lines).skip(1) =~= marked(m, lines.skip(1)));
        assert(seq![lines[0]] + lines.skip(1) =~= lines);
    }
}

proof fn lemma_walk_sides(a: Seq<Seq<char>>, b: Seq<Seq<char>>, i: int, j: int)
    requires
        0 <= i <= a.len(),
        0 <= j <= b.len(),
    ensures
        side(walk(a, b, i, j), '+') == a.skip(i),
        side(walk(a, b, i, j), '-') == b.skip(j),
    decreases a.len() - i + b.len() - j,
{
    if i < a.len() && j < b.len() {
        assert(seq![a[i]] + a.skip(i + 1) =~= a.skip(i));
        assert(seq![b[j]] + b.skip(j + 1) =~= b.skip(j));
        if a[i] == b[j] {
            lemma_walk_sides(a, b, i + 1, j + 1);
            lemma_side_cons((' ', a[i]), walk(a, b, i + 1, j + 1), '+');
            lemma_side_cons((' ', a[i]), walk(a, b, i + 1, j + 1), '-');
        } else if lcs(a, b, i + 1, j) >= lcs(a, b, i, j + 1) {
            lemma_walk_sides(a, b, i + 1, j);
            lemma_side_cons(('-', a[i]), walk(a, b, i + 1, j), '+');
            lemma_side_cons(('-', a[i]), walk(a, b, i + 1, j), '-');
        } else {
            lemma_walk_sides(a, b, i, j + 1);
            lemma_side_cons(('+', b[j]), walk(a, b, i, j + 1), '+');
            lemma_side_cons(('+', b[j]), walk(a, b, i, j + 1), '-');
        }
    } else {
        lemma_two_sides(a.skip(i), b.skip(j));
    }
}

proof fn lemma_two_sides(a: Seq<Seq<char>>, b: Seq<Seq<char>>)
    ensures
        side(marked('-', a) + marked('+', b), '+') == a,
        side(marked('-', a) + marked('+', b), '-') == b,
{
    lemma_side_add(marked('-', a), marked('+', b), '+');
    lemma_side_add(marked('-', a), marked('+', b), '-');
    lemma_side_marked('-', a, '+');
    lemma_side_marked('+', b, '+');
    lemma_side_marked('-', a, '-');
    lemma_side_marked('+', b, '-');
    assert(a + Seq::<Seq<char>>::empty() =~= a);
    assert(Seq::<Seq<char>>::empty() + b =~= b);
}

/// A diff holds both texts: without its added lines it is the old one, without its removed lines
/// the new one.
pub proof fn law_diff_holds_both(old_text: Seq<char>, new_text: Seq<char>)
    ensures
        side(diff_of(old_text, new_text), '+') == lines_in(old_text),
        side(diff_of(old_text, new_text), '-') == lines_in(new_text),
{
    let a = lines_in(old_text);
    let b = lines_in(new_text);
    if a.len() > DIFF_MAX_INPUT_LINES || b.len() > DIFF_MAX_INPUT_LINES {
        lemma_two_sides(a, b);
    } else {
        lemma_walk_sides(a, b, 0, 0);
        assert(a.skip(0) =~= a);
        assert(b.skip(0) =~= b);
    }
}

/// How many lines stand behind `mark`.
pub open spec fn count(d: Seq<(char, Seq<char>)>, mark: char) -> nat
    decreases d.len(),
{
    if d.len() == 0 {
        0
    } else {
        count(d.drop_last(), mark) + if d.last().0 == mark {
            1nat
        } else {
            0nat
        }
    }
}

proof fn lemma_count_cons(x: (char, Seq<char>), d: Seq<(char, Seq<char>)>, mark: char)
    ensures
        count(seq![x] + d, mark) == count(d, mark) + if x.0 == mark {
            1nat
        } else {
            0nat
        },
    decreases d.len(),
{
    let s = seq![x] + d;
    if d.len() == 0 {
        assert(s.drop_last() =~= d);
    } else {
        lemma_count_cons(x, d.drop_last(), mark);
        assert(s.drop_last() =~= seq![x] + d.drop_last());
    }
}

proof fn lemma_count_none(d: Seq<(char, Seq<char>)>, mark: char)
    requires
        forall|i: int| 0 <= i < d.len() ==> #[trigger] d[i].0 != mark,
    ensures
        count(d, mark) == 0,
    decreases d.len(),
{
    if d.len() > 0 {
        lemma_count_none(d.drop_last(), mark);
    }
}

/// A diff keeps as many lines as the longest common subsequence has.
pub proof fn law_walk_keeps_longest(a: Seq<Seq<char>>, b: Seq<Seq<char>>, i: int, j: int)
    requires
        0 <= i <= a.len(),
        0 <= j <= b.len(),
    ensures
        count(walk(a, b, i, j), ' ') == lcs(a, b, i, j),
    decreases a.len() - i + b.len() - j,
{
    if i < a.len() && j < b.len() {
        if a[i] == b[j] {
            law_walk_keeps_longest(a, b, i + 1, j + 1);
            lemma_count_cons((' ', a[i]), walk(a, b, i + 1, j + 1), ' ');
        } else if lcs(a, b, i + 1, j) >= lcs(a, b, i, j + 1) {
            law_walk_keeps_longest(a, b, i + 1, j);
            lemma_count_cons(('-', a[i]), walk(a, b, i + 1, j), ' ');
        } else {
            law_walk_keeps_longest(a, b, i, j + 1);
            lemma_count_cons(('+', b[j]), walk(a, b, i, j + 1), ' ');
        }
    } else {
        lemma_count_none(walk(a, b, i, j), ' ');
    }
}

/// Pairs of places, both rising, at which `a` and `b` hold the same line: a common subsequence.
pub open spec fn is_common(
    a: Seq<Seq<char>>,
    b: Seq<Seq<char>>,
    i: int,
    j: int,
    pairs: Seq<(int, int)>,
) -> bool {
    &&& forall|k: int|
        0 <= k < pairs.len() ==> i <= (#[trigger] pairs[k]).0 < a.len() && j <= pairs[k].1 < b.len()
            && a[pairs[k].0] == b[pairs[k].1]
    &&& forall|k: int, l: int|
        0 <= k < l < pairs.len() ==> (#[trigger] pairs[k]).0 < (#[trigger] pairs[l]).0 && pairs[k].1
            < pairs[l].1
}

proof fn lemma_lcs_steps(a: Seq<Seq<char>>, b: Seq<Seq<char>>, i: int, j: int)
    requires
        0 <= i <= a.len(),
        0 <= j <= b.len(),
    ensures
        i < a.len() ==> lcs(a, b, i + 1, j) <= lcs(a, b, i, j) <= 1 + lcs(a, b, i + 1, j),
        j < b.len() ==> lcs(a, b, i, j + 1) <= lcs(a, b, i, j) <= 1 + lcs(a, b, i, j + 1),
    decreases a.len() - i + b.len() - j,
{
    if i < a.len() && j < b.len() {
        lemma_lcs_steps(a, b, i + 1, j + 1);
        lemma_lcs_steps(a, b, i + 1, j);
        lemma_lcs_steps(a, b, i, j + 1);
    }
}

/// No common subsequence is longer than the one a diff keeps.
pub proof fn law_lcs_is_longest(
    a: Seq<Seq<char>>,
    b: Seq<Seq<char>>,
    i: int,
    j: int,
    pairs: Seq<(int, int)>,
)
    requires
        0 <= i <= a.len(),
        0 <= j <= b.len(),
        is_common(a, b, i, j, pairs),
    ensures
        pairs.len() <= lcs(a, b, i, j),
    decreases a.len() - i + b.len() - j,
{
    if pairs.len() > 0 {
        let p = pairs[0];
        let rest = pairs.skip(1);
        assert(i <= p.0 < a.len() && j <= p.1 < b.len());
        assert(is_common(a, b, i + 1, j + 1, rest)) by {
            assert forall|k: int| 0 <= k < rest.len() implies i + 1 <= (#[trigger] rest[k]).0
                < a.len() && j + 1 <= rest[k].1 < b.len() && a[rest[k].0] == b[rest[k].1] by {
                assert(rest[k] == pairs[k + 1]);
            }
            assert forall|k: int, l: int| 0 <= k < l < rest.len() implies (#[trigger] rest[k]).0 < (
            #[trigger] rest[l]).0 && rest[k].1 < rest[l].1 by {
                assert(rest[k] == pairs[k + 1] && rest[l] == pairs[l + 1]);
            }
        }
        if a[i] == b[j] {
            law_lcs_is_longest(a, b, i + 1, j + 1, rest);
        } else if p.0 > i {
            assert(is_common(a, b, i + 1, j, pairs)) by {
                assert forall|k: int| 0 <= k < pairs.len() implies i + 1 <= (#[trigger] pairs[k]).0
                    < a.len() && j <= pairs[k].1 < b.len() && a[pairs[k].0] == b[pairs[k].1] by {
                    if k > 0 {
                        assert(pairs[0].0 < pairs[k].0);
                    }
                }
            }
            law_lcs_is_longest(a, b, i + 1, j, pairs);
            lemma_lcs_steps(a, b, i, j);
        } else {
            assert(p.1 > j);
            assert(is_common(a, b, i, j + 1, pairs)) by {
                assert forall|k: int| 0 <= k < pairs.len() implies i <= (#[trigger] pairs[k]).0
                    < a.len() && j + 1 <= pairs[k].1 < b.len() && a[pairs[k].0] == b[pairs[k].1] by {
                    if k > 0 {
                        assert(pairs[0].1 < pairs[k].1);
                    }
                }
            }
            law_lcs_is_longest(a, b, i, j + 1, pairs);
            lemma_lcs_steps(a, b, i, j);
        }
    }
}

// ── hunks ───────────────────────────────────────────────────────────────────

/// Line `i` is shown: a changed line stands at most [`DIFF_CTX`] lines away.
pub open spec fn is_kept(d: Seq<(char, Seq<char>)>, i: int) -> bool {
    exists|k: int|
        0 <= k < d.len() && i - DIFF_CTX <= k <= i + DIFF_CTX && (#[trigger] d[k]).0 != ' '
}

/// The first `n` lines of a diff as they are shown: what is not kept is one `…` per stretch.
pub open spec fn collapsed(d: Seq<(char, Seq<char>)>, n: nat) -> Seq<Seq<char>>
    decreases n,
{
    if n == 0 {
        Seq::empty()
    } else {
        let i = n - 1;
        let before = collapsed(d, i as nat);
        if is_kept(d, i) {
            before.push(seq![d[i].0] + shown_line(d[i].1))
        } else if i > 0 && !is_kept(d, i - 1) {
            before
        } else {
            before.push("…"@)
        }
    }
}

fn near_change(d: &Vec<(char, String)>, i: usize) -> (r: bool)
    requires
        i < d@.len(),
    ensures
        r == is_kept(diff_view(d@), i as int),
{
    let n: usize = d.len();
    let ghost v = diff_view(d@);
    let lo: usize = if i >= DIFF_CTX {
        i - DIFF_CTX
    } else {
        0
    };
    let hi: usize = if n - i > DIFF_CTX {
        i + DIFF_CTX + 1
    } else {
        n
    };
    let mut k: usize = lo;
    while k < hi
        invariant
            lo <= k <= hi <= n == d@.len(),
            i < n,
            lo == if i >= DIFF_CTX {
                i - DIFF_CTX
            } else {
                0
            },
            v == diff_view(d@),
            hi <= i + DIFF_CTX + 1,
            forall|x: int| lo <= x < k ==> (#[trigger] v[x]).0 == ' ',
        decreases hi - k,
    {
        proof {
            assert(v[k as int].0 == d@[k as int].0);
        }
        if d[k].0 != ' ' {
            return true;
        }
        k = k + 1;
    }
    proof {
        assert forall|x: int| 0 <= x < v.len() && i - DIFF_CTX <= x <= i + DIFF_CTX implies (
        #[trigger] v[x]).0 == ' ' by {
            assert(lo <= x < hi);
        }
    }
    false
}

/// Folds a diff into hunks: a few lines of context round each change, and one `…` for any other
/// stretch.
fn collapse_hunk(d: &Vec<(char, String)>) -> (out: Vec<String>)
    ensures
        text::views(out@) == collapsed(diff_view(d@), d@.len()),
{
    broadcast use text::lemma_views_push, text::lemma_views_empty;

    let ghost v = diff_view(d@);
    let mut out: Vec<String> = Vec::new();
    let mut gap: bool = false;
    let mut i: usize = 0;
    while i < d.len()
        invariant
            i <= d@.len(),
            v == diff_view(d@),
            text::views(out@) == collapsed(v, i as nat),
            gap == (i > 0 && !is_kept(v, i - 1)),
        decreases d@.len() - i,
    {
        if near_change(d, i) {
            let mut line: String = String::new();
            line.push(d[i].0);
            let rest: String = clip_diff_line(d[i].1.as_str());
            line.append(rest.as_str());
            proof {
                assert(v[i as int] == (d@[i as int].0, d@[i as int].1@));
                assert(line@ =~= seq![v[i as int].0] + shown_line(v[i as int].1));
            }
            out.push(line);
            gap = false;
        } else {
            if !gap {
                out.push("…".to_owned());
            }
            gap = true;
        }
        i = i + 1;
    }
    out
}

/// Every changed line is shown.
pub proof fn law_changes_are_shown(d: Seq<(char, Seq<char>)>, n: nat)
    requires
        n <= d.len(),
        forall|i: int|
            0 <= i < d.len() ==> (#[trigger] d[i]).0 == ' ' || d[i].0 == '+' || d[i].0 == '-',
    ensures
        collapsed(d, n).len() >= count(d.take(n as int), '+') + count(d.take(n as int), '-'),
    decreases n,
{
    if n > 0 {
        let i = n - 1;
        law_changes_are_shown(d, i as nat);
        assert(d.take(n as int).drop_last() =~= d.take(i));
        assert(d.take(n as int).last() == d[i]);
        if d[i].0 != ' ' {
            assert(is_kept(d, i));
        }
    } else {
        assert(d.take(0) =~= Seq::empty());
    }
}

proof fn lemma_walk_marks(a: Seq<Seq<char>>, b: Seq<Seq<char>>, i: int, j: int)
    requires
        0 <= i <= a.len(),
        0 <= j <= b.len(),
    ensures
        forall|k: int|
            0 <= k < walk(a, b, i, j).len() ==> (#[trigger] walk(a, b, i, j)[k]).0 == ' ' || walk(
                a,
                b,
                i,
                j,
            )[k].0 == '+' || walk(a, b, i, j)[k].0 == '-',
    decreases a.len() - i + b.len() - j,
{
    if i < a.len() && j < b.len() {
        let w = walk(a, b, i, j);
        if a[i] == b[j] {
            lemma_walk_marks(a, b, i + 1, j + 1);
            let r = walk(a, b, i + 1, j + 1);
            assert forall|k: int| 0 <= k < w.len() implies (#[trigger] w[k]).0 == ' ' || w[k].0
                == '+' || w[k].0 == '-' by {
                assert(k > 0 ==> w[k] == r[k - 1]);
            }
        } else if lcs(a, b, i + 1, j) >= lcs(a, b, i, j + 1) {
            lemma_walk_marks(a, b, i + 1, j);
            let r = walk(a, b, i + 1, j);
            assert forall|k: int| 0 <= k < w.len() implies (#[trigger] w[k]).0 == ' ' || w[k].0
                == '+' || w[k].0 == '-' by {
                assert(k > 0 ==> w[k] == r[k - 1]);
            }
        } else {
            lemma_walk_marks(a, b, i, j + 1);
            let r = walk(a, b, i, j + 1);
            assert forall|k: int| 0 <= k < w.len() implies (#[trigger] w[k]).0 == ' ' || w[k].0
                == '+' || w[k].0 == '-' by {
                assert(k > 0 ==> w[k] == r[k - 1]);
            }
        }
    }
}

proof fn lemma_diff_marks(old_text: Seq<char>, new_text: Seq<char>)
    ensures
        forall|k: int|
            0 <= k < diff_of(old_text, new_text).len() ==> (#[trigger] diff_of(
                old_text,
                new_text,
            )[k]).0 == ' ' || diff_of(old_text, new_text)[k].0 == '+' || diff_of(
                old_text,
                new_text,
            )[k].0 == '-',
{
    let a = lines_in(old_text);
    let b = lines_in(new_text);
    if a.len() > DIFF_MAX_INPUT_LINES || b.len() > DIFF_MAX_INPUT_LINES {
    } else {
        lemma_walk_marks(a, b, 0, 0);
    }
}

/// The texts that an editing tool replaced and the texts it put there.
pub open spec fn hunks_of(name: Seq<char>, input: &ToolInput) -> Seq<(Seq<char>, Seq<char>)> {
    if name == "MultiEdit"@ {
        input.edits@.map_values(
            |e: crate::chat::slack::input::EditText| (e.old@, e.new@),
        )
    } else if name == "Write"@ {
        seq![(Seq::<char>::empty(), or_empty(input.field("content"@)))]
    } else {
        seq![(or_empty(input.field("old_string"@)), or_empty(input.field("new_string"@)))]
    }
}

/// The lines shown for the first `n` hunks, with a `…` between hunks.
pub open spec fn hunk_lines(h: Seq<(Seq<char>, Seq<char>)>, n: nat) -> Seq<Seq<char>>
    decreases n,
{
    if n == 0 {
        Seq::empty()
    } else {
        let i = n - 1;
        let d = diff_of(h[i].0, h[i].1);
        let before = hunk_lines(h, i as nat);
        (if i > 0 {
            before.push("…"@)
        } else {
            before
        }) + collapsed(d, d.len())
    }
}

/// How many lines of the first `n` hunks stand behind `mark`.
pub open spec fn hunk_count(h: Seq<(Seq<char>, Seq<char>)>, n: nat, mark: char) -> nat
    decreases n,
{
    if n == 0 {
        0
    } else {
        hunk_count(h, (n - 1) as nat, mark) + count(diff_of(h[n - 1].0, h[n - 1].1), mark)
    }
}

proof fn lemma_hunk_room(h: Seq<(Seq<char>, Seq<char>)>, n: nat)
    requires
        n <= h.len(),
    ensures
        hunk_count(h, n, '+') + hunk_count(h, n, '-') <= hunk_lines(h, n).len(),
    decreases n,
{
    if n > 0 {
        lemma_hunk_room(h, (n - 1) as nat);
        let d = diff_of(h[n - 1].0, h[n - 1].1);
        lemma_diff_marks(h[n - 1].0, h[n - 1].1);
        law_changes_are_shown(d, d.len());
        assert(d.take(d.len() as int) =~= d);
    }
}

/// How many bytes the first `k` lines take, line ends included.
pub open spec fn lines_size(lines: Seq<Seq<char>>, k: nat) -> nat
    decreases k,
{
    if k == 0 {
        0
    } else {
        lines_size(lines, (k - 1) as nat) + text::bytes(lines[k - 1]) + 1
    }
}

/// How many lines, from `k` on, are shown: as long as there is room for lines and for bytes.
pub open spec fn kept_from(lines: Seq<Seq<char>>, k: nat) -> nat
    decreases lines.len() - k,
{
    if k < lines.len() && k < DIFF_MAX_LINES && lines_size(lines, k + 1) <= DIFF_MAX_BYTES {
        kept_from(lines, k + 1)
    } else {
        k
    }
}

/// The lines that are shown, and where some are not, how many are missing.
pub open spec fn footed(lines: Seq<Seq<char>>) -> Seq<Seq<char>> {
    let n = kept_from(lines, 0);
    if n < lines.len() {
        lines.take(n as int).push("(+"@ + text::decimal(lines.len() - n) + " more)"@).push("…"@)
    } else {
        lines
    }
}

/// What stands behind a tool's row: how many lines came and went, and the diff in a fence.
pub open spec fn diff_text(h: Seq<(Seq<char>, Seq<char>)>) -> Option<Seq<char>> {
    let added = hunk_count(h, h.len(), '+');
    let removed = hunk_count(h, h.len(), '-');
    if added == 0 && removed == 0 {
        None
    } else {
        Some(
            " (+"@ + text::decimal(added as int) + " -"@ + text::decimal(removed as int)
                + ")\n```diff\n"@ + text::joined(footed(hunk_lines(h, h.len())), "\n"@)
                + "\n```"@,
        )
    }
}

fn count_mark(d: &Vec<(char, String)>, mark: char) -> (n: usize)
    ensures
        n == count(diff_view(d@), mark),
{
    let ghost v = diff_view(d@);
    let mut n: usize = 0;
    let mut i: usize = 0;
    proof {
        assert(v.take(0) =~= Seq::empty());
    }
    while i < d.len()
        invariant
            i <= d@.len(),
            n <= i,
            v == diff_view(d@),
            n == count(v.take(i as int), mark),
        decreases d@.len() - i,
    {
        proof {
            assert(v.take(i + 1).drop_last() =~= v.take(i as int));
            assert(v[i as int].0 == d@[i as int].0);
        }
        if d[i].0 == mark {
            n = n + 1;
        }
        i = i + 1;
    }
    proof {
        assert(v.take(v.len() as int) =~= v);
    }
    n
}

fn foot(lines: &Vec<String>) -> (out: Vec<String>)
    ensures
        text::views(out@) == footed(text::views(lines@)),
{
    broadcast use text::lemma_views_push, text::lemma_views_empty;

    let ghost v = text::views(lines@);
    let mut out: Vec<String> = Vec::new();
    let mut size: usize = 0;
    let mut k: usize = 0;
    let n: usize = lines.len();
    proof {
        assert(v.take(0) =~= Seq::empty());
    }
    while k < n && k < DIFF_MAX_LINES && text::byte_len(lines[k].as_str()) < DIFF_MAX_BYTES - size
        invariant
            k <= n == lines@.len(),
            v == text::views(lines@),
            size == lines_size(v, k as nat),
            size <= DIFF_MAX_BYTES,
            text::views(out@) == v.take(k as int),
            kept_from(v, 0) == kept_from(v, k as nat),
        decreases n - k,
    {
        proof {
            assert(v[k as int] == lines@[k as int]@);
            assert(v.take(k + 1) =~= v.take(k as int).push(v[k as int]));
        }
        size = size + text::byte_len(lines[k].as_str()) + 1;
        out.push(lines[k].clone());
        k = k + 1;
    }
    proof {
        if k < n {
            assert(v[k as int] == lines@[k as int]@);
        }
        assert(kept_from(v, 0) == k);
    }
    if k < n {
        let mut note: String = "(+".to_owned();
        let missing: String = text::number((n - k) as u64);
        note.append(missing.as_str());
        note.append(" more)");
        out.push(note);
        out.push("…".to_owned());
    } else {
        proof {
            assert(v.take(n as int) =~= v);
        }
    }
    out
}

/// The diff that is put behind an editing tool's row; `None` where no text changed.
pub fn render_edit_diff(name: &str, input: &ToolInput) -> (r: Option<String>)
    ensures
        text::opt_view(r) == diff_text(hunks_of(name@, input)),
{
    let mut hunks: Vec<(String, String)> = Vec::new();
    if text::same(name, "MultiEdit") {
        let mut i: usize = 0;
        while i < input.edits.len()
            invariant
                i <= input.edits@.len(),
                hunks@.len() == i,
                forall|k: int|
                    0 <= k < i ==> (#[trigger] hunks@[k]).0@ == input.edits@[k].old@
                        && hunks@[k].1@ == input.edits@[k].new@,
            decreases input.edits@.len() - i,
        {
            hunks.push((input.edits[i].old.clone(), input.edits[i].new.clone()));
            i = i + 1;
        }
    } else if text::same(name, "Write") {
        hunks.push((String::new(), input.text("content")));
    } else {
        hunks.push((input.text("old_string"), input.text("new_string")));
    }
    let ghost h = hunks_of(name@, input);
    proof {
        assert(h =~= hunks@.map_values(|x: (String, String)| (x.0@, x.1@)));
    }
    render_hunks(&hunks)
}

fn render_hunks(hunks: &Vec<(String, String)>) -> (r: Option<String>)
    ensures
        text::opt_view(r) == diff_text(
            hunks@.map_values(|x: (String, String)| (x.0@, x.1@)),
        ),
{
    let ghost h = hunks@.map_values(|x: (String, String)| (x.0@, x.1@));
    let mut added: usize = 0;
    let mut removed: usize = 0;
    let mut rendered: Vec<String> = Vec::new();
    let mut i: usize = 0;
    proof {
        assert(text::views(rendered@) =~= Seq::empty());
    }
    while i < hunks.len()
        invariant
            i <= hunks@.len(),
            h == hunks@.map_values(|x: (String, String)| (x.0@, x.1@)),
            added == hunk_count(h, i as nat, '+'),
            removed == hunk_count(h, i as nat, '-'),
            text::views(rendered@) == hunk_lines(h, i as nat),
        decreases hunks@.len() - i,
    {
        broadcast use text::lemma_views_push;

        proof {
            assert(h[i as int] == (hunks@[i as int].0@, hunks@[i as int].1@));
        }
        let d: Vec<(char, String)> = diff_lines(hunks[i].0.as_str(), hunks[i].1.as_str());
        if i > 0 {
            rendered.push("…".to_owned());
        }
        let mut lines: Vec<String> = collapse_hunk(&d);
        let ghost before = rendered@;
        let ghost more = lines@;
        rendered.append(&mut lines);
        let plus: usize = count_mark(&d, '+');
        let minus: usize = count_mark(&d, '-');
        i = i + 1;
        proof {
            assert(text::views(rendered@) =~= text::views(before) + text::views(more));
            assert(text::views(rendered@) == hunk_lines(h, i as nat));
            lemma_hunk_room(h, i as nat);
            assert(rendered@.len() == hunk_lines(h, i as nat).len());
            assert(rendered.len() == rendered@.len());
        }
        let room: usize = rendered.len();
        added = added + plus;
        removed = removed + minus;
    }
    if added == 0 && removed == 0 {
        return None;
    }
    let shown: Vec<String> = foot(&rendered);
    let body: String = text::join(shown.as_slice(), "\n");
    let mut out: String = " (+".to_owned();
    let a: String = text::number(added as u64);
    let b: String = text::number(removed as u64);
    out.append(a.as_str());
    out.append(" -");
    out.append(b.as_str());
    out.append(")\n```diff\n");
    out.append(body.as_str());
    out.append("\n```");
    Some(out)
}

} // verus!
