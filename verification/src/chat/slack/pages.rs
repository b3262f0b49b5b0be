//! Pages: a progress message that outgrows one post goes on in the next.
use crate::chat::slack::rows::INDENT_GUARD;
use crate::text;
use vstd::prelude::*;

verus! {

/// Budget of one page, in bytes.
pub const STICKY_BUDGET: usize = 3800;

/// How many bytes the lines `from..to` take, joined by line ends.
pub open spec fn span_size(lines: Seq<Seq<char>>, from: int, to: int) -> nat
    decreases to - from,
{
    if to <= from {
        0
    } else {
        span_size(lines, from, to - 1) + text::bytes(lines[to - 1]) + if to - 1 > from {
            1nat
        } else {
            0nat
        }
    }
}

/// Where a page that begins at `start` ends, seen from `i`: it takes lines as long as they fit, and
/// one line in any case.
pub open spec fn cut_from(lines: Seq<Seq<char>>, start: int, i: int, budget: nat) -> int
    decreases lines.len() - i,
{
    if i < lines.len() && (i == start || span_size(lines, start, i + 1) <= budget) {
        cut_from(lines, start, i + 1, budget)
    } else {
        i
    }
}

/// Where a page that begins at `start` ends.
pub fn pack_cut(lines: &Vec<String>, start: usize, budget: usize) -> (r: usize)
    requires
        start <= lines@.len(),
    ensures
        r == cut_from(text::views(lines@), start as int, start as int, budget as nat),
        start <= r <= lines@.len(),
        start < lines@.len() ==> start < r,
{
    let ghost v = text::views(lines@);
    let n: usize = lines.len();
    if start == n {
        return start;
    }
    let mut size: usize = text::byte_len(lines[start].as_str());
    let mut i: usize = start + 1;
    proof {
        assert(v[start as int] == lines@[start as int]@);
        assert(span_size(v, start as int, start as int) == 0);
    }
    while i < n && size <= budget && text::byte_len(lines[i].as_str()) < budget - size
        invariant
            start < i <= n == lines@.len(),
            v == text::views(lines@),
            size == span_size(v, start as int, i as int),
            i > start + 1 ==> size <= budget,
            cut_from(v, start as int, start as int, budget as nat) == cut_from(
                v,
                start as int,
                i as int,
                budget as nat,
            ),
        decreases n - i,
    {
        proof {
            assert(v[i as int] == lines@[i as int]@);
        }
        size = size + 1 + text::byte_len(lines[i].as_str());
        i = i + 1;
    }
    proof {
        if i < n {
            assert(v[i as int] == lines@[i as int]@);
        }
    }
    i
}

/// The line opens or closes a code fence.
pub open spec fn is_fence(line: Seq<char>) -> bool {
    "```"@.is_prefix_of(text::trimmed_start(line))
}

fn is_fence_toggle(line: &str) -> (r: bool)
    ensures
        r == is_fence(line@),
{
    let t: String = text::trim_start(line);
    text::starts_with(t.as_str(), "```")
}

/// Whether a fence is open behind `page`, where one was open before it or not.
pub open spec fn open_behind(page: Seq<Seq<char>>, open: bool) -> bool
    decreases page.len(),
{
    if page.len() == 0 {
        open
    } else {
        open_behind(page.drop_last(), open) != is_fence(page.last())
    }
}

/// A page's lines as one code-safe text: an open fence is opened again in front and closed behind.
pub open spec fn wrapped(page: Seq<Seq<char>>, open: bool) -> Seq<char> {
    let body = text::joined(
        (if open {
            seq!["```diff"@]
        } else {
            Seq::empty()
        }) + page + (if open_behind(page, open) {
            seq!["```"@]
        } else {
            Seq::empty()
        }),
        "\n"@,
    );
    if body.len() > 0 && body[0] == '\u{A0}' {
        INDENT_GUARD@ + body
    } else {
        body
    }
}

/// Makes `lines[from..to]` one page whose code blocks are whole, and says whether a fence is open
/// at its end.
pub fn wrap_fences(lines: &Vec<String>, from: usize, to: usize, open: bool) -> (r: (String, bool))
    requires
        from <= to <= lines@.len(),
    ensures
        r.0@ == wrapped(text::views(lines@).subrange(from as int, to as int), open),
        r.1 == open_behind(text::views(lines@).subrange(from as int, to as int), open),
{
    broadcast use text::lemma_views_push, text::lemma_views_empty;

    let ghost page = text::views(lines@).subrange(from as int, to as int);
    let ghost front = if open {
        seq!["```diff"@]
    } else {
        Seq::empty()
    };
    let mut parts: Vec<String> = Vec::new();
    if open {
        parts.push("```diff".to_owned());
    }
    let mut in_fence: bool = open;
    let mut i: usize = from;
    proof {
        assert(text::views(parts@) =~= front + page.take(0));
        assert(page.take(0) =~= Seq::empty());
    }
    while i < to
        invariant
            from <= i <= to <= lines@.len(),
            page == text::views(lines@).subrange(from as int, to as int),
            text::views(parts@) == front + page.take(i - from),
            in_fence == open_behind(page.take(i - from), open),
        decreases to - i,
    {
        proof {
            assert(page[i - from] == lines@[i as int]@);
            assert(page.take(i + 1 - from).drop_last() =~= page.take(i - from));
            assert((front + page.take(i - from)).push(page[i - from]) =~= front + page.take(
                i + 1 - from,
            ));
        }
        if is_fence_toggle(lines[i].as_str()) {
            in_fence = !in_fence;
        }
        parts.push(lines[i].clone());
        i = i + 1;
    }
    proof {
        assert(page.take(page.len() as int) =~= page);
    }
    if in_fence {
        parts.push("```".to_owned());
        proof {
            assert(text::views(parts@) =~= front + page + seq!["```"@]);
        }
    } else {
        proof {
            assert(text::views(parts@) =~= front + page + Seq::<Seq<char>>::empty());
        }
    }
    let body: String = text::join(parts.as_slice(), "\n");
    let chars: Vec<char> = text::chars_of(body.as_str());
    if chars.len() > 0 && chars[0] == '\u{A0}' {
        (text::cat(INDENT_GUARD, body.as_str()), in_fence)
    } else {
        (body, in_fence)
    }
}

/// The longest beginning of `line` that leaves room for `…` in `room` bytes, and `…`; empty where
/// not one character fits.
pub open spec fn clip_text(line: Seq<char>, room: nat) -> Seq<char> {
    let n = text::fit(
        line,
        if room >= 3 {
            (room - 3) as nat
        } else {
            0
        },
    );
    if n == 0 {
        Seq::empty()
    } else {
        line.take(n) + "…"@
    }
}

/// Cuts `line` to `room` bytes, on a character's boundary, and says so with `…`.
pub fn clip(line: &str, room: usize) -> (out: String)
    ensures
        out@ == clip_text(line@, room as nat),
{
    let chars: Vec<char> = text::chars_of(line);
    let budget: usize = if room >= 3 {
        room - 3
    } else {
        0
    };
    let (n, used) = text::fit_count(&chars, budget);
    if n == 0 {
        return String::new();
    }
    proof {
        assert(line@.take(n as int) =~= line@.subrange(0, n as int));
    }
    let head: String = text::text_of(&chars, 0, n);
    text::cat(head.as_str(), "…")
}

/// One page: its text, where the next one begins, and whether a fence is open at its end.
pub open spec fn page_of(lines: Seq<Seq<char>>, from: int, open: bool) -> (Seq<char>, int, bool) {
    let cut = cut_from(lines, from, from, STICKY_BUDGET as nat);
    let page = if cut == from + 1 && text::bytes(lines[from]) > STICKY_BUDGET {
        seq![clip_text(lines[from], STICKY_BUDGET as nat)]
    } else {
        lines.subrange(from, cut)
    };
    (wrapped(page, open), cut, open_behind(page, open))
}

/// Builds the page that begins at line `from`. A single line over the budget is cut to its head.
pub fn page(lines: &Vec<String>, from: usize, open: bool) -> (r: (String, usize, bool))
    requires
        from <= lines@.len(),
    ensures
        (r.0@, r.1 as int, r.2) == page_of(text::views(lines@), from as int, open),
        from <= r.1 <= lines@.len(),
        from < lines@.len() ==> from < r.1,
{
    broadcast use text::lemma_views_push, text::lemma_views_empty;

    let cut: usize = pack_cut(lines, from, STICKY_BUDGET);
    if from < lines.len() && cut == from + 1 {
        proof {
            assert(text::views(lines@)[from as int] == lines@[from as int]@);
        }
        if text::byte_len(lines[from].as_str()) > STICKY_BUDGET {
            let mut one: Vec<String> = Vec::new();
            one.push(clip(lines[from].as_str(), STICKY_BUDGET));
            let (body, end) = wrap_fences(&one, 0, 1, open);
            proof {
                assert(text::views(one@).subrange(0, 1) =~= seq![one@[0]@]);
            }
            return (body, cut, end);
        }
    }
    let (body, end) = wrap_fences(lines, from, cut, open);
    (body, cut, end)
}

/// Pages lose nothing: a page takes at least one line, and the next one begins where it ends.
pub proof fn law_pages_advance(lines: Seq<Seq<char>>, from: int, open: bool)
    requires
        0 <= from <= lines.len(),
    ensures
        from <= page_of(lines, from, open).1 <= lines.len(),
        from < lines.len() ==> from < page_of(lines, from, open).1,
{
    lemma_cut_bounds(lines, from, from, STICKY_BUDGET as nat);
}

proof fn lemma_cut_bounds(lines: Seq<Seq<char>>, start: int, i: int, budget: nat)
    requires
        0 <= start <= i <= lines.len(),
    ensures
        i <= cut_from(lines, start, i, budget) <= lines.len(),
        i == start && i < lines.len() ==> cut_from(lines, start, i, budget) > i,
        cut_from(lines, start, i, budget) > start + 1 && (i > start + 1 ==> span_size(
            lines,
            start,
            i,
        ) <= budget) ==> span_size(lines, start, cut_from(lines, start, i, budget)) <= budget,
    decreases lines.len() - i,
{
    if i < lines.len() && (i == start || span_size(lines, start, i + 1) <= budget) {
        lemma_cut_bounds(lines, start, i + 1, budget);
    }
}

proof fn lemma_span_joined(lines: Seq<Seq<char>>, from: int, to: int)
    requires
        0 <= from <= to <= lines.len(),
    ensures
        text::bytes(text::joined(lines.subrange(from, to), "\n"@)) == span_size(lines, from, to),
    decreases to - from,
{
    reveal_strlit("\n");
    let s = lines.subrange(from, to);
    if from < to {
        lemma_span_joined(lines, from, to - 1);
        assert(s.drop_last() =~= lines.subrange(from, to - 1));
        if to - 1 > from {
            let a = text::joined(s.drop_last(), "\n"@);
            text::lemma_bytes_add(a, "\n"@);
            text::lemma_bytes_add(a + "\n"@, s.last());
            reveal_with_fuel(text::bytes, 3);
        } else {
            assert(s[0] == lines[from]);
            assert(span_size(lines, from, from) == 0);
        }
    } else {
        assert(s.len() == 0);
    }
}

proof fn lemma_join_front(x: Seq<char>, rest: Seq<Seq<char>>, sep: Seq<char>)
    requires
        rest.len() > 0,
    ensures
        text::joined(seq![x] + rest, sep) == x + sep + text::joined(rest, sep),
    decreases rest.len(),
{
    let all = seq![x] + rest;
    assert(all.drop_last() =~= seq![x] + rest.drop_last());
    reveal_with_fuel(text::joined, 2);
    if rest.len() == 1 {
        assert(all.drop_last() =~= seq![x]);
        assert(all.last() == rest[0]);
        assert(text::joined(all, sep) =~= x + sep + rest[0]);
    } else {
        lemma_join_front(x, rest.drop_last(), sep);
        assert(text::joined(all, sep) =~= x + sep + text::joined(rest, sep));
    }
}

proof fn lemma_wrapped_size(page: Seq<Seq<char>>, open: bool)
    ensures
        text::bytes(wrapped(page, open)) <= text::bytes(text::joined(page, "\n"@)) + 15,
{
    reveal_strlit("\n");
    reveal_strlit("```diff");
    reveal_strlit("```");
    reveal_strlit("\u{200B}");
    let none = Seq::<Seq<char>>::empty();
    let end = open_behind(page, open);
    let mid = page + (if end {
        seq!["```"@]
    } else {
        none
    });
    let all = (if open {
        seq!["```diff"@]
    } else {
        none
    }) + page + (if end {
        seq!["```"@]
    } else {
        none
    });
    let body = text::joined(page, "\n"@);
    let with_end = text::joined(mid, "\n"@);
    assert(text::bytes("\n"@) == 1 && text::bytes("```"@) == 3 && text::bytes("```diff"@) == 7
        && text::bytes(INDENT_GUARD@) == 3) by {
        reveal_with_fuel(text::bytes, 9);
    }
    if end {
        assert(mid.drop_last() =~= page);
        if page.len() == 0 {
            assert(with_end =~= "```"@);
        } else {
            text::lemma_bytes_add(body, "\n"@);
            text::lemma_bytes_add(body + "\n"@, "```"@);
        }
    } else {
        assert(mid =~= page);
    }
    assert(text::bytes(with_end) <= text::bytes(body) + 4);
    let joined_all = text::joined(all, "\n"@);
    if open {
        assert(all =~= seq!["```diff"@] + mid);
        if mid.len() == 0 {
            assert(joined_all =~= "```diff"@);
        } else {
            lemma_join_front("```diff"@, mid, "\n"@);
            text::lemma_bytes_add("```diff"@, "\n"@);
            text::lemma_bytes_add("```diff"@ + "\n"@, with_end);
        }
    } else {
        assert(all =~= mid);
    }
    text::lemma_bytes_add(INDENT_GUARD@, joined_all);
}

/// A page fits in a post: it takes at most the budget, and the few bytes that open, close and
/// guard it.
pub proof fn law_page_fits(lines: Seq<Seq<char>>, from: int, open: bool)
    requires
        0 <= from <= lines.len(),
    ensures
        text::bytes(page_of(lines, from, open).0) <= STICKY_BUDGET + 15,
{
    let budget = STICKY_BUDGET as nat;
    let cut = cut_from(lines, from, from, budget);
    lemma_cut_bounds(lines, from, from, budget);
    if cut == from + 1 && text::bytes(lines[from]) > STICKY_BUDGET {
        let head = clip_text(lines[from], budget);
        law_clip_fits(lines[from], budget);
        lemma_wrapped_size(seq![head], open);
    } else {
        lemma_span_joined(lines, from, cut);
        lemma_wrapped_size(lines.subrange(from, cut), open);
        if cut == from + 1 {
            assert(span_size(lines, from, from) == 0);
        }
    }
}

/// A clipped line fits in the room it was clipped to.
pub proof fn law_clip_fits(line: Seq<char>, room: nat)
    requires
        room >= 3,
    ensures
        text::bytes(clip_text(line, room)) <= room,
{
    reveal_strlit("…");
    text::lemma_fit(line, (room - 3) as nat);
    let n = text::fit(line, (room - 3) as nat);
    text::lemma_bytes_add(line.take(n), "…"@);
    reveal_with_fuel(text::bytes, 3);
}

} // verus!
