//! What Slack takes: how long a post may be, what an attachment is called, what an id looks like.
use crate::i18n::Lang;
use crate::text;
use vstd::prelude::*;

verus! {

/// The most bytes of one attachment.
pub const MAX_ATTACHMENT_BYTES: u64 = 52_428_800;

/// How long fetched attachments are kept.
pub const INBOX_TTL_MS: u64 = 604_800_000;

/// The most characters of one post.
pub const MAX_CHUNK_LIMIT: usize = 11_500;

/// Shown right after delivery.
pub const TYPING_STATUS: &'static str = "is typing…";

/// Shown when a turn has been silent for a while.
pub const THINKING_STATUS: &'static str = "is thinking…";

/// How long a turn is silent before it is shown as thinking.
pub const SILENCE_MS: u64 = 3_000;

// ── posts ───────────────────────────────────────────────────────────────────

/// The last place at or before `i` at which `p` stands in `s`.
pub open spec fn last_at(s: Seq<char>, p: Seq<char>, i: int) -> Option<int>
    decreases i + 1,
{
    if i < 0 {
        None
    } else if text::stands_at(s, p, i) {
        Some(i)
    } else {
        last_at(s, p, i - 1)
    }
}

/// How far behind `start` the last `p` begins that ends at or before `end`.
pub open spec fn last_break(s: Seq<char>, p: Seq<char>, start: int, end: int) -> Option<int> {
    match last_at(s, p, end - p.len()) {
        Some(i) => if i > start {
            Some(i - start)
        } else {
            None
        },
        None => None,
    }
}

/// How many characters the piece that begins at `start` takes: up to a paragraph's end, or else a
/// line's end, or else a space, in the second half of the limit; or else the limit.
pub open spec fn piece_len(s: Seq<char>, start: int, limit: int, newline_mode: bool) -> int {
    let end = start + limit;
    let para = last_break(s, seq!['\n', '\n'], start, end);
    let line = last_break(s, seq!['\n'], start, end);
    let space = last_break(s, seq![' '], start, end);
    if !newline_mode {
        limit
    } else if para is Some && para->0 > limit / 2 {
        para->0
    } else if line is Some && line->0 > limit / 2 {
        line->0
    } else if space is Some && space->0 > limit / 2 {
        space->0
    } else {
        limit
    }
}

/// The first place from `i` on that holds no line end.
pub open spec fn past_newlines(s: Seq<char>, i: int) -> int
    decreases s.len() - i,
{
    if 0 <= i < s.len() && s[i] == '\n' {
        past_newlines(s, i + 1)
    } else {
        i
    }
}

pub proof fn lemma_past_newlines(s: Seq<char>, i: int)
    requires
        0 <= i <= s.len(),
    ensures
        i <= past_newlines(s, i) <= s.len(),
        forall|j: int| i <= j < past_newlines(s, i) ==> #[trigger] s[j] == '\n',
    decreases s.len() - i,
{
    if i < s.len() && s[i] == '\n' {
        lemma_past_newlines(s, i + 1);
    }
}

pub proof fn lemma_last_at(s: Seq<char>, p: Seq<char>, i: int)
    ensures
        last_at(s, p, i) matches Some(k) ==> 0 <= k <= i && text::stands_at(s, p, k),
    decreases i + 1,
{
    if i >= 0 && !text::stands_at(s, p, i) {
        lemma_last_at(s, p, i - 1);
    }
}

pub proof fn lemma_piece_len(s: Seq<char>, start: int, limit: int, newline_mode: bool)
    requires
        0 <= start,
        1 <= limit < s.len() - start,
    ensures
        1 <= piece_len(s, start, limit, newline_mode) <= limit,
{
    let end = start + limit;
    lemma_last_at(s, seq!['\n', '\n'], end - 2);
    lemma_last_at(s, seq!['\n'], end - 1);
    lemma_last_at(s, seq![' '], end - 1);
}

/// The pieces of `s` from `start` on.
pub open spec fn pieces(s: Seq<char>, start: int, limit: int, newline_mode: bool) -> Seq<Seq<char>>
    decreases s.len() - start,
{
    if start < 0 || limit < 1 || start >= s.len() {
        Seq::empty()
    } else if s.len() - start <= limit {
        seq![s.skip(start)]
    } else {
        let end = start + piece_len(s, start, limit, newline_mode);
        proof {
            lemma_piece_len(s, start, limit, newline_mode);
            lemma_past_newlines(s, end);
        }
        seq![s.subrange(start, end)] + pieces(s, past_newlines(s, end), limit, newline_mode)
    }
}

/// A text in pieces of at most `limit` characters.
pub open spec fn chunks(s: Seq<char>, limit: int, newline_mode: bool) -> Seq<Seq<char>> {
    let n = if limit < 1 {
        1
    } else {
        limit
    };
    if s.len() <= n {
        seq![s]
    } else {
        pieces(s, 0, n, newline_mode)
    }
}

fn find_last(s: &Vec<char>, p: &Vec<char>, start: usize, end: usize) -> (r: Option<usize>)
    requires
        start < end <= s@.len(),
        1 <= p@.len(),
    ensures
        match r {
            Some(k) => last_break(s@, p@, start as int, end as int) == Some(k as int) && 1 <= k
                && start + k <= end,
            None => last_break(s@, p@, start as int, end as int) is None,
        },
{
    if p.len() > end {
        return None;
    }
    let mut i: usize = end - p.len();
    proof {
        lemma_last_at(s@, p@, i as int);
    }
    loop
        invariant
            last_at(s@, p@, end - p@.len()) == last_at(s@, p@, i as int),
            i + p@.len() <= end <= s@.len(),
            start < end,
            p@.len() >= 1,
        decreases i,
    {
        if text::is_at(s, p, i) {
            return if i > start {
                Some(i - start)
            } else {
                None
            };
        }
        if i == 0 {
            return None;
        }
        i = i - 1;
    }
}

fn cut_len(s: &Vec<char>, start: usize, limit: usize, newline_mode: bool) -> (r: usize)
    requires
        1 <= limit,
        start + limit < s@.len(),
    ensures
        r == piece_len(s@, start as int, limit as int, newline_mode),
        1 <= r <= limit,
{
    let n: usize = s.len();
    if !newline_mode {
        return limit;
    }
    let end: usize = start + limit;
    let two: Vec<char> = vec!['\n', '\n'];
    let one: Vec<char> = vec!['\n'];
    let gap: Vec<char> = vec![' '];
    proof {
        assert(two@ =~= seq!['\n', '\n']);
        assert(one@ =~= seq!['\n']);
        assert(gap@ =~= seq![' ']);
    }
    match find_last(s, &two, start, end) {
        Some(p) => if p > limit / 2 {
            return p;
        },
        None => {},
    }
    match find_last(s, &one, start, end) {
        Some(p) => if p > limit / 2 {
            return p;
        },
        None => {},
    }
    match find_last(s, &gap, start, end) {
        Some(p) => if p > limit / 2 {
            p
        } else {
            limit
        },
        None => limit,
    }
}

/// Splits a reply into posts of at most `limit` characters. With `newline_mode` it looks for a break
/// at a paragraph, a line or a word, but never in the first half of the limit: a hard cut at the
/// limit beats a break that comes too early.
pub fn chunk(body: &str, limit: usize, newline_mode: bool) -> (out: Vec<String>)
    ensures
        text::views(out@) == chunks(body@, limit as int, newline_mode),
{
    broadcast use text::lemma_views_push, text::lemma_views_empty;

    let limit: usize = if limit < 1 {
        1
    } else {
        limit
    };
    let chars: Vec<char> = text::chars_of(body);
    let n: usize = chars.len();
    let mut out: Vec<String> = Vec::new();
    if n <= limit {
        out.push(body.to_owned());
        proof {
            assert(text::views(out@) =~= seq![body@]);
        }
        return out;
    }
    let mut start: usize = 0;
    proof {
        assert(text::views(out@) + pieces(body@, 0, limit as int, newline_mode) =~= pieces(
            body@,
            0,
            limit as int,
            newline_mode,
        ));
    }
    while n - start > limit
        invariant
            n == chars@.len(),
            chars@ == body@,
            start <= n,
            1 <= limit,
            text::views(out@) + pieces(body@, start as int, limit as int, newline_mode) == pieces(
                body@,
                0,
                limit as int,
                newline_mode,
            ),
        decreases n - start,
    {
        let cut: usize = cut_len(&chars, start, limit, newline_mode);
        let piece: String = text::text_of(&chars, start, start + cut);
        let ghost before = text::views(out@);
        let ghost p = piece@;
        out.push(piece);
        let end: usize = start + cut;
        let mut next: usize = end;
        while next < n && chars[next] == '\n'
            invariant
                end <= next <= n == chars@.len(),
                chars@ == body@,
                past_newlines(body@, end as int) == past_newlines(body@, next as int),
            decreases n - next,
        {
            next = next + 1;
        }
        proof {
            assert(before.push(p) + pieces(body@, next as int, limit as int, newline_mode)
                =~= before + (seq![p] + pieces(body@, next as int, limit as int, newline_mode)));
        }
        start = next;
    }
    if start < n {
        let ghost before = text::views(out@);
        out.push(text::text_of(&chars, start, n));
        proof {
            assert(body@.skip(start as int) =~= body@.subrange(start as int, n as int));
            assert(text::views(out@) =~= before + seq![body@.skip(start as int)]);
        }
    } else {
        proof {
            assert(text::views(out@) =~= text::views(out@) + Seq::<Seq<char>>::empty());
        }
    }
    out
}

proof fn lemma_pieces_fit(s: Seq<char>, start: int, limit: int, newline_mode: bool)
    requires
        0 <= start,
        limit >= 1,
    ensures
        forall|i: int|
            0 <= i < pieces(s, start, limit, newline_mode).len() ==> 1 <= (#[trigger] pieces(
                s,
                start,
                limit,
                newline_mode,
            )[i]).len() <= limit,
    decreases s.len() - start,
{
    if start < s.len() && s.len() - start > limit {
        lemma_piece_len(s, start, limit, newline_mode);
        let end = start + piece_len(s, start, limit, newline_mode);
        lemma_past_newlines(s, end);
        let next = past_newlines(s, end);
        lemma_pieces_fit(s, next, limit, newline_mode);
        let rest = pieces(s, next, limit, newline_mode);
        let all = pieces(s, start, limit, newline_mode);
        assert forall|i: int| 0 <= i < all.len() implies 1 <= (#[trigger] all[i]).len()
            <= limit by {
            if i > 0 {
                assert(all[i] == rest[i - 1]);
            }
        }
    }
}

/// Every piece fits in a post, and none is empty (but the one piece of an empty text).
pub proof fn law_chunks_fit(s: Seq<char>, limit: int, newline_mode: bool)
    requires
        limit >= 1,
    ensures
        forall|i: int|
            0 <= i < chunks(s, limit, newline_mode).len() ==> (#[trigger] chunks(
                s,
                limit,
                newline_mode,
            )[i]).len() <= limit,
        s.len() > 0 ==> forall|i: int|
            0 <= i < chunks(s, limit, newline_mode).len() ==> (#[trigger] chunks(
                s,
                limit,
                newline_mode,
            )[i]).len() >= 1,
{
    lemma_pieces_fit(s, 0, limit, newline_mode);
}

proof fn lemma_without_add(a: Seq<char>, b: Seq<char>, c: char)
    ensures
        text::without(a + b, c) == text::without(a, c) + text::without(b, c),
    decreases b.len(),
{
    if b.len() == 0 {
        assert(a + b =~= a);
        assert(text::without(a, c) + text::without(b, c) =~= text::without(a, c));
    } else {
        lemma_without_add(a, b.drop_last(), c);
        assert((a + b).drop_last() =~= a + b.drop_last());
        assert(text::without(a + b, c) =~= text::without(a, c) + text::without(b, c));
    }
}

proof fn lemma_without_all(s: Seq<char>, c: char)
    requires
        forall|i: int| 0 <= i < s.len() ==> #[trigger] s[i] == c,
    ensures
        text::without(s, c) == Seq::<char>::empty(),
    decreases s.len(),
{
    if s.len() > 0 {
        lemma_without_all(s.drop_last(), c);
    }
}

/// The pieces one after another.
pub open spec fn glued(parts: Seq<Seq<char>>) -> Seq<char>
    decreases parts.len(),
{
    if parts.len() == 0 {
        Seq::empty()
    } else {
        parts[0] + glued(parts.skip(1))
    }
}

proof fn lemma_pieces_keep(s: Seq<char>, start: int, limit: int, newline_mode: bool)
    requires
        0 <= start <= s.len(),
        limit >= 1,
    ensures
        text::without(glued(pieces(s, start, limit, newline_mode)), '\n') == text::without(
            s.skip(start),
            '\n',
        ),
    decreases s.len() - start,
{
    let all = pieces(s, start, limit, newline_mode);
    if start >= s.len() {
        assert(s.skip(start) =~= Seq::empty());
    } else if s.len() - start <= limit {
        assert(all.skip(1) =~= Seq::empty());
        reveal_with_fuel(glued, 2);
        assert(glued(all) =~= s.skip(start));
    } else {
        lemma_piece_len(s, start, limit, newline_mode);
        let end = start + piece_len(s, start, limit, newline_mode);
        lemma_past_newlines(s, end);
        let next = past_newlines(s, end);
        lemma_pieces_keep(s, next, limit, newline_mode);
        let rest = pieces(s, next, limit, newline_mode);
        assert(all.skip(1) =~= rest);
        let head = s.subrange(start, end);
        let gap = s.subrange(end, next);
        assert(s.skip(start) =~= head + (gap + s.skip(next)));
        lemma_without_add(head, glued(rest), '\n');
        lemma_without_add(head, gap + s.skip(next), '\n');
        lemma_without_add(gap, s.skip(next), '\n');
        lemma_without_all(gap, '\n');
        assert(text::without(gap, '\n') + text::without(s.skip(next), '\n') =~= text::without(
            s.skip(next),
            '\n',
        ));
    }
}

/// Splitting loses nothing but line ends at the breaks.
pub proof fn law_chunks_keep_text(s: Seq<char>, limit: int, newline_mode: bool)
    requires
        limit >= 1,
    ensures
        text::without(glued(chunks(s, limit, newline_mode)), '\n') == text::without(s, '\n'),
{
    assert(s.skip(0) =~= s);
    if s.len() <= limit {
        reveal_with_fuel(glued, 2);
        assert(chunks(s, limit, newline_mode).skip(1) =~= Seq::empty());
        assert(glued(chunks(s, limit, newline_mode)) =~= s);
    } else {
        lemma_pieces_keep(s, 0, limit, newline_mode);
    }
}

// ── attachments ─────────────────────────────────────────────────────────────

/// The last of the first `n` parts that names something.
pub open spec fn last_named(parts: Seq<Seq<char>>, n: nat) -> Option<Seq<char>>
    decreases n,
{
    if n == 0 {
        None
    } else if parts[n - 1].len() > 0 && parts[n - 1] != "."@ {
        Some(parts[n - 1])
    } else {
        last_named(parts, (n - 1) as nat)
    }
}

/// A path's file name, as `Path::file_name` has it: the last part of the path, where repeated
/// slashes, a trailing one and `.` do not count; none where that part is `..` or missing.
pub open spec fn file_name(path: Seq<char>) -> Option<Seq<char>> {
    let parts = text::split_on(path, '/');
    match last_named(parts, parts.len()) {
        Some(p) => if p == ".."@ {
            None
        } else {
            Some(p)
        },
        None => None,
    }
}

/// One safe component of a path made of what came from outside; empty where nothing is left.
pub open spec fn component(s: Seq<char>) -> Seq<char> {
    let base = match file_name(text::trimmed(s)) {
        Some(b) => b,
        None => Seq::empty(),
    };
    let bare = text::trimmed(
        text::without(
            text::without(text::without(text::without(base, '/'), '\\'), '"'),
            '\u{0}',
        ),
    );
    if bare == "."@ || bare == ".."@ {
        Seq::empty()
    } else {
        bare
    }
}

/// The name an attachment is stored under: its id, and its name where one is left.
pub open spec fn stored_name(file_id: Seq<char>, name: Seq<char>) -> Seq<char> {
    let id = if component(file_id).len() == 0 {
        "attachment"@
    } else {
        component(file_id)
    };
    if component(name).len() == 0 {
        id
    } else {
        id + "-"@ + component(name)
    }
}

fn path_file_name(path: &str) -> (r: Option<String>)
    ensures
        text::opt_view(r) == file_name(path@),
{
    let parts: Vec<String> = text::split(path, '/');
    let ghost v = text::views(parts@);
    let mut n: usize = parts.len();
    while n > 0
        invariant
            n <= parts@.len(),
            v == text::views(parts@),
            last_named(v, v.len()) == last_named(v, n as nat),
            v == text::split_on(path@, '/'),
        decreases n,
    {
        proof {
            assert(v[n - 1] == parts@[n - 1]@);
        }
        let p: &str = parts[n - 1].as_str();
        if !p.is_empty() && !text::same(p, ".") {
            return if text::same(p, "..") {
                None
            } else {
                Some(p.to_owned())
            };
        }
        n = n - 1;
    }
    None
}

fn one_component(s: &str) -> (out: String)
    ensures
        out@ == component(s@),
{
    let cut: String = text::trim(s);
    let base: String = match path_file_name(cut.as_str()) {
        Some(b) => b,
        None => String::new(),
    };
    let a: String = text::drop_char(base.as_str(), '/');
    let b: String = text::drop_char(a.as_str(), '\\');
    let c: String = text::drop_char(b.as_str(), '"');
    let d: String = text::drop_char(c.as_str(), '\u{0}');
    let bare: String = text::trim(d.as_str());
    if text::same(bare.as_str(), ".") || text::same(bare.as_str(), "..") {
        String::new()
    } else {
        bare
    }
}

/// The file name used in the inbox. What it is made of comes from outside, so it is always one
/// component, without separators.
pub fn attachment_file_name(file_id: &str, name: &str) -> (out: String)
    ensures
        out@ == stored_name(file_id@, name@),
{
    let own: String = one_component(file_id);
    let id: String = if own.as_str().is_empty() {
        "attachment".to_owned()
    } else {
        own
    };
    let n: String = one_component(name);
    if n.as_str().is_empty() {
        id
    } else {
        let mut out: String = id;
        out.append("-");
        out.append(n.as_str());
        out
    }
}

proof fn lemma_without(s: Seq<char>, c: char, d: char)
    ensures
        !text::without(s, c).contains(c),
        !s.contains(d) ==> !text::without(s, c).contains(d),
    decreases s.len(),
{
    if s.len() > 0 {
        lemma_without(s.drop_last(), c, d);
        let t = text::without(s.drop_last(), c);
        if !s.contains(d) {
            assert forall|i: int| 0 <= i < s.len() - 1 implies s.drop_last()[i] != d by {
                assert(s.contains(s[i]));
            }
            assert(s.contains(s.last()));
        }
        if s.last() != c {
            assert forall|i: int| 0 <= i < t.push(s.last()).len() implies t.push(s.last())[i] != c
                && (!s.contains(d) ==> t.push(s.last())[i] != d) by {
                if i < t.len() {
                    assert(t.contains(t[i]));
                }
            }
        }
    }
}

proof fn lemma_trimmed_keeps(s: Seq<char>, d: char)
    requires
        !s.contains(d),
    ensures
        !text::trimmed(s).contains(d),
{
    lemma_trimmed_start_keeps(s, d);
    lemma_trimmed_end_keeps(text::trimmed_start(s), d);
}

proof fn lemma_trimmed_start_keeps(s: Seq<char>, d: char)
    requires
        !s.contains(d),
    ensures
        !text::trimmed_start(s).contains(d),
    decreases s.len(),
{
    if s.len() > 0 && text::is_space(s[0]) {
        assert forall|i: int| 0 <= i < s.len() - 1 implies s.skip(1)[i] != d by {
            assert(s.contains(s[i + 1]));
        }
        lemma_trimmed_start_keeps(s.skip(1), d);
    }
}

proof fn lemma_trimmed_end_keeps(s: Seq<char>, d: char)
    requires
        !s.contains(d),
    ensures
        !text::trimmed_end(s).contains(d),
    decreases s.len(),
{
    if s.len() > 0 && text::is_space(s.last()) {
        assert forall|i: int| 0 <= i < s.len() - 1 implies s.drop_last()[i] != d by {
            assert(s.contains(s[i]));
        }
        lemma_trimmed_end_keeps(s.drop_last(), d);
    }
}

proof fn lemma_component_safe(s: Seq<char>, d: char)
    requires
        d == '/' || d == '\\' || d == '"' || d == '\u{0}',
    ensures
        !component(s).contains(d),
{
    let base = match file_name(text::trimmed(s)) {
        Some(b) => b,
        None => Seq::empty(),
    };
    let a = text::without(base, '/');
    let b = text::without(a, '\\');
    let c = text::without(b, '"');
    let e = text::without(c, '\u{0}');
    lemma_without(base, '/', d);
    lemma_without(a, '\\', d);
    lemma_without(b, '"', d);
    lemma_without(c, '\u{0}', d);
    lemma_trimmed_keeps(e, d);
}

/// A stored name never leaves the inbox: it is not empty, holds no separator, quote or zero
/// character, and is neither `.` nor `..`.
pub proof fn law_stored_name_is_safe(file_id: Seq<char>, name: Seq<char>)
    ensures
        stored_name(file_id, name).len() > 0,
        stored_name(file_id, name) != "."@,
        stored_name(file_id, name) != ".."@,
        !stored_name(file_id, name).contains('/'),
        !stored_name(file_id, name).contains('\\'),
        !stored_name(file_id, name).contains('"'),
        !stored_name(file_id, name).contains('\u{0}'),
{
    reveal_strlit("attachment");
    reveal_strlit("-");
    reveal_strlit(".");
    reveal_strlit("..");
    let r = stored_name(file_id, name);
    let id = if component(file_id).len() == 0 {
        "attachment"@
    } else {
        component(file_id)
    };
    assert forall|d: char| d == '/' || d == '\\' || d == '"' || d == '\u{0}' implies !(
    #[trigger] r.contains(d)) by {
        lemma_component_safe(file_id, d);
        lemma_component_safe(name, d);
        if r.contains(d) {
            let i = choose|i: int| 0 <= i < r.len() && r[i] == d;
            if i < id.len() {
                assert(id[i] == d);
                if component(file_id).len() > 0 {
                    assert(component(file_id).contains(d));
                }
            } else if i > id.len() {
                assert(component(name)[i - id.len() - 1] == d);
                assert(component(name).contains(d));
            }
        }
    }
    assert(r.contains('/') || !r.contains('/'));
    if component(name).len() > 0 {
        assert(r[id.len() as int] == '-');
        assert("."@[0] == '.');
        assert(".."@[0] == '.' && ".."@[1] == '.');
    } else if component(file_id).len() == 0 {
        assert(r.len() == 10);
    }
}

/// Whether an attachment is too large to fetch.
pub fn attachment_too_large(size: u64) -> (r: bool)
    ensures
        r == (size > MAX_ATTACHMENT_BYTES),
{
    size > MAX_ATTACHMENT_BYTES
}

/// Why a file of so many bytes is not sent, where it is too large.
pub fn upload_refused(path: &str, bytes: u64) -> (r: Option<String>)
    ensures
        match r {
            Some(why) => bytes > MAX_ATTACHMENT_BYTES && why@ == path@ + " is "@ + text::decimal(
                bytes as int,
            ) + " bytes (max "@ + text::decimal(MAX_ATTACHMENT_BYTES as int) + ")"@,
            None => bytes <= MAX_ATTACHMENT_BYTES,
        },
{
    if !attachment_too_large(bytes) {
        return None;
    }
    let n: String = text::number(bytes);
    let max: String = text::number(MAX_ATTACHMENT_BYTES);
    let mut why: String = text::cat4(path, " is ", n.as_str(), " bytes (max ");
    why.append(max.as_str());
    why.append(")");
    Some(why)
}

/// Whether a file in the inbox is past its time, strictly.
pub fn inbox_file_is_stale(modified_ms: u64, now_ms: u64) -> (r: bool)
    ensures
        r == (now_ms - modified_ms > INBOX_TTL_MS),
{
    now_ms > modified_ms && now_ms - modified_ms > INBOX_TTL_MS
}

// ── connections ─────────────────────────────────────────────────────────────

/// How many connections one process opens itself.
pub const OWN_CONNECTIONS: u32 = 2;

/// What is said when the app has more connections than this process opens.
pub open spec fn connection_note(n: u32) -> Option<Seq<char>> {
    if n > OWN_CONNECTIONS {
        Some(
            "socket mode: this Slack app has "@ + text::decimal(n as int)
                + " live connections but this Bridge opens "@ + text::decimal(
                OWN_CONNECTIONS as int,
            )
                + " — someone else is consuming events. Slack SPLITS them at random between consumers (it does not copy), so half of them land nowhere. Another Bridge, or a dev/production token mix-up."@,
        )
    } else {
        None
    }
}

/// What to say of the number of connections the app holds, where it is more than this process's
/// own.
pub fn connection_warning(num_connections: u32) -> (r: Option<String>)
    ensures
        text::opt_view(r) == connection_note(num_connections),
{
    if num_connections > OWN_CONNECTIONS {
        let mut out: String = "socket mode: this Slack app has ".to_owned();
        let n: String = text::number(num_connections as u64);
        out.append(n.as_str());
        out.append(" live connections but this Bridge opens ");
        let own: String = text::number(OWN_CONNECTIONS as u64);
        out.append(own.as_str());
        out.append(
            " — someone else is consuming events. Slack SPLITS them at random between consumers (it does not copy), so half of them land nowhere. Another Bridge, or a dev/production token mix-up.",
        );
        Some(out)
    } else {
        None
    }
}

// ── status lines ────────────────────────────────────────────────────────────

/// What a command shows while it works.
#[derive(Clone, Copy, Debug, PartialEq, Eq, Structural)]
pub enum Status {
    Gathering,
    Context,
    Usage,
    Model,
    Effort,
    Mode,
    Login,
    Logout,
    Resume,
    Restart,
}

impl Status {
    /// The wording of a status.
    pub open spec fn words(self, lang: Lang) -> Seq<char> {
        match self {
            Status::Gathering => lang.of("Gathering…"@, "集計中…"@),
            Status::Context => lang.of("Checking the context…"@, "コンテキストを確認中…"@),
            Status::Usage => lang.of("Checking usage…"@, "使用状況を確認中…"@),
            Status::Model => lang.of("Switching the model…"@, "モデルを切り替え中…"@),
            Status::Effort => lang.of("Setting the effort level…"@, "effort を設定中…"@),
            Status::Mode => lang.of("Switching the permission mode…"@, "権限モードを切り替え中…"@),
            Status::Login => lang.of("Signing in…"@, "サインイン中…"@),
            Status::Logout => lang.of("Signing out…"@, "サインアウト中…"@),
            Status::Resume => lang.of("Resuming the thread…"@, "スレッドを再開中…"@),
            Status::Restart => lang.of("Restarting…"@, "再起動中…"@),
        }
    }

    /// The wording of a status.
    pub fn text(self, lang: Lang) -> (out: String)
        ensures
            out@ == self.words(lang),
    {
        (match self {
            Status::Gathering => lang.pick("Gathering…", "集計中…"),
            Status::Context => lang.pick("Checking the context…", "コンテキストを確認中…"),
            Status::Usage => lang.pick("Checking usage…", "使用状況を確認中…"),
            Status::Model => lang.pick("Switching the model…", "モデルを切り替え中…"),
            Status::Effort => lang.pick("Setting the effort level…", "effort を設定中…"),
            Status::Mode => lang.pick("Switching the permission mode…", "権限モードを切り替え中…"),
            Status::Login => lang.pick("Signing in…", "サインイン中…"),
            Status::Logout => lang.pick("Signing out…", "サインアウト中…"),
            Status::Resume => lang.pick("Resuming the thread…", "スレッドを再開中…"),
            Status::Restart => lang.pick("Restarting…", "再起動中…"),
        }).to_owned()
    }
}

// ── ids ─────────────────────────────────────────────────────────────────────

/// What an id stands for, which its shape alone tells.
pub struct SlackId;

/// An id of a shape: one of the given first letters, then capitals and digits, at least one.
pub open spec fn is_shaped(id: Seq<char>, first: Seq<char>) -> bool {
    id.len() > 1 && first.contains(id[0]) && forall|i: int|
        1 <= i < id.len() ==> text::is_ascii_upper(#[trigger] id[i]) || text::is_ascii_digit(id[i])
}

/// What a mention names: `<@U…>` or `<@U…|label>`, or a bare id; the token itself where it is no
/// such thing.
pub open spec fn mentioned(token: Seq<char>, sigil: char) -> Seq<char> {
    let t = text::trimmed(token);
    if t.len() >= 3 && t[0] == '<' && t[1] == sigil && t.last() == '>' {
        let inner = t.subrange(2, t.len() - 1);
        match text::split_first(inner, '|') {
            Some((id, label)) => if label.contains('>') {
                t
            } else {
                id
            },
            None => inner,
        }
    } else {
        t
    }
}

impl SlackId {
    fn shaped(id: &str, first: &Vec<char>) -> (r: bool)
        ensures
            r == is_shaped(id@, first@),
    {
        let cs: Vec<char> = text::chars_of(id);
        if cs.len() <= 1 {
            return false;
        }
        if text::find_char(first, cs[0]) >= first.len() {
            proof {
                text::lemma_index_of(first@, cs@[0]);
            }
            return false;
        }
        proof {
            text::lemma_index_of(first@, cs@[0]);
        }
        let mut i: usize = 1;
        while i < cs.len()
            invariant
                1 <= i <= cs@.len(),
                cs@ == id@,
                forall|j: int|
                    1 <= j < i ==> text::is_ascii_upper(#[trigger] cs@[j]) || text::is_ascii_digit(
                        cs@[j],
                    ),
            decreases cs@.len() - i,
        {
            let c: char = cs[i];
            if !(('A' <= c && c <= 'Z') || ('0' <= c && c <= '9')) {
                return false;
            }
            i = i + 1;
        }
        true
    }

    /// A person (`U…`).
    pub fn is_user(id: &str) -> (r: bool)
        ensures
            r == is_shaped(id@, seq!['U']),
    {
        let first: Vec<char> = vec!['U'];
        proof {
            assert(first@ =~= seq!['U']);
        }
        Self::shaped(id, &first)
    }

    /// A bot (`B…`).
    pub fn is_bot(id: &str) -> (r: bool)
        ensures
            r == is_shaped(id@, seq!['B']),
    {
        let first: Vec<char> = vec!['B'];
        proof {
            assert(first@ =~= seq!['B']);
        }
        Self::shaped(id, &first)
    }

    /// A channel (`C…` or `G…`).
    pub fn is_channel(id: &str) -> (r: bool)
        ensures
            r == is_shaped(id@, seq!['C', 'G']),
    {
        let first: Vec<char> = vec!['C', 'G'];
        proof {
            assert(first@ =~= seq!['C', 'G']);
        }
        Self::shaped(id, &first)
    }

    /// A direct message's channel (`D…`).
    pub fn is_dm(id: &str) -> (r: bool)
        ensures
            r == is_shaped(id@, seq!['D']),
    {
        let first: Vec<char> = vec!['D'];
        proof {
            assert(first@ =~= seq!['D']);
        }
        Self::shaped(id, &first)
    }

    fn mention_id(token: &str, sigil: char) -> (out: String)
        ensures
            out@ == mentioned(token@, sigil),
    {
        let t: String = text::trim(token);
        let cs: Vec<char> = text::chars_of(t.as_str());
        let n: usize = cs.len();
        if n >= 3 && cs[0] == '<' && cs[1] == sigil && cs[n - 1] == '>' {
            let inner: String = text::text_of(&cs, 2, n - 1);
            match text::cut_first(inner.as_str(), '|') {
                Some((id, label)) => {
                    let l: Vec<char> = text::chars_of(label.as_str());
                    let at: usize = text::find_char(&l, '>');
                    proof {
                        text::lemma_index_of(label@, '>');
                        if at < label@.len() {
                            assert(label@[at as int] == '>');
                        }
                    }
                    if at < l.len() {
                        t
                    } else {
                        id
                    }
                },
                None => inner,
            }
        } else {
            t
        }
    }

    /// The person that a token mentions.
    pub fn from_user_mention(token: &str) -> (r: Option<String>)
        ensures
            text::opt_view(r) == if is_shaped(mentioned(token@, '@'), seq!['U']) {
                Some(mentioned(token@, '@'))
            } else {
                None
            },
    {
        let id: String = Self::mention_id(token, '@');
        if Self::is_user(id.as_str()) {
            Some(id)
        } else {
            None
        }
    }

    /// The channel that a token mentions.
    pub fn from_channel_mention(token: &str) -> (r: Option<String>)
        ensures
            text::opt_view(r) == if is_shaped(mentioned(token@, '#'), seq!['C', 'G']) {
                Some(mentioned(token@, '#'))
            } else {
                None
            },
    {
        let id: String = Self::mention_id(token, '#');
        if Self::is_channel(id.as_str()) {
            Some(id)
        } else {
            None
        }
    }
}

/// A line end begins `p` characters behind `start`.
pub open spec fn line_ends(s: Seq<char>, start: int, p: int) -> bool {
    0 <= start + p < s.len() && s[start + p] == '\n'
}

/// A paragraph's end begins `p` characters behind `start`.
pub open spec fn paragraph_ends(s: Seq<char>, start: int, p: int) -> bool {
    line_ends(s, start, p) && line_ends(s, start, p + 1)
}

/// A space stands `p` characters behind `start`.
pub open spec fn space_stands(s: Seq<char>, start: int, p: int) -> bool {
    0 <= start + p < s.len() && s[start + p] == ' '
}

proof fn lemma_last_is_last(s: Seq<char>, p: Seq<char>, i: int)
    ensures
        match last_at(s, p, i) {
            Some(k) => 0 <= k <= i && text::stands_at(s, p, k) && forall|j: int|
                k < j <= i ==> !#[trigger] text::stands_at(s, p, j),
            None => forall|j: int| 0 <= j <= i ==> !#[trigger] text::stands_at(s, p, j),
        },
    decreases i + 1,
{
    if i >= 0 && !text::stands_at(s, p, i) {
        lemma_last_is_last(s, p, i - 1);
    }
}

proof fn lemma_one_stands(s: Seq<char>, c: char, i: int)
    ensures
        text::stands_at(s, seq![c], i) <==> 0 <= i < s.len() && s[i] == c,
{
    if 0 <= i < s.len() {
        assert(s.subrange(i, i + 1) =~= seq![s[i]]);
        if s[i] == c {
            assert(s.subrange(i, i + 1) =~= seq![c]);
        } else {
            assert(seq![s[i]][0] != seq![c][0]);
        }
    }
}

proof fn lemma_two_stand(s: Seq<char>, c: char, i: int)
    ensures
        text::stands_at(s, seq![c, c], i) <==> 0 <= i && i + 1 < s.len() && s[i] == c && s[i + 1] == c,
{
    if 0 <= i && i + 1 < s.len() {
        let t = s.subrange(i, i + 2);
        assert(t =~= seq![s[i], s[i + 1]]);
        assert(t[0] == s[i] && t[1] == s[i + 1]);
        if s[i] == c && s[i + 1] == c {
            assert(t =~= seq![c, c]);
        } else {
            let u = seq![c, c];
            assert(u[0] == c && u[1] == c);
        }
    }
}

/// Without breaks a piece is as long as the limit. With them it ends at the last paragraph's end in the
/// second half of the limit; where there is none, at the last line's end there; where there is none,
/// at the last space there; and only where there is none of these, at the limit.
pub proof fn law_pieces_end_at_breaks(s: Seq<char>, start: int, limit: int)
    requires
        0 <= start,
        1 <= limit < s.len() - start,
    ensures
        piece_len(s, start, limit, false) == limit,
        ({
            let n = piece_len(s, start, limit, true);
            let half = limit / 2;
            let in_paragraph = exists|p: int|
                half < p < limit - 1 && #[trigger] paragraph_ends(s, start, p);
            let in_line = exists|p: int| half < p < limit && #[trigger] line_ends(s, start, p);
            let in_word = exists|p: int| half < p < limit && #[trigger] space_stands(s, start, p);
            &&& half < n <= limit
            &&& in_paragraph ==> n < limit - 1 && paragraph_ends(s, start, n) && forall|p: int|
                n < p < limit - 1 ==> !#[trigger] paragraph_ends(s, start, p)
            &&& !in_paragraph && in_line ==> n < limit && line_ends(s, start, n) && forall|p: int|
                n < p < limit ==> !#[trigger] line_ends(s, start, p)
            &&& !in_paragraph && !in_line && in_word ==> n < limit && space_stands(s, start, n)
                && forall|p: int| n < p < limit ==> !#[trigger] space_stands(s, start, p)
            &&& !in_paragraph && !in_line && !in_word ==> n == limit
        }),
{
    let n = piece_len(s, start, limit, true);
    let half = limit / 2;
    let end = start + limit;
    let two = seq!['\n', '\n'];
    let one = seq!['\n'];
    let gap = seq![' '];
    lemma_last_is_last(s, two, end - 2);
    lemma_last_is_last(s, one, end - 1);
    lemma_last_is_last(s, gap, end - 1);
    assert forall|p: int| #[trigger] paragraph_ends(s, start, p) && start + p >= 0 implies text::stands_at(
        s,
        two,
        start + p,
    ) by {
        lemma_two_stand(s, '\n', start + p);
    }
    assert forall|p: int| #[trigger] line_ends(s, start, p) implies text::stands_at(
        s,
        one,
        start + p,
    ) by {
        lemma_one_stands(s, '\n', start + p);
    }
    assert forall|p: int| #[trigger] space_stands(s, start, p) implies text::stands_at(
        s,
        gap,
        start + p,
    ) by {
        lemma_one_stands(s, ' ', start + p);
    }
    match last_at(s, two, end - 2) {
        Some(k) => {
            lemma_two_stand(s, '\n', k);
            assert(paragraph_ends(s, start, k - start));
        },
        None => {},
    }
    match last_at(s, one, end - 1) {
        Some(k) => {
            lemma_one_stands(s, '\n', k);
            assert(line_ends(s, start, k - start));
        },
        None => {},
    }
    match last_at(s, gap, end - 1) {
        Some(k) => {
            lemma_one_stands(s, ' ', k);
            assert(space_stands(s, start, k - start));
        },
        None => {},
    }
}

/// The pieces stand one behind another: each ends where its break is, and the next begins at the first
/// character behind it that is no line end.
pub proof fn law_pieces_follow(s: Seq<char>, start: int, limit: int, newline_mode: bool)
    requires
        0 <= start < s.len(),
        limit >= 1,
    ensures
        s.len() - start <= limit ==> pieces(s, start, limit, newline_mode) == seq![s.skip(start)],
        s.len() - start > limit ==> ({
            let end = start + piece_len(s, start, limit, newline_mode);
            exists|next: int|
                #![trigger pieces(s, next, limit, newline_mode)]
                end <= next <= s.len() && (next < s.len() ==> s[next] != '\n') && (forall|i: int|
                    end <= i < next ==> s[i] == '\n') && pieces(s, start, limit, newline_mode)
                    == seq![s.subrange(start, end)] + pieces(s, next, limit, newline_mode)
        }),
{
    if s.len() - start > limit {
        lemma_piece_len(s, start, limit, newline_mode);
        let end = start + piece_len(s, start, limit, newline_mode);
        lemma_past_newlines(s, end);
        lemma_past_stops(s, end);
        let next = past_newlines(s, end);
        assert(pieces(s, start, limit, newline_mode) == seq![s.subrange(start, end)] + pieces(
            s,
            next,
            limit,
            newline_mode,
        ));
    }
}

proof fn lemma_past_stops(s: Seq<char>, i: int)
    requires
        0 <= i <= s.len(),
    ensures
        past_newlines(s, i) < s.len() ==> s[past_newlines(s, i)] != '\n',
    decreases s.len() - i,
{
    if i < s.len() && s[i] == '\n' {
        lemma_past_stops(s, i + 1);
    }
}

/// A text that fits is one post, as it is; a longer one begins with its first piece. A limit below one
/// counts as one.
pub proof fn law_chunks_begin(s: Seq<char>, limit: int, newline_mode: bool)
    ensures
        s.len() <= 1 || s.len() <= limit ==> chunks(s, limit, newline_mode) == seq![s],
        1 <= limit < s.len() ==> chunks(s, limit, newline_mode) == pieces(
            s,
            0,
            limit,
            newline_mode,
        ),
        limit < 1 < s.len() ==> chunks(s, limit, newline_mode) == chunks(s, 1, newline_mode),
{
}

} // verus!
