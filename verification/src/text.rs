//! Text as sequences of characters.
//!
//! A `String` or `&str` is modelled by its characters, a `Seq<char>`. The functions here are the
//! vocabulary in which the rest of the library states what it writes and how it reads.
use vstd::prelude::*;

verus! {

/// `String::push` puts one character at the end.
pub assume_specification[ String::push ](s: &mut String, c: char)
    ensures
        final(s)@ == old(s)@.push(c),
;

/// `str`'s `==` holds exactly when both hold the same characters.
pub assume_specification[ <str as PartialEq>::eq ](a: &str, b: &str) -> (r: bool)
    ensures
        r == (a@ == b@),
;

/// Whether two texts hold the same characters.
pub fn same(a: &str, b: &str) -> (r: bool)
    ensures
        r == (a@ == b@),
{
    *a == *b
}

/// What an optional text holds.
pub open spec fn opt_view(s: Option<String>) -> Option<Seq<char>> {
    match s {
        Some(x) => Some(x@),
        None => None,
    }
}

/// What each text of a list holds.
pub open spec fn views(parts: Seq<String>) -> Seq<Seq<char>> {
    parts.map_values(|p: String| p@)
}

pub broadcast proof fn lemma_views_push(parts: Seq<String>, p: String)
    ensures
        #[trigger] views(parts.push(p)) == views(parts).push(p@),
{
    assert(views(parts.push(p)) =~= views(parts).push(p@));
}

pub broadcast proof fn lemma_views_empty()
    ensures
        #[trigger] views(Seq::<String>::empty()) == Seq::<Seq<char>>::empty(),
{
    assert(views(Seq::<String>::empty()) =~= Seq::<Seq<char>>::empty());
}

/// Pairs of texts, as values.
pub open spec fn pair_views(pairs: Seq<(String, String)>) -> Seq<(Seq<char>, Seq<char>)> {
    pairs.map_values(|p: (String, String)| (p.0@, p.1@))
}

/// Whether `s` is among the texts of a list.
pub fn among(list: &[String], s: &str) -> (r: bool)
    ensures
        r == views(list@).contains(s@),
{
    let ghost v = views(list@);
    let mut i: usize = 0;
    while i < list.len()
        invariant
            i <= list@.len(),
            v == views(list@),
            forall|k: int| 0 <= k < i ==> #[trigger] v[k] != s@,
        decreases list@.len() - i,
    {
        proof {
            assert(v[i as int] == list@[i as int]@);
        }
        if same(list[i].as_str(), s) {
            return true;
        }
        i = i + 1;
    }
    false
}

/// A copy of a list of texts.
pub fn copy_list(list: &Vec<String>) -> (out: Vec<String>)
    ensures
        out@ == list@,
{
    let mut out: Vec<String> = Vec::new();
    let mut i: usize = 0;
    while i < list.len()
        invariant
            i <= list@.len(),
            out@ =~= list@.take(i as int),
        decreases list@.len() - i,
    {
        out.push(list[i].clone());
        i = i + 1;
    }
    out
}

/// The characters of `s`, one by one.
pub fn chars_of(s: &str) -> (out: Vec<char>)
    ensures
        out@ == s@,
{
    let mut out: Vec<char> = Vec::new();
    for c in it: s.chars()
        invariant
            out@ == it.seq().take(it.index()),
            it.seq() == s@,
    {
        out.push(c);
    }
    proof {
        assert(s@.take(s@.len() as int) =~= s@);
    }
    out
}

/// The text made of `chars[from..to]`.
pub fn text_of(chars: &Vec<char>, from: usize, to: usize) -> (out: String)
    requires
        from <= to <= chars@.len(),
    ensures
        out@ == chars@.subrange(from as int, to as int),
{
    let mut out: String = String::new();
    let mut i: usize = from;
    while i < to
        invariant
            from <= i <= to <= chars@.len(),
            out@ == chars@.subrange(from as int, i as int),
        decreases to - i,
    {
        out.push(chars[i]);
        i = i + 1;
        proof {
            assert(chars@.subrange(from as int, i as int) =~= chars@.subrange(
                from as int,
                i - 1,
            ).push(chars@[i - 1]));
        }
    }
    out
}

/// `a` followed by `b`.
pub fn cat(a: &str, b: &str) -> (out: String)
    ensures
        out@ == a@ + b@,
{
    let mut out: String = a.to_owned();
    out.append(b);
    out
}

/// Three texts, one behind the other.
pub fn cat3(a: &str, b: &str, c: &str) -> (out: String)
    ensures
        out@ == a@ + b@ + c@,
{
    let mut out: String = cat(a, b);
    out.append(c);
    out
}

/// Four texts, one behind the other.
pub fn cat4(a: &str, b: &str, c: &str, d: &str) -> (out: String)
    ensures
        out@ == a@ + b@ + c@ + d@,
{
    let mut out: String = cat3(a, b, c);
    out.append(d);
    out
}

/// Five texts, one behind the other.
pub fn cat5(a: &str, b: &str, c: &str, d: &str, e: &str) -> (out: String)
    ensures
        out@ == a@ + b@ + c@ + d@ + e@,
{
    let mut out: String = cat4(a, b, c, d);
    out.append(e);
    out
}

// ── numbers ─────────────────────────────────────────────────────────────────

/// The digit for `d`: `0`–`9`, then `a`–`z`.
pub open spec fn digit(d: nat) -> char {
    if d < 10 {
        (48 + d) as char
    } else {
        (87 + d) as char
    }
}

/// `n` written in `base`, most significant digit first, without leading zeros.
pub open spec fn digits_in(n: nat, base: nat) -> Seq<char>
    decreases n,
{
    if base < 2 || n < base {
        seq![digit(n)]
    } else {
        proof {
            assert(n / base < n) by (nonlinear_arith)
                requires
                    n >= base,
                    base >= 2,
            ;
        }
        digits_in(n / base, base).push(digit(n % base))
    }
}

/// `n` in decimal.
pub open spec fn decimal(n: int) -> Seq<char> {
    digits_in(n as nat, 10)
}

/// Writes `n` in `base` behind `out`.
pub fn push_digits(out: &mut String, n: u64, base: u64)
    requires
        2 <= base <= 36,
    ensures
        final(out)@ == old(out)@ + digits_in(n as nat, base as nat),
    decreases n,
{
    let d: u64 = n % base;
    if n >= base {
        proof {
            assert(n / base < n) by (nonlinear_arith)
                requires
                    n >= base,
                    base >= 2,
            ;
        }
        push_digits(out, n / base, base);
    }
    let ghost before = out@;
    let b: u8 = if d < 10 { 48 + d as u8 } else { 87 + d as u8 };
    out.push(b as char);
    proof {
        assert(out@.last() == digit(d as nat));
        if n >= base {
            assert(old(out)@ + digits_in(n as nat, base as nat) =~= (old(out)@ + digits_in(
            (n / base) as nat,
            base as nat,
        )).push(digit(d as nat)));
        } else {
            assert(n % base == n) by (nonlinear_arith)
                requires
                    0 <= n < base,
            ;
            assert(old(out)@ + seq![digit(n as nat)] =~= old(out)@.push(digit(n as nat)));
        }
    }
}

/// `n` in decimal.
pub fn number(n: u64) -> (out: String)
    ensures
        out@ == decimal(n as int),
{
    let mut out: String = String::new();
    push_digits(&mut out, n, 10);
    proof {
        assert(Seq::<char>::empty() + decimal(n as int) =~= decimal(n as int));
    }
    out
}

// ── joining and splitting ───────────────────────────────────────────────────

/// The parts one after another with `sep` between neighbours.
pub open spec fn joined(parts: Seq<Seq<char>>, sep: Seq<char>) -> Seq<char>
    decreases parts.len(),
{
    if parts.len() == 0 {
        Seq::empty()
    } else if parts.len() == 1 {
        parts[0]
    } else {
        joined(parts.drop_last(), sep) + sep + parts.last()
    }
}

/// Joins `parts` with `sep` between neighbours.
pub fn join(parts: &[String], sep: &str) -> (out: String)
    ensures
        out@ == joined(views(parts@), sep@),
{
    let mut out: String = String::new();
    let mut i: usize = 0;
    while i < parts.len()
        invariant
            i <= parts@.len(),
            out@ == joined(views(parts@).take(i as int), sep@),
        decreases parts@.len() - i,
    {
        let ghost all = views(parts@);
        if i > 0 {
            out.append(sep);
        }
        out.append(parts[i].as_str());
        i = i + 1;
        proof {
            assert(all.take(i as int).drop_last() =~= all.take(i - 1));
            assert(all.take(i as int).last() == parts@[i - 1]@);
            if i == 1 {
                assert(out@ =~= parts@[0]@);
            }
        }
    }
    proof {
        assert(views(parts@).take(parts@.len() as int) =~= views(parts@));
    }
    out
}

/// The pieces of `s` between occurrences of `c`: every `c` ends a piece and begins the next.
pub open spec fn split_on(s: Seq<char>, c: char) -> Seq<Seq<char>>
    decreases s.len(),
{
    if s.len() == 0 {
        seq![Seq::<char>::empty()]
    } else {
        let before = split_on(s.drop_last(), c);
        if s.last() == c {
            before.push(Seq::<char>::empty())
        } else {
            before.drop_last().push(before.last().push(s.last()))
        }
    }
}

pub proof fn lemma_split_nonempty(s: Seq<char>, c: char)
    ensures
        split_on(s, c).len() >= 1,
    decreases s.len(),
{
    if s.len() > 0 {
        lemma_split_nonempty(s.drop_last(), c);
    }
}

/// Splitting and joining again with the same character gives the text back.
pub proof fn law_join_undoes_split(s: Seq<char>, c: char)
    ensures
        joined(split_on(s, c), seq![c]) == s,
    decreases s.len(),
{
    if s.len() > 0 {
        let before = split_on(s.drop_last(), c);
        law_join_undoes_split(s.drop_last(), c);
        lemma_split_nonempty(s.drop_last(), c);
        let after = split_on(s, c);
        if s.last() == c {
            assert(after.drop_last() =~= before);
            assert(joined(after, seq![c]) =~= s);
        } else {
            assert(after.drop_last() =~= before.drop_last());
            assert(after.last() == before.last().push(s.last()));
            if before.len() == 1 {
                assert(after[0] == after.last());
            }
            assert(joined(after, seq![c]) =~= joined(before, seq![c]).push(s.last()));
            assert(s =~= s.drop_last().push(s.last()));
        }
    }
}

/// No piece holds the character that the text was split at.
pub proof fn lemma_split_lacks(s: Seq<char>, c: char, i: int)
    requires
        0 <= i < split_on(s, c).len(),
    ensures
        !split_on(s, c)[i].contains(c),
    decreases s.len(),
{
    if s.len() > 0 {
        let before = split_on(s.drop_last(), c);
        lemma_split_nonempty(s.drop_last(), c);
        if i < before.len() {
            lemma_split_lacks(s.drop_last(), c, i);
            let p = split_on(s, c)[i];
            if p.contains(c) {
                let k = choose|k: int| 0 <= k < p.len() && p[k] == c;
                assert(k < before[i].len() ==> before[i][k] == c);
            }
        }
    }
}

proof fn lemma_split_more(s: Seq<char>, c: char, p: Seq<char>)
    requires
        !p.contains(c),
    ensures
        split_on(s + p, c) == split_on(s, c).drop_last().push(split_on(s, c).last() + p),
    decreases p.len(),
{
    lemma_split_nonempty(s, c);
    let before = split_on(s, c);
    if p.len() == 0 {
        assert(s + p =~= s);
        assert(before.last() + p =~= before.last());
        assert(before.drop_last().push(before.last()) =~= before);
    } else {
        let q = p.drop_last();
        if q.contains(c) {
            let k = choose|k: int| 0 <= k < q.len() && q[k] == c;
            assert(p[k] == c);
        }
        lemma_split_more(s, c, q);
        assert((s + p).drop_last() =~= s + q);
        assert((s + p).last() == p.last());
        assert(p[p.len() - 1] != c);
        let mid = split_on(s + q, c);
        assert(mid.drop_last() =~= before.drop_last());
        assert(mid.last().push(p.last()) =~= before.last() + p);
    }
}

/// Joining parts that lack a character with it, and splitting there again, gives the parts back.
pub proof fn law_split_undoes_join(parts: Seq<Seq<char>>, c: char)
    requires
        parts.len() > 0,
        forall|i: int| 0 <= i < parts.len() ==> !(#[trigger] parts[i]).contains(c),
    ensures
        split_on(joined(parts, seq![c]), c) == parts,
    decreases parts.len(),
{
    let last = parts.last();
    assert(!parts[parts.len() - 1].contains(c));
    if parts.len() == 1 {
        let none = Seq::<char>::empty();
        lemma_split_more(none, c, last);
        assert(none + last =~= last);
        assert(split_on(last, c) =~= parts);
    } else {
        let front = parts.drop_last();
        assert forall|i: int| 0 <= i < front.len() implies !(#[trigger] front[i]).contains(c) by {
            assert(front[i] == parts[i]);
        }
        law_split_undoes_join(front, c);
        let s = joined(front, seq![c]) + seq![c];
        assert(s.drop_last() =~= joined(front, seq![c]));
        assert(split_on(s, c) == front.push(Seq::<char>::empty()));
        lemma_split_more(s, c, last);
        assert(Seq::<char>::empty() + last =~= last);
        assert(front.push(Seq::<char>::empty()).drop_last().push(last) =~= parts);
    }
}

/// Splits `s` at every `c`.
pub fn split(s: &str, c: char) -> (out: Vec<String>)
    ensures
        views(out@) == split_on(s@, c),
        out@.len() >= 1,
{
    broadcast use lemma_views_push, lemma_views_empty;

    let chars: Vec<char> = chars_of(s);
    let mut out: Vec<String> = Vec::new();
    let mut piece: String = String::new();
    let mut i: usize = 0;
    proof {
        assert(views(out@).push(piece@) =~= seq![Seq::<char>::empty()]);
        assert(s@.take(0) =~= Seq::<char>::empty());
    }
    while i < chars.len()
        invariant
            i <= chars@.len(),
            chars@ == s@,
            views(out@).push(piece@) == split_on(s@.take(i as int), c),
        decreases chars@.len() - i,
    {
        let x: char = chars[i];
        let ghost old_out = views(out@);
        let ghost old_piece = piece@;
        i = i + 1;
        proof {
            assert(s@.take(i as int).drop_last() =~= s@.take(i - 1));
            assert(old_out.push(old_piece).drop_last() =~= old_out);
        }
        if x == c {
            out.push(piece);
            piece = String::new();
        } else {
            piece.push(x);
        }
    }
    out.push(piece);
    proof {
        assert(s@.take(s@.len() as int) =~= s@);
    }
    out
}

/// Where `c` first stands in `s`; the length of `s` where it does not occur.
pub open spec fn index_of(s: Seq<char>, c: char) -> int
    decreases s.len(),
{
    if s.len() == 0 {
        0
    } else {
        let i = index_of(s.drop_last(), c);
        if i < s.len() - 1 || s.last() == c {
            i
        } else {
            s.len() as int
        }
    }
}

pub proof fn lemma_index_of(s: Seq<char>, c: char)
    ensures
        0 <= index_of(s, c) <= s.len(),
        index_of(s, c) < s.len() ==> s[index_of(s, c)] == c,
        forall|j: int| 0 <= j < index_of(s, c) ==> s[j] != c,
    decreases s.len(),
{
    if s.len() > 0 {
        lemma_index_of(s.drop_last(), c);
        assert forall|j: int| 0 <= j < index_of(s, c) implies s[j] != c by {
            if j < s.len() - 1 {
                assert(s.drop_last()[j] == s[j]);
            }
        }
    }
}

/// Where `c` first stands in `s` (the length of `s` where it does not occur).
pub fn find_char(s: &Vec<char>, c: char) -> (r: usize)
    ensures
        r == index_of(s@, c),
        r <= s@.len(),
{
    let mut i: usize = 0;
    while i < s.len() && s[i] != c
        invariant
            i <= s@.len(),
            forall|j: int| 0 <= j < i ==> s@[j] != c,
        decreases s@.len() - i,
    {
        i = i + 1;
    }
    proof {
        lemma_index_of(s@, c);
    }
    i
}

/// What stands before and after the first `c`; `None` where `c` does not occur.
pub open spec fn split_first(s: Seq<char>, c: char) -> Option<(Seq<char>, Seq<char>)> {
    let i = index_of(s, c);
    if i < s.len() {
        Some((s.take(i), s.skip(i + 1)))
    } else {
        None
    }
}

/// Cuts `s` at the first `c`.
pub fn cut_first(s: &str, c: char) -> (r: Option<(String, String)>)
    ensures
        match r {
            Some((a, b)) => split_first(s@, c) == Some((a@, b@)),
            None => split_first(s@, c) is None,
        },
{
    let chars: Vec<char> = chars_of(s);
    let i: usize = find_char(&chars, c);
    if i < chars.len() {
        let a: String = text_of(&chars, 0, i);
        let b: String = text_of(&chars, i + 1, chars.len());
        proof {
            assert(s@.take(i as int) =~= s@.subrange(0, i as int));
            assert(s@.skip(i + 1) =~= s@.subrange(i + 1, s@.len() as int));
        }
        Some((a, b))
    } else {
        None
    }
}

// ── searching ───────────────────────────────────────────────────────────────

/// `p` stands in `s` at position `i`.
pub open spec fn stands_at(s: Seq<char>, p: Seq<char>, i: int) -> bool {
    0 <= i && i + p.len() <= s.len() && s.subrange(i, i + p.len()) == p
}

/// `p` stands somewhere in `s`.
pub open spec fn has(s: Seq<char>, p: Seq<char>) -> bool {
    exists|i: int| stands_at(s, p, i)
}

/// Whether `p` stands in `s` at position `i`.
pub fn is_at(s: &Vec<char>, p: &Vec<char>, i: usize) -> (r: bool)
    ensures
        r == stands_at(s@, p@, i as int),
{
    if i > s.len() || p.len() > s.len() - i {
        return false;
    }
    let n: usize = s.len();
    let mut k: usize = 0;
    while k < p.len()
        invariant
            k <= p@.len(),
            n == s@.len(),
            i + p@.len() <= n,
            forall|j: int| 0 <= j < k ==> s@[i + j] == p@[j],
        decreases p@.len() - k,
    {
        if s[i + k] != p[k] {
            proof {
                assert(s@.subrange(i as int, i + p@.len())[k as int] != p@[k as int]);
            }
            return false;
        }
        k = k + 1;
    }
    proof {
        assert(s@.subrange(i as int, i + p@.len()) =~= p@);
    }
    true
}

/// Where `p` first stands in `s` at or behind `from`.
pub fn find_from(s: &Vec<char>, p: &Vec<char>, from: usize) -> (r: Option<usize>)
    ensures
        match r {
            Some(i) => from <= i && stands_at(s@, p@, i as int) && forall|j: int|
                from <= j < i ==> !stands_at(s@, p@, j),
            None => forall|j: int| from <= j ==> !stands_at(s@, p@, j),
        },
{
    if p.len() > s.len() {
        return None;
    }
    let last: usize = s.len() - p.len();
    let mut i: usize = from;
    while i <= last
        invariant
            last == s@.len() - p@.len(),
            from <= i,
            forall|j: int| from <= j < i ==> !stands_at(s@, p@, j),
        decreases last + 1 - i,
    {
        if is_at(s, p, i) {
            return Some(i);
        }
        if i == last {
            return None;
        }
        i = i + 1;
    }
    None
}

/// Whether `p` stands somewhere in `s`.
pub fn contains(s: &str, p: &str) -> (r: bool)
    ensures
        r == has(s@, p@),
{
    let a: Vec<char> = chars_of(s);
    let b: Vec<char> = chars_of(p);
    match find_from(&a, &b, 0) {
        Some(i) => true,
        None => {
            proof {
                assert forall|i: int| !stands_at(s@, p@, i) by {
                    if i >= 0 {
                    }
                }
            }
            false
        },
    }
}

/// Whether `s` begins with `p`.
pub fn starts_with(s: &str, p: &str) -> (r: bool)
    ensures
        r == p@.is_prefix_of(s@),
{
    let a: Vec<char> = chars_of(s);
    let b: Vec<char> = chars_of(p);
    let r: bool = is_at(&a, &b, 0);
    proof {
        if p@.len() <= s@.len() {
            assert(s@.subrange(0, p@.len() as int) =~= s@.take(p@.len() as int));
        }
    }
    r
}

/// Whether `s` ends with `p`.
pub fn ends_with(s: &str, p: &str) -> (r: bool)
    ensures
        r == p@.is_suffix_of(s@),
{
    let a: Vec<char> = chars_of(s);
    let b: Vec<char> = chars_of(p);
    if b.len() > a.len() {
        return false;
    }
    let r: bool = is_at(&a, &b, a.len() - b.len());
    proof {
        assert(s@.subrange(s@.len() - p@.len(), s@.len() as int) =~= s@.skip(s@.len() - p@.len()));
    }
    r
}

/// What follows `p` at the front of `s`; `None` where `s` does not begin with `p`.
pub open spec fn after_prefix(s: Seq<char>, p: Seq<char>) -> Option<Seq<char>> {
    if p.is_prefix_of(s) {
        Some(s.skip(p.len() as int))
    } else {
        None
    }
}

/// Takes `p` off the front of `s`.
pub fn strip_prefix(s: &str, p: &str) -> (r: Option<String>)
    ensures
        opt_view(r) == after_prefix(s@, p@),
{
    if starts_with(s, p) {
        let a: Vec<char> = chars_of(s);
        let n: usize = chars_of(p).len();
        proof {
            assert(s@.skip(n as int) =~= s@.subrange(n as int, s@.len() as int));
        }
        Some(text_of(&a, n, a.len()))
    } else {
        None
    }
}

// ── characters ──────────────────────────────────────────────────────────────

/// White space, as `char::is_whitespace` has it (Unicode's `White_Space`).
pub open spec fn is_space(c: char) -> bool {
    ||| 9 <= c as u32 <= 13
    ||| c as u32 == 0x20
    ||| c as u32 == 0x85
    ||| c as u32 == 0xA0
    ||| c as u32 == 0x1680
    ||| 0x2000 <= c as u32 <= 0x200A
    ||| c as u32 == 0x2028
    ||| c as u32 == 0x2029
    ||| c as u32 == 0x202F
    ||| c as u32 == 0x205F
    ||| c as u32 == 0x3000
}

/// Whether `c` is white space.
pub fn space(c: char) -> (r: bool)
    ensures
        r == is_space(c),
{
    let u: u32 = c as u32;
    (9 <= u && u <= 13) || u == 0x20 || u == 0x85 || u == 0xA0 || u == 0x1680 || (0x2000 <= u
        && u <= 0x200A) || u == 0x2028 || u == 0x2029 || u == 0x202F || u == 0x205F || u == 0x3000
}

pub open spec fn is_ascii_digit(c: char) -> bool {
    '0' <= c <= '9'
}

pub open spec fn is_ascii_upper(c: char) -> bool {
    'A' <= c <= 'Z'
}

pub open spec fn is_ascii_lower(c: char) -> bool {
    'a' <= c <= 'z'
}

/// An ASCII capital's small letter; any other character itself.
pub open spec fn lower(c: char) -> char {
    if is_ascii_upper(c) {
        (c as u32 + 32) as char
    } else {
        c
    }
}

pub open spec fn lowered(s: Seq<char>) -> Seq<char> {
    s.map_values(|c: char| lower(c))
}

/// `s` with the ASCII capitals made small.
pub fn ascii_lower(s: &str) -> (out: String)
    ensures
        out@ == lowered(s@),
{
    let chars: Vec<char> = chars_of(s);
    let mut out: String = String::new();
    let mut i: usize = 0;
    while i < chars.len()
        invariant
            i <= chars@.len(),
            chars@ == s@,
            out@ =~= lowered(s@).take(i as int),
        decreases chars@.len() - i,
    {
        let c: char = chars[i];
        if 'A' <= c && c <= 'Z' {
            out.push(((c as u8) + 32) as char);
        } else {
            out.push(c);
        }
        i = i + 1;
    }
    out
}

/// What `char::is_alphanumeric` says of a character.
pub uninterp spec fn is_alphanumeric(c: char) -> bool;

/// `char::is_alphanumeric`: Unicode's letters and numbers.
pub assume_specification[ char::is_alphanumeric ](c: char) -> (r: bool)
    ensures
        r == is_alphanumeric(c),
;

/// What `str::to_lowercase` makes of a text.
pub uninterp spec fn lowercase(s: Seq<char>) -> Seq<char>;

/// `str::to_lowercase`: the text in Unicode's small letters.
#[verifier::external_body]
pub(crate) fn to_lowercase(s: &str) -> (out: String)
    ensures
        out@ == lowercase(s@),
{
    s.to_lowercase()
}

/// A text in quotes as `Debug` writes it.
pub uninterp spec fn debug_quoted(s: Seq<char>) -> Seq<char>;

/// `Debug` of `str`: the text in double quotes with Rust's escapes, which depends on the text alone.
#[verifier::external_body]
pub(crate) fn debug_text(s: &str) -> (out: String)
    ensures
        out@ == debug_quoted(s@),
{
    format!("{s:?}")
}

/// `s` with every `from` replaced by `to`.
pub open spec fn replaced(s: Seq<char>, from: char, to: char) -> Seq<char> {
    s.map_values(|c: char| if c == from { to } else { c })
}

/// Replaces every `from` in `s` by `to`.
pub fn replace_char(s: &str, from: char, to: char) -> (out: String)
    ensures
        out@ == replaced(s@, from, to),
{
    let chars: Vec<char> = chars_of(s);
    let mut out: String = String::new();
    let mut i: usize = 0;
    while i < chars.len()
        invariant
            i <= chars@.len(),
            chars@ == s@,
            out@ =~= replaced(s@, from, to).take(i as int),
        decreases chars@.len() - i,
    {
        let c: char = chars[i];
        if c == from {
            out.push(to);
        } else {
            out.push(c);
        }
        i = i + 1;
    }
    out
}

/// `s` without every `c`.
pub open spec fn without(s: Seq<char>, c: char) -> Seq<char>
    decreases s.len(),
{
    if s.len() == 0 {
        s
    } else if s.last() == c {
        without(s.drop_last(), c)
    } else {
        without(s.drop_last(), c).push(s.last())
    }
}

/// Drops every `c` from `s`.
pub fn drop_char(s: &str, c: char) -> (out: String)
    ensures
        out@ == without(s@, c),
{
    let chars: Vec<char> = chars_of(s);
    let mut out: String = String::new();
    let mut i: usize = 0;
    proof {
        assert(s@.take(0) =~= Seq::<char>::empty());
    }
    while i < chars.len()
        invariant
            i <= chars@.len(),
            chars@ == s@,
            out@ == without(s@.take(i as int), c),
        decreases chars@.len() - i,
    {
        let x: char = chars[i];
        if x != c {
            out.push(x);
        }
        i = i + 1;
        proof {
            assert(s@.take(i as int).drop_last() =~= s@.take(i - 1));
        }
    }
    proof {
        assert(s@.take(s@.len() as int) =~= s@);
    }
    out
}

// ── trimming and clipping ───────────────────────────────────────────────────

pub open spec fn trimmed_start(s: Seq<char>) -> Seq<char>
    decreases s.len(),
{
    if s.len() > 0 && is_space(s[0]) {
        trimmed_start(s.skip(1))
    } else {
        s
    }
}

pub open spec fn trimmed_end(s: Seq<char>) -> Seq<char>
    decreases s.len(),
{
    if s.len() > 0 && is_space(s.last()) {
        trimmed_end(s.drop_last())
    } else {
        s
    }
}

/// `s` without white space at either end.
pub open spec fn trimmed(s: Seq<char>) -> Seq<char> {
    trimmed_end(trimmed_start(s))
}

/// Takes white space off the front of `s`.
pub fn trim_start(s: &str) -> (out: String)
    ensures
        out@ == trimmed_start(s@),
{
    let chars: Vec<char> = chars_of(s);
    let mut i: usize = 0;
    proof {
        assert(s@.skip(0) =~= s@);
    }
    while i < chars.len() && space(chars[i])
        invariant
            i <= chars@.len(),
            chars@ == s@,
            trimmed_start(s@) == trimmed_start(s@.skip(i as int)),
        decreases chars@.len() - i,
    {
        proof {
            assert(s@.skip(i as int).skip(1) =~= s@.skip(i + 1));
        }
        i = i + 1;
    }
    proof {
        assert(s@.skip(i as int) =~= s@.subrange(i as int, s@.len() as int));
    }
    text_of(&chars, i, chars.len())
}

/// Takes white space off the end of `s`.
pub fn trim_end(s: &str) -> (out: String)
    ensures
        out@ == trimmed_end(s@),
{
    let chars: Vec<char> = chars_of(s);
    let mut n: usize = chars.len();
    proof {
        assert(s@.take(n as int) =~= s@);
    }
    while n > 0 && space(chars[n - 1])
        invariant
            n <= chars@.len(),
            chars@ == s@,
            trimmed_end(s@) == trimmed_end(s@.take(n as int)),
        decreases n,
    {
        proof {
            assert(s@.take(n as int).drop_last() =~= s@.take(n - 1));
        }
        n = n - 1;
    }
    proof {
        assert(s@.take(n as int) =~= s@.subrange(0, n as int));
    }
    text_of(&chars, 0, n)
}

/// Takes white space off both ends of `s`.
pub fn trim(s: &str) -> (out: String)
    ensures
        out@ == trimmed(s@),
{
    let a: String = trim_start(s);
    trim_end(a.as_str())
}

proof fn lemma_start_lacks(s: Seq<char>, x: char)
    requires
        !s.contains(x),
    ensures
        !trimmed_start(s).contains(x),
    decreases s.len(),
{
    if s.len() > 0 && is_space(s[0]) {
        let t = s.skip(1);
        if t.contains(x) {
            let k = choose|k: int| 0 <= k < t.len() && t[k] == x;
            assert(s[k + 1] == x);
        }
        lemma_start_lacks(t, x);
    }
}

proof fn lemma_end_lacks(s: Seq<char>, x: char)
    requires
        !s.contains(x),
    ensures
        !trimmed_end(s).contains(x),
    decreases s.len(),
{
    if s.len() > 0 && is_space(s.last()) {
        let t = s.drop_last();
        if t.contains(x) {
            let k = choose|k: int| 0 <= k < t.len() && t[k] == x;
            assert(s[k] == x);
        }
        lemma_end_lacks(t, x);
    }
}

/// Taking white space off adds no character.
pub proof fn lemma_trimmed_lacks(s: Seq<char>, x: char)
    requires
        !s.contains(x),
    ensures
        !trimmed(s).contains(x),
{
    lemma_start_lacks(s, x);
    lemma_end_lacks(trimmed_start(s), x);
}

proof fn lemma_start_is_clear(s: Seq<char>)
    ensures
        trimmed_start(s).len() > 0 ==> !is_space(trimmed_start(s)[0]),
    decreases s.len(),
{
    if s.len() > 0 && is_space(s[0]) {
        lemma_start_is_clear(s.skip(1));
    }
}

proof fn lemma_end_is_clear(s: Seq<char>)
    ensures
        trimmed_end(s).len() > 0 ==> !is_space(trimmed_end(s).last()) && trimmed_end(s)[0] == s[0]
            && s.len() > 0,
    decreases s.len(),
{
    if s.len() > 0 && is_space(s.last()) {
        lemma_end_is_clear(s.drop_last());
    }
}

/// Once white space is off, there is none left to take off.
pub proof fn law_trimmed_twice(s: Seq<char>)
    ensures
        trimmed(trimmed(s)) == trimmed(s),
{
    lemma_start_is_clear(s);
    lemma_end_is_clear(trimmed_start(s));
}

/// `s` where it has at most `n` characters; otherwise its first `n`, then `mark`.
pub open spec fn clipped(s: Seq<char>, n: nat, mark: Seq<char>) -> Seq<char> {
    if s.len() <= n {
        s
    } else {
        s.take(n as int) + mark
    }
}

/// Cuts `s` behind its first `n` characters and says so with `mark`.
pub fn clip_chars(s: &str, n: usize, mark: &str) -> (out: String)
    ensures
        out@ == clipped(s@, n as nat, mark@),
{
    let chars: Vec<char> = chars_of(s);
    if chars.len() <= n {
        return s.to_owned();
    }
    let mut out: String = text_of(&chars, 0, n);
    proof {
        assert(s@.take(n as int) =~= s@.subrange(0, n as int));
    }
    out.append(mark);
    out
}

// ── bytes ───────────────────────────────────────────────────────────────────

/// How many bytes UTF-8 takes for `c`.
pub open spec fn width(c: char) -> nat {
    if (c as u32) < 0x80 {
        1
    } else if (c as u32) < 0x800 {
        2
    } else if (c as u32) < 0x10000 {
        3
    } else {
        4
    }
}

/// How many bytes UTF-8 takes for `s`.
pub open spec fn bytes(s: Seq<char>) -> nat
    decreases s.len(),
{
    if s.len() == 0 {
        0
    } else {
        bytes(s.drop_last()) + width(s.last())
    }
}

pub proof fn lemma_bytes_add(a: Seq<char>, b: Seq<char>)
    ensures
        bytes(a + b) == bytes(a) + bytes(b),
    decreases b.len(),
{
    if b.len() == 0 {
        assert(a + b =~= a);
    } else {
        lemma_bytes_add(a, b.drop_last());
        assert((a + b).drop_last() =~= a + b.drop_last());
    }
}

pub proof fn lemma_bytes_bounds(s: Seq<char>)
    ensures
        s.len() <= bytes(s) <= 4 * s.len(),
    decreases s.len(),
{
    if s.len() > 0 {
        lemma_bytes_bounds(s.drop_last());
    }
}

proof fn lemma_bytes_encoded(s: Seq<char>)
    ensures
        vstd::utf8::encode_utf8(s).len() == bytes(s),
    decreases s.len(),
{
    if s.len() > 0 {
        lemma_bytes_encoded(s.drop_first());
        lemma_bytes_add(seq![s[0]], s.drop_first());
        assert(seq![s[0]] + s.drop_first() =~= s);
        assert(bytes(seq![s[0]]) == width(s[0])) by {
            assert(seq![s[0]].drop_last() =~= Seq::<char>::empty());
            reveal_with_fuel(bytes, 2);
        }
        vstd::utf8::encode_utf8_first_scalar(s);
        vstd::utf8::char_is_scalar(s[0]);
    }
}

/// How many bytes `c` takes.
pub fn char_width(c: char) -> (r: usize)
    ensures
        r == width(c),
{
    let u: u32 = c as u32;
    if u < 0x80 {
        1
    } else if u < 0x800 {
        2
    } else if u < 0x10000 {
        3
    } else {
        4
    }
}

/// How many bytes `s` takes.
pub fn byte_len(s: &str) -> (r: usize)
    ensures
        r == bytes(s@),
{
    proof {
        lemma_bytes_encoded(s@);
    }
    s.as_bytes().len()
}

/// How many characters of `s` fit in `room` bytes.
pub open spec fn fit(s: Seq<char>, room: nat) -> int
    decreases s.len(),
{
    if bytes(s) <= room {
        s.len() as int
    } else {
        fit(s.drop_last(), room)
    }
}

pub proof fn lemma_fit(s: Seq<char>, room: nat)
    ensures
        0 <= fit(s, room) <= s.len(),
        bytes(s.take(fit(s, room))) <= room,
        forall|k: int| fit(s, room) < k <= s.len() ==> bytes(#[trigger] s.take(k)) > room,
    decreases s.len(),
{
    assert(s.take(s.len() as int) =~= s);
    if bytes(s) > room {
        lemma_fit(s.drop_last(), room);
        let n = fit(s.drop_last(), room);
        assert(s.drop_last().take(n) =~= s.take(n));
        assert forall|k: int| n < k <= s.len() implies bytes(#[trigger] s.take(k)) > room by {
            if k < s.len() {
                assert(s.drop_last().take(k) =~= s.take(k));
            }
        }
    }
}

pub proof fn lemma_bytes_grow(s: Seq<char>, a: int, b: int)
    requires
        0 <= a <= b <= s.len(),
    ensures
        bytes(s.take(a)) <= bytes(s.take(b)),
    decreases b - a,
{
    if a < b {
        lemma_bytes_grow(s, a, b - 1);
        assert(s.take(b).drop_last() =~= s.take(b - 1));
    }
}

/// How many of `chars` fit in `room` bytes, and how many bytes they take.
pub fn fit_count(chars: &Vec<char>, room: usize) -> (r: (usize, usize))
    ensures
        r.0 == fit(chars@, room as nat),
        r.0 <= chars@.len(),
        r.1 == bytes(chars@.take(r.0 as int)),
{
    let ghost s = chars@;
    let mut used: usize = 0;
    let mut n: usize = 0;
    proof {
        lemma_fit(s, room as nat);
        assert(s.take(0) =~= Seq::<char>::empty());
        assert(s.take(s.len() as int) =~= s);
    }
    loop
        invariant
            chars@ == s,
            n <= s.len(),
            used == bytes(s.take(n as int)),
            used <= room,
            s.take(s.len() as int) == s,
        ensures
            n == fit(s, room as nat),
            n <= s.len(),
            used == bytes(s.take(n as int)),
        decreases s.len() - n,
    {
        proof {
            lemma_fit(s, room as nat);
        }
        if n == chars.len() {
            break;
        }
        let w: usize = char_width(chars[n]);
        proof {
            assert(s.take(n + 1).drop_last() =~= s.take(n as int));
        }
        if w > room - used {
            proof {
                if fit(s, room as nat) < n {
                    assert(bytes(s.take(n as int)) > room);
                }
                if fit(s, room as nat) > n {
                    lemma_bytes_grow(s, n + 1, fit(s, room as nat));
                }
            }
            break;
        }
        used = used + w;
        n = n + 1;
    }
    (n, used)
}

// ── order ───────────────────────────────────────────────────────────────────

/// `a` comes before `b`, character by character by code point. It is the order of `String` too:
/// UTF-8 keeps it.
pub open spec fn before(a: Seq<char>, b: Seq<char>) -> bool
    decreases a.len(),
{
    if b.len() == 0 {
        false
    } else if a.len() == 0 {
        true
    } else if a[0] != b[0] {
        a[0] < b[0]
    } else {
        before(a.skip(1), b.skip(1))
    }
}

pub proof fn lemma_before_irreflexive(a: Seq<char>)
    ensures
        !before(a, a),
    decreases a.len(),
{
    if a.len() > 0 {
        lemma_before_irreflexive(a.skip(1));
    }
}

pub proof fn lemma_before_transitive(a: Seq<char>, b: Seq<char>, c: Seq<char>)
    requires
        before(a, b),
        before(b, c),
    ensures
        before(a, c),
    decreases a.len(),
{
    if a.len() > 0 && a[0] == b[0] && b[0] == c[0] {
        lemma_before_transitive(a.skip(1), b.skip(1), c.skip(1));
    }
}

pub proof fn lemma_before_total(a: Seq<char>, b: Seq<char>)
    ensures
        before(a, b) || before(b, a) || a == b,
    decreases a.len(),
{
    if a.len() > 0 && b.len() > 0 && a[0] == b[0] {
        lemma_before_total(a.skip(1), b.skip(1));
        if a.skip(1) == b.skip(1) {
            assert(a =~= seq![a[0]] + a.skip(1));
            assert(b =~= seq![b[0]] + b.skip(1));
        }
    } else if a.len() == 0 && b.len() == 0 {
        assert(a =~= b);
    }
}

/// Whether `a` comes before `b`.
pub fn is_before(a: &str, b: &str) -> (r: bool)
    ensures
        r == before(a@, b@),
{
    let x: Vec<char> = chars_of(a);
    let y: Vec<char> = chars_of(b);
    let mut i: usize = 0;
    proof {
        assert(a@.skip(0) =~= a@);
        assert(b@.skip(0) =~= b@);
    }
    loop
        invariant
            x@ == a@,
            y@ == b@,
            i <= x@.len(),
            i <= y@.len(),
            before(a@, b@) == before(a@.skip(i as int), b@.skip(i as int)),
        decreases x@.len() - i,
    {
        if i >= y.len() {
            return false;
        }
        if i >= x.len() {
            return true;
        }
        if x[i] != y[i] {
            return x[i] < y[i];
        }
        proof {
            assert(a@.skip(i as int).skip(1) =~= a@.skip(i + 1));
            assert(b@.skip(i as int).skip(1) =~= b@.skip(i + 1));
        }
        i = i + 1;
    }
}

/// Every part stands in what the parts are joined to.
pub proof fn law_joined_holds_parts(parts: Seq<Seq<char>>, sep: Seq<char>, i: int)
    requires
        0 <= i < parts.len(),
    ensures
        has(joined(parts, sep), parts[i]),
    decreases parts.len(),
{
    let all = joined(parts, sep);
    if parts.len() == 1 {
        assert(all.subrange(0, parts[0].len() as int) =~= parts[0]);
        assert(stands_at(all, parts[0], 0));
    } else {
        let front = joined(parts.drop_last(), sep);
        if i < parts.len() - 1 {
            law_joined_holds_parts(parts.drop_last(), sep, i);
            assert(parts.drop_last()[i] == parts[i]);
            let at = choose|at: int| stands_at(front, parts[i], at);
            assert(all.subrange(at, at + parts[i].len()) =~= front.subrange(
                at,
                at + parts[i].len(),
            ));
            assert(stands_at(all, parts[i], at));
        } else {
            let at = (front + sep).len() as int;
            assert(all.subrange(at, at + parts[i].len()) =~= parts[i]);
            assert(stands_at(all, parts[i], at));
        }
    }
}

/// What is joined grows by the separator and the part that is put behind it.
pub proof fn law_joined_grows(parts: Seq<Seq<char>>, sep: Seq<char>, p: Seq<char>)
    ensures
        parts.len() == 0 ==> joined(parts.push(p), sep) == p,
        parts.len() > 0 ==> joined(parts.push(p), sep) == joined(parts, sep) + sep + p,
        joined(Seq::<Seq<char>>::empty(), sep) == Seq::<char>::empty(),
{
    assert(parts.push(p).drop_last() =~= parts);
}

/// The number that digits stand for.
pub open spec fn number_of(s: Seq<char>, base: nat) -> nat
    decreases s.len(),
{
    if s.len() == 0 {
        0
    } else {
        number_of(s.drop_last(), base) * base + (if s.last() <= '9' {
            (s.last() as int - 48) as nat
        } else {
            (s.last() as int - 87) as nat
        })
    }
}

/// A number's digits read back as the number, and there are no digits too many in front.
pub proof fn law_digits_read_back(n: nat, base: nat)
    requires
        2 <= base <= 36,
    ensures
        number_of(digits_in(n, base), base) == n,
        digits_in(n, base).len() >= 1,
        digits_in(n, base)[0] == '0' ==> n == 0,
        forall|i: int|
            0 <= i < digits_in(n, base).len() ==> is_ascii_digit(#[trigger] digits_in(n, base)[i])
                || is_ascii_lower(digits_in(n, base)[i]),
        base <= 10 ==> forall|i: int|
            0 <= i < digits_in(n, base).len() ==> is_ascii_digit(#[trigger] digits_in(n, base)[i]),
    decreases n,
{
    let s = digits_in(n, base);
    if n < base {
        assert(s.drop_last() =~= Seq::<char>::empty());
        assert(number_of(s.drop_last(), base) == 0);
        assert(0 * base == 0);
        assert(s.last() == digit(n));
    } else {
        assert(n / base < n && 0 < n / base) by (nonlinear_arith)
            requires
                n >= base,
                base >= 2,
        ;
        assert(n == (n / base) * base + n % base && n % base < base) by (nonlinear_arith)
            requires
                base >= 2,
        ;
        law_digits_read_back(n / base, base);
        let front = digits_in(n / base, base);
        assert(s == front.push(digit(n % base)));
        assert(s.drop_last() =~= front);
        assert(s[0] == front[0]);
        assert forall|i: int| 0 <= i < s.len() implies is_ascii_digit(#[trigger] s[i])
            || is_ascii_lower(s[i]) by {
            if i < front.len() {
                assert(s[i] == front[i]);
            }
        }
        assert(base <= 10 ==> forall|i: int| 0 <= i < s.len() ==> is_ascii_digit(#[trigger] s[i]))
            by {
            if base <= 10 {
                assert forall|i: int| 0 <= i < s.len() implies is_ascii_digit(#[trigger] s[i]) by {
                    if i < front.len() {
                        assert(s[i] == front[i]);
                    }
                }
            }
        }
    }
}

/// A decimal number is digits that read back as the number.
pub proof fn law_decimal_reads_back(n: nat)
    ensures
        number_of(decimal(n as int), 10) == n,
        decimal(n as int).len() >= 1,
        decimal(n as int)[0] == '0' ==> n == 0,
        forall|i: int|
            0 <= i < decimal(n as int).len() ==> '0' <= #[trigger] decimal(n as int)[i] <= '9',
{
    law_digits_read_back(n, 10);
    assert forall|i: int| 0 <= i < decimal(n as int).len() implies '0' <= #[trigger] decimal(
        n as int,
    )[i] <= '9' by {
        assert(is_ascii_digit(digits_in(n, 10)[i]));
    }
}

/// A text is cut at the first place of a character, or not at all where the character is missing.
pub proof fn law_split_first(s: Seq<char>, c: char)
    ensures
        match split_first(s, c) {
            Some((a, b)) => a + seq![c] + b == s && !a.contains(c),
            None => !s.contains(c),
        },
{
    lemma_index_of(s, c);
    if let Some((a, b)) = split_first(s, c) {
        assert(a + seq![c] + b =~= s);
    }
}

/// What stands behind a prefix, with the prefix, is the text.
pub proof fn law_after_prefix(s: Seq<char>, p: Seq<char>)
    ensures
        match after_prefix(s, p) {
            Some(rest) => p + rest == s,
            None => forall|rest: Seq<char>| #[trigger] (p + rest) != s,
        },
{
    if p.is_prefix_of(s) {
        assert(p + s.skip(p.len() as int) =~= s);
    } else {
        assert forall|rest: Seq<char>| #[trigger] (p + rest) != s by {
            if p + rest == s {
                assert(s.take(p.len() as int) =~= p);
            }
        }
    }
}

/// To leave a character out of a text is to leave it out of both its halves.
pub proof fn law_without_in_halves(a: Seq<char>, b: Seq<char>, c: char)
    ensures
        without(a + b, c) == without(a, c) + without(b, c),
        !without(a, c).contains(c),
        !a.contains(c) ==> without(a, c) == a,
    decreases a.len() + b.len(),
{
    if b.len() > 0 {
        law_without_in_halves(a, b.drop_last(), c);
        assert((a + b).drop_last() =~= a + b.drop_last());
        assert((a + b).last() == b.last());
        assert(without(a + b, c) =~= without(a, c) + without(b, c));
    } else {
        assert(a + b =~= a);
        assert(without(a, c) + without(b, c) =~= without(a, c));
        if a.len() > 0 {
            law_without_in_halves(a.drop_last(), b, c);
            assert(a.drop_last() + b =~= a.drop_last());
            let front = without(a.drop_last(), c);
            if !a.contains(c) {
                assert(forall|i: int|
                    0 <= i < a.len() - 1 ==> #[trigger] a.drop_last()[i] == a[i]);
                assert(a[a.len() - 1] != c);
                assert(without(a, c) =~= a);
            }
            assert(!without(a, c).contains(c)) by {
                if without(a, c).contains(c) {
                    let i = choose|i: int| 0 <= i < without(a, c).len() && without(a, c)[i] == c;
                    if i < front.len() {
                        assert(front[i] == c);
                    }
                }
            }
        }
    }
}

/// What is cut to a number of bytes is the longest beginning that has no more.
pub proof fn law_fit_is_longest(s: Seq<char>, room: nat)
    ensures
        0 <= fit(s, room) <= s.len(),
        bytes(s.take(fit(s, room))) <= room,
        forall|n: int| fit(s, room) < n <= s.len() ==> bytes(#[trigger] s.take(n)) > room,
    decreases s.len(),
{
    assert(s.take(s.len() as int) =~= s);
    if bytes(s) > room {
        law_fit_is_longest(s.drop_last(), room);
        let f = fit(s.drop_last(), room);
        assert(s.drop_last().take(f) =~= s.take(f));
        assert forall|n: int| fit(s, room) < n <= s.len() implies bytes(#[trigger] s.take(n))
            > room by {
            if n < s.len() {
                assert(s.drop_last().take(n) =~= s.take(n));
            }
        }
    }
}

/// What is trimmed off is whitespace, at the ends alone, and all of it.
pub proof fn law_trimmed_is_the_middle(s: Seq<char>)
    ensures
        exists|a: int, b: int|
            0 <= a <= b <= s.len() && trimmed(s) == #[trigger] s.subrange(a, b) && (forall|i: int|
                (0 <= i < a || b <= i < s.len()) ==> is_space(#[trigger] s[i])),
        trimmed(s).len() > 0 ==> !is_space(trimmed(s)[0]) && !is_space(trimmed(s).last()),
{
    let t = trimmed_start(s);
    lemma_start_is_a_tail(s);
    lemma_end_is_a_head(t);
    let a = s.len() - t.len();
    let b = a + trimmed_end(t).len();
    assert(trimmed(s) =~= s.subrange(a, b));
    assert forall|i: int| (0 <= i < a || b <= i < s.len()) implies is_space(#[trigger] s[i]) by {
        if i >= b {
            assert(t[i - a] == s[i]);
        }
    }
    if trimmed(s).len() > 0 {
        assert(trimmed(s)[0] == t[0]);
    }
}

proof fn lemma_start_is_a_tail(s: Seq<char>)
    ensures
        trimmed_start(s).len() <= s.len(),
        trimmed_start(s) == s.skip(s.len() - trimmed_start(s).len()),
        forall|i: int| 0 <= i < s.len() - trimmed_start(s).len() ==> is_space(#[trigger] s[i]),
        trimmed_start(s).len() > 0 ==> !is_space(trimmed_start(s)[0]),
    decreases s.len(),
{
    if s.len() > 0 && is_space(s[0]) {
        lemma_start_is_a_tail(s.skip(1));
        let n = s.len() - trimmed_start(s).len();
        assert(s.skip(1).skip(n - 1) =~= s.skip(n));
        assert forall|i: int| 0 <= i < n implies is_space(#[trigger] s[i]) by {
            if i > 0 {
                assert(s.skip(1)[i - 1] == s[i]);
            }
        }
    } else {
        assert(s.skip(0) =~= s);
    }
}

proof fn lemma_end_is_a_head(s: Seq<char>)
    ensures
        trimmed_end(s).len() <= s.len(),
        trimmed_end(s) == s.take(trimmed_end(s).len() as int),
        forall|i: int| trimmed_end(s).len() <= i < s.len() ==> is_space(#[trigger] s[i]),
        trimmed_end(s).len() > 0 ==> !is_space(trimmed_end(s).last()),
    decreases s.len(),
{
    if s.len() > 0 && is_space(s.last()) {
        lemma_end_is_a_head(s.drop_last());
        let n = trimmed_end(s).len() as int;
        assert(s.drop_last().take(n) =~= s.take(n));
        assert forall|i: int| n <= i < s.len() implies is_space(#[trigger] s[i]) by {
            if i < s.len() - 1 {
                assert(s.drop_last()[i] == s[i]);
            }
        }
    } else {
        assert(s.take(s.len() as int) =~= s);
    }
}

/// A text of no more characters than there is room for stays; a longer one keeps that many and ends in
/// the mark.
pub proof fn law_clipped(s: Seq<char>, n: nat, mark: Seq<char>)
    ensures
        s.len() <= n ==> clipped(s, n, mark) == s,
        s.len() > n ==> clipped(s, n, mark).len() == n + mark.len() && mark.is_suffix_of(
            clipped(s, n, mark),
        ) && forall|i: int| 0 <= i < n ==> #[trigger] clipped(s, n, mark)[i] == s[i],
{
    if s.len() > n {
        let c = clipped(s, n, mark);
        assert(c.subrange(n as int, c.len() as int) =~= mark);
    }
}

} // verus!
