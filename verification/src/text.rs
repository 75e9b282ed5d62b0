//! Plain-text helpers over characters: Unicode whitespace, trimming,
//! splitting on a character, and joining lines.

use vstd::prelude::*;

use crate::chars::chars_to_string;
use crate::exact::{abs, digit_char, int_decimal, nat_decimal, slice_chars_pub};

verus! {

/// Unicode `White_Space`, the set `char::is_whitespace` answers for.
pub open spec fn is_ws(c: char) -> bool {
    ||| c == '\t' || c == '\n' || c == '\u{0B}' || c == '\u{0C}' || c == '\r' || c == ' '
    ||| c == '\u{85}' || c == '\u{A0}' || c == '\u{1680}'
    ||| '\u{2000}' <= c <= '\u{200A}'
    ||| c == '\u{2028}' || c == '\u{2029}' || c == '\u{202F}' || c == '\u{205F}' || c == '\u{3000}'
}

/// Whether `c` is whitespace ([`is_ws`]).
pub fn char_is_ws(c: char) -> (r: bool)
    ensures
        r == is_ws(c),
{
    c == '\t' || c == '\n' || c == '\u{0B}' || c == '\u{0C}' || c == '\r' || c == ' ' || c
        == '\u{85}' || c == '\u{A0}' || c == '\u{1680}' || ('\u{2000}' <= c && c <= '\u{200A}')
        || c == '\u{2028}' || c == '\u{2029}' || c == '\u{202F}' || c == '\u{205F}' || c
        == '\u{3000}'
}

/// The number of whitespace characters `s` starts with.
pub open spec fn ws_prefix(s: Seq<char>) -> nat
    decreases s.len(),
{
    if s.len() > 0 && is_ws(s[0]) {
        1 + ws_prefix(s.drop_first())
    } else {
        0
    }
}

/// The number of whitespace characters `s` ends with.
pub open spec fn ws_suffix(s: Seq<char>) -> nat
    decreases s.len(),
{
    if s.len() > 0 && is_ws(s.last()) {
        1 + ws_suffix(s.drop_last())
    } else {
        0
    }
}

/// `s` without its leading whitespace.
pub open spec fn trim_start(s: Seq<char>) -> Seq<char> {
    s.skip(ws_prefix(s) as int)
}

/// `s` without its trailing whitespace.
pub open spec fn trim_end(s: Seq<char>) -> Seq<char> {
    s.take(s.len() - ws_suffix(s))
}

/// `s` without leading and trailing whitespace.
pub open spec fn trim(s: Seq<char>) -> Seq<char> {
    trim_end(trim_start(s))
}

pub proof fn lemma_ws_prefix(s: Seq<char>, i: int)
    requires
        0 <= i <= s.len(),
        forall|j: int| 0 <= j < i ==> is_ws(#[trigger] s[j]),
        i < s.len() ==> !is_ws(s[i]),
    ensures
        ws_prefix(s) == i,
    decreases i,
{
    if i > 0 {
        assert forall|j: int| 0 <= j < i - 1 implies is_ws(#[trigger] s.drop_first()[j]) by {
            assert(s.drop_first()[j] == s[j + 1]);
        }
        if i - 1 < s.drop_first().len() {
            assert(s.drop_first()[i - 1] == s[i]);
        }
        lemma_ws_prefix(s.drop_first(), i - 1);
    }
}

pub proof fn lemma_ws_suffix(s: Seq<char>, k: int)
    requires
        0 <= k <= s.len(),
        forall|j: int| s.len() - k <= j < s.len() ==> is_ws(#[trigger] s[j]),
        k < s.len() ==> !is_ws(s[s.len() - 1 - k]),
    ensures
        ws_suffix(s) == k,
    decreases k,
{
    if k > 0 {
        let t = s.drop_last();
        assert forall|j: int| t.len() - (k - 1) <= j < t.len() implies is_ws(#[trigger] t[j]) by {
            assert(t[j] == s[j]);
        }
        if k - 1 < t.len() {
            assert(t[t.len() - 1 - (k - 1)] == s[s.len() - 1 - k]);
        }
        lemma_ws_suffix(t, k - 1);
    }
}

/// The characters `cs[from..to]` without leading and trailing whitespace.
pub fn trim_chars(cs: &Vec<char>, from: usize, to: usize) -> (r: Vec<char>)
    requires
        from <= to <= cs.len(),
    ensures
        r@ == trim(cs@.subrange(from as int, to as int)),
{
    let ghost t = cs@.subrange(from as int, to as int);
    let mut s = from;
    while s < to && char_is_ws(cs[s])
        invariant
            from <= s <= to <= cs.len(),
            forall|j: int| from <= j < s ==> is_ws(#[trigger] cs@[j]),
        decreases to - s,
    {
        s = s + 1;
    }
    proof {
        assert forall|j: int| 0 <= j < s - from implies is_ws(#[trigger] t[j]) by {
            assert(t[j] == cs@[from + j]);
        }
        if s < to {
            assert(t[s - from] == cs@[s as int]);
        }
        lemma_ws_prefix(t, s - from);
        assert(trim_start(t) =~= cs@.subrange(s as int, to as int));
    }
    let ghost u = cs@.subrange(s as int, to as int);
    let mut e = to;
    while e > s && char_is_ws(cs[e - 1])
        invariant
            s <= e <= to <= cs.len(),
            forall|j: int| e <= j < to ==> is_ws(#[trigger] cs@[j]),
        decreases e - s,
    {
        e = e - 1;
    }
    proof {
        assert forall|j: int| u.len() - (to - e) <= j < u.len() implies is_ws(#[trigger] u[j]) by {
            assert(u[j] == cs@[s + j]);
        }
        if e > s {
            assert(u[u.len() - 1 - (to - e)] == cs@[e - 1]);
        }
        lemma_ws_suffix(u, to - e);
        assert(trim_end(u) =~= cs@.subrange(s as int, e as int));
    }
    slice_chars_pub(cs, s, e)
}

/// The pieces of `s` between occurrences of `c`, in order: one more piece
/// than there are occurrences, so the empty text is one empty piece.
pub open spec fn split_on(s: Seq<char>, c: char) -> Seq<Seq<char>>
    decreases s.len(),
{
    if s.len() == 0 {
        seq![Seq::empty()]
    } else {
        let pieces = split_on(s.drop_last(), c);
        if s.last() == c {
            pieces.push(Seq::empty())
        } else {
            pieces.update(pieces.len() - 1, pieces.last().push(s.last()))
        }
    }
}

pub proof fn lemma_split_on_len(s: Seq<char>, c: char)
    ensures
        split_on(s, c).len() >= 1,
    decreases s.len(),
{
    if s.len() > 0 {
        lemma_split_on_len(s.drop_last(), c);
    }
}

/// The views of a list of character vectors.
pub open spec fn chars_view(v: Seq<Vec<char>>) -> Seq<Seq<char>> {
    v.map_values(|x: Vec<char>| x@)
}

/// The characters `cs[from..to]` split on `c` ([`split_on`]).
pub fn split_chars(cs: &Vec<char>, from: usize, to: usize, c: char) -> (r: Vec<Vec<char>>)
    requires
        from <= to <= cs.len(),
    ensures
        chars_view(r@) == split_on(cs@.subrange(from as int, to as int), c),
{
    let mut pieces: Vec<Vec<char>> = Vec::new();
    let mut current: Vec<char> = Vec::new();
    let mut i = from;
    assert(cs@.subrange(from as int, from as int) =~= Seq::<char>::empty());
    assert(chars_view(pieces@).push(current@) =~= seq![Seq::<char>::empty()]);
    while i < to
        invariant
            from <= i <= to <= cs.len(),
            chars_view(pieces@).push(current@) == split_on(cs@.subrange(from as int, i as int), c),
        decreases to - i,
    {
        let ghost before = cs@.subrange(from as int, i as int);
        let ghost after = cs@.subrange(from as int, i + 1);
        assert(after.drop_last() =~= before);
        assert(after.last() == cs@[i as int]);
        if cs[i] == c {
            let ghost old_pieces = chars_view(pieces@);
            pieces.push(current);
            current = Vec::new();
            assert(chars_view(pieces@) =~= old_pieces.push(chars_view(pieces@).last()));
            assert(chars_view(pieces@).push(current@) =~= split_on(before, c).push(Seq::empty()));
        } else {
            let ghost old_view = chars_view(pieces@).push(current@);
            current.push(cs[i]);
            assert(chars_view(pieces@).push(current@) =~= old_view.update(
                old_view.len() - 1,
                old_view.last().push(cs@[i as int]),
            ));
        }
        i = i + 1;
    }
    let ghost old_pieces = chars_view(pieces@);
    pieces.push(current);
    assert(chars_view(pieces@) =~= old_pieces.push(chars_view(pieces@).last()));
    pieces
}

/// The lines of `s`: the pieces between newlines, where a final newline
/// ends the last line instead of starting an empty one.
pub open spec fn lines_of(s: Seq<char>) -> Seq<Seq<char>> {
    if s.len() == 0 {
        Seq::empty()
    } else if s.last() == '\n' {
        split_on(s.drop_last(), '\n')
    } else {
        split_on(s, '\n')
    }
}

/// The characters `cs[from..to]` broken into lines ([`lines_of`]).
pub fn lines_chars(cs: &Vec<char>, from: usize, to: usize) -> (r: Vec<Vec<char>>)
    requires
        from <= to <= cs.len(),
    ensures
        chars_view(r@) == lines_of(cs@.subrange(from as int, to as int)),
{
    let ghost s = cs@.subrange(from as int, to as int);
    if from == to {
        let r: Vec<Vec<char>> = Vec::new();
        assert(chars_view(r@) =~= Seq::<Seq<char>>::empty());
        return r;
    }
    if cs[to - 1] == '\n' {
        assert(s.drop_last() =~= cs@.subrange(from as int, to - 1));
        split_chars(cs, from, to - 1, '\n')
    } else {
        split_chars(cs, from, to, '\n')
    }
}

/// The lines joined by single newlines.
pub open spec fn join_lines(lines: Seq<Seq<char>>) -> Seq<char>
    decreases lines.len(),
{
    if lines.len() == 0 {
        Seq::empty()
    } else if lines.len() == 1 {
        lines[0]
    } else {
        join_lines(lines.drop_last()) + seq!['\n'] + lines.last()
    }
}

/// The lines joined by single newlines ([`join_lines`]).
pub fn join_chars(lines: &Vec<Vec<char>>) -> (r: Vec<char>)
    ensures
        r@ == join_lines(chars_view(lines@)),
{
    let mut out: Vec<char> = Vec::new();
    let mut i: usize = 0;
    while i < lines.len()
        invariant
            i <= lines.len(),
            out@ == join_lines(chars_view(lines@).take(i as int)),
        decreases lines.len() - i,
    {
        let ghost prefix = chars_view(lines@).take(i + 1);
        assert(prefix.drop_last() =~= chars_view(lines@).take(i as int));
        if i > 0 {
            out.push('\n');
        }
        let mut j: usize = 0;
        let ghost base = out@;
        while j < lines[i].len()
            invariant
                i < lines.len(),
                j <= lines[i as int].len(),
                out@ == base + lines[i as int]@.take(j as int),
            decreases lines[i as int].len() - j,
        {
            out.push(lines[i][j]);
            j = j + 1;
            assert(out@ =~= base + lines[i as int]@.take(j as int));
        }
        assert(lines[i as int]@.take(j as int) =~= lines[i as int]@);
        assert(prefix.last() == lines[i as int]@);
        if i == 0 {
            assert(out@ =~= prefix[0]);
        }
        i = i + 1;
    }
    assert(chars_view(lines@).take(lines.len() as int) =~= chars_view(lines@));
    out
}

/// The digit character of `d < 10`.
fn digit(d: u64) -> (c: char)
    requires
        d < 10,
    ensures
        c == digit_char(d as nat),
{
    if d == 0 {
        '0'
    } else if d == 1 {
        '1'
    } else if d == 2 {
        '2'
    } else if d == 3 {
        '3'
    } else if d == 4 {
        '4'
    } else if d == 5 {
        '5'
    } else if d == 6 {
        '6'
    } else if d == 7 {
        '7'
    } else if d == 8 {
        '8'
    } else {
        '9'
    }
}

fn push_digits(n: u64, out: &mut Vec<char>)
    ensures
        final(out)@ == old(out)@ + nat_decimal(n as nat),
    decreases n,
{
    if n >= 10 {
        push_digits(n / 10, out);
    }
    out.push(digit(n % 10));
    proof {
        if n >= 10 {
            assert(nat_decimal(n as nat) == nat_decimal((n / 10) as nat).push(digit_char((n % 10) as nat)));
        } else {
            assert(nat_decimal(n as nat) == seq![digit_char(n as nat)]);
        }
    }
}

/// The decimal spelling of `n` ([`nat_decimal`]).
pub fn u64_text(n: u64) -> (r: String)
    ensures
        r@ == nat_decimal(n as nat),
{
    let mut out: Vec<char> = Vec::new();
    push_digits(n, &mut out);
    assert(out@ =~= nat_decimal(n as nat));
    chars_to_string(out)
}

/// The decimal spelling of `v`, with a leading `-` when negative
/// ([`int_decimal`]).
pub fn i64_text(v: i64) -> (r: String)
    ensures
        r@ == int_decimal(v as int),
{
    let mut out: Vec<char> = Vec::new();
    if v < 0 {
        out.push('-');
        let magnitude: u64 = if v == i64::MIN {
            9223372036854775808u64
        } else {
            (-v) as u64
        };
        assert(magnitude as int == abs(v as int));
        push_digits(magnitude, &mut out);
    } else {
        push_digits(v as u64, &mut out);
    }
    assert(out@ =~= int_decimal(v as int));
    chars_to_string(out)
}

} // verus!
