//! Laws of the text functions.

use vstd::prelude::*;

use crate::text::{
    ascii_digit, ascii_letter, byte_count, char_bytes, chars_within, decimal, index_of, join,
    law_decimal_read_back, lemma_index_of, lemma_index_of_is, lemma_run_is, lines, lower, lowered,
    parsed, parts, replaced, rows, white_space, without_trailing, Separator,
};

verus! {

broadcast use vstd::string::group_string_axioms;

/// The lines of a text: what stands before each line feed, without a carriage
/// return right before it, and what stands behind the last one if it is not
/// empty.
pub proof fn law_lines(a: Seq<char>, b: Seq<char>)
    requires
        !a.contains('\n'),
    ensures
        a.len() > 0 ==> lines(a) == seq![a],
        lines(Seq::<char>::empty()).len() == 0,
        a.len() == 0 || a.last() != '\r' ==> lines(a + "\n"@ + b) == seq![a] + lines(b),
        lines(a + "\r\n"@ + b) == seq![a] + lines(b),
{
    reveal_strlit("\n");
    reveal_strlit("\r\n");
    lemma_index_of(a, '\n');
    if let Some(k) = index_of(a, '\n') {
        assert(a.contains(a[k]));
    }
    let n = a.len() as int;
    let t = a + "\n"@ + b;
    lemma_feed_at(t, n, a);
    assert(t.take(n) =~= a);
    assert(t.skip(n + 1) =~= b);
    let u = a + "\r\n"@ + b;
    let c = a.push('\r');
    assert forall|j: int| 0 <= j < c.len() implies c[j] != '\n' by {
        if j < n {
            assert(a.contains(a[j]));
        }
    }
    lemma_feed_at(u, n + 1, c);
    assert(u.take(n + 1) =~= c);
    assert(u.skip(n + 2) =~= b);
    assert(c.drop_last() =~= a);
}

proof fn lemma_feed_at(t: Seq<char>, n: int, a: Seq<char>)
    requires
        0 <= n < t.len(),
        t[n] == '\n',
        n == a.len(),
        forall|j: int| 0 <= j < n ==> t[j] == a[j],
        !a.contains('\n'),
    ensures
        index_of(t, '\n') == Some(n),
{
    assert forall|j: int| 0 <= j < n implies t[j] != '\n' by {
        assert(a.contains(a[j]));
    }
    lemma_index_of_is(t, '\n', n);
}

/// The rows of a text are what the line feeds separate, the last one included;
/// carriage returns before a line feed go.
pub proof fn law_rows(a: Seq<char>, b: Seq<char>)
    requires
        !a.contains('\n'),
    ensures
        rows(a) == seq![a],
        a.len() == 0 || a.last() != '\r' ==> rows(a + "\n"@ + b) == seq![a] + rows(b),
        a.len() == 0 || a.last() != '\r' ==> rows(a + "\r\n"@ + b) == seq![a] + rows(b),
{
    reveal_strlit("\n");
    reveal_strlit("\r\n");
    reveal_with_fuel(without_trailing, 2);
    lemma_index_of(a, '\n');
    if let Some(k) = index_of(a, '\n') {
        assert(a.contains(a[k]));
    }
    let n = a.len() as int;
    let t = a + "\n"@ + b;
    lemma_feed_at(t, n, a);
    assert(t.take(n) =~= a);
    assert(t.skip(n + 1) =~= b);
    let u = a + "\r\n"@ + b;
    let c = a.push('\r');
    assert forall|j: int| 0 <= j < c.len() implies c[j] != '\n' by {
        if j < n {
            assert(a.contains(a[j]));
        }
    }
    lemma_feed_at(u, n + 1, c);
    assert(u.take(n + 1) =~= c);
    assert(u.skip(n + 2) =~= b);
    assert(c.drop_last() =~= a);
}

/// The parts of a joined text stand in their order with the separator between
/// any two, and nowhere else.
pub proof fn law_join(a: Seq<Seq<char>>, x: Seq<char>, y: Seq<char>, sep: Seq<char>)
    ensures
        join(Seq::<Seq<char>>::empty(), sep).len() == 0,
        join(seq![x], sep) == x,
        join(seq![x, y], sep) == x + sep + y,
        a.len() > 0 ==> join(a.push(x), sep) == join(a, sep) + sep + x,
{
    reveal_with_fuel(join, 3);
    assert(seq![x, y].drop_last() =~= seq![x]);
    assert(a.push(x).drop_last() =~= a);
}

/// Lower-casing changes capitals only, each to its small letter, and keeps the
/// length.
pub proof fn law_lowered(t: Seq<char>, i: int)
    requires
        0 <= i < t.len(),
    ensures
        lowered(t).len() == t.len(),
        'A' <= t[i] <= 'Z' ==> lowered(t)[i] as u32 == t[i] as u32 + 32 && 'a' <= lowered(t)[i]
            <= 'z',
        !('A' <= t[i] <= 'Z') ==> lowered(t)[i] == t[i],
        lower('A') == 'a',
        lower('Z') == 'z',
{
    assert(lower('A') as u32 == 97);
    assert(lower('Z') as u32 == 122);
    if 'A' <= t[i] <= 'Z' {
        assert(lower(t[i]) as u32 == t[i] as u32 + 32);
    }
}

/// The bytes of a text add up over its characters: one for an ASCII character, up
/// to four for others.
pub proof fn law_byte_count(a: Seq<char>, c: char)
    ensures
        byte_count(Seq::<char>::empty()) == 0,
        c <= '\u{7f}' ==> byte_count(a.push(c)) == byte_count(a) + 1,
        '\u{80}' <= c <= '\u{7ff}' ==> byte_count(a.push(c)) == byte_count(a) + 2,
        '\u{800}' <= c <= '\u{ffff}' ==> byte_count(a.push(c)) == byte_count(a) + 3,
        '\u{10000}' <= c ==> byte_count(a.push(c)) == byte_count(a) + 4,
{
    assert(a.push(c).drop_last() =~= a);
}

/// The parts between separators: none is empty, none holds a separator, and
/// separators at the front or in a row make no part.
pub proof fn law_parts(sep: Separator, t: Seq<char>, i: int, k: int)
    requires
        0 <= i <= t.len(),
        0 <= k < parts(sep, t, i).len(),
    ensures
        parts(sep, t, i)[k].len() > 0,
        forall|j: int|
            0 <= j < parts(sep, t, i)[k].len() ==> !sep.separates(
                #[trigger] parts(sep, t, i)[k][j],
            ),
    decreases t.len() - i,
{
    let a = crate::text::run(t, i, sep.yes());
    let b = crate::text::run(t, a, sep.no());
    crate::text::lemma_run_bounds(t, i, sep.yes());
    crate::text::lemma_run_bounds(t, a, sep.no());
    let w = t.subrange(a, b);
    let rest = parts(sep, t, b);
    let all = parts(sep, t, i);
    assert(all =~= seq![w] + rest);
    if k > 0 {
        law_parts(sep, t, b, k - 1);
        assert(all[k] == rest[k - 1]);
    } else {
        assert(all[0] == w);
        assert forall|j: int| 0 <= j < w.len() implies !sep.separates(#[trigger] w[j]) by {
            assert(sep.no()(t[a + j]));
        }
    }
}

/// A part, a separator and more text: the part comes first and the rest is split
/// by itself.
pub proof fn law_parts_in_order(sep: Separator, w: Seq<char>, c: char, b: Seq<char>)
    requires
        w.len() > 0,
        forall|j: int| 0 <= j < w.len() ==> !sep.separates(#[trigger] w[j]),
        sep.separates(c),
    ensures
        parts(sep, w + seq![c] + b, 0).len() > 0,
        parts(sep, w + seq![c] + b, 0)[0] == w,
        parts(sep, w, 0) == seq![w],
{
    let t = w + seq![c] + b;
    let n = w.len() as int;
    assert forall|k: int| 0 <= k < n implies sep.no()(#[trigger] t[k]) by {
        assert(t[k] == w[k]);
    }
    assert(!sep.separates(w[0]));
    assert(t[0] == w[0]);
    lemma_run_is(t, 0, 0, sep.yes());
    assert(t[n] == c);
    lemma_run_is(t, 0, n, sep.no());
    assert(t.subrange(0, n) =~= w);
    assert forall|k: int| 0 <= k < n implies sep.no()(#[trigger] w[k]) by {}
    lemma_run_is(w, 0, 0, sep.yes());
    lemma_run_is(w, 0, n, sep.no());
    lemma_run_is(w, n, n, sep.yes());
    lemma_run_is(w, n, n, sep.no());
    assert(parts(sep, w, n) =~= Seq::<Seq<char>>::empty());
    assert(w.subrange(0, n) =~= w);
    assert(parts(sep, w, 0) =~= seq![w]);
}

/// Replacing one character by another text goes character by character.
pub proof fn law_replaced_character(t: Seq<char>, c: char, q: Seq<char>, x: char)
    ensures
        x == c ==> replaced(seq![x] + t, seq![c], q) == q + replaced(t, seq![c], q),
        x != c ==> replaced(seq![x] + t, seq![c], q) == seq![x] + replaced(t, seq![c], q),
        replaced(Seq::<char>::empty(), seq![c], q).len() == 0,
{
    let u = seq![x] + t;
    assert(u.subrange(0, 1) =~= seq![x]);
    assert(u.skip(1) =~= t);
    if x != c {
        assert(seq![x][0] != seq![c][0]);
    }
}

/// The white space among the ASCII characters is the blank and the five controls
/// from the tab to the carriage return; beyond them it is the next line, the
/// blanks of all widths and the separators of lines and paragraphs.
pub proof fn law_white_space(c: char)
    ensures
        c <= '\u{7f}' ==> (white_space(c) <==> c == ' ' || c == '\t' || c == '\n' || c == '\u{b}' || c
            == '\u{c}' || c == '\r'),
        c > '\u{7f}' ==> (white_space(c) <==> seq![
            '\u{85}',
            '\u{a0}',
            '\u{1680}',
            '\u{2028}',
            '\u{2029}',
            '\u{202f}',
            '\u{205f}',
            '\u{3000}',
        ].contains(c) || '\u{2000}' <= c <= '\u{200a}'),
        ascii_letter(c) || ascii_digit(c) ==> !white_space(c),
{
    let others = seq![
        '\u{85}',
        '\u{a0}',
        '\u{1680}',
        '\u{2028}',
        '\u{2029}',
        '\u{202f}',
        '\u{205f}',
        '\u{3000}',
    ];
    assert(others[0] == '\u{85}' && others[1] == '\u{a0}' && others[2] == '\u{1680}' && others[3]
        == '\u{2028}' && others[4] == '\u{2029}' && others[5] == '\u{202f}' && others[6]
        == '\u{205f}' && others[7] == '\u{3000}');
    if others.contains(c) {
        let i = others.index_of(c);
        assert(others[i] == c);
    }
}

/// What separates: white space, its ASCII part without the vertical tab, or a
/// slash.
pub proof fn law_separators(c: char)
    ensures
        Separator::White.separates(c) <==> white_space(c),
        Separator::AsciiSpace.separates(c) <==> c <= '\u{7f}' && white_space(c) && c != '\u{b}',
        Separator::Slash.separates(c) <==> c == '/',
{
}

/// A number is read with or without a plus sign; what holds another sign, holds
/// no digit or is too large is no number.
pub proof fn law_numbers_read(n: nat, t: Seq<char>, i: int)
    ensures
        n <= u64::MAX ==> parsed(seq!['+'] + decimal(n)) == Some(n as u64),
        n > u64::MAX ==> parsed(decimal(n)) is None,
        0 <= i < t.len() && !ascii_digit(t[i]) && !(i == 0 && t[0] == '+') ==> parsed(t) is None,
        parsed(Seq::empty()) is None,
        parsed(seq!['+']) is None,
{
    law_decimal_read_back(n);
    let d = decimal(n);
    let s = seq!['+'] + d;
    assert(s[0] == '+');
    assert(s.skip(1) =~= d);
    assert(ascii_digit(d[0]));
    if 0 <= i < t.len() && !ascii_digit(t[i]) && !(i == 0 && t[0] == '+') {
        if t[0] == '+' {
            assert(t.skip(1)[i - 1] == t[i]);
        }
    }
    assert(seq!['+'].skip(1).len() == 0);
}

/// The longest beginning of a text within a number of bytes: it fits, and the
/// next character does not.
pub proof fn law_beginning_within(t: Seq<char>, most: nat)
    ensures
        chars_within(t, most) <= t.len(),
        byte_count(t.take(chars_within(t, most) as int)) <= most,
        chars_within(t, most) < t.len() ==> byte_count(
            t.take(chars_within(t, most) as int + 1),
        ) > most,
    decreases t.len(),
{
    assert(t.take(t.len() as int) =~= t);
    if !(byte_count(t) <= most || t.len() == 0) {
        let u = t.drop_last();
        law_beginning_within(u, most);
        let n = chars_within(t, most) as int;
        assert(u.take(n) =~= t.take(n));
        if n < u.len() {
            assert(u.take(n + 1) =~= t.take(n + 1));
        } else {
            assert(t.take(n + 1) =~= t);
        }
    }
}

/// The bytes of a character in UTF-8.
pub proof fn law_bytes_of_characters(c: char)
    ensures
        char_bytes(c) == 1 <==> c <= '\u{7f}',
        char_bytes(c) == 2 <==> '\u{80}' <= c <= '\u{7ff}',
        char_bytes(c) == 3 <==> '\u{800}' <= c <= '\u{ffff}',
        char_bytes(c) == 4 <==> c >= '\u{10000}',
{
}

} // verus!
