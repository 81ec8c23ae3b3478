//! Text as sequences of characters.
//!
//! A `&str` is seen through its view, a `Seq<char>`. The specification
//! functions here say what the usual string operations mean on such
//! sequences; the executable ones work on vectors of characters.

use vstd::prelude::*;

verus! {

broadcast use vstd::string::group_string_axioms;

/// `String::push` appends one character.
pub assume_specification[ String::push ](s: &mut String, c: char)
    ensures
        final(s)@ == old(s)@.push(c),
;

// ---------------------------------------------------------------------------
// Characters
// ---------------------------------------------------------------------------

/// The characters with the Unicode `White_Space` property.
pub open spec fn white_space(c: char) -> bool {
    ||| '\u{9}' <= c <= '\u{d}'
    ||| c == ' '
    ||| c == '\u{85}'
    ||| c == '\u{a0}'
    ||| c == '\u{1680}'
    ||| '\u{2000}' <= c <= '\u{200a}'
    ||| c == '\u{2028}'
    ||| c == '\u{2029}'
    ||| c == '\u{202f}'
    ||| c == '\u{205f}'
    ||| c == '\u{3000}'
}

/// ASCII letters.
pub open spec fn ascii_letter(c: char) -> bool {
    'a' <= c <= 'z' || 'A' <= c <= 'Z'
}

/// ASCII digits.
pub open spec fn ascii_digit(c: char) -> bool {
    '0' <= c <= '9'
}

/// ASCII lower-casing of one character.
pub open spec fn lower(c: char) -> char {
    if 'A' <= c <= 'Z' {
        (c as u32 + 32) as char
    } else {
        c
    }
}

/// ASCII lower-casing of a text.
pub open spec fn lowered(s: Seq<char>) -> Seq<char> {
    s.map_values(|c: char| lower(c))
}

pub fn is_white_space(c: char) -> (r: bool)
    ensures
        r == white_space(c),
{
    ('\u{9}' <= c && c <= '\u{d}') || c == ' ' || c == '\u{85}' || c == '\u{a0}' || c == '\u{1680}'
        || ('\u{2000}' <= c && c <= '\u{200a}') || c == '\u{2028}' || c == '\u{2029}' || c
        == '\u{202f}' || c == '\u{205f}' || c == '\u{3000}'
}

pub fn is_ascii_letter(c: char) -> (r: bool)
    ensures
        r == ascii_letter(c),
{
    ('a' <= c && c <= 'z') || ('A' <= c && c <= 'Z')
}

pub fn is_digit(c: char) -> (r: bool)
    ensures
        r == ascii_digit(c),
{
    '0' <= c && c <= '9'
}

pub fn to_lower(c: char) -> (r: char)
    ensures
        r == lower(c),
{
    if 'A' <= c && c <= 'Z' {
        ((c as u8) + 32) as char
    } else {
        c
    }
}

// ---------------------------------------------------------------------------
// Between strings and character vectors
// ---------------------------------------------------------------------------

/// The characters of a string.
pub fn chars_of(s: &str) -> (v: Vec<char>)
    ensures
        v@ == s@,
{
    let mut v: Vec<char> = Vec::new();
    for c in it: s.chars()
        invariant
            it.seq() == s@,
            v@ == s@.take(it.index()),
    {
        proof {
            assert(s@.take(it.index() + 1) =~= s@.take(it.index()).push(c));
        }
        v.push(c);
    }
    assert(s@.take(s@.len() as int) =~= s@);
    v
}

/// The string of the characters `v[from..to]`.
pub fn string_of_range(v: &Vec<char>, from: usize, to: usize) -> (s: String)
    requires
        from <= to <= v@.len(),
    ensures
        s@ == v@.subrange(from as int, to as int),
{
    let mut s = String::new();
    let mut i: usize = from;
    while i < to
        invariant
            from <= i <= to <= v@.len(),
            s@ == v@.subrange(from as int, i as int),
        decreases to - i,
    {
        s.push(v[i]);
        i = i + 1;
        assert(v@.subrange(from as int, i as int) =~= v@.subrange(from as int, i - 1).push(
            v@[i - 1],
        ));
    }
    s
}

/// The string of a character vector.
pub fn string_of(v: &Vec<char>) -> (s: String)
    ensures
        s@ == v@,
{
    let s = string_of_range(v, 0, v.len());
    assert(v@.subrange(0, v@.len() as int) =~= v@);
    s
}

// ---------------------------------------------------------------------------
// Lines
// ---------------------------------------------------------------------------

/// The first position of `c` in `s`.
pub open spec fn index_of(s: Seq<char>, c: char) -> Option<int>
    decreases s.len(),
{
    if s.len() == 0 {
        None
    } else if s[0] == c {
        Some(0)
    } else {
        match index_of(s.skip(1), c) {
            Some(k) => Some(k + 1),
            None => None,
        }
    }
}

/// A terminated line without the carriage return before its line feed.
pub open spec fn without_cr(s: Seq<char>) -> Seq<char> {
    if s.len() > 0 && s.last() == '\r' {
        s.drop_last()
    } else {
        s
    }
}

/// The lines of a text, as `str::lines` gives them: a line ends in a line feed
/// or in a carriage return and a line feed, and the last one may lack its end.
pub open spec fn lines(s: Seq<char>) -> Seq<Seq<char>>
    decreases s.len(),
{
    if s.len() == 0 {
        Seq::empty()
    } else {
        match index_of(s, '\n') {
            None => seq![s],
            Some(k) => if 0 <= k < s.len() {
                seq![without_cr(s.take(k))] + lines(s.skip(k + 1))
            } else {
                Seq::empty()
            },
        }
    }
}

/// The texts that the line feeds of `s` separate, the last one included even if
/// it is empty. The carriage returns before a line feed belong to neither.
pub open spec fn rows(s: Seq<char>) -> Seq<Seq<char>>
    decreases s.len(),
{
    match index_of(s, '\n') {
        Some(k) => if 0 <= k < s.len() {
            seq![without_trailing(s.take(k), '\r')] + rows(s.skip(k + 1))
        } else {
            Seq::empty()
        },
        None => seq![s],
    }
}

/// The parts one after the other with `sep` between neighbours.
pub open spec fn join(parts: Seq<Seq<char>>, sep: Seq<char>) -> Seq<char>
    decreases parts.len(),
{
    if parts.len() == 0 {
        Seq::empty()
    } else if parts.len() == 1 {
        parts[0]
    } else {
        join(parts.drop_last(), sep) + sep + parts.last()
    }
}

/// The views of a list of character vectors.
pub open spec fn texts(v: Seq<Vec<char>>) -> Seq<Seq<char>> {
    v.map_values(|t: Vec<char>| t@)
}

/// The views of a list of strings.
pub open spec fn strs(v: Seq<String>) -> Seq<Seq<char>> {
    v.map_values(|t: String| t@)
}

/// The views of a list of string slices.
pub open spec fn names(v: Seq<&'static str>) -> Seq<Seq<char>> {
    v.map_values(|s: &'static str| s@)
}

/// The end of the longest stretch from `i` on whose characters all satisfy `p`.
pub open spec fn run(t: Seq<char>, i: int, p: spec_fn(char) -> bool) -> int
    decreases t.len() - i,
{
    if 0 <= i < t.len() && p(t[i]) {
        run(t, i + 1, p)
    } else {
        i
    }
}

/// A run does not go back and does not leave the text.
pub proof fn lemma_run_bounds(t: Seq<char>, i: int, p: spec_fn(char) -> bool)
    requires
        0 <= i,
    ensures
        i <= run(t, i, p),
        i <= t.len() ==> run(t, i, p) <= t.len(),
        run(t, i, p) < t.len() ==> !p(t[run(t, i, p)]),
        forall|k: int| i <= k < run(t, i, p) ==> k < t.len() && p(#[trigger] t[k]),
    decreases t.len() - i,
{
    if i < t.len() && p(t[i]) {
        lemma_run_bounds(t, i + 1, p);
    }
}

/// A run ends where its characters do.
pub proof fn lemma_run_is(t: Seq<char>, i: int, e: int, p: spec_fn(char) -> bool)
    requires
        0 <= i <= e <= t.len(),
        forall|k: int| i <= k < e ==> p(#[trigger] t[k]),
        e < t.len() ==> !p(t[e]),
    ensures
        run(t, i, p) == e,
    decreases e - i,
{
    if i < e {
        assert(p(t[i]));
        lemma_run_is(t, i + 1, e, p);
    }
}

pub proof fn lemma_index_of(s: Seq<char>, c: char)
    ensures
        match index_of(s, c) {
            Some(k) => 0 <= k < s.len() && s[k] == c && (forall|j: int| 0 <= j < k ==> s[j] != c),
            None => forall|j: int| 0 <= j < s.len() ==> s[j] != c,
        },
    decreases s.len(),
{
    if s.len() > 0 && s[0] != c {
        lemma_index_of(s.skip(1), c);
        let r = s.skip(1);
        assert forall|j: int| 0 < j < s.len() implies s[j] == r[j - 1] by {}
    }
}

/// The first position of `c` at or after `from` is found by scanning.
pub proof fn lemma_index_of_is(s: Seq<char>, c: char, k: int)
    requires
        0 <= k <= s.len(),
        forall|j: int| 0 <= j < k ==> s[j] != c,
        k < s.len() ==> s[k] == c,
    ensures
        index_of(s, c) == (if k < s.len() {
            Some(k)
        } else {
            None::<int>
        }),
{
    lemma_index_of(s, c);
}

/// The lines of `s`.
pub fn lines_of(s: &Vec<char>) -> (r: Vec<Vec<char>>)
    ensures
        texts(r@) == lines(s@),
{
    let mut out: Vec<Vec<char>> = Vec::new();
    let mut i: usize = 0;
    assert(s@.skip(0) =~= s@);
    assert(texts(out@) =~= Seq::<Seq<char>>::empty());
    while i < s.len()
        invariant
            i <= s@.len(),
            lines(s@) == texts(out@) + lines(s@.skip(i as int)),
        decreases s.len() - i,
    {
        let mut k: usize = i;
        while k < s.len() && s[k] != '\n'
            invariant
                i <= k <= s@.len(),
                forall|j: int| i <= j < k ==> s@[j] != '\n',
            decreases s.len() - k,
        {
            k = k + 1;
        }
        let ghost rest = s@.skip(i as int);
        let ghost before = texts(out@);
        proof {
            assert forall|j: int| 0 <= j < k - i implies rest[j] != '\n' by {
                assert(rest[j] == s@[j + i]);
            }
            lemma_index_of_is(rest, '\n', k - i);
        }
        let line: Vec<char>;
        if k < s.len() {
            let end: usize = if k > i && s[k - 1] == '\r' {
                k - 1
            } else {
                k
            };
            line = range_of(s, i, end);
            proof {
                assert(rest.take(k - i) =~= s@.subrange(i as int, k as int));
                assert(line@ =~= without_cr(rest.take(k - i)));
                assert(rest.skip(k - i + 1) =~= s@.skip(k + 1));
                assert(lines(rest) == seq![line@] + lines(s@.skip(k + 1)));
            }
            i = k + 1;
        } else {
            line = range_of(s, i, k);
            proof {
                assert(line@ =~= rest);
                assert(lines(s@.skip(k as int)) =~= Seq::<Seq<char>>::empty());
                assert(lines(rest) =~= seq![line@] + lines(s@.skip(k as int)));
            }
            i = k;
        }
        let ghost l = line@;
        out.push(line);
        proof {
            assert(texts(out@) =~= before.push(l));
            assert(before + (seq![l] + lines(s@.skip(i as int))) =~= before.push(l) + lines(
                s@.skip(i as int),
            ));
        }
    }
    assert(lines(s@.skip(i as int)) =~= Seq::<Seq<char>>::empty());
    out
}

/// The rows of `s`.
pub fn rows_of(s: &Vec<char>) -> (r: Vec<Vec<char>>)
    ensures
        texts(r@) == rows(s@),
{
    let mut out: Vec<Vec<char>> = Vec::new();
    let mut i: usize = 0;
    let mut k: usize = 0;
    assert(s@.skip(0) =~= s@);
    assert(texts(out@) =~= Seq::<Seq<char>>::empty());
    while k < s.len()
        invariant
            i <= k <= s@.len(),
            forall|j: int| i <= j < k ==> s@[j] != '\n',
            rows(s@) == texts(out@) + rows(s@.skip(i as int)),
        decreases s.len() - k,
    {
        if s[k] == '\n' {
            let row = without_trailing_of(&range_of(s, i, k), '\r');
            let ghost rest = s@.skip(i as int);
            let ghost before = texts(out@);
            let ghost l = row@;
            proof {
                assert forall|j: int| 0 <= j < k - i implies rest[j] != '\n' by {
                    assert(rest[j] == s@[j + i]);
                }
                lemma_index_of_is(rest, '\n', k - i);
                assert(rest.take(k - i) =~= s@.subrange(i as int, k as int));
                assert(rest.skip(k - i + 1) =~= s@.skip(k + 1));
            }
            out.push(row);
            i = k + 1;
            proof {
                assert(texts(out@) =~= before.push(l));
                assert(before + (seq![l] + rows(s@.skip(i as int))) =~= before.push(l) + rows(
                    s@.skip(i as int),
                ));
            }
        }
        k = k + 1;
    }
    let row = range_of(s, i, k);
    let ghost before = texts(out@);
    let ghost l = row@;
    proof {
        let rest = s@.skip(i as int);
        assert(l =~= rest);
        assert forall|j: int| 0 <= j < rest.len() implies rest[j] != '\n' by {
            assert(rest[j] == s@[j + i]);
        }
        lemma_index_of_is(rest, '\n', rest.len() as int);
    }
    out.push(row);
    assert(texts(out@) =~= before.push(l));
    assert(before + seq![l] =~= before.push(l));
    out
}

/// A copy of the characters `s[from..to]`.
pub fn range_of(s: &Vec<char>, from: usize, to: usize) -> (r: Vec<char>)
    requires
        from <= to <= s@.len(),
    ensures
        r@ == s@.subrange(from as int, to as int),
{
    let mut r: Vec<char> = Vec::new();
    put_range(s, from, to, &mut r);
    assert(r@ =~= s@.subrange(from as int, to as int));
    r
}

/// Appends the characters `s[from..to]` to `out`.
pub fn put_range(s: &Vec<char>, from: usize, to: usize, out: &mut Vec<char>)
    requires
        from <= to <= s@.len(),
    ensures
        final(out)@ == old(out)@ + s@.subrange(from as int, to as int),
{
    let ghost before = out@;
    let mut i: usize = from;
    while i < to
        invariant
            from <= i <= to <= s@.len(),
            out@ == before + s@.subrange(from as int, i as int),
        decreases to - i,
    {
        out.push(s[i]);
        i = i + 1;
        assert(before + s@.subrange(from as int, i as int) =~= (before + s@.subrange(
            from as int,
            i - 1,
        )).push(s@[i - 1]));
    }
}

/// Appends a string.
pub fn put_str(s: &str, out: &mut Vec<char>)
    ensures
        final(out)@ == old(out)@ + s@,
{
    put_all(&chars_of(s), out);
}

/// Appends all of `s` to `out`.
pub fn put_all(s: &Vec<char>, out: &mut Vec<char>)
    ensures
        final(out)@ == old(out)@ + s@,
{
    put_range(s, 0, s.len(), out);
    assert(s@.subrange(0, s@.len() as int) =~= s@);
}

/// The parts joined with `sep`.
pub fn join_of(parts: &Vec<Vec<char>>, sep: &Vec<char>) -> (r: Vec<char>)
    ensures
        r@ == join(texts(parts@), sep@),
{
    let mut out: Vec<char> = Vec::new();
    let mut i: usize = 0;
    let ghost all = texts(parts@);
    while i < parts.len()
        invariant
            i <= parts@.len(),
            all == texts(parts@),
            out@ == join(all.take(i as int), sep@),
        decreases parts.len() - i,
    {
        if i > 0 {
            put_all(sep, &mut out);
        }
        put_all(&parts[i], &mut out);
        proof {
            let t = all.take(i + 1);
            assert(t.drop_last() =~= all.take(i as int));
            assert(t.last() == parts@[i as int]@);
        }
        i = i + 1;
    }
    assert(all.take(i as int) =~= all);
    out
}

/// Joining from the front.
pub proof fn lemma_join_front(parts: Seq<Seq<char>>, sep: Seq<char>)
    requires
        parts.len() >= 2,
    ensures
        join(parts, sep) == parts[0] + sep + join(parts.skip(1), sep),
    decreases parts.len(),
{
    let rest = parts.skip(1);
    if parts.len() == 2 {
        assert(join(parts.drop_last(), sep) == parts[0]);
        assert(join(rest, sep) == parts[1]);
    } else {
        let front = parts.drop_last();
        lemma_join_front(front, sep);
        assert(front.skip(1) =~= rest.drop_last());
        let m = join(rest.drop_last(), sep);
        assert(parts[0] + sep + m + sep + parts.last() =~= parts[0] + sep + (m + sep
            + parts.last()));
    }
}

// ---------------------------------------------------------------------------
// Trimming
// ---------------------------------------------------------------------------

/// `s` without the white space at its start.
pub open spec fn trim_start(s: Seq<char>) -> Seq<char>
    decreases s.len(),
{
    if s.len() > 0 && white_space(s[0]) {
        trim_start(s.skip(1))
    } else {
        s
    }
}

/// `s` without the white space at its end.
pub open spec fn trim_end(s: Seq<char>) -> Seq<char>
    decreases s.len(),
{
    if s.len() > 0 && white_space(s.last()) {
        trim_end(s.drop_last())
    } else {
        s
    }
}

/// `s` without the white space at either end.
pub open spec fn trim(s: Seq<char>) -> Seq<char> {
    trim_end(trim_start(s))
}

pub proof fn lemma_trim_start(s: Seq<char>, k: int)
    requires
        0 <= k <= s.len(),
        forall|j: int| 0 <= j < k ==> white_space(#[trigger] s[j]),
        k < s.len() ==> !white_space(s[k]),
    ensures
        trim_start(s) == s.skip(k),
    decreases k,
{
    if k == 0 {
        assert(s.skip(0) =~= s);
    } else {
        let t = s.skip(1);
        assert(white_space(s[0]));
        assert forall|j: int| 0 <= j < k - 1 implies white_space(#[trigger] t[j]) by {
            assert(t[j] == s[j + 1]);
        }
        lemma_trim_start(t, k - 1);
        assert(t.skip(k - 1) =~= s.skip(k));
    }
}

pub proof fn lemma_trim_end(s: Seq<char>, k: int)
    requires
        0 <= k <= s.len(),
        forall|j: int| k <= j < s.len() ==> white_space(#[trigger] s[j]),
        k > 0 ==> !white_space(s[k - 1]),
    ensures
        trim_end(s) == s.take(k),
    decreases s.len(),
{
    if k == s.len() {
        assert(s.take(k) =~= s);
    } else {
        assert(white_space(s[s.len() - 1]));
        let t = s.drop_last();
        assert forall|j: int| k <= j < t.len() implies white_space(#[trigger] t[j]) by {
            assert(t[j] == s[j]);
        }
        lemma_trim_end(t, k);
        assert(t.take(k) =~= s.take(k));
    }
}

/// Trimming takes white space from the two ends and nothing else: what is left is
/// a stretch of the text outside of which there is only white space, and which
/// neither begins nor ends with any.
pub proof fn law_trim(t: Seq<char>) -> (r: (int, int))
    ensures
        0 <= r.0 <= r.1 <= t.len(),
        trim(t) == t.subrange(r.0, r.1),
        forall|i: int| 0 <= i < r.0 || r.1 <= i < t.len() ==> white_space(#[trigger] t[i]),
        r.0 < r.1 ==> !white_space(t[r.0]) && !white_space(t[r.1 - 1]),
{
    let a = lemma_first_black(t, 0);
    lemma_trim_start(t, a);
    let u = t.skip(a);
    let k = lemma_last_black(u, u.len() as int);
    lemma_trim_end(u, k);
    assert(u.take(k) =~= t.subrange(a, a + k));
    assert forall|i: int| 0 <= i < a || a + k <= i < t.len() implies white_space(
        #[trigger] t[i],
    ) by {
        if i >= a + k {
            assert(t[i] == u[i - a]);
        }
    }
    if k > 0 {
        assert(u[k - 1] == t[a + k - 1]);
    }
    (a, a + k)
}

proof fn lemma_first_black(t: Seq<char>, i: int) -> (a: int)
    requires
        0 <= i <= t.len(),
        forall|j: int| 0 <= j < i ==> white_space(#[trigger] t[j]),
    ensures
        i <= a <= t.len(),
        forall|j: int| 0 <= j < a ==> white_space(#[trigger] t[j]),
        a < t.len() ==> !white_space(t[a]),
    decreases t.len() - i,
{
    if i < t.len() && white_space(t[i]) {
        lemma_first_black(t, i + 1)
    } else {
        i
    }
}

proof fn lemma_last_black(t: Seq<char>, i: int) -> (k: int)
    requires
        0 <= i <= t.len(),
        forall|j: int| i <= j < t.len() ==> white_space(#[trigger] t[j]),
    ensures
        0 <= k <= i,
        forall|j: int| k <= j < t.len() ==> white_space(#[trigger] t[j]),
        k > 0 ==> !white_space(t[k - 1]),
    decreases i,
{
    if i > 0 && white_space(t[i - 1]) {
        lemma_last_black(t, i - 1)
    } else {
        i
    }
}

/// The first position from `from` on that is no white space.
fn skip_space(v: &Vec<char>, from: usize) -> (i: usize)
    requires
        from <= v@.len(),
    ensures
        from <= i <= v@.len(),
        forall|j: int| from <= j < i ==> white_space(#[trigger] v@[j]),
        i < v@.len() ==> !white_space(v@[i as int]),
{
    let mut i: usize = from;
    while i < v.len() && is_white_space(v[i])
        invariant
            from <= i <= v@.len(),
            forall|j: int| from <= j < i ==> white_space(#[trigger] v@[j]),
        decreases v.len() - i,
    {
        i = i + 1;
    }
    i
}

pub fn trim_start_of(v: &Vec<char>) -> (r: Vec<char>)
    ensures
        r@ == trim_start(v@),
{
    let i = skip_space(v, 0);
    proof {
        lemma_trim_start(v@, i as int);
        assert(v@.skip(i as int) =~= v@.subrange(i as int, v@.len() as int));
    }
    range_of(v, i, v.len())
}

pub fn trim_of(v: &Vec<char>) -> (r: Vec<char>)
    ensures
        r@ == trim(v@),
{
    let i = skip_space(v, 0);
    let mut j: usize = v.len();
    while j > i && is_white_space(v[j - 1])
        invariant
            i <= j <= v@.len(),
            forall|k: int| j <= k < v@.len() ==> white_space(#[trigger] v@[k]),
        decreases j,
    {
        j = j - 1;
    }
    proof {
        lemma_trim_start(v@, i as int);
        let t = v@.skip(i as int);
        assert forall|k: int| j - i <= k < t.len() implies white_space(#[trigger] t[k]) by {
            assert(t[k] == v@[k + i]);
        }
        lemma_trim_end(t, j - i);
        assert(t.take(j - i) =~= v@.subrange(i as int, j as int));
    }
    range_of(v, i, j)
}

/// The trimmed text of a string.
pub fn trimmed(s: &str) -> (r: String)
    ensures
        r@ == trim(s@),
{
    string_of(&trim_of(&chars_of(s)))
}

// ---------------------------------------------------------------------------
// Finding and replacing
// ---------------------------------------------------------------------------

/// `s` stands in `t` at position `i`.
pub open spec fn stands_at(t: Seq<char>, i: int, s: Seq<char>) -> bool {
    0 <= i && i + s.len() <= t.len() && t.subrange(i, i + s.len()) == s
}

/// The first position from `i` on at which `s` stands in `t`.
pub open spec fn first_at(t: Seq<char>, i: int, s: Seq<char>) -> Option<int>
    decreases t.len() + 1 - i,
{
    if i < 0 || i > t.len() {
        None
    } else if stands_at(t, i, s) {
        Some(i)
    } else {
        first_at(t, i + 1, s)
    }
}

/// The last position up to `i` at which `s` stands in `t`.
pub open spec fn last_at(t: Seq<char>, i: int, s: Seq<char>) -> Option<int>
    decreases i + 1,
{
    if i < 0 {
        None
    } else if stands_at(t, i, s) {
        Some(i)
    } else {
        last_at(t, i - 1, s)
    }
}

/// The last position at which `p` stands.
pub fn rfind_of(v: &Vec<char>, p: &Vec<char>) -> (r: Option<usize>)
    ensures
        match r {
            Some(k) => last_at(v@, v@.len() as int, p@) == Some(k as int) && stands_at(
                v@,
                k as int,
                p@,
            ),
            None => last_at(v@, v@.len() as int, p@) is None,
        },
{
    let mut i: usize = v.len();
    while i > 0
        invariant
            i <= v@.len(),
            last_at(v@, v@.len() as int, p@) == last_at(v@, i as int, p@),
        decreases i,
    {
        if has_at(v, i, p) {
            return Some(i);
        }
        i = i - 1;
    }
    if has_at(v, 0, p) {
        return Some(0);
    }
    assert(last_at(v@, -1, p@) is None);
    None
}

/// `s` stands somewhere in `t`.
pub open spec fn contains_text(t: Seq<char>, s: Seq<char>) -> bool {
    exists|i: int| #[trigger] stands_at(t, i, s)
}

/// What [`first_at`] finds stands there.
pub proof fn lemma_first_at(t: Seq<char>, i: int, s: Seq<char>)
    ensures
        first_at(t, i, s) matches Some(k) ==> i <= k && stands_at(
            t,
            k,
            s,
        ),
    decreases t.len() + 1 - i,
{
    if 0 <= i <= t.len() && !stands_at(t, i, s) {
        lemma_first_at(t, i + 1, s);
    }
}

/// What stands somewhere from `i` on is found, there or earlier.
pub proof fn law_first_at_is_first(t: Seq<char>, i: int, s: Seq<char>, k: int)
    requires
        0 <= i <= k,
        stands_at(t, k, s),
    ensures
        first_at(t, i, s) matches Some(m) && i <= m <= k && stands_at(t, m, s),
    decreases k - i,
{
    if !stands_at(t, i, s) {
        law_first_at_is_first(t, i + 1, s, k);
    }
}

/// What stands somewhere up to `i` is found from behind, there or later.
pub proof fn law_last_at_is_last(t: Seq<char>, i: int, s: Seq<char>, k: int)
    requires
        0 <= k <= i,
        stands_at(t, k, s),
    ensures
        last_at(t, i, s) matches Some(m) && k <= m <= i && stands_at(t, m, s),
    decreases i - k,
{
    if !stands_at(t, i, s) {
        law_last_at_is_last(t, i - 1, s, k);
    }
}

/// Whether `p` stands in `v` at `i`.
pub fn has_at(v: &Vec<char>, i: usize, p: &Vec<char>) -> (r: bool)
    ensures
        r == stands_at(v@, i as int, p@),
{
    let n = p.len();
    let len = v.len();
    if i > len || n > len - i {
        return false;
    }
    let mut k: usize = 0;
    while k < n
        invariant
            k <= n,
            n == p@.len(),
            len == v@.len(),
            i + n <= len,
            forall|j: int| 0 <= j < k ==> v@[i + j] == #[trigger] p@[j],
        decreases n - k,
    {
        if v[i + k] != p[k] {
            proof {
                assert(v@.subrange(i as int, i + n)[k as int] != p@[k as int]);
            }
            return false;
        }
        k = k + 1;
    }
    assert(v@.subrange(i as int, i + n) =~= p@);
    true
}

/// The first position from `from` on at which `p` stands.
pub fn find_at(v: &Vec<char>, from: usize, p: &Vec<char>) -> (r: Option<usize>)
    requires
        from <= v@.len(),
    ensures
        match r {
            Some(k) => first_at(v@, from as int, p@) == Some(k as int),
            None => first_at(v@, from as int, p@) is None,
        },
{
    let mut i: usize = from;
    let len = v.len();
    while i < len
        invariant
            from <= i <= len,
            len == v@.len(),
            first_at(v@, from as int, p@) == first_at(v@, i as int, p@),
        decreases len - i,
    {
        if has_at(v, i, p) {
            return Some(i);
        }
        i = i + 1;
    }
    if has_at(v, i, p) {
        return Some(i);
    }
    assert(first_at(v@, i + 1, p@) is None);
    None
}

/// `t` with every occurrence of `p` replaced by `q`, from the left and without
/// overlaps. `p` is not empty.
pub open spec fn replaced(t: Seq<char>, p: Seq<char>, q: Seq<char>) -> Seq<char>
    decreases t.len(),
{
    if t.len() == 0 || p.len() == 0 {
        t
    } else if stands_at(t, 0, p) {
        q + replaced(t.skip(p.len() as int), p, q)
    } else {
        seq![t[0]] + replaced(t.skip(1), p, q)
    }
}

/// Where `p` does not stand nothing is replaced.
pub proof fn lemma_replaced_absent(t: Seq<char>, p: Seq<char>, q: Seq<char>)
    requires
        !contains_text(t, p),
    ensures
        replaced(t, p, q) == t,
    decreases t.len(),
{
    if t.len() > 0 && p.len() > 0 {
        let u = t.skip(1);
        assert(!stands_at(t, 0, p));
        assert forall|i: int| !#[trigger] stands_at(u, i, p) by {
            if stands_at(u, i, p) {
                assert(u.subrange(i, i + p.len()) =~= t.subrange(i + 1, i + 1 + p.len()));
                assert(stands_at(t, i + 1, p));
            }
        }
        lemma_replaced_absent(u, p, q);
        assert(seq![t[0]] + u =~= t);
    }
}

pub fn replace_of(v: &Vec<char>, p: &Vec<char>, q: &Vec<char>) -> (r: Vec<char>)
    requires
        p@.len() > 0,
    ensures
        r@ == replaced(v@, p@, q@),
{
    let mut out: Vec<char> = Vec::new();
    let mut i: usize = 0;
    assert(v@.skip(0) =~= v@);
    while i < v.len()
        invariant
            i <= v@.len(),
            p@.len() > 0,
            replaced(v@, p@, q@) == out@ + replaced(v@.skip(i as int), p@, q@),
        decreases v.len() - i,
    {
        let ghost t = v@.skip(i as int);
        let ghost before = out@;
        let here = has_at(v, i, p);
        proof {
            if i + p@.len() <= v@.len() {
                assert(t.subrange(0, p@.len() as int) =~= v@.subrange(i as int, i + p@.len()));
            }
            assert(here == stands_at(t, 0, p@));
        }
        if here {
            put_all(q, &mut out);
            proof {
                let n = p@.len() as int;
                assert(t.skip(n) =~= v@.skip(i + n));
                let z = replaced(v@.skip(i + n), p@, q@);
                assert(before + (q@ + z) =~= before + q@ + z);
            }
            i = i + p.len();
        } else {
            out.push(v[i]);
            proof {
                assert(t.skip(1) =~= v@.skip(i + 1));
                let z = replaced(v@.skip(i + 1), p@, q@);
                assert(before + (seq![t[0]] + z) =~= before.push(t[0]) + z);
            }
            i = i + 1;
        }
    }
    assert(replaced(v@.skip(i as int), p@, q@) =~= Seq::<char>::empty());
    assert(out@ + Seq::<char>::empty() =~= out@);
    out
}

/// Whether two character vectors hold the same text.
pub fn same_text(a: &Vec<char>, b: &Vec<char>) -> (r: bool)
    ensures
        r == (a@ == b@),
{
    if a.len() != b.len() {
        return false;
    }
    let r = has_at(a, 0, b);
    assert(a@.subrange(0, a@.len() as int) =~= a@);
    r
}

/// Whether two strings hold the same text.
pub fn same_str(a: &str, b: &str) -> (r: bool)
    ensures
        r == (a@ == b@),
{
    same_text(&chars_of(a), &chars_of(b))
}

// ---------------------------------------------------------------------------
// Numbers
// ---------------------------------------------------------------------------

/// The decimal digit of a number below ten.
pub open spec fn digit(n: int) -> char {
    (n + 48) as char
}

/// The decimal notation of a number.
pub open spec fn decimal(n: nat) -> Seq<char>
    decreases n,
{
    if n < 10 {
        seq![digit(n as int)]
    } else {
        decimal(n / 10).push(digit((n % 10) as int))
    }
}

/// Appends the decimal notation of `n`.
pub fn put_decimal(n: u64, out: &mut Vec<char>)
    ensures
        final(out)@ == old(out)@ + decimal(n as nat),
    decreases n,
{
    if n < 10 {
        out.push(((n as u8) + 48) as char);
    } else {
        put_decimal(n / 10, out);
        out.push((((n % 10) as u8) + 48) as char);
    }
}

/// The number that a text of digits denotes.
pub open spec fn number(t: Seq<char>) -> nat
    decreases t.len(),
{
    if t.len() == 0 {
        0
    } else {
        (number(t.drop_last()) * 10 + (t.last() as nat - '0' as nat)) as nat
    }
}

pub open spec fn all_digits(t: Seq<char>) -> bool {
    forall|i: int| 0 <= i < t.len() ==> ascii_digit(#[trigger] t[i])
}

/// More digits denote no smaller number.
pub proof fn lemma_number_grows(t: Seq<char>, k: int)
    requires
        0 <= k <= t.len(),
        all_digits(t),
    ensures
        number(t.take(k)) <= number(t),
    decreases t.len() - k,
{
    if k < t.len() {
        lemma_number_grows(t, k + 1);
        assert(t.take(k + 1).drop_last() =~= t.take(k));
        assert(ascii_digit(t[k]));
    } else {
        assert(t.take(k) =~= t);
    }
}

/// The number that `v[from..to]` denotes, if it is made of digits and fits.
pub fn digits_value(v: &Vec<char>, from: usize, to: usize) -> (r: Option<u64>)
    requires
        from <= to <= v@.len(),
    ensures
        match r {
            Some(n) => all_digits(v@.subrange(from as int, to as int)) && n == number(
                v@.subrange(from as int, to as int),
            ),
            None => !all_digits(v@.subrange(from as int, to as int)) || number(
                v@.subrange(from as int, to as int),
            ) > u64::MAX,
        },
{
    let ghost t = v@.subrange(from as int, to as int);
    let mut i: usize = from;
    while i < to
        invariant
            from <= i <= to <= v@.len(),
            t == v@.subrange(from as int, to as int),
            forall|j: int| 0 <= j < i - from ==> ascii_digit(#[trigger] t[j]),
        decreases to - i,
    {
        if !is_digit(v[i]) {
            assert(!ascii_digit(t[i - from]));
            return None;
        }
        assert(t[i - from] == v@[i as int]);
        i = i + 1;
    }
    assert(all_digits(t));
    let mut n: u64 = 0;
    let mut k: usize = from;
    assert(t.take(0) =~= Seq::<char>::empty());
    while k < to
        invariant
            from <= k <= to <= v@.len(),
            t == v@.subrange(from as int, to as int),
            all_digits(t),
            n == number(t.take(k - from)),
        decreases to - k,
    {
        let c = v[k];
        assert(t[k - from] == c);
        assert(ascii_digit(t[k - from]));
        let d: u64 = (c as u8 - 48) as u64;
        proof {
            assert(t.take(k - from + 1).drop_last() =~= t.take(k - from));
            assert(number(t.take(k - from + 1)) == n * 10 + d);
            lemma_number_grows(t, k - from + 1);
        }
        if n > u64::MAX / 10 || n * 10 > u64::MAX - d {
            return None;
        }
        n = n * 10 + d;
        k = k + 1;
    }
    assert(t.take(k - from) =~= t);
    Some(n)
}

/// What `str::parse` makes of a text as an unsigned number: digits, perhaps
/// behind a plus sign, within range.
pub open spec fn parsed(t: Seq<char>) -> Option<u64> {
    let d = if t.len() > 0 && t[0] == '+' {
        t.skip(1)
    } else {
        t
    };
    if d.len() > 0 && all_digits(d) && number(d) <= u64::MAX {
        Some(number(d) as u64)
    } else {
        None
    }
}

/// A number is read back from its decimal notation, which consists of digits.
pub proof fn law_decimal_read_back(n: nat)
    ensures
        decimal(n).len() > 0,
        all_digits(decimal(n)),
        number(decimal(n)) == n,
        n <= u64::MAX ==> parsed(decimal(n)) == Some(n as u64),
    decreases n,
{
    let d = decimal(n);
    if n < 10 {
        assert(d[0] == digit(n as int));
        assert(d.drop_last() =~= Seq::<char>::empty());
        assert(number(Seq::<char>::empty()) == 0);
        assert(all_digits(d));
    } else {
        law_decimal_read_back(n / 10);
        let u = decimal(n / 10);
        let l = digit((n % 10) as int);
        assert(d.drop_last() =~= u);
        assert(d.last() == l);
        assert forall|i: int| 0 <= i < d.len() implies ascii_digit(#[trigger] d[i]) by {
            if i < u.len() {
                assert(d[i] == u[i]);
            }
        }
    }
    assert(ascii_digit(d[0]));
}

/// Parses an unsigned number.
pub fn parse_number(s: &str) -> (r: Option<u64>)
    ensures
        r == parsed(s@),
{
    let v = chars_of(s);
    let from: usize = if v.len() > 0 && v[0] == '+' {
        1
    } else {
        0
    };
    proof {
        assert(v@.subrange(1, v@.len() as int) =~= v@.skip(1)) by {
            if v@.len() == 0 {
            }
        }
        assert(v@.subrange(0, v@.len() as int) =~= v@);
    }
    if from == v.len() {
        return None;
    }
    digits_value(&v, from, v.len())
}

// ---------------------------------------------------------------------------
// Case, lists of names, words
// ---------------------------------------------------------------------------

/// The ASCII lower case of a text.
pub fn lowered_of(v: &Vec<char>) -> (r: Vec<char>)
    ensures
        r@ == lowered(v@),
{
    let mut r: Vec<char> = Vec::new();
    let mut i: usize = 0;
    while i < v.len()
        invariant
            i <= v@.len(),
            r@ == lowered(v@).take(i as int),
        decreases v.len() - i,
    {
        r.push(to_lower(v[i]));
        assert(lowered(v@).take(i + 1) =~= lowered(v@).take(i as int).push(lower(v@[i as int])));
        i = i + 1;
    }
    assert(lowered(v@).take(i as int) =~= lowered(v@));
    r
}

/// What `str::to_lowercase` makes of a text.
pub uninterp spec fn lowercase(s: Seq<char>) -> Seq<char>;

/// `str::to_lowercase`: the Unicode lower case of a text, which for an ASCII
/// text is its ASCII lower case.
#[verifier::external_body]
pub(crate) fn to_lowercase(s: &str) -> (r: String)
    ensures
        r@ == lowercase(s@),
        (forall|i: int| 0 <= i < s@.len() ==> #[trigger] s@[i] <= '\u{7f}') ==> r@ == lowered(s@),
{
    s.to_lowercase()
}

/// Whether `v` is one of the names.
pub fn is_one_of(v: &Vec<char>, list: &Vec<&'static str>) -> (r: bool)
    ensures
        r == names(list@).contains(v@),
{
    let ghost all = names(list@);
    let mut k: usize = 0;
    assert(all.len() == list@.len());
    while k < list.len()
        invariant
            k <= list@.len(),
            all == names(list@),
            all.len() == list@.len(),
            forall|j: int| 0 <= j < k ==> v@ != #[trigger] all[j],
        decreases list.len() - k,
    {
        let l = chars_of(list[k]);
        assert(all[k as int] == l@);
        if same_text(v, &l) {
            assert(all[k as int] == v@);
            return true;
        }
        k = k + 1;
    }
    false
}

/// `s` without the characters `c` at its end.
pub open spec fn without_trailing(s: Seq<char>, c: char) -> Seq<char>
    decreases s.len(),
{
    if s.len() > 0 && s.last() == c {
        without_trailing(s.drop_last(), c)
    } else {
        s
    }
}

pub fn without_trailing_of(v: &Vec<char>, c: char) -> (r: Vec<char>)
    ensures
        r@ == without_trailing(v@, c),
{
    let mut j: usize = v.len();
    assert(v@.take(v@.len() as int) =~= v@);
    while j > 0 && v[j - 1] == c
        invariant
            j <= v@.len(),
            without_trailing(v@, c) == without_trailing(v@.take(j as int), c),
        decreases j,
    {
        assert(v@.take(j as int).drop_last() =~= v@.take(j - 1));
        j = j - 1;
    }
    assert(v@.take(j as int) =~= v@.subrange(0, j as int));
    range_of(v, 0, j)
}

/// `p` ends `s`.
pub open spec fn ends_with(s: Seq<char>, p: Seq<char>) -> bool {
    stands_at(s, s.len() - p.len(), p)
}

pub fn ends_with_of(v: &Vec<char>, p: &Vec<char>) -> (r: bool)
    ensures
        r == ends_with(v@, p@),
{
    if p.len() > v.len() {
        false
    } else {
        has_at(v, v.len() - p.len(), p)
    }
}

/// What separates the parts of a text.
#[derive(Clone, Copy, Debug, PartialEq, Eq, Structural)]
pub enum Separator {
    /// Any white space.
    White,
    /// ASCII white space.
    AsciiSpace,
    /// A slash.
    Slash,
}

impl Separator {
    pub open spec fn separates(self, c: char) -> bool {
        match self {
            Separator::White => white_space(c),
            Separator::AsciiSpace => ascii_space(c),
            Separator::Slash => c == '/',
        }
    }

    pub open spec fn yes(self) -> spec_fn(char) -> bool {
        |c: char| self.separates(c)
    }

    pub open spec fn no(self) -> spec_fn(char) -> bool {
        |c: char| !self.separates(c)
    }

    fn is_at(self, c: char) -> (r: bool)
        ensures
            r == self.separates(c),
    {
        match self {
            Separator::White => is_white_space(c),
            Separator::AsciiSpace => is_ascii_space(c),
            Separator::Slash => c == '/',
        }
    }
}

pub open spec fn ascii_space(c: char) -> bool {
    c == ' ' || c == '\t' || c == '\n' || c == '\u{c}' || c == '\r'
}

pub fn is_ascii_space(c: char) -> (r: bool)
    ensures
        r == ascii_space(c),
{
    c == ' ' || c == '\t' || c == '\n' || c == '\u{c}' || c == '\r'
}

/// The parts of `t` from `i` on that stand between separators; none is empty.
pub open spec fn parts(sep: Separator, t: Seq<char>, i: int) -> Seq<Seq<char>>
    decreases t.len() - i,
{
    let a = run(t, i, sep.yes());
    let b = run(t, a, sep.no());
    if 0 <= i < b <= t.len() && a < b {
        seq![t.subrange(a, b)] + parts(sep, t, b)
    } else {
        Seq::empty()
    }
}

pub fn parts_of(sep: Separator, t: &Vec<char>) -> (r: Vec<Vec<char>>)
    ensures
        texts(r@) == parts(sep, t@, 0),
{
    let mut out: Vec<Vec<char>> = Vec::new();
    let mut i: usize = 0;
    let len = t.len();
    assert(texts(out@) =~= Seq::<Seq<char>>::empty());
    loop
        invariant
            i <= len,
            len == t@.len(),
            parts(sep, t@, 0) == texts(out@) + parts(sep, t@, i as int),
        decreases len - i,
    {
        let mut a: usize = i;
        while a < len && sep.is_at(t[a])
            invariant
                i <= a <= len,
                len == t@.len(),
                run(t@, i as int, sep.yes()) == run(t@, a as int, sep.yes()),
            decreases len - a,
        {
            a = a + 1;
        }
        let mut b: usize = a;
        while b < len && !sep.is_at(t[b])
            invariant
                a <= b <= len,
                len == t@.len(),
                run(t@, a as int, sep.no()) == run(t@, b as int, sep.no()),
            decreases len - b,
        {
            b = b + 1;
        }
        proof {
            assert(run(t@, i as int, sep.yes()) == a);
            assert(run(t@, a as int, sep.no()) == b);
        }
        if b == a {
            assert(parts(sep, t@, i as int) =~= Seq::<Seq<char>>::empty());
            assert(texts(out@) + Seq::<Seq<char>>::empty() =~= texts(out@));
            return out;
        }
        let w = range_of(t, a, b);
        let ghost before = texts(out@);
        let ghost x = w@;
        out.push(w);
        proof {
            assert(texts(out@) =~= before.push(x));
            assert(parts(sep, t@, i as int) == seq![x] + parts(sep, t@, b as int));
            assert(before + (seq![x] + parts(sep, t@, b as int)) =~= before.push(x) + parts(
                sep,
                t@,
                b as int,
            ));
        }
        i = b;
    }
}

// ---------------------------------------------------------------------------
// Bytes
// ---------------------------------------------------------------------------

/// The number of bytes of a character in UTF-8.
pub open spec fn char_bytes(c: char) -> nat {
    if c <= '\u{7f}' {
        1
    } else if c <= '\u{7ff}' {
        2
    } else if c <= '\u{ffff}' {
        3
    } else {
        4
    }
}

/// The number of bytes of a text in UTF-8.
pub open spec fn byte_count(t: Seq<char>) -> nat
    decreases t.len(),
{
    if t.len() == 0 {
        0
    } else {
        byte_count(t.drop_last()) + char_bytes(t.last())
    }
}

pub fn char_bytes_of(c: char) -> (n: usize)
    ensures
        n == char_bytes(c),
{
    if c <= '\u{7f}' {
        1
    } else if c <= '\u{7ff}' {
        2
    } else if c <= '\u{ffff}' {
        3
    } else {
        4
    }
}

/// How many characters of `t` fit into `most` bytes.
pub open spec fn chars_within(t: Seq<char>, most: nat) -> nat
    decreases t.len(),
{
    if byte_count(t) <= most || t.len() == 0 {
        t.len()
    } else {
        chars_within(t.drop_last(), most)
    }
}

/// A longer text has no fewer bytes.
pub proof fn lemma_bytes_grow(t: Seq<char>, k: int)
    requires
        0 <= k <= t.len(),
    ensures
        byte_count(t.take(k)) <= byte_count(t),
        k < t.len() ==> byte_count(t.take(k)) < byte_count(t),
    decreases t.len(),
{
    if k < t.len() {
        lemma_bytes_grow(t.drop_last(), k);
        assert(t.drop_last().take(k) =~= t.take(k));
    } else {
        assert(t.take(k) =~= t);
    }
}

proof fn lemma_chars_within(t: Seq<char>, most: nat, k: int)
    requires
        0 <= k <= t.len(),
        byte_count(t.take(k)) <= most,
        k < t.len() ==> byte_count(t.take(k + 1)) > most,
    ensures
        chars_within(t, most) == k,
    decreases t.len(),
{
    if k == t.len() {
        assert(t.take(k) =~= t);
    } else {
        lemma_bytes_grow(t, k + 1);
        if k + 1 < t.len() {
            assert(t.drop_last().take(k) =~= t.take(k));
            assert(t.drop_last().take(k + 1) =~= t.take(k + 1));
        } else {
            assert(t.drop_last() =~= t.take(k));
            assert(t.drop_last().take(k) =~= t.take(k));
        }
        lemma_chars_within(t.drop_last(), most, k);
    }
}

/// The number of characters of `v` that fit into `most` bytes.
pub fn count_within(v: &Vec<char>, most: usize) -> (n: usize)
    ensures
        n == chars_within(v@, most as nat),
        n <= v@.len(),
        byte_count(v@.take(n as int)) <= most,
        n < v@.len() ==> byte_count(v@.take(n + 1)) > most,
{
    let mut used: usize = 0;
    let mut i: usize = 0;
    assert(v@.take(0) =~= Seq::<char>::empty());
    while i < v.len()
        invariant
            i <= v@.len(),
            used == byte_count(v@.take(i as int)),
            used <= most,
        decreases v.len() - i,
    {
        let n = char_bytes_of(v[i]);
        assert(v@.take(i + 1).drop_last() =~= v@.take(i as int));
        if n > most - used {
            proof {
                lemma_chars_within(v@, most as nat, i as int);
            }
            return i;
        }
        used = used + n;
        i = i + 1;
    }
    proof {
        lemma_chars_within(v@, most as nat, i as int);
    }
    i
}

proof fn lemma_bytes_front(t: Seq<char>)
    requires
        t.len() > 0,
    ensures
        byte_count(t) == char_bytes(t[0]) + byte_count(t.drop_first()),
    decreases t.len(),
{
    if t.len() == 1 {
        assert(t.drop_last() =~= Seq::<char>::empty());
        assert(t.drop_first() =~= Seq::<char>::empty());
    } else {
        lemma_bytes_front(t.drop_last());
        assert(t.drop_last().drop_first() =~= t.drop_first().drop_last());
    }
}

proof fn lemma_bytes_of_char(c: char)
    ensures
        vstd::utf8::encode_scalar(c as u32).len() == char_bytes(c),
{
    vstd::utf8::char_is_scalar(c);
    let v = c as u32;
    assert(v as int == c as int);
}

/// The bytes that are counted are those of the UTF-8 encoding.
pub proof fn lemma_bytes_of_encoding(t: Seq<char>)
    ensures
        vstd::utf8::encode_utf8(t).len() == byte_count(t),
    decreases t.len(),
{
    if t.len() > 0 {
        lemma_bytes_front(t);
        lemma_bytes_of_encoding(t.drop_first());
        lemma_bytes_of_char(t[0]);
    }
}

/// The number of bytes of a text in UTF-8.
pub fn byte_len(s: &str) -> (n: usize)
    ensures
        n == byte_count(s@),
{
    let n = s.as_bytes().len();
    proof {
        lemma_bytes_of_encoding(s@);
    }
    n
}

} // verus!
