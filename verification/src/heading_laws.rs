//! What the headings of references and of the sections behind them look like.

use vstd::prelude::*;

use crate::headings::{
    appendix_heading, blank_from, capital, folds_to, lettered_heading, number_digits,
    references_heading, references_name_at, space, title_char, title_from, two_words_end, word_at,
    word_ends, LinePattern,
};
use crate::links::first_heading;
use crate::patterns::{digit_char, word_char};
use crate::text::{
    ascii_digit, ascii_letter, lemma_run_bounds, lemma_run_is, lower, lowered, run, trim,
    white_space,
};

verus! {

/// Nothing but white space.
pub open spec fn is_blank(t: Seq<char>) -> bool {
    forall|i: int| 0 <= i < t.len() ==> white_space(#[trigger] t[i])
}

/// Nothing but ASCII digits.
pub open spec fn is_number(t: Seq<char>) -> bool {
    forall|i: int| 0 <= i < t.len() ==> ascii_digit(#[trigger] t[i])
}

proof fn lemma_blank_run(t: Seq<char>, i: int, blank: Seq<char>)
    requires
        0 <= i,
        i + blank.len() <= t.len(),
        is_blank(blank),
        forall|k: int| 0 <= k < blank.len() ==> t[i + k] == #[trigger] blank[k],
        i + blank.len() < t.len() ==> !white_space(t[i + blank.len()]),
    ensures
        run(t, i, space()) == i + blank.len(),
{
    let e = i + blank.len();
    assert forall|k: int| i <= k < e implies space()(#[trigger] t[k]) by {
        assert(t[i + (k - i)] == blank[k - i]);
    }
    lemma_run_is(t, i, e, space());
}

proof fn lemma_number_run(t: Seq<char>, i: int, d: Seq<char>)
    requires
        0 <= i,
        i + d.len() < t.len(),
        is_number(d),
        forall|k: int| 0 <= k < d.len() ==> t[i + k] == #[trigger] d[k],
        !digit_char(t[i + d.len()]),
    ensures
        run(t, i, number_digits()) == i + d.len(),
{
    let e = i + d.len();
    assert forall|k: int| i <= k < e implies number_digits()(#[trigger] t[k]) by {
        assert(t[i + (k - i)] == d[k - i]);
    }
    lemma_run_is(t, i, e, number_digits());
}

/// A word in any spelling stands where it stands.
proof fn lemma_spelt(t: Seq<char>, i: int, w: Seq<char>, n: Seq<char>)
    requires
        0 <= i,
        i + w.len() <= t.len(),
        lowered(w) == n,
        forall|k: int| 0 <= k < w.len() ==> t[i + k] == #[trigger] w[k],
    ensures
        word_at(t, i, n),
{
    assert(n.len() == w.len());
    assert forall|k: int| #![trigger n[k]] 0 <= k < n.len() implies folds_to(t[i + k], n[k]) by {
        assert(t[i + k] == w[k]);
        assert(lowered(w)[k] == lower(w[k]));
    }
}

/// A name of the references at the end of a line, with white space behind it.
proof fn lemma_name_ends(t: Seq<char>, k: int, w: Seq<char>, b: Seq<char>)
    requires
        0 <= k,
        t.len() == k + w.len() + b.len(),
        t.skip(k) == w + b,
        is_blank(b),
        lowered(w) == "references"@ || lowered(w) == "bibliography"@,
    ensures
        references_name_at(t, k),
{
    let n = lowered(w);
    assert forall|i: int| 0 <= i < w.len() implies t[k + i] == #[trigger] w[i] by {
        assert((w + b)[i] == w[i]);
        assert(t.skip(k)[i] == t[i + k]);
    }
    lemma_spelt(t, k, w, n);
    assert forall|i: int| 0 <= i < b.len() implies t[k + w.len() + i] == #[trigger] b[i] by {
        assert((w + b)[w.len() + i] == b[i]);
        assert(t.skip(k)[w.len() + i] == t[w.len() + i + k]);
    }
    lemma_blank_run(t, k + w.len(), b);
    assert(blank_from(t, k + n.len()));
}

/// The references are headed by their name in any spelling, alone or with a
/// number before it, whatever white space is around.
pub proof fn law_names_of_references(
    a: Seq<char>,
    d: Seq<char>,
    gap: Seq<char>,
    w: Seq<char>,
    b: Seq<char>,
)
    requires
        is_blank(a),
        is_blank(gap),
        is_blank(b),
        gap.len() > 0,
        d.len() > 0,
        is_number(d),
        lowered(w) == "references"@ || lowered(w) == "bibliography"@,
    ensures
        LinePattern::References.holds(a + w + b),
        LinePattern::References.holds(a + d + gap + w + b),
        LinePattern::References.holds(a + d + "."@ + gap + w + b),
{
    reveal_strlit("references");
    reveal_strlit("bibliography");
    reveal_strlit(".");
    let n = lowered(w);
    assert(n.len() == w.len());
    assert(lower(w[0]) == n[0]);
    assert(!white_space(w[0]));
    let t = a + w + b;
    assert forall|k: int| 0 <= k < a.len() implies t[0 + k] == #[trigger] a[k] by {}
    assert(t[a.len() as int] == w[0]);
    lemma_blank_run(t, 0, a);
    assert(t.skip(a.len() as int) =~= w + b);
    lemma_name_ends(t, a.len() as int, w, b);
    let u = a + d + gap + w + b;
    let none = Seq::<char>::empty();
    assert(u =~= a + d + none + gap + (w + b));
    lemma_numbered(u, a, d, none, gap, w + b);
    let q = (a.len() + d.len() + gap.len()) as int;
    assert(u.skip(q) =~= w + b);
    lemma_name_ends(u, q, w, b);
    let v = a + d + "."@ + gap + w + b;
    assert("."@ =~= seq!['.']);
    assert(v =~= a + d + "."@ + gap + (w + b));
    lemma_numbered(v, a, d, "."@, gap, w + b);
    let r = (a.len() + d.len() + 1 + gap.len()) as int;
    assert(v.skip(r) =~= w + b);
    lemma_name_ends(v, r, w, b);
}

/// What is behind the number of a heading.
proof fn lemma_numbered(
    t: Seq<char>,
    a: Seq<char>,
    d: Seq<char>,
    point: Seq<char>,
    gap: Seq<char>,
    rest: Seq<char>,
)
    requires
        t == a + d + point + gap + rest,
        is_blank(a),
        is_blank(gap),
        gap.len() > 0,
        d.len() > 0,
        is_number(d),
        point.len() == 0 || point == seq!['.'],
        rest.len() > 0,
        !white_space(rest[0]),
    ensures
        references_name_at(t, (a.len() + d.len() + point.len() + gap.len()) as int)
            ==> references_heading(t),
{
    let x = a.len() as int;
    let e = x + d.len();
    let p = e + point.len();
    let q = p + gap.len();
    assert forall|k: int| 0 <= k < a.len() implies t[0 + k] == #[trigger] a[k] by {}
    assert(t[x] == d[0]);
    lemma_blank_run(t, 0, a);
    assert forall|k: int| 0 <= k < d.len() implies t[x + k] == #[trigger] d[k] by {}
    assert(gap[0] == gap[0] && white_space(gap[0]));
    assert(t[e] == if point.len() == 0 {
        gap[0]
    } else {
        '.'
    });
    lemma_number_run(t, x, d);
    assert forall|k: int| 0 <= k < gap.len() implies t[p + k] == #[trigger] gap[k] by {}
    assert(t[q] == rest[0]);
    lemma_blank_run(t, p, gap);
}

/// Cited works and literature head the references too.
pub proof fn law_cited_references(
    a: Seq<char>,
    w: Seq<char>,
    gap: Seq<char>,
    c: Seq<char>,
    b: Seq<char>,
)
    requires
        is_blank(a),
        is_blank(gap),
        is_blank(b),
        gap.len() > 0,
        lowered(w) == "works"@ || lowered(w) == "literature"@,
        lowered(c) == "cited"@,
    ensures
        LinePattern::References.holds(a + w + gap + c + b),
{
    reveal_strlit("works");
    reveal_strlit("literature");
    reveal_strlit("cited");
    let n = lowered(w);
    let t = a + w + gap + c + b;
    let k = a.len() as int;
    let g = k + w.len() + gap.len();
    assert(n.len() == w.len());
    assert(lowered(c).len() == c.len());
    assert(lower(w[0]) == n[0]);
    assert(lower(c[0]) == lowered(c)[0]);
    assert forall|i: int| 0 <= i < a.len() implies t[0 + i] == #[trigger] a[i] by {}
    assert(t[k] == w[0]);
    lemma_blank_run(t, 0, a);
    assert forall|i: int| 0 <= i < w.len() implies t[k + i] == #[trigger] w[i] by {}
    lemma_spelt(t, k, w, n);
    assert forall|i: int| 0 <= i < gap.len() implies t[k + w.len() + i] == #[trigger] gap[i] by {}
    assert(t[g] == c[0]);
    lemma_blank_run(t, k + w.len(), gap);
    assert forall|i: int| 0 <= i < c.len() implies t[g + i] == #[trigger] c[i] by {}
    lemma_spelt(t, g, c, "cited"@);
    assert forall|i: int| 0 <= i < b.len() implies t[g + c.len() + i] == #[trigger] b[i] by {}
    lemma_blank_run(t, g + c.len(), b);
    assert(two_words_end(t, k, n, "cited"@));
}

/// A line that goes on behind the name heads nothing, nor does one that begins
/// with another letter.
pub proof fn law_other_lines_head_no_references(w: Seq<char>, x: Seq<char>, t: Seq<char>)
    requires
        lowered(w) == "references"@,
        !is_blank(x),
        t.len() > 0,
        ascii_letter(t[0]),
        lower(t[0]) != 'r' && lower(t[0]) != 'b' && lower(t[0]) != 'w' && lower(t[0]) != 'l',
    ensures
        !LinePattern::References.holds(w + x),
        !LinePattern::References.holds(t),
        !LinePattern::References.holds(Seq::empty()),
{
    reveal_strlit("references");
    reveal_strlit("bibliography");
    reveal_strlit("works");
    reveal_strlit("literature");
    let s = w + x;
    assert(lowered(w).len() == w.len());
    assert(lower(w[0]) == lowered(w)[0]);
    assert(s[0] == w[0]);
    lemma_first_letter(s);
    lemma_first_letter(t);
    if blank_from(s, 10) {
        lemma_run_bounds(s, 10, space());
        assert forall|i: int| 0 <= i < x.len() implies white_space(#[trigger] x[i]) by {
            assert(s[10 + i] == x[i]);
            assert(space()(s[10 + i]));
        }
    }
    let none = Seq::<char>::empty();
    assert(run(none, 0, space()) == 0);
    assert(run(none, 0, number_digits()) == 0);
}

/// A line that begins with a letter can only begin with a name.
proof fn lemma_first_letter(t: Seq<char>)
    requires
        t.len() > 0,
        ascii_letter(t[0]),
    ensures
        references_heading(t) ==> (lower(t[0]) == 'r' && blank_from(t, 10)) || lower(t[0]) == 'b'
            || lower(t[0]) == 'w' || lower(t[0]) == 'l',
{
    reveal_strlit("references");
    reveal_strlit("bibliography");
    reveal_strlit("works");
    reveal_strlit("literature");
    assert(run(t, 0, space()) == 0);
    assert(run(t, 0, number_digits()) == 0);
    if word_at(t, 0, "references"@) {
        assert(folds_to(t[0int + 0], "references"@[0]));
    }
    if word_at(t, 0, "bibliography"@) {
        assert(folds_to(t[0int + 0], "bibliography"@[0]));
    }
    if word_at(t, 0, "works"@) {
        assert(folds_to(t[0int + 0], "works"@[0]));
    }
    if word_at(t, 0, "literature"@) {
        assert(folds_to(t[0int + 0], "literature"@[0]));
    }
}

/// An appendix or a supplement opens a section, spelt with a capital and in any
/// case behind it, where the word ends there. What begins with no capital opens
/// none.
pub proof fn law_appendix_opens_section(w: Seq<char>, x: Seq<char>, t: Seq<char>)
    requires
        w.len() > 0,
        w[0] == 'A' || w[0] == 'S',
        lowered(w) == "appendix"@ || lowered(w) == "supplement"@ || lowered(w)
            == "supplementary"@,
        x.len() > 0 ==> !word_char(x[0]),
        t.len() > 0 ==> !('A' <= t[0] <= 'Z'),
    ensures
        LinePattern::Section.holds(w + x),
        !LinePattern::Section.holds(t),
{
    reveal_strlit("appendix");
    reveal_strlit("supplement");
    reveal_strlit("supplementary");
    reveal_strlit("ppendix");
    reveal_strlit("upplement");
    reveal_strlit("upplementary");
    let s = w + x;
    let n = lowered(w);
    assert(n.len() == w.len());
    let tail = n.skip(1);
    assert forall|k: int| 0 <= k < tail.len() implies folds_to(s[1 + k], #[trigger] tail[k]) by {
        assert(s[1 + k] == w[1 + k]);
        assert(lower(w[1 + k]) == n[1 + k]);
    }
    if n == "appendix"@ {
        assert(tail =~= "ppendix"@);
    } else if n == "supplement"@ {
        assert(tail =~= "upplement"@);
    } else {
        assert(tail =~= "upplementary"@);
    }
    assert(word_at(s, 1, tail));
    if x.len() > 0 {
        assert(s[w.len() as int] == x[0]);
    }
    assert(word_ends(s, w.len() as int));
    assert(appendix_heading(s));
}

/// A title: it begins with a capital and has at most 121 characters, letters,
/// digits, hyphens and spaces.
pub open spec fn is_title(t: Seq<char>) -> bool {
    0 < t.len() <= 121 && 'A' <= t[0] <= 'Z' && forall|i: int|
        0 < i < t.len() ==> ascii_letter(#[trigger] t[i]) || ascii_digit(t[i]) || t[i] == '-'
            || t[i] == ' '
}

proof fn lemma_title(t: Seq<char>, m: int, gap: Seq<char>, title: Seq<char>)
    requires
        0 <= m,
        t.len() == m + gap.len() + title.len(),
        t.skip(m) == gap + title,
        gap.len() > 0,
        is_blank(gap),
        is_title(title),
    ensures
        title_from(t, m),
{
    let q = m + gap.len();
    assert forall|k: int| 0 <= k < gap.len() implies t[m + k] == #[trigger] gap[k] by {
        assert((gap + title)[k] == gap[k]);
        assert(t.skip(m)[k] == t[k + m]);
    }
    assert forall|k: int| 0 <= k < title.len() implies t[q + k] == #[trigger] title[k] by {
        assert((gap + title)[gap.len() + k] == title[k]);
        assert(t.skip(m)[gap.len() + k] == t[gap.len() + k + m]);
    }
    assert(t[q + 0] == title[0]);
    lemma_blank_run(t, m, gap);
    assert forall|k: int| q < k < t.len() implies title_char(#[trigger] t[k]) by {
        assert(t[q + (k - q)] == title[k - q]);
    }
    assert(capital(t[q]));
}

/// A letter with a title opens a section, with or without a mark behind the
/// letter.
pub proof fn law_lettered_section(c: char, d: Seq<char>, gap: Seq<char>, title: Seq<char>)
    requires
        'A' <= c <= 'Z',
        d.len() > 0,
        is_number(d),
        gap.len() > 0,
        is_blank(gap),
        is_title(title),
    ensures
        LinePattern::Section.holds(seq![c] + gap + title),
        LinePattern::Section.holds(seq![c, '.'] + gap + title),
        LinePattern::Section.holds(seq![c, ')'] + gap + title),
        LinePattern::Section.holds(seq![c, '.'] + d + gap + title),
        LinePattern::Section.holds(seq![c, '.'] + d + seq!['.'] + gap + title),
{
    let t1 = seq![c] + gap + title;
    assert(t1.skip(1) =~= gap + title);
    lemma_title(t1, 1, gap, title);
    assert(t1[0] == c && capital(t1[0]));
    assert(lettered_heading(t1));
    let t2 = seq![c, '.'] + gap + title;
    assert(t2.skip(2) =~= gap + title);
    lemma_title(t2, 2, gap, title);
    assert(t2[0] == c && capital(t2[0]) && t2[1] == '.');
    assert(lettered_heading(t2));
    let t3 = seq![c, ')'] + gap + title;
    assert(t3.skip(2) =~= gap + title);
    lemma_title(t3, 2, gap, title);
    assert(t3[0] == c && capital(t3[0]) && t3[1] == ')');
    assert(lettered_heading(t3));
    let e = 2 + d.len() as int;
    assert(white_space(gap[0]));
    let t4 = seq![c, '.'] + d + gap + title;
    assert(t4.skip(e) =~= gap + title);
    lemma_title(t4, e, gap, title);
    assert forall|k: int| 0 <= k < d.len() implies t4[2 + k] == #[trigger] d[k] by {}
    assert(t4[e] == gap[0]);
    lemma_number_run(t4, 2, d);
    assert(t4[0] == c && capital(t4[0]) && t4[1] == '.');
    assert(lettered_heading(t4));
    let t5 = seq![c, '.'] + d + seq!['.'] + gap + title;
    assert(t5.skip(e + 1) =~= gap + title);
    lemma_title(t5, e + 1, gap, title);
    assert forall|k: int| 0 <= k < d.len() implies t5[2 + k] == #[trigger] d[k] by {}
    assert(t5[e] == '.');
    lemma_number_run(t5, 2, d);
    assert(t5[0] == c && capital(t5[0]) && t5[1] == '.');
    assert(lettered_heading(t5));
}

/// A letter and a text that is no title open no section: one that begins with no
/// capital, that is longer, or that holds another sign.
pub proof fn law_no_title_no_section(c: char, gap: Seq<char>, rest: Seq<char>)
    requires
        'A' <= c <= 'Z',
        gap.len() > 0,
        is_blank(gap),
        rest.len() > 0,
        !white_space(rest[0]),
        !('A' <= rest[0] <= 'Z') || rest.len() > 121 || exists|i: int|
            0 < i < rest.len() && !ascii_letter(#[trigger] rest[i]) && !digit_char(rest[i])
                && rest[i] != '-' && rest[i] != ' ',
    ensures
        !LinePattern::Section.holds(seq![c] + gap + rest),
{
    reveal_strlit("ppendix");
    reveal_strlit("upplement");
    reveal_strlit("upplementary");
    let t = seq![c] + gap + rest;
    let q = 1 + gap.len() as int;
    assert(t[1] == gap[0] && white_space(gap[0]));
    assert forall|k: int| 0 <= k < gap.len() implies t[1 + k] == #[trigger] gap[k] by {}
    assert(t[q] == rest[0]);
    lemma_blank_run(t, 1, gap);
    if word_at(t, 1, "ppendix"@) {
        assert(folds_to(t[1int + 0], "ppendix"@[0]));
    }
    if word_at(t, 1, "upplement"@) {
        assert(folds_to(t[1int + 0], "upplement"@[0]));
    }
    if word_at(t, 1, "upplementary"@) {
        assert(folds_to(t[1int + 0], "upplementary"@[0]));
    }
    if title_from(t, 1) {
        assert forall|i: int| 0 < i < rest.len() implies title_char(#[trigger] rest[i]) by {
            assert(t[q + i] == rest[i]);
        }
    }
}

/// The heading of the references on a page is the first text that is one, white
/// space around it left out; where no text is, there is none.
pub proof fn law_heading_on_a_page(segments: Seq<Seq<char>>, i: int, j: int)
    requires
        0 <= i <= j < segments.len(),
    ensures
        first_heading(segments, i) matches Some(k) ==> i <= k < segments.len()
            && LinePattern::References.holds(trim(segments[k])) && (j < k
            ==> !LinePattern::References.holds(trim(segments[j]))),
        first_heading(segments, i) is None ==> !LinePattern::References.holds(trim(segments[j])),
    decreases segments.len() - i,
{
    reveal_with_fuel(first_heading, 2);
    if !LinePattern::References.holds(trim(segments[i])) && i + 1 < segments.len() {
        if j > i {
            law_heading_on_a_page(segments, i + 1, j);
        } else {
            law_heading_on_a_page(segments, i + 1, i + 1);
        }
    }
}

} // verus!
