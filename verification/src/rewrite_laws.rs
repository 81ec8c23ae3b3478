//! What each replacement makes of the text it is meant for.
//!
//! The laws here are stated on the texts themselves: a damaged piece and what it
//! becomes, with anything behind it.

use vstd::prelude::*;

use crate::latex_repair::{
    brackets_balanced, delimiter_state, inline_closed, occurrences, orphan, orphans_doubled,
};
use crate::patterns::{
    digit_char, is_char, is_letter, is_no_bracket, is_space, is_word, word_char, Pattern,
};
use crate::rewrite::{lemma_head_bounds, Rule};
use crate::text::{
    ascii_letter, first_at, law_first_at_is_first, lemma_run_is, run, stands_at, white_space,
};

verus! {

broadcast use vstd::string::group_string_axioms;

/// Nothing but white space.
pub open spec fn blank(t: Seq<char>) -> bool {
    forall|i: int| 0 <= i < t.len() ==> white_space(#[trigger] t[i])
}

/// What a sampling mark stands before: a set in blackboard letters, a set in
/// braces, a bracket or a digit.
pub open spec fn sampled_set(t: Seq<char>) -> bool {
    ||| t == "\\mathbb{Z}"@
    ||| t == "\\mathbb{R}"@
    ||| t == "\\mathbb{N}"@
    ||| t == "\\mathbb{F}"@
    ||| t == "\\mathbb{Q}"@
    ||| t == "\\{"@
    ||| t == "["@
    ||| t.len() == 1 && digit_char(t[0])
}

/// `c`, `n` times.
pub open spec fn repeated(c: char, n: nat) -> Seq<char> {
    Seq::new(n, |i: int| c)
}

/// A run over `x` and what stops it.
proof fn lemma_run_over(t: Seq<char>, i: int, x: Seq<char>, p: spec_fn(char) -> bool)
    requires
        stands_at(t, i, x),
        forall|k: int| 0 <= k < x.len() ==> p(#[trigger] x[k]),
        i + x.len() < t.len() ==> !p(t[i + x.len()]),
    ensures
        run(t, i, p) == i + x.len(),
{
    let e = i + x.len();
    assert forall|k: int| i <= k < e implies p(#[trigger] t[k]) by {
        assert(t.subrange(i, e)[k - i] == t[k]);
        assert(p(x[k - i]));
    }
    lemma_run_is(t, i, e, p);
}

/// Where a match begins the text, it is replaced and the rest goes on.
proof fn lemma_replaced(rule: Rule, t: Seq<char>, h: (int, int, int), b: Seq<char>, out: Seq<char>)
    requires
        rule.pattern().head(t) == Some(h),
        t.len() > 0,
        t.skip(h.0) == b,
        rule.replacement(t, h) == out,
    ensures
        rule.rewritten(t) == out + rule.rewritten(b),
{
    lemma_head_bounds(rule.pattern(), t);
}

/// Where the set that is sampled from ends.
#[verifier::rlimit(40)]
#[verifier::spinoff_prover]
proof fn lemma_set_end(t: Seq<char>, w: int, set: Seq<char>)
    requires
        sampled_set(set),
        stands_at(t, w, set),
    ensures
        crate::patterns::set_token_end(t, w) == Some(w + set.len()),
        !white_space(t[w]),
        set.len() > 0,
{
    reveal_strlit("\\mathbb{Z}");
    reveal_strlit("\\mathbb{R}");
    reveal_strlit("\\mathbb{N}");
    reveal_strlit("\\mathbb{F}");
    reveal_strlit("\\mathbb{Q}");
    reveal_strlit("\\{");
    reveal_strlit("[");
    let n = set.len() as int;
    let open = crate::patterns::mathbb_open();
    assert forall|k: int| 0 <= k < n implies t[w + k] == #[trigger] set[k] by {
        assert(t.subrange(w, w + n)[k] == t[w + k]);
    }
    assert(t[w] == set[0]);
    if n == 10 {
        assert(t[w + 8] == set[8] && t[w + 9] == set[9]);
        assert(t.subrange(w, w + 8) =~= open);
    } else if n == 2 {
        assert(t[w + 1] == set[1]);
        assert(t.subrange(w, w + 2) =~= seq!['\\', '{']);
        if stands_at(t, w, open) {
            assert(t.subrange(w, w + 8)[1] == t[w + 1]);
            assert(open[1] == 'm');
        }
    } else {
        if stands_at(t, w, open) {
            assert(t.subrange(w, w + 8)[0] == t[w]);
            assert(open[0] == '\\');
        }
        if stands_at(t, w, seq!['\\', '{']) {
            assert(t.subrange(w, w + 2)[0] == t[w]);
            assert(seq!['\\', '{'][0] == '\\');
        }
    }
}

/// `\mathbb{S}` before a set becomes the sampling mark; the white space and the
/// set stay.
pub proof fn law_sampling_mark(gap: Seq<char>, set: Seq<char>, b: Seq<char>)
    requires
        blank(gap),
        sampled_set(set),
    ensures
        Rule::Sample.rewritten("\\mathbb{S}"@ + gap + set + b) == "\\$"@ + gap + set
            + Rule::Sample.rewritten(b),
{
    reveal(Pattern::head);
    reveal(Rule::replacement);
    reveal_strlit("\\mathbb{S}");
    reveal_strlit("\\$");
    let t = "\\mathbb{S}"@ + gap + set + b;
    let w = 10 + gap.len() as int;
    let e = w + set.len() as int;
    assert(t.subrange(0, 10) =~= crate::patterns::script_s());
    assert(t.subrange(10, w) =~= gap);
    assert(t.subrange(w, e) =~= set);
    lemma_set_end(t, w, set);
    assert forall|k: int| 0 <= k < gap.len() implies is_space()(#[trigger] gap[k]) by {}
    lemma_run_over(t, 10, gap, is_space());
    assert(t.skip(e) =~= b);
    let out = "\\$"@ + gap + set;
    assert(Rule::Sample.replacement(t, (e, 10, e)) =~= out);
    lemma_replaced(Rule::Sample, t, (e, 10, e), b, out);
}

/// A sampling mark that was broken into pieces is joined before its set.
#[verifier::rlimit(40)]
#[verifier::spinoff_prover]
pub proof fn law_sampling_mark_joined(
    w1: Seq<char>,
    w2: Seq<char>,
    w3: Seq<char>,
    w4: Seq<char>,
    w5: Seq<char>,
    set: Seq<char>,
    b: Seq<char>,
)
    requires
        blank(w1),
        blank(w2),
        blank(w3),
        blank(w4),
        blank(w5),
        sampled_set(set),
    ensures
        Rule::JoinSample.rewritten(
            seq!['$'] + w1 + seq!['$'] + w2 + "\\mathbb{S}"@ + w3 + seq!['$'] + w4 + seq!['$'] + w5
                + set + b,
        ) == "\\$ "@ + set + Rule::JoinSample.rewritten(b),
{
    reveal(Pattern::head);
    reveal(Rule::replacement);
    reveal_strlit("\\mathbb{S}");
    reveal_strlit("\\$ ");
    let t = seq!['$'] + w1 + seq!['$'] + w2 + "\\mathbb{S}"@ + w3 + seq!['$'] + w4 + seq!['$'] + w5
        + set + b;
    let p = is_space();
    let p1 = 1 + w1.len() as int;
    let p2 = p1 + 1 + w2.len() as int;
    let p3 = p2 + 10 + w3.len() as int;
    let p4 = p3 + 1 + w4.len() as int;
    let p5 = p4 + 1 + w5.len() as int;
    let e = p5 + set.len() as int;
    assert(t.subrange(1, p1) =~= w1);
    assert(t[p1] == '$');
    assert(t.subrange(p1 + 1, p2) =~= w2);
    assert(t.subrange(p2, p2 + 10) =~= "\\mathbb{S}"@);
    assert("\\mathbb{S}"@ =~= crate::patterns::script_s());
    assert(t[p2] == t.subrange(p2, p2 + 10)[0]);
    assert(t[p2] == '\\');
    assert(t.subrange(p2 + 10, p3) =~= w3);
    assert(t[p3] == '$');
    assert(t.subrange(p3 + 1, p4) =~= w4);
    assert(t[p4] == '$');
    assert(t.subrange(p4 + 1, p5) =~= w5);
    assert(t.subrange(p5, e) =~= set);
    lemma_set_end(t, p5, set);
    assert forall|k: int| 0 <= k < w1.len() implies p(#[trigger] w1[k]) by {}
    assert forall|k: int| 0 <= k < w2.len() implies p(#[trigger] w2[k]) by {}
    assert forall|k: int| 0 <= k < w3.len() implies p(#[trigger] w3[k]) by {}
    assert forall|k: int| 0 <= k < w4.len() implies p(#[trigger] w4[k]) by {}
    assert forall|k: int| 0 <= k < w5.len() implies p(#[trigger] w5[k]) by {}
    lemma_run_over(t, 1, w1, p);
    lemma_run_over(t, p1 + 1, w2, p);
    lemma_run_over(t, p2 + 10, w3, p);
    lemma_run_over(t, p3 + 1, w4, p);
    lemma_run_over(t, p4 + 1, w5, p);
    assert(t.skip(e) =~= b);
    let out = "\\$ "@ + set;
    assert(Rule::JoinSample.replacement(t, (e, p5, e)) =~= out);
    lemma_replaced(Rule::JoinSample, t, (e, p5, e), b, out);
}

/// A share such as `[[v]^` gets the bracket that it lacks.
pub proof fn law_simple_share_closed(v: Seq<char>, b: Seq<char>)
    requires
        !v.contains('['),
        !v.contains(']'),
    ensures
        Rule::CloseSimple.rewritten("[["@ + v + "]^"@ + b) == "[["@ + v + "]]^"@
            + Rule::CloseSimple.rewritten(b),
{
    reveal(Pattern::head);
    reveal(Rule::replacement);
    reveal_strlit("[[");
    reveal_strlit("]^");
    reveal_strlit("]]^");
    let t = "[["@ + v + "]^"@ + b;
    let a = 2 + v.len() as int;
    assert(t.subrange(0, 2) =~= seq!['[', '[']);
    assert(t.subrange(2, a) =~= v);
    assert(t.subrange(a, a + 2) =~= seq![']', '^']);
    assert(t[a] == ']');
    assert forall|k: int| 0 <= k < v.len() implies is_no_bracket()(#[trigger] v[k]) by {
        assert(v.contains(v[k]));
    }
    lemma_run_over(t, 2, v, is_no_bracket());
    assert(t.skip(a + 2) =~= b);
    let out = "[["@ + v + "]]^"@;
    assert(Rule::CloseSimple.replacement(t, (a + 2, a + 1, a + 2)) =~= out);
    lemma_replaced(Rule::CloseSimple, t, (a + 2, a + 1, a + 2), b, out);
}

/// A share such as `[[x[i]]^` gets the bracket that it lacks.
pub proof fn law_indexed_share_closed(x: Seq<char>, i: Seq<char>, b: Seq<char>)
    requires
        !x.contains('['),
        !x.contains(']'),
        !i.contains('['),
        !i.contains(']'),
    ensures
        Rule::CloseIndexed.rewritten("[["@ + x + "["@ + i + "]]^"@ + b) == "[["@ + x + "["@ + i
            + "]]]^"@ + Rule::CloseIndexed.rewritten(b),
{
    reveal(Pattern::head);
    reveal(Rule::replacement);
    reveal_strlit("[[");
    reveal_strlit("[");
    reveal_strlit("]]^");
    reveal_strlit("]]]^");
    let t = "[["@ + x + "["@ + i + "]]^"@ + b;
    let a = 2 + x.len() as int;
    let e = a + 1 + i.len() as int;
    assert(t.subrange(0, 2) =~= seq!['[', '[']);
    assert(t.subrange(2, a) =~= x);
    assert(t[a] == '[');
    assert(t.subrange(a + 1, e) =~= i);
    assert(t.subrange(e, e + 3) =~= seq![']', ']', '^']);
    assert(t[e] == ']');
    assert forall|k: int| 0 <= k < x.len() implies is_no_bracket()(#[trigger] x[k]) by {
        assert(x.contains(x[k]));
    }
    assert forall|k: int| 0 <= k < i.len() implies is_no_bracket()(#[trigger] i[k]) by {
        assert(i.contains(i[k]));
    }
    lemma_run_over(t, 2, x, is_no_bracket());
    lemma_run_over(t, a + 1, i, is_no_bracket());
    assert(t.skip(e + 3) =~= b);
    let out = "[["@ + x + "["@ + i + "]]]^"@;
    assert(Rule::CloseIndexed.replacement(t, (e + 3, e + 2, e + 3)) =~= out);
    lemma_replaced(Rule::CloseIndexed, t, (e + 3, e + 2, e + 3), b, out);
}

/// An opening fence with a language between display delimiters becomes one
/// delimiter; at the end of a line, with or without a language, it becomes the
/// delimiter and the line's end.
#[verifier::rlimit(40)]
#[verifier::spinoff_prover]
pub proof fn law_fence_opened(lang: Seq<char>, n: nat, b: Seq<char>)
    requires
        forall|k: int| 0 <= k < lang.len() ==> word_char(#[trigger] lang[k]),
    ensures
        lang.len() > 0 && n > 0 ==> Rule::OpenInline.rewritten(
            "$$```"@ + lang + repeated('\\', n) + "$$"@ + b,
        ) == "$$"@ + Rule::OpenInline.rewritten(b),
        Rule::OpenMultiline.rewritten("$$```"@ + lang + repeated('\\', n) + "\n"@ + b) == "$$\n"@
            + Rule::OpenMultiline.rewritten(b),
{
    reveal(Pattern::head);
    reveal(Rule::replacement);
    reveal_strlit("$$```");
    reveal_strlit("$$");
    reveal_strlit("$$\n");
    reveal_strlit("\n");
    let s = repeated('\\', n);
    let w = 5 + lang.len() as int;
    let e = w + n;
    assert forall|k: int| 0 <= k < lang.len() implies is_word()(#[trigger] lang[k]) by {}
    assert forall|k: int| 0 <= k < s.len() implies is_char('\\')(#[trigger] s[k]) by {}
    if lang.len() > 0 && n > 0 {
        let t = "$$```"@ + lang + s + "$$"@ + b;
        assert(t.subrange(0, 5) =~= crate::patterns::fence_open());
        assert(t.subrange(5, w) =~= lang);
        assert(t[w] == s[0]);
        assert(t.subrange(w, e) =~= s);
        assert(t.subrange(e, e + 2) =~= seq!['$', '$']);
        assert(t[e] == '$');
        lemma_run_over(t, 5, lang, is_word());
        lemma_run_over(t, w, s, is_char('\\'));
        assert(t.skip(e + 2) =~= b);
        assert(Rule::OpenInline.replacement(t, (e + 2, 0, e + 2)) =~= "$$"@);
        lemma_replaced(Rule::OpenInline, t, (e + 2, 0, e + 2), b, "$$"@);
    }
    let t = "$$```"@ + lang + s + "\n"@ + b;
    assert(t.subrange(0, 5) =~= crate::patterns::fence_open());
    assert(t.subrange(5, w) =~= lang);
    assert(t[w] == (if n > 0 { '\\' } else { '\n' })) by {
        if n > 0 {
            assert(t[w] == s[0]);
        }
    }
    assert(t.subrange(w, e) =~= s);
    assert(t[e] == '\n');
    lemma_run_over(t, 5, lang, is_word());
    lemma_run_over(t, w, s, is_char('\\'));
    assert(t.skip(e + 1) =~= b);
    assert(Rule::OpenMultiline.replacement(t, (e + 1, 0, e + 1)) =~= "$$\n"@);
    lemma_replaced(Rule::OpenMultiline, t, (e + 1, 0, e + 1), b, "$$\n"@);
}

/// A closing fence goes: before four dollars it leaves two, and on a line of its
/// own before two dollars it leaves the line's start and them.
#[verifier::rlimit(40)]
#[verifier::spinoff_prover]
pub proof fn law_fence_closed(b: Seq<char>)
    ensures
        Rule::CloseFour.rewritten("```$$$$"@ + b) == "$$"@ + Rule::CloseFour.rewritten(b),
        Rule::CloseTwo.rewritten("\n```$$"@ + b) == "\n$$"@ + Rule::CloseTwo.rewritten(b),
{
    assert(Rule::CloseFour.rewritten("```$$$$"@ + b) == "$$"@ + Rule::CloseFour.rewritten(b)) by {
        reveal(Rule::replacement);
        reveal_strlit("```$$$$");
        reveal_strlit("$$");
        let t = "```$$$$"@ + b;
        let fence = seq!['`', '`', '`', '$', '$', '$', '$'];
        assert(t.subrange(0, 7) =~= fence);
        assert(Rule::CloseFour.pattern().head(t) == Some((7int, 0int, 7int))) by {
            reveal(Pattern::head);
            assert(fence.len() == 7);
        }
        assert(t.skip(7) =~= b);
        assert(Rule::CloseFour.replacement(t, (7, 0, 7)) =~= "$$"@);
        lemma_replaced(Rule::CloseFour, t, (7, 0, 7), b, "$$"@);
    }
    assert(Rule::CloseTwo.rewritten("\n```$$"@ + b) == "\n$$"@ + Rule::CloseTwo.rewritten(b)) by {
        reveal(Rule::replacement);
        reveal_strlit("\n```$$");
        reveal_strlit("\n$$");
        let t = "\n```$$"@ + b;
        let fence = seq!['\n', '`', '`', '`', '$', '$'];
        assert(t.subrange(0, 6) =~= fence);
        assert(Rule::CloseTwo.pattern().head(t) == Some((6int, 0int, 6int))) by {
            reveal(Pattern::head);
            assert(fence.len() == 6);
        }
        assert(t.skip(6) =~= b);
        assert(Rule::CloseTwo.replacement(t, (6, 0, 6)) =~= "\n$$"@);
        lemma_replaced(Rule::CloseTwo, t, (6, 0, 6), b, "\n$$"@);
    }
}

/// Backslashes between two display delimiters go with one of them; backslashes
/// before three dollars or more become a display delimiter with them.
#[verifier::rlimit(40)]
#[verifier::spinoff_prover]
pub proof fn law_boundary_artefacts(n: nat, m: nat, b: Seq<char>)
    requires
        n > 0,
    ensures
        Rule::BoundaryOpen.rewritten("$$"@ + repeated('\\', n) + "$$"@ + b) == "$$"@
            + Rule::BoundaryOpen.rewritten(b),
        m >= 3 && !(b.len() > 0 && b[0] == '$') ==> Rule::BoundaryClose.rewritten(
            repeated('\\', n) + repeated('$', m) + b,
        ) == "$$"@ + Rule::BoundaryClose.rewritten(b),
{
    reveal(Pattern::head);
    reveal(Rule::replacement);
    reveal_strlit("$$");
    let s = repeated('\\', n);
    assert forall|k: int| 0 <= k < s.len() implies is_char('\\')(#[trigger] s[k]) by {}
    let t = "$$"@ + s + "$$"@ + b;
    let e = 2 + n as int;
    assert(t.subrange(0, 2) =~= seq!['$', '$']);
    assert(t.subrange(2, e) =~= s);
    assert(t.subrange(e, e + 2) =~= seq!['$', '$']);
    assert(t[e] == '$');
    lemma_run_over(t, 2, s, is_char('\\'));
    assert(t.skip(e + 2) =~= b);
    assert(Rule::BoundaryOpen.replacement(t, (e + 2, 0, e + 2)) =~= "$$"@);
    lemma_replaced(Rule::BoundaryOpen, t, (e + 2, 0, e + 2), b, "$$"@);
    if m >= 3 && !(b.len() > 0 && b[0] == '$') {
        let d = repeated('$', m);
        let u = s + d + b;
        let f = (n + m) as int;
        assert forall|k: int| 0 <= k < d.len() implies is_char('$')(#[trigger] d[k]) by {}
        assert(u.subrange(0, n as int) =~= s);
        assert(u[n as int] == d[0]);
        assert(u.subrange(n as int, f) =~= d);
        lemma_run_over(u, 0, s, is_char('\\'));
        lemma_run_over(u, n as int, d, is_char('$'));
        assert(u.skip(f) =~= b);
        assert(Rule::BoundaryClose.replacement(u, (f, 0, f)) =~= "$$"@);
        lemma_replaced(Rule::BoundaryClose, u, (f, 0, f), b, "$$"@);
    }
}

/// A command that is used as a script gets braces, unless a brace follows it.
pub proof fn law_script_in_braces(mark: char, name: Seq<char>, b: Seq<char>)
    requires
        mark == '^' || mark == '_',
        name.len() > 0,
        forall|k: int| 0 <= k < name.len() ==> ascii_letter(#[trigger] name[k]),
        b.len() > 0 ==> !ascii_letter(b[0]),
    ensures
        !(b.len() > 0 && b[0] == '{') ==> Rule::BraceScript.rewritten(
            seq![mark, '\\'] + name + b,
        ) == seq![mark, '{', '\\'] + name + seq!['}'] + Rule::BraceScript.rewritten(b),
        b.len() > 0 && b[0] == '{' ==> Rule::BraceScript.rewritten(seq![mark, '\\'] + name + b)
            == seq![mark, '\\'] + name + Rule::BraceScript.rewritten(b),
{
    reveal(Pattern::head);
    reveal(Rule::replacement);
    let t = seq![mark, '\\'] + name + b;
    let e = 2 + name.len() as int;
    assert(t[0] == mark && t[1] == '\\');
    assert(t.subrange(2, e) =~= name);
    assert(e < t.len() ==> t[e] == b[0]);
    assert forall|k: int| 0 <= k < name.len() implies is_letter()(#[trigger] name[k]) by {}
    lemma_run_over(t, 2, name, is_letter());
    assert(t.skip(e) =~= b);
    let out = if b.len() > 0 && b[0] == '{' {
        seq![mark, '\\'] + name
    } else {
        seq![mark, '{', '\\'] + name + seq!['}']
    };
    assert(Rule::BraceScript.replacement(t, (e, 1, e)) =~= out);
    lemma_replaced(Rule::BraceScript, t, (e, 1, e), b, out);
}

/// A tag goes, and what stands behind it is looked at by itself.
pub proof fn law_tag_dropped(name: Seq<char>, b: Seq<char>)
    requires
        name.len() > 0,
        !name.contains('>'),
    ensures
        Rule::DropTag.rewritten(seq!['<'] + name + seq!['>'] + b) == Rule::DropTag.rewritten(b),
{
    reveal(Pattern::head);
    reveal(Rule::replacement);
    let t = seq!['<'] + name + seq!['>'] + b;
    let g = 1 + name.len() as int;
    assert(t.subrange(g, g + 1) =~= seq!['>']);
    law_first_at_is_first(t, 1, seq!['>'], g);
    let k = first_at(t, 1, seq!['>'])->0;
    if k < g {
        assert(t.subrange(k, k + 1)[0] == t[k]);
        assert(seq!['>'][0] == '>');
        assert(t[k] == name[k - 1]);
        assert(name.contains(name[k - 1]));
    }
    assert(t.skip(g + 1) =~= b);
    let out = Seq::<char>::empty();
    assert(Rule::DropTag.replacement(t, (g + 1, 0, g + 1)) =~= out);
    lemma_replaced(Rule::DropTag, t, (g + 1, 0, g + 1), b, out);
    assert(out + Rule::DropTag.rewritten(b) =~= Rule::DropTag.rewritten(b));
}

/// Empty angle brackets are no tag, nor is one that is never closed.
pub proof fn law_no_tag_stays(b: Seq<char>)
    ensures
        Rule::DropTag.rewritten(seq!['<', '>'] + b) == seq!['<', '>'] + Rule::DropTag.rewritten(b),
        !b.contains('>') ==> Rule::DropTag.rewritten(seq!['<'] + b) == seq!['<']
            + Rule::DropTag.rewritten(b),
{
    reveal(Pattern::head);
    let t = seq!['<', '>'] + b;
    assert(t[0] == '<' && t[1] == '>');
    assert(t.subrange(1, 2) =~= seq!['>']);
    assert(first_at(t, 1, seq!['>']) == Some(1int));
    let u = t.skip(1);
    assert(u[0] == '>');
    assert(u.skip(1) =~= b);
    assert(Rule::DropTag.rewritten(u) == seq!['>'] + Rule::DropTag.rewritten(b));
    assert(Rule::DropTag.rewritten(t) =~= seq!['<', '>'] + Rule::DropTag.rewritten(b));
    if !b.contains('>') {
        let v = seq!['<'] + b;
        if let Some(k) = first_at(v, 1, seq!['>']) {
            lemma_found_stands(v, 1, k);
            assert(v.subrange(k, k + 1)[0] == v[k]);
            assert(seq!['>'][0] == '>');
            assert(v[k] == b[k - 1] && b.contains(b[k - 1]));
        }
        assert(v.skip(1) =~= b);
    }
}

proof fn lemma_found_stands(t: Seq<char>, i: int, k: int)
    requires
        first_at(t, i, seq!['>']) == Some(k),
    ensures
        i <= k < t.len(),
        stands_at(t, k, seq!['>']),
    decreases t.len() + 1 - i,
{
    if 0 <= i <= t.len() && !stands_at(t, i, seq!['>']) {
        lemma_found_stands(t, i + 1, k);
    }
}

/// A character that begins no match stays in its place: no rule touches a text
/// that has none of the characters with which its matches begin.
#[verifier::rlimit(40)]
#[verifier::spinoff_prover]
pub proof fn law_other_characters_stay(rule: Rule, c: char, b: Seq<char>)
    requires
        c != '$',
        c != '\\',
        c != '[',
        c != '`',
        c != '\n',
        c != '^',
        c != '_',
        c != '<',
    ensures
        rule.rewritten(seq![c] + b) == seq![c] + rule.rewritten(b),
{
    reveal(Pattern::head);
    let t = seq![c] + b;
    assert(t[0] == c);
    assert(t.skip(1) =~= b);
    if t.len() >= 2 {
        assert(t.subrange(0, 2)[0] == c);
    }
    if t.len() >= 5 {
        assert(t.subrange(0, 5)[0] == c);
    }
    if t.len() >= 6 {
        assert(t.subrange(0, 6)[0] == c);
    }
    if t.len() >= 7 {
        assert(t.subrange(0, 7)[0] == c);
    }
    if t.len() >= 10 {
        assert(t.subrange(0, 10)[0] == c);
    }
    assert(crate::patterns::script_s()[0] == '\\');
    assert(crate::patterns::fence_open()[0] == '$');
    assert(seq!['$', '$'][0] == '$');
    assert(seq!['[', '['][0] == '[');
    assert(seq!['`', '`', '`', '$', '$', '$', '$'][0] == '`');
    assert(seq!['\n', '`', '`', '`', '$', '$'][0] == '\n');
    lemma_run_is(t, 0, 0, is_char('\\'));
    assert(rule.pattern().head(t) is None);
}

// ---------------------------------------------------------------------------
// Lines
// ---------------------------------------------------------------------------

/// Text without a dollar changes nothing about what is open, unless it ends in a
/// backslash.
proof fn lemma_no_dollar(a: Seq<char>, x: Seq<char>, display: bool, inline: bool)
    requires
        !a.contains('$'),
        a.len() > 0 && x.len() > 0 ==> a.last() != '\\',
    ensures
        delimiter_state(a + x, display, inline) == delimiter_state(x, display, inline),
    decreases a.len(),
{
    let t = a + x;
    if a.len() == 0 {
        assert(t =~= x);
    } else {
        let u = a.skip(1);
        assert(a.contains(a[0]));
        assert forall|i: int| 0 <= i < u.len() implies u[i] != '$' by {
            assert(a.contains(a[i + 1]));
        }
        assert(t[0] == a[0]);
        assert(t.skip(1) =~= u + x);
        if t.len() > 1 && a.len() > 1 {
            assert(t[1] == a[1]);
            assert(a.contains(a[1]));
        }
        assert(!(t[0] == '\\' && t.len() > 1 && t[1] == '$')) by {
            if a.len() == 1 && x.len() > 0 {
                assert(a.last() == a[0]);
            }
        }
        if u.len() > 0 && x.len() > 0 {
            assert(u.last() == a.last());
        }
        lemma_no_dollar(u, x, display, inline);
    }
}

/// A line with one dollar gets another at its end. A line without a dollar, with
/// a pair of them, with an escaped one or with a display delimiter stays as it
/// is.
pub proof fn law_open_mathematics_closed(a: Seq<char>, b: Seq<char>, c: Seq<char>)
    requires
        !a.contains('$'),
        !b.contains('$'),
        !c.contains('$'),
        a.len() > 0 ==> a.last() != '\\',
        b.len() > 0 ==> b.last() != '\\',
    ensures
        inline_closed(a) == a,
        inline_closed(a + "$"@ + b) == a + "$"@ + b + "$"@,
        b.len() > 0 ==> inline_closed(a + "$"@ + b + "$"@ + c) == a + "$"@ + b + "$"@ + c,
        inline_closed(a + "\\$"@ + b) == a + "\\$"@ + b,
        inline_closed(a + "$$"@ + b) == a + "$$"@ + b,
{
    reveal_strlit("$");
    reveal_strlit("\\$");
    reveal_strlit("$$");
    let e = Seq::<char>::empty();
    lemma_no_dollar(a, e, false, false);
    assert(a + e =~= a);
    lemma_no_dollar(b, e, false, false);
    lemma_no_dollar(b, e, false, true);
    lemma_no_dollar(b, e, true, false);
    lemma_no_dollar(c, e, false, false);
    assert(b + e =~= b);
    assert(c + e =~= c);
    let t1 = "$"@ + b;
    assert(a + t1 =~= a + "$"@ + b);
    lemma_no_dollar(a, t1, false, false);
    assert(t1.skip(1) =~= b);
    assert(b.len() > 0 ==> t1[1] == b[0] && b.contains(b[0]));
    assert(delimiter_state(t1, false, false) == delimiter_state(b, false, true));
    let l1 = a + "$"@ + b;
    assert(l1.last() == (if b.len() > 0 { b.last() } else { '$' }));
    assert(l1.push('$') =~= a + "$"@ + b + "$"@);
    // A pair.
    if b.len() > 0 {
        let t2 = "$"@ + c;
        let t3 = "$"@ + (b + t2);
        assert(a + t3 =~= a + "$"@ + b + "$"@ + c);
        lemma_no_dollar(a, t3, false, false);
        assert(t3.skip(1) =~= b + t2);
        assert(t3[1] == b[0] && b.contains(b[0]));
        lemma_no_dollar(b, t2, false, true);
        assert(t2.skip(1) =~= c);
        assert(c.len() > 0 ==> t2[1] == c[0] && c.contains(c[0]));
        assert(delimiter_state(t2, false, true) == delimiter_state(c, false, false));
    }
    // An escaped one.
    let t4 = "\\$"@ + b;
    assert(a + t4 =~= a + "\\$"@ + b);
    lemma_no_dollar(a, t4, false, false);
    assert(t4.skip(2) =~= b);
    assert(delimiter_state(t4, false, false) == delimiter_state(b, false, false));
    // A display delimiter.
    let t5 = "$$"@ + b;
    assert(a + t5 =~= a + "$$"@ + b);
    lemma_no_dollar(a, t5, false, false);
    assert(t5.skip(2) =~= b);
    assert(delimiter_state(t5, false, false) == delimiter_state(b, true, false));
}

/// Text without opening brackets is copied.
proof fn lemma_no_brackets(t: Seq<char>, i: int, n: int)
    requires
        0 <= i <= t.len(),
        forall|k: int| i <= k < t.len() ==> #[trigger] t[k] != '[',
    ensures
        orphans_doubled(t, i, n) == t.skip(i),
    decreases t.len() - i,
{
    if i < t.len() {
        lemma_no_brackets(t, i + 1, n);
        assert(seq![t[i]] + t.skip(i + 1) =~= t.skip(i));
    }
}

/// Text before the first opening bracket is copied.
proof fn lemma_before_bracket(t: Seq<char>, i: int, k: int, n: int)
    requires
        0 <= i <= k <= t.len(),
        forall|j: int| i <= j < k ==> #[trigger] t[j] != '[',
    ensures
        orphans_doubled(t, i, n) == t.subrange(i, k) + orphans_doubled(t, k, n),
    decreases k - i,
{
    if i < k {
        lemma_before_bracket(t, i + 1, k, n);
        let z = orphans_doubled(t, k, n);
        assert(seq![t[i]] + (t.subrange(i + 1, k) + z) =~= t.subrange(i, k) + z);
    } else {
        assert(t.subrange(i, k) + orphans_doubled(t, k, n) =~= orphans_doubled(t, k, n));
    }
}

proof fn lemma_occurrences_sum(a: Seq<char>, b: Seq<char>, c: char)
    ensures
        occurrences(a + b, c) == occurrences(a, c) + occurrences(b, c),
    decreases b.len(),
{
    if b.len() == 0 {
        assert(a + b =~= a);
    } else {
        lemma_occurrences_sum(a, b.drop_last(), c);
        assert((a + b).drop_last() =~= a + b.drop_last());
    }
}

proof fn lemma_no_occurrence(a: Seq<char>, c: char)
    requires
        !a.contains(c),
    ensures
        occurrences(a, c) == 0,
    decreases a.len(),
{
    if a.len() > 0 {
        assert(a.contains(a[a.len() - 1]));
        let u = a.drop_last();
        assert forall|i: int| 0 <= i < u.len() implies u[i] != c by {
            assert(a.contains(a[i]));
        }
        lemma_no_occurrence(u, c);
    }
}

/// A single bracket that two close is doubled; brackets that are closed as often
/// as they are opened stay.
pub proof fn law_lone_bracket_doubled(a: Seq<char>, v: Seq<char>, b: Seq<char>)
    requires
        !a.contains('['),
        !a.contains(']'),
        !v.contains('['),
        !v.contains(']'),
        !b.contains('['),
        !b.contains(']'),
    ensures
        brackets_balanced(a + "["@ + v + "]]"@ + b) == a + "[["@ + v + "]]"@ + b,
        brackets_balanced(a + "["@ + v + "]"@ + b) == a + "["@ + v + "]"@ + b,
        brackets_balanced(a + "[["@ + v + "]]"@ + b) == a + "[["@ + v + "]]"@ + b,
{
    reveal_strlit("[");
    reveal_strlit("[[");
    reveal_strlit("]");
    reveal_strlit("]]");
    lemma_counts(a, "["@, v, "]]"@, b);
    lemma_counts(a, "["@, v, "]"@, b);
    lemma_counts(a, "[["@, v, "]]"@, b);
    reveal_with_fuel(occurrences, 3);
    assert(occurrences("["@, '[') == 1 && occurrences("["@, ']') == 0) by {
        assert("["@.drop_last() =~= Seq::<char>::empty());
    }
    assert(occurrences("]"@, ']') == 1 && occurrences("]"@, '[') == 0) by {
        assert("]"@.drop_last() =~= Seq::<char>::empty());
    }
    assert(occurrences("[["@, '[') == 2 && occurrences("[["@, ']') == 0) by {
        assert("[["@.drop_last() =~= "["@);
    }
    assert(occurrences("]]"@, ']') == 2 && occurrences("]]"@, '[') == 0) by {
        assert("]]"@.drop_last() =~= "]"@);
    }
    let t = a + "["@ + v + "]]"@ + b;
    let k = a.len() as int;
    assert(occurrences(t, ']') - occurrences(t, '[') == 1);
    assert forall|j: int| 0 <= j < k implies #[trigger] t[j] != '[' by {
        assert(t[j] == a[j] && a.contains(a[j]));
    }
    assert forall|j: int| k + 1 <= j < t.len() implies #[trigger] t[j] != '[' by {
        let m = k + 1 + v.len();
        if j < m {
            assert(t[j] == v[j - k - 1] && v.contains(v[j - k - 1]));
        } else if j < m + 2 {
            assert(t[j] == "]]"@[j - m]);
        } else {
            assert(t[j] == b[j - m - 2] && b.contains(b[j - m - 2]));
        }
    }
    assert(t[k] == '[');
    assert(orphan(t, k));
    lemma_before_bracket(t, 0, k, 1);
    lemma_no_brackets(t, k + 1, 0);
    assert(t.subrange(0, k) + (seq!['[', '['] + t.skip(k + 1)) =~= a + "[["@ + v + "]]"@ + b);
}

proof fn lemma_counts(a: Seq<char>, o: Seq<char>, v: Seq<char>, c: Seq<char>, b: Seq<char>)
    requires
        !a.contains('['),
        !a.contains(']'),
        !v.contains('['),
        !v.contains(']'),
        !b.contains('['),
        !b.contains(']'),
    ensures
        occurrences(a + o + v + c + b, '[') == occurrences(o, '[') + occurrences(c, '['),
        occurrences(a + o + v + c + b, ']') == occurrences(o, ']') + occurrences(c, ']'),
{
    lemma_occurrences_sum(a + o + v + c, b, '[');
    lemma_occurrences_sum(a + o + v, c, '[');
    lemma_occurrences_sum(a + o, v, '[');
    lemma_occurrences_sum(a, o, '[');
    lemma_occurrences_sum(a + o + v + c, b, ']');
    lemma_occurrences_sum(a + o + v, c, ']');
    lemma_occurrences_sum(a + o, v, ']');
    lemma_occurrences_sum(a, o, ']');
    lemma_no_occurrence(a, '[');
    lemma_no_occurrence(a, ']');
    lemma_no_occurrence(v, '[');
    lemma_no_occurrence(v, ']');
    lemma_no_occurrence(b, '[');
    lemma_no_occurrence(b, ']');
}

} // verus!
