//! The LaTeX repair keeps the placeholders of figures and tables.
//!
//! A placeholder that stands alone on its line is left alone by every repair:
//! no pattern of a repair begins in it or reaches into it from before, and its
//! line has no bracket to balance and no mathematics to close.

use vstd::prelude::*;

use crate::conversion::page_text;
use crate::figures::{figure_id, figure_placeholder};
use crate::latex_laws::{
    all_letters, lemma_boundaries_pass_len, lemma_collision, lemma_commands_are_letters,
    lemma_fences_pass_len, lemma_rows_step,
};
use crate::latex_measure::{alone, lemma_close_match, lemma_inner_pass_shrinks, unclosed};
use crate::latex_repair::{
    all_brackets_balanced, all_inline_closed, balancing, boundaries_pass, boundaries_stripped,
    brackets_balanced, by_rows, closing, collides, collision, collision_commands,
    commands_restored, delimiter_state, fences_pass, fences_stripped, first_collision,
    has_command, inline_closed, inner_brackets_closed, inner_brackets_pass, math_like,
    occurrences, orphan, orphans_doubled, repaired, round, sample_repaired, uncollided,
};
use crate::latex_rest::{bare_lines, bare_scripts, lemma_round_shrinks, tally, unstripped, Sort};
use crate::patterns::{
    digit_char, fence_open, id_char, is_char, is_letter, is_no_bracket, is_space, is_word,
    mathbb_open, script_s, set_token_end, two_dollars, word_char, Pattern,
};
use crate::rewrite::{lemma_head_bounds, Rule};
use crate::tables::{placeholder, plain_id, table_id};
use crate::text::{
    ascii_letter, decimal, index_of, lemma_index_of, lemma_index_of_is, lemma_run_bounds,
    lemma_run_is, run, stands_at, trim, trim_end, trim_start, white_space, without_trailing,
};

verus! {

broadcast use vstd::string::group_string_axioms;

// ---------------------------------------------------------------------------
// Placeholders
// ---------------------------------------------------------------------------

/// The placeholder of a table or a figure with an id of letters, digits and
/// underscores.
pub open spec fn is_mark(p: Seq<char>) -> bool {
    exists|id: Seq<char>|
        plain_id(id) && (p == #[trigger] placeholder(id) || p == figure_placeholder(id))
}

/// No repair looks for the character.
spec fn inert(c: char) -> bool {
    &&& c != '[' && c != ']' && c != '$' && c != '\\' && c != '`' && c != '^' && c != '!'
    &&& c != '\n' && c != '\r' && c != '\t' && c != '\u{8}' && c != '\u{c}' && c != '\u{b}'
}

/// `![`, inert characters, `](` at `e`, inert characters and `)`.
spec fn shaped(p: Seq<char>, e: int) -> bool {
    &&& 2 < e && e + 1 < p.len()
    &&& p[0] == '!' && p[1] == '[' && p[e] == ']' && p[e + 1] == '(' && p.last() == ')'
    &&& forall|i: int| 2 <= i < p.len() && i != e ==> inert(#[trigger] p[i])
}

proof fn lemma_mark_shape(p: Seq<char>) -> (e: int)
    requires
        is_mark(p),
    ensures
        shaped(p, e),
{
    let id = choose|id: Seq<char>|
        plain_id(id) && (p == #[trigger] placeholder(id) || p == figure_placeholder(id));
    reveal_strlit("![");
    reveal_strlit("](edgequake-table)");
    reveal_strlit("](edgequake-figure)");
    let e = id.len() as int + 2;
    let end = if p == placeholder(id) {
        "](edgequake-table)"@
    } else {
        "](edgequake-figure)"@
    };
    assert(p == "!["@ + id + end) by {
        if p != placeholder(id) {
            assert(p == figure_placeholder(id));
        }
    }
    assert forall|i: int| 2 <= i < p.len() && i != e implies inert(#[trigger] p[i]) by {
        if i < e {
            assert(p[i] == id[i - 2]);
            assert(id_char(id[i - 2]));
        }
    }
    e
}

// ---------------------------------------------------------------------------
// Patterns before a placeholder
// ---------------------------------------------------------------------------

/// A run ends where the placeholder begins, if not before.
proof fn lemma_run_before(u: Seq<char>, x: Seq<char>, i: int, q: spec_fn(char) -> bool)
    requires
        0 <= i <= u.len(),
        x.len() > 0,
        !q(x[0]),
    ensures
        run(u + x, i, q) == run(u, i, q),
        i <= run(u, i, q) <= u.len(),
    decreases u.len() - i,
{
    if i < u.len() {
        assert((u + x)[i] == u[i]);
        if q(u[i]) {
            lemma_run_before(u, x, i + 1, q);
        }
    } else {
        assert((u + x)[i] == x[0]);
    }
}

/// A text without `!` stands before the placeholder or not at all.
proof fn lemma_stands_before(u: Seq<char>, x: Seq<char>, i: int, s: Seq<char>)
    requires
        0 <= i <= u.len(),
        x.len() > 0,
        x[0] == '!',
        s.len() > 0,
        forall|k: int| 0 <= k < s.len() ==> s[k] != '!',
    ensures
        stands_at(u + x, i, s) == stands_at(u, i, s),
        stands_at(u, i, s) ==> i + s.len() <= u.len(),
{
    let t = u + x;
    if i + s.len() <= u.len() {
        assert(t.subrange(i, i + s.len()) =~= u.subrange(i, i + s.len()));
    } else if stands_at(t, i, s) {
        let k = u.len() - i;
        assert(t.subrange(i, i + s.len())[k] == t[u.len() as int]);
    }
}

proof fn lemma_token_before(u: Seq<char>, x: Seq<char>, w: int)
    requires
        0 <= w <= u.len(),
        x.len() > 0,
        x[0] == '!',
    ensures
        set_token_end(u + x, w) == set_token_end(u, w),
{
    let t = u + x;
    lemma_stands_before(u, x, w, mathbb_open());
    lemma_stands_before(u, x, w, seq!['\\', '{']);
    if stands_at(u, w, mathbb_open()) {
        if w + 10 > u.len() {
            if w + 8 < u.len() {
                assert(t[w + 9] == '!');
            } else {
                assert(t[w + 8] == '!');
            }
        } else {
            assert(t[w + 8] == u[w + 8] && t[w + 9] == u[w + 9]);
        }
    }
    if w < u.len() {
        assert(t[w] == u[w]);
    } else {
        assert(t[w] == '!');
        assert(!digit_char('!'));
    }
}

proof fn lemma_samples_before(u: Seq<char>, x: Seq<char>)
    requires
        u.len() > 0,
        x.len() > 0,
        x[0] == '!',
    ensures
        Pattern::ContiguousSample.head(u + x) == Pattern::ContiguousSample.head(u),
        Pattern::FragmentedSample.head(u + x) == Pattern::FragmentedSample.head(u),
{
    reveal(Pattern::head);
    let t = u + x;
    let sp = is_space();
    let n = u.len() as int;
    assert(!sp('!'));
    lemma_stands_before(u, x, 0, script_s());
    if stands_at(u, 0, script_s()) {
        lemma_run_before(u, x, 10, sp);
        lemma_token_before(u, x, run(u, 10, sp));
    }
    assert(t[0] == u[0]);
    let a = run(u, 1, sp);
    lemma_run_before(u, x, 1, sp);
    if a < n {
        assert(t[a] == u[a]);
        let b = run(u, a + 1, sp);
        lemma_run_before(u, x, a + 1, sp);
        lemma_stands_before(u, x, b, script_s());
        if stands_at(u, b, script_s()) {
            let c = run(u, b + 10, sp);
            lemma_run_before(u, x, b + 10, sp);
            if c < n {
                assert(t[c] == u[c]);
                let d = run(u, c + 1, sp);
                lemma_run_before(u, x, c + 1, sp);
                if d < n {
                    assert(t[d] == u[d]);
                    lemma_run_before(u, x, d + 1, sp);
                    lemma_token_before(u, x, run(u, d + 1, sp));
                } else {
                    assert(t[d] == '!');
                }
            } else {
                assert(t[c] == '!');
            }
        }
    } else {
        assert(t[a] == '!');
    }
}

proof fn lemma_fences_before(u: Seq<char>, x: Seq<char>)
    requires
        u.len() > 0,
        x.len() > 0,
        x[0] == '!',
    ensures
        Pattern::FenceOpenInline.head(u + x) == Pattern::FenceOpenInline.head(u),
        Pattern::FenceOpenMultiline.head(u + x) == Pattern::FenceOpenMultiline.head(u),
        Pattern::FenceCloseFour.head(u + x) == Pattern::FenceCloseFour.head(u),
        Pattern::FenceCloseTwo.head(u + x) == Pattern::FenceCloseTwo.head(u),
{
    reveal(Pattern::head);
    let t = u + x;
    assert(!word_char('!'));
    lemma_stands_before(u, x, 0, fence_open());
    lemma_stands_before(u, x, 0, seq!['`', '`', '`', '$', '$', '$', '$']);
    lemma_stands_before(u, x, 0, seq!['\n', '`', '`', '`', '$', '$']);
    if stands_at(u, 0, fence_open()) {
        let w = run(u, 5, is_word());
        lemma_run_before(u, x, 5, is_word());
        let b = run(u, w, is_char('\\'));
        lemma_run_before(u, x, w, is_char('\\'));
        lemma_stands_before(u, x, b, two_dollars());
        if b < u.len() {
            assert(t[b] == u[b]);
        } else {
            assert(t[b] == '!');
        }
    }
}

proof fn lemma_maths_before(u: Seq<char>, x: Seq<char>)
    requires
        u.len() > 0,
        x.len() > 0,
        x[0] == '!',
    ensures
        Pattern::MathOpen.head(u + x) == Pattern::MathOpen.head(u),
        Pattern::MathClose.head(u + x) == Pattern::MathClose.head(u),
        Pattern::Script.head(u + x) == Pattern::Script.head(u),
{
    reveal(Pattern::head);
    let t = u + x;
    assert(t[0] == u[0]);
    lemma_stands_before(u, x, 0, two_dollars());
    if stands_at(u, 0, two_dollars()) {
        lemma_run_before(u, x, 2, is_char('\\'));
        lemma_stands_before(u, x, run(u, 2, is_char('\\')), two_dollars());
    }
    lemma_run_before(u, x, 0, is_char('\\'));
    lemma_run_before(u, x, run(u, 0, is_char('\\')), is_char('$'));
    if u.len() >= 2 {
        assert(t[1] == u[1]);
        lemma_run_before(u, x, 2, is_letter());
    } else {
        assert(t[1] == '!');
    }
}

/// Before a placeholder a bracket pattern matches as it does without it: the
/// placeholder's own brackets are not those that it looks for.
proof fn lemma_brackets_before(u: Seq<char>, p: Seq<char>, e: int, b: Seq<char>)
    requires
        u.len() > 0,
        shaped(p, e),
    ensures
        Pattern::SimpleBracket.head(u + (p + b)) == Pattern::SimpleBracket.head(u),
        Pattern::IndexedBracket.head(u + (p + b)) == Pattern::IndexedBracket.head(u),
{
    reveal(Pattern::head);
    let x = p + b;
    let t = u + x;
    let n = u.len() as int;
    let q = is_no_bracket();
    let open = seq!['[', '['];
    lemma_stands_before(u, x, 0, open);
    if stands_at(u, 0, open) {
        let s = run(u, 2, q);
        lemma_bracket_run(u, p, e, b, 2);
        lemma_run_bounds(u, 2, q);
        if s < n {
            assert(t[s] == u[s]);
            lemma_stands_before(u, x, s, seq![']', '^']);
            if u[s] == '[' {
                let r = run(u, s + 1, q);
                lemma_bracket_run(u, p, e, b, s + 1);
                lemma_run_bounds(u, s + 1, q);
                if r < n {
                    lemma_stands_before(u, x, r, seq![']', ']', '^']);
                } else {
                    assert(t[n + 1] == '[');
                    if stands_at(t, n + 1, seq![']', ']', '^']) {
                        assert(t.subrange(n + 1, n + 4)[0] == t[n + 1]);
                    }
                }
            }
        } else {
            assert(t[n + 1] == '[');
            if stands_at(t, n + 1, seq![']', '^']) {
                assert(t.subrange(n + 1, n + 3)[0] == t[n + 1]);
            }
            assert forall|k: int| n + 2 <= k < n + e implies q(#[trigger] t[k]) by {
                assert(t[k] == p[k - n]);
                assert(inert(p[k - n]));
            }
            assert(t[n + e] == ']');
            lemma_run_is(t, n + 2, n + e, q);
            if stands_at(t, n + e, seq![']', ']', '^']) {
                assert(t.subrange(n + e, n + e + 3)[1] == t[n + e + 1]);
                assert(t[n + e + 1] == p[e + 1]);
            }
        }
    }
}

/// A run without brackets ends before the placeholder or at its first bracket.
proof fn lemma_bracket_run(u: Seq<char>, p: Seq<char>, e: int, b: Seq<char>, i: int)
    requires
        0 <= i <= u.len(),
        shaped(p, e),
    ensures
        run(u + (p + b), i, is_no_bracket()) == (if run(u, i, is_no_bracket()) < u.len() {
            run(u, i, is_no_bracket())
        } else {
            u.len() as int + 1
        }),
    decreases u.len() - i,
{
    let t = u + (p + b);
    let q = is_no_bracket();
    let n = u.len() as int;
    if i < n {
        assert(t[i] == u[i]);
        if q(u[i]) {
            lemma_bracket_run(u, p, e, b, i + 1);
        }
    } else {
        assert(t[n] == '!' && t[n + 1] == '[');
        assert(run(t, n + 1, q) == n + 1);
    }
}

/// A rule matches before a placeholder as it does without it.
proof fn lemma_rule_before(rule: Rule, u: Seq<char>, p: Seq<char>, e: int, b: Seq<char>)
    requires
        rule != Rule::DropTag,
        u.len() > 0,
        shaped(p, e),
    ensures
        rule.pattern().head(u + (p + b)) == rule.pattern().head(u),
        rule.pattern().head(u) matches Some(h) ==> rule.replacement(u + (p + b), h)
            == rule.replacement(u, h),
{
    let x = p + b;
    let t = u + x;
    assert(x[0] == '!');
    match rule {
        Rule::JoinSample | Rule::Sample => lemma_samples_before(u, x),
        Rule::CloseIndexed | Rule::CloseSimple => lemma_brackets_before(u, p, e, b),
        Rule::OpenInline | Rule::OpenMultiline | Rule::CloseFour | Rule::CloseTwo =>
            lemma_fences_before(u, x),
        _ => lemma_maths_before(u, x),
    }
    lemma_head_bounds(rule.pattern(), u);
    if let Some(h) = rule.pattern().head(u) {
        reveal(Rule::replacement);
        assert(t.subrange(h.1, h.2) =~= u.subrange(h.1, h.2));
        assert(t.subrange(0, h.1) =~= u.subrange(0, h.1));
        assert(t.subrange(0, h.0) =~= u.subrange(0, h.0));
        assert(t[0] == u[0]);
        if h.0 < u.len() {
            assert(t[h.0] == u[h.0]);
        } else {
            assert(t[h.0] == '!');
        }
    }
}

/// The characters that a rule's match can begin with.
spec fn begins(rule: Rule, c: char) -> bool {
    match rule {
        Rule::JoinSample | Rule::OpenInline | Rule::OpenMultiline | Rule::BoundaryOpen => c == '$',
        Rule::Sample | Rule::BoundaryClose => c == '\\',
        Rule::CloseIndexed | Rule::CloseSimple => c == '[',
        Rule::CloseFour => c == '`',
        Rule::CloseTwo => c == '\n',
        _ => c == '^' || c == '_',
    }
}

/// A match begins with one of its characters, and so does its replacement,
/// but for a mark that becomes a dollar.
proof fn lemma_begins(rule: Rule, t: Seq<char>)
    requires
        rule != Rule::DropTag,
        rule.pattern().head(t) is Some,
    ensures
        t.len() > 0,
        begins(rule, t[0]),
        (rule == Rule::CloseIndexed || rule == Rule::CloseSimple) ==> t.len() > 1 && t[1] == '[',
        rule == Rule::BraceScript ==> t.len() > 1 && t[1] == '\\',
        rule == Rule::CloseTwo ==> t.len() > 1 && t[1] == '`',
        rule.replacement(t, rule.pattern().head(t).unwrap()).len() > 0,
        rule.replacement(t, rule.pattern().head(t).unwrap())[0] == t[0] || rule.replacement(
            t,
            rule.pattern().head(t).unwrap(),
        )[0] == '$' || rule.replacement(t, rule.pattern().head(t).unwrap())[0] == '\\',
        t[0] == '\n' ==> rule.replacement(t, rule.pattern().head(t).unwrap()) == seq![
            '\n',
            '$',
            '$',
        ],
{
    reveal(Pattern::head);
    reveal(Rule::replacement);
    lemma_head_bounds(rule.pattern(), t);
    match rule {
        Rule::JoinSample => {},
        Rule::Sample => {
            lemma_first_of(t, script_s());
        },
        Rule::CloseIndexed => {
            lemma_first_of(t, seq!['[', '[']);
            assert(t.subrange(0, 2)[1] == t[1]);
            lemma_run_bounds(t, 2, is_no_bracket());
            lemma_run_bounds(t, run(t, 2, is_no_bracket()) + 1, is_no_bracket());
        },
        Rule::CloseSimple => {
            lemma_first_of(t, seq!['[', '[']);
            assert(t.subrange(0, 2)[1] == t[1]);
            lemma_run_bounds(t, 2, is_no_bracket());
        },
        Rule::OpenInline | Rule::OpenMultiline => {
            lemma_first_of(t, fence_open());
        },
        Rule::CloseFour => {
            lemma_first_of(t, seq!['`', '`', '`', '$', '$', '$', '$']);
        },
        Rule::CloseTwo => {
            lemma_first_of(t, seq!['\n', '`', '`', '`', '$', '$']);
            assert(t.subrange(0, 6)[1] == t[1]);
        },
        Rule::BoundaryOpen => {
            lemma_first_of(t, two_dollars());
        },
        Rule::BoundaryClose => {
            lemma_run_bounds(t, 0, is_char('\\'));
            assert(is_char('\\')(t[0]));
        },
        _ => {},
    }
}

proof fn lemma_first_of(t: Seq<char>, s: Seq<char>)
    requires
        stands_at(t, 0, s),
        s.len() > 0,
    ensures
        t[0] == s[0],
{
    assert(t.subrange(0, s.len() as int)[0] == t[0]);
}

/// No match begins in a placeholder.
proof fn lemma_rule_inside(rule: Rule, p: Seq<char>, e: int, b: Seq<char>, j: int)
    requires
        rule != Rule::DropTag,
        shaped(p, e),
        0 <= j < p.len(),
    ensures
        rule.pattern().head((p + b).skip(j)) is None,
{
    let t = (p + b).skip(j);
    if rule.pattern().head(t) is Some {
        lemma_begins(rule, t);
        assert(t[0] == p[j]);
        if j >= 2 && j != e {
            assert(inert(p[j]));
        }
        if j + 1 < p.len() {
            assert(t[1] == p[j + 1]);
            if j + 1 >= 2 && j + 1 != e {
                assert(inert(p[j + 1]));
            }
        }
    }
}

/// A placeholder is passed over.
proof fn lemma_rule_passes(rule: Rule, p: Seq<char>, e: int, b: Seq<char>, j: int)
    requires
        rule != Rule::DropTag,
        shaped(p, e),
        0 <= j <= p.len(),
    ensures
        rule.rewritten((p + b).skip(j)) == p.skip(j) + rule.rewritten(b),
    decreases p.len() - j,
{
    let t = (p + b).skip(j);
    if j == p.len() {
        assert(t =~= b);
        assert(p.skip(j) + rule.rewritten(b) =~= rule.rewritten(b));
    } else {
        lemma_rule_inside(rule, p, e, b, j);
        lemma_rule_passes(rule, p, e, b, j + 1);
        assert(t.skip(1) =~= (p + b).skip(j + 1));
        assert(t[0] == p[j]);
        assert(seq![p[j]] + (p.skip(j + 1) + rule.rewritten(b)) =~= p.skip(j) + rule.rewritten(b));
    }
}

/// A rule rewrites what stands before a placeholder and what stands behind it,
/// and leaves the placeholder alone.
proof fn lemma_rule_parts(rule: Rule, a: Seq<char>, p: Seq<char>, e: int, b: Seq<char>)
    requires
        rule != Rule::DropTag,
        shaped(p, e),
    ensures
        rule.rewritten(a + (p + b)) == rule.rewritten(a) + (p + rule.rewritten(b)),
    decreases a.len(),
{
    let x = p + b;
    let t = a + x;
    let y = p + rule.rewritten(b);
    if a.len() == 0 {
        assert(t =~= x.skip(0));
        lemma_rule_passes(rule, p, e, b, 0);
        assert(p.skip(0) =~= p);
        assert(rule.rewritten(a) + y =~= y);
    } else {
        lemma_rule_before(rule, a, p, e, b);
        lemma_head_bounds(rule.pattern(), a);
        match rule.pattern().head(a) {
            Some(h) => {
                assert(t.skip(h.0) =~= a.skip(h.0) + x);
                lemma_rule_parts(rule, a.skip(h.0), p, e, b);
                let r = rule.replacement(a, h);
                let z = rule.rewritten(a.skip(h.0));
                assert(r + (z + y) =~= r + z + y);
            },
            None => {
                assert(t.skip(1) =~= a.skip(1) + x);
                assert(t[0] == a[0]);
                lemma_rule_parts(rule, a.skip(1), p, e, b);
                let z = rule.rewritten(a.skip(1));
                assert(seq![a[0]] + (z + y) =~= seq![a[0]] + z + y);
            },
        }
    }
}

// ---------------------------------------------------------------------------
// The line of a placeholder
// ---------------------------------------------------------------------------

/// The text is at its end or at the end of a line.
pub open spec fn ends_line(b: Seq<char>) -> bool {
    b.len() == 0 || b[0] == '\n' || (b.len() > 1 && b[0] == '\r' && b[1] == '\n')
}

/// The text is at its start or at the start of a line.
pub open spec fn starts_line(a: Seq<char>) -> bool {
    a.len() == 0 || a.last() == '\n'
}

/// What follows a line end, from the line feed on.
pub open spec fn from_feed(b: Seq<char>) -> Seq<char> {
    if b[0] == '\n' {
        b
    } else {
        b.skip(1)
    }
}

/// The line end and what follows it read like an eaten command.
pub open spec fn reads_eaten(b: Seq<char>) -> bool {
    b.len() > 0 && collision(from_feed(b), true) is Some
}

/// The letters at the start of a text.
spec fn word(x: Seq<char>) -> Seq<char> {
    x.take(run(x, 0, is_letter()))
}

/// The word of a text that starts with a letter.
proof fn lemma_word_step(x: Seq<char>)
    ensures
        x.len() == 0 || !ascii_letter(x[0]) ==> word(x) == Seq::<char>::empty(),
        x.len() > 0 && ascii_letter(x[0]) ==> word(x) == seq![x[0]] + word(x.skip(1)),
{
    lemma_run_bounds(x, 0, is_letter());
    if x.len() > 0 && ascii_letter(x[0]) {
        let u = x.skip(1);
        lemma_run_bounds(u, 0, is_letter());
        let e = run(u, 0, is_letter());
        assert forall|k: int| 0 <= k < e + 1 implies is_letter()(#[trigger] x[k]) by {
            if k > 0 {
                assert(is_letter()(u[k - 1]));
            }
        }
        if e < u.len() {
            assert(x[e + 1] == u[e]);
        }
        lemma_run_is(x, 0, e + 1, is_letter());
        assert(word(x) =~= seq![x[0]] + word(u));
    } else {
        assert(word(x) =~= Seq::<char>::empty());
    }
}

/// Whether a line feed reads like an eaten command depends on the word behind
/// it.
proof fn lemma_eaten_by_word(x: Seq<char>, y: Seq<char>)
    requires
        word(x) == word(y),
    ensures
        collision(seq!['\n'] + x, true) is None ==> collision(seq!['\n'] + y, true) is None,
{
    let s = seq!['\n'] + x;
    let t = seq!['\n'] + y;
    let cmds = collision_commands('\n');
    lemma_commands_are_letters('\n');
    lemma_collision(s, cmds);
    lemma_collision(t, cmds);
    if let Some(cmd) = collision(t, true) {
        let i = choose|i: int| 0 <= i < cmds.len() && #[trigger] cmds[i] == cmd;
        assert(all_letters(cmds[i]));
        lemma_collides_word(y, cmd);
        lemma_collides_word(x, cmd);
        if collision(s, true) is None {
            assert(!collides(s, cmds[i]));
        }
    }
}

proof fn lemma_collides_word(x: Seq<char>, cmd: Seq<char>)
    requires
        all_letters(cmd),
    ensures
        collides(seq!['\n'] + x, cmd) <==> (cmd.len() > 0 && word(x) == cmd.skip(1)),
{
    let s = seq!['\n'] + x;
    let n = cmd.len() as int;
    lemma_run_bounds(x, 0, is_letter());
    if collides(s, cmd) {
        assert forall|k: int| 0 <= k < n - 1 implies is_letter()(#[trigger] x[k]) by {
            assert(x[k] == s[k + 1]);
            assert(s.subrange(1, n)[k] == cmd.skip(1)[k]);
            assert(ascii_letter(cmd[k + 1]));
        }
        if n - 1 < x.len() {
            assert(s[n] == x[n - 1]);
        }
        lemma_run_is(x, 0, n - 1, is_letter());
        assert(word(x) =~= s.subrange(1, n));
    }
    if n > 0 && word(x) == cmd.skip(1) {
        assert(word(x).len() == run(x, 0, is_letter()));
        assert(cmd.skip(1).len() == n - 1);
        assert(s.subrange(1, n) =~= word(x));
        if n < s.len() {
            assert(s[n] == x[n - 1]);
        }
    }
}

/// A rule keeps the word at the start of a text.
proof fn lemma_rule_word(rule: Rule, x: Seq<char>)
    requires
        rule != Rule::DropTag,
    ensures
        word(rule.rewritten(x)) == word(x),
    decreases x.len(),
{
    let r = rule.rewritten(x);
    lemma_word_step(x);
    lemma_word_step(r);
    lemma_head_bounds(rule.pattern(), x);
    if x.len() > 0 {
        if rule.pattern().head(x) is Some {
            lemma_begins(rule, x);
            assert(r[0] == rule.replacement(x, rule.pattern().head(x).unwrap())[0]);
        } else {
            lemma_rule_word(rule, x.skip(1));
            assert(r[0] == x[0]);
            assert(r.skip(1) =~= rule.rewritten(x.skip(1)));
        }
    }
}

/// A rule keeps a line end, and whether it reads like an eaten command.
proof fn lemma_rule_tail(rule: Rule, b: Seq<char>)
    requires
        rule != Rule::DropTag,
        ends_line(b),
    ensures
        ends_line(rule.rewritten(b)),
        !reads_eaten(b) ==> !reads_eaten(rule.rewritten(b)),
{
    if b.len() > 0 {
        if b[0] == '\n' {
            lemma_rule_feed(rule, b);
        } else {
            let c = b.skip(1);
            if rule.pattern().head(b) is Some {
                lemma_begins(rule, b);
            }
            let r = rule.rewritten(b);
            lemma_rule_feed(rule, c);
            assert(r[0] == '\r' && r.skip(1) =~= rule.rewritten(c));
            assert(r[1] == rule.rewritten(c)[0]);
        }
    }
}

proof fn lemma_rule_feed(rule: Rule, b: Seq<char>)
    requires
        rule != Rule::DropTag,
        b.len() > 0,
        b[0] == '\n',
    ensures
        rule.rewritten(b).len() > 0,
        rule.rewritten(b)[0] == '\n',
        collision(b, true) is None ==> collision(rule.rewritten(b), true) is None,
{
    let r = rule.rewritten(b);
    let x = b.skip(1);
    lemma_head_bounds(rule.pattern(), b);
    if rule.pattern().head(b) is Some {
        lemma_begins(rule, b);
        assert(r[0] == '\n' && r[1] == '$');
        lemma_word_step(x);
        lemma_word_step(r.skip(1));
    } else {
        lemma_rule_word(rule, x);
        assert(r[0] == '\n' && r.skip(1) =~= rule.rewritten(x));
    }
    assert(b =~= seq!['\n'] + x);
    assert(r =~= seq!['\n'] + r.skip(1));
    lemma_eaten_by_word(x, r.skip(1));
}

/// A rule keeps the start of a line.
proof fn lemma_rule_start(rule: Rule, a: Seq<char>)
    requires
        rule != Rule::DropTag,
        starts_line(a),
    ensures
        starts_line(rule.rewritten(a)),
        a.len() > 0 ==> rule.rewritten(a).len() > 0,
    decreases a.len(),
{
    lemma_head_bounds(rule.pattern(), a);
    if a.len() > 0 {
        match rule.pattern().head(a) {
            Some(h) => {
                let z = a.skip(h.0);
                lemma_begins(rule, a);
                if z.len() > 0 {
                    lemma_rule_start(rule, z);
                    assert(rule.rewritten(a).last() == rule.rewritten(z).last());
                } else {
                    lemma_ends_in_feed(rule, a, h);
                    assert(rule.rewritten(z) =~= Seq::<char>::empty());
                    assert(rule.rewritten(a) =~= rule.replacement(a, h));
                }
            },
            None => {
                let z = a.skip(1);
                if z.len() > 0 {
                    lemma_rule_start(rule, z);
                    assert(rule.rewritten(a).last() == rule.rewritten(z).last());
                } else {
                    assert(rule.rewritten(z) =~= Seq::<char>::empty());
                }
            },
        }
    }
}

/// A match that ends in a line feed is replaced by what ends in one.
proof fn lemma_ends_in_feed(rule: Rule, a: Seq<char>, h: (int, int, int))
    requires
        rule != Rule::DropTag,
        rule.pattern().head(a) == Some(h),
        h.0 == a.len(),
        a.last() == '\n',
    ensures
        rule.replacement(a, h).last() == '\n',
{
    reveal(Pattern::head);
    reveal(Rule::replacement);
    let n = a.len() as int;
    match rule {
        Rule::JoinSample | Rule::Sample => {
            let w = if rule == Rule::Sample {
                run(a, 10, is_space())
            } else {
                h.1
            };
            let e = set_token_end(a, w).unwrap();
            if stands_at(a, w, seq!['\\', '{']) && e == w + 2 {
                assert(a.subrange(w, w + 2)[1] == a[w + 1]);
            }
        },
        Rule::CloseIndexed => {
            let x = seq![']', ']', '^'];
            assert(stands_at(a, n - 3, x));
            assert(a.subrange(n - 3, n)[2] == a[n - 1]);
        },
        Rule::CloseSimple => {
            let x = seq![']', '^'];
            assert(stands_at(a, n - 2, x));
            assert(a.subrange(n - 2, n)[1] == a[n - 1]);
        },
        Rule::OpenInline | Rule::BoundaryOpen => {
            assert(stands_at(a, n - 2, two_dollars()));
            assert(a.subrange(n - 2, n)[1] == a[n - 1]);
        },
        Rule::OpenMultiline => {},
        Rule::CloseFour => {
            assert(a.subrange(0, 7)[6] == a[6]);
        },
        Rule::CloseTwo => {
            assert(a.subrange(0, 6)[5] == a[5]);
        },
        Rule::BoundaryClose => {
            let b = run(a, 0, is_char('\\'));
            lemma_run_bounds(a, 0, is_char('\\'));
            lemma_run_bounds(a, b, is_char('$'));
            assert(is_char('$')(a[n - 1]));
        },
        _ => {
            lemma_run_bounds(a, 2, is_letter());
            assert(is_letter()(a[n - 1]));
        },
    }
}

// ---------------------------------------------------------------------------
// Eaten commands
// ---------------------------------------------------------------------------

/// No command is a single letter.
proof fn lemma_commands_are_long(c: char)
    requires
        c == '\n' || c == '\r',
    ensures
        forall|i: int|
            0 <= i < collision_commands(c).len() ==> (#[trigger] collision_commands(c)[i]).len()
                >= 2,
{
    if c == '\n' {
        reveal_strlit("nabla");
        reveal_strlit("notin");
        reveal_strlit("newline");
        reveal_strlit("neq");
        reveal_strlit("ne");
        reveal_strlit("not");
    } else {
        reveal_strlit("rightarrow");
        reveal_strlit("rightharpoon");
        reveal_strlit("rangle");
        reveal_strlit("rho");
        reveal_strlit("rm");
    }
}

/// A line end collides only with letters behind it.
proof fn lemma_collision_needs_letter(t: Seq<char>, math: bool)
    requires
        t.len() > 0,
        t[0] == '\n' || t[0] == '\r',
        t.len() == 1 || !ascii_letter(t[1]),
    ensures
        collision(t, math) is None,
{
    let cmds = collision_commands(t[0]);
    lemma_commands_are_letters(t[0]);
    lemma_commands_are_long(t[0]);
    lemma_collision(t, cmds);
    if let Some(cmd) = first_collision(t, cmds) {
        let i = choose|i: int| 0 <= i < cmds.len() && #[trigger] cmds[i] == cmd;
        assert(all_letters(cmds[i]) && cmds[i].len() >= 2);
        assert(ascii_letter(cmd[1]));
        assert(t.subrange(1, cmd.len() as int)[0] == t[1]);
        assert(cmd.skip(1)[0] == cmd[1]);
    }
}

/// What collides before a placeholder does so without it.
proof fn lemma_collides_before(u: Seq<char>, x: Seq<char>, cmds: Seq<Seq<char>>)
    requires
        u.len() > 0,
        x.len() > 0,
        x[0] == '!',
        forall|i: int| 0 <= i < cmds.len() ==> all_letters(#[trigger] cmds[i]),
    ensures
        first_collision(u + x, cmds) == first_collision(u, cmds),
    decreases cmds.len(),
{
    if cmds.len() > 0 {
        let rest = cmds.skip(1);
        assert forall|i: int| 0 <= i < rest.len() implies all_letters(#[trigger] rest[i]) by {
            assert(rest[i] == cmds[i + 1]);
        }
        lemma_collides_before(u, x, rest);
        let t = u + x;
        let cmd = cmds[0];
        let n = cmd.len() as int;
        assert(all_letters(cmd));
        if 0 < n <= u.len() {
            assert(t.subrange(1, n) =~= u.subrange(1, n));
            if n < u.len() {
                assert(t[n] == u[n]);
            } else {
                assert(t[n] == '!');
            }
        } else if collides(t, cmd) {
            let k = u.len() as int;
            assert(t.subrange(1, n)[k - 1] == t[k]);
            assert(cmd.skip(1)[k - 1] == cmd[k]);
            assert(ascii_letter(cmd[k]));
        }
    }
}

/// A placeholder is passed over.
proof fn lemma_restoring_passes(p: Seq<char>, e: int, b: Seq<char>, math: bool, j: int)
    requires
        shaped(p, e),
        0 <= j <= p.len(),
    ensures
        uncollided((p + b).skip(j), math) == p.skip(j) + uncollided(b, math),
    decreases p.len() - j,
{
    let t = (p + b).skip(j);
    if j == p.len() {
        assert(t =~= b);
        assert(p.skip(j) + uncollided(b, math) =~= uncollided(b, math));
    } else {
        lemma_restoring_passes(p, e, b, math, j + 1);
        assert(t.skip(1) =~= (p + b).skip(j + 1));
        assert(t[0] == p[j]);
        if j >= 2 && j != e {
            assert(inert(p[j]));
        }
        assert(collision_commands(t[0]) =~= Seq::<Seq<char>>::empty());
        assert(collision(t, math) is None);
        assert(seq![p[j]] + (p.skip(j + 1) + uncollided(b, math)) =~= p.skip(j) + uncollided(
            b,
            math,
        ));
    }
}

/// Commands are restored before a placeholder and behind it.
proof fn lemma_restoring_parts(a: Seq<char>, p: Seq<char>, e: int, b: Seq<char>, math: bool)
    requires
        shaped(p, e),
    ensures
        uncollided(a + (p + b), math) == uncollided(a, math) + (p + uncollided(b, math)),
    decreases a.len(),
{
    let x = p + b;
    let t = a + x;
    let y = p + uncollided(b, math);
    if a.len() == 0 {
        assert(t =~= x.skip(0));
        lemma_restoring_passes(p, e, b, math, 0);
        assert(p.skip(0) =~= p);
        assert(uncollided(a, math) + y =~= y);
    } else {
        let cmds = collision_commands(a[0]);
        assert(t[0] == a[0]);
        assert(x[0] == '!');
        lemma_commands_are_letters(a[0]);
        lemma_collides_before(a, x, cmds);
        lemma_collision(a, cmds);
        match collision(a, math) {
            Some(cmd) => {
                let n = cmd.len() as int;
                assert(t.skip(n) =~= a.skip(n) + x);
                lemma_restoring_parts(a.skip(n), p, e, b, math);
                let z = uncollided(a.skip(n), math);
                assert(seq!['\\'] + cmd + (z + y) =~= seq!['\\'] + cmd + z + y);
            },
            None => {
                assert(t.skip(1) =~= a.skip(1) + x);
                lemma_restoring_parts(a.skip(1), p, e, b, math);
                let z = uncollided(a.skip(1), math);
                assert(seq![a[0]] + (z + y) =~= seq![a[0]] + z + y);
            },
        }
    }
}

/// Restoring keeps the word at the start of a text.
proof fn lemma_restoring_word(x: Seq<char>, math: bool)
    ensures
        word(uncollided(x, math)) == word(x),
    decreases x.len(),
{
    let r = uncollided(x, math);
    lemma_word_step(x);
    lemma_word_step(r);
    if x.len() > 0 {
        lemma_commands_are_letters(x[0]);
        lemma_collision(x, collision_commands(x[0]));
        if collision(x, math) is Some {
            assert(r[0] == '\\');
            assert(!ascii_letter(x[0]));
        } else {
            lemma_restoring_word(x.skip(1), math);
            assert(r[0] == x[0]);
            assert(r.skip(1) =~= uncollided(x.skip(1), math));
        }
    }
}

/// Restoring keeps a line end that does not read like an eaten command, or is
/// not taken for one.
proof fn lemma_restoring_tail(b: Seq<char>, math: bool)
    requires
        ends_line(b),
        !math || !reads_eaten(b),
    ensures
        ends_line(uncollided(b, math)),
        !reads_eaten(b) ==> !reads_eaten(uncollided(b, math)),
{
    if b.len() > 0 {
        let r = uncollided(b, math);
        if b[0] == '\n' {
            lemma_restoring_feed(b, math);
        } else {
            let c = b.skip(1);
            lemma_collision_needs_letter(b, math);
            lemma_restoring_feed(c, math);
            assert(r[0] == '\r' && r.skip(1) =~= uncollided(c, math));
            assert(r[1] == uncollided(c, math)[0]);
        }
    }
}

proof fn lemma_restoring_feed(b: Seq<char>, math: bool)
    requires
        b.len() > 0,
        b[0] == '\n',
        !math || collision(b, true) is None,
    ensures
        uncollided(b, math).len() > 0,
        uncollided(b, math)[0] == '\n',
        collision(b, true) is None ==> collision(uncollided(b, math), true) is None,
{
    let r = uncollided(b, math);
    let x = b.skip(1);
    assert(collision(b, math) is None);
    lemma_restoring_word(x, math);
    assert(r[0] == '\n' && r.skip(1) =~= uncollided(x, math));
    assert(b =~= seq!['\n'] + x);
    assert(r =~= seq!['\n'] + r.skip(1));
    lemma_eaten_by_word(x, r.skip(1));
}

/// Restoring keeps the start of a line.
proof fn lemma_restoring_start(a: Seq<char>, math: bool)
    requires
        starts_line(a),
    ensures
        starts_line(uncollided(a, math)),
        a.len() > 0 ==> uncollided(a, math).len() > 0,
    decreases a.len(),
{
    if a.len() > 0 {
        let cmds = collision_commands(a[0]);
        lemma_commands_are_letters(a[0]);
        lemma_collision(a, cmds);
        let r = uncollided(a, math);
        match collision(a, math) {
            Some(cmd) => {
                let n = cmd.len() as int;
                let z = a.skip(n);
                if z.len() > 0 {
                    lemma_restoring_start(z, math);
                    assert(r.last() == uncollided(z, math).last());
                } else {
                    let i = choose|i: int| 0 <= i < cmds.len() && #[trigger] cmds[i] == cmd;
                    assert(all_letters(cmds[i]));
                    if n == 1 {
                        lemma_collision_needs_letter(a, math);
                    } else {
                        assert(a.subrange(1, n)[n - 2] == a[n - 1]);
                        assert(cmd.skip(1)[n - 2] == cmd[n - 1]);
                        assert(ascii_letter(cmd[n - 1]));
                    }
                }
            },
            None => {
                let z = a.skip(1);
                if z.len() > 0 {
                    lemma_restoring_start(z, math);
                    assert(r.last() == uncollided(z, math).last());
                } else {
                    assert(uncollided(z, math) =~= Seq::<char>::empty());
                }
            },
        }
    }
}

// ---------------------------------------------------------------------------
// Rows
// ---------------------------------------------------------------------------

/// A repair of rows that leaves empty rows and `p` alone and keeps words.
spec fn spares(f: spec_fn(Seq<char>) -> Seq<char>, p: Seq<char>) -> bool {
    &&& f(Seq::empty()) == Seq::<char>::empty()
    &&& f(p) == p
    &&& forall|l: Seq<char>| word(#[trigger] f(l)) == word(l)
}

/// Rows are repaired line by line.
proof fn lemma_rows_behind(f: spec_fn(Seq<char>) -> Seq<char>, a: Seq<char>, x: Seq<char>)
    requires
        f(Seq::empty()) == Seq::<char>::empty(),
        a.len() > 0,
        a.last() == '\n',
    ensures
        by_rows(f, a + x) == by_rows(f, a) + by_rows(f, x),
        by_rows(f, a).len() > 0,
        by_rows(f, a).last() == '\n',
    decreases a.len(),
{
    let t = a + x;
    let nl = seq!['\n'];
    lemma_index_of(a, '\n');
    let k = index_of(a, '\n').unwrap();
    assert(a[a.len() - 1] == '\n');
    assert(t[k] == a[k]);
    assert forall|j: int| 0 <= j < k implies t[j] != '\n' by {
        assert(t[j] == a[j]);
    }
    lemma_index_of_is(t, '\n', k);
    lemma_rows_step(f, a);
    lemma_rows_step(f, t);
    let l = f(without_trailing(a.take(k), '\r'));
    let z = a.skip(k + 1);
    assert(t.take(k) =~= a.take(k));
    assert(t.skip(k + 1) =~= z + x);
    if z.len() == 0 {
        lemma_rows_step(f, z);
        assert(z =~= Seq::<char>::empty());
        lemma_index_of(z, '\n');
        assert(z + x =~= x);
        assert(by_rows(f, a) =~= l + nl);
    } else {
        assert(z.last() == a.last());
        lemma_rows_behind(f, z, x);
        assert(l + nl + (by_rows(f, z) + by_rows(f, x)) =~= l + nl + by_rows(f, z) + by_rows(f, x));
        assert(by_rows(f, a).last() == by_rows(f, z).last());
    }
}

/// A word ends before a line feed.
proof fn lemma_word_before_feed(y: Seq<char>, z: Seq<char>)
    ensures
        word(y + seq!['\n'] + z) == word(y),
    decreases y.len(),
{
    let t = y + seq!['\n'] + z;
    lemma_word_step(t);
    lemma_word_step(y);
    if y.len() > 0 {
        assert(t[0] == y[0]);
        assert(t.skip(1) =~= y.skip(1) + seq!['\n'] + z);
        lemma_word_before_feed(y.skip(1), z);
    } else {
        assert(t[0] == '\n');
    }
}

proof fn lemma_word_push(y: Seq<char>, c: char)
    requires
        !ascii_letter(c),
    ensures
        word(y.push(c)) == word(y),
    decreases y.len(),
{
    let t = y.push(c);
    lemma_word_step(t);
    lemma_word_step(y);
    if y.len() > 0 {
        assert(t.skip(1) =~= y.skip(1).push(c));
        lemma_word_push(y.skip(1), c);
    }
}

proof fn lemma_word_trimmed(y: Seq<char>)
    ensures
        word(without_trailing(y, '\r')) == word(y),
    decreases y.len(),
{
    if y.len() > 0 && y.last() == '\r' {
        lemma_word_trimmed(y.drop_last());
        lemma_word_push(y.drop_last(), '\r');
        assert(y.drop_last().push('\r') =~= y);
    }
}

proof fn lemma_rows_word(f: spec_fn(Seq<char>) -> Seq<char>, p: Seq<char>, x: Seq<char>)
    requires
        spares(f, p),
    ensures
        word(by_rows(f, x)) == word(x),
{
    lemma_index_of(x, '\n');
    lemma_rows_step(f, x);
    match index_of(x, '\n') {
        Some(k) => {
            let l = x.take(k);
            let m = without_trailing(l, '\r');
            lemma_word_before_feed(f(m), by_rows(f, x.skip(k + 1)));
            lemma_word_trimmed(l);
            lemma_word_before_feed(l, x.skip(k + 1));
            assert(l + seq!['\n'] + x.skip(k + 1) =~= x);
            assert(word(f(m)) == word(m));
        },
        None => {
            assert(word(f(x)) == word(x));
        },
    }
}

/// What a repair of rows makes of a line end and what follows.
spec fn tail_rows(f: spec_fn(Seq<char>) -> Seq<char>, b: Seq<char>) -> Seq<char> {
    if b.len() == 0 {
        b
    } else {
        seq!['\n'] + by_rows(f, from_feed(b).skip(1))
    }
}

/// A repair of rows leaves a placeholder on a line of its own alone.
proof fn lemma_rows_parts(
    f: spec_fn(Seq<char>) -> Seq<char>,
    a: Seq<char>,
    p: Seq<char>,
    e: int,
    b: Seq<char>,
)
    requires
        shaped(p, e),
        spares(f, p),
        starts_line(a),
        ends_line(b),
    ensures
        by_rows(f, a + (p + b)) == (if a.len() == 0 {
            Seq::empty()
        } else {
            by_rows(f, a)
        }) + (p + tail_rows(f, b)),
        a.len() > 0 ==> by_rows(f, a).len() > 0 && by_rows(f, a).last() == '\n',
        ends_line(tail_rows(f, b)),
        !reads_eaten(b) ==> !reads_eaten(tail_rows(f, b)),
{
    let x = p + b;
    let nl = seq!['\n'];
    assert forall|i: int| 0 <= i < p.len() implies p[i] != '\n' by {
        if i >= 2 && i != e {
            assert(inert(p[i]));
        }
    }
    assert(by_rows(f, x) == p + tail_rows(f, b)) by {
        lemma_rows_step(f, x);
        if b.len() == 0 {
            assert(x =~= p);
            lemma_index_of_is(x, '\n', x.len() as int);
            assert(p + b =~= p);
        } else {
            let c = from_feed(b);
            let k = p.len() + b.len() - c.len();
            assert(x[k] == '\n');
            assert forall|j: int| 0 <= j < k implies x[j] != '\n' by {
                if j < p.len() {
                    assert(x[j] == p[j]);
                }
            }
            lemma_index_of_is(x, '\n', k);
            assert(x.skip(k + 1) =~= c.skip(1));
            if b[0] == '\n' {
                assert(x.take(k) =~= p);
            } else {
                assert(x.take(k) =~= p.push('\r'));
                assert(p.push('\r').drop_last() =~= p);
            }
            assert(without_trailing(p, '\r') == p);
            assert(without_trailing(x.take(k), '\r') == p) by {
                reveal_with_fuel(without_trailing, 2);
            }
            assert(p + nl + by_rows(f, c.skip(1)) =~= p + tail_rows(f, b));
        }
    }
    if a.len() > 0 {
        lemma_rows_behind(f, a, x);
    } else {
        assert(a + x =~= x);
        assert(Seq::<char>::empty() + by_rows(f, x) =~= by_rows(f, x));
    }
    if b.len() > 0 {
        let c = from_feed(b);
        lemma_rows_word(f, p, c.skip(1));
        assert(c =~= nl + c.skip(1));
        lemma_eaten_by_word(c.skip(1), by_rows(f, c.skip(1)));
        assert(tail_rows(f, b)[0] == '\n');
    }
}

proof fn lemma_counts(p: Seq<char>, e: int, k: int)
    requires
        shaped(p, e),
        0 <= k <= p.len(),
    ensures
        occurrences(p.take(k), '[') == (if k > 1 {
            1nat
        } else {
            0nat
        }),
        occurrences(p.take(k), ']') == (if k > e {
            1nat
        } else {
            0nat
        }),
    decreases k,
{
    if k > 0 {
        lemma_counts(p, e, k - 1);
        assert(p.take(k).drop_last() =~= p.take(k - 1));
        assert(p.take(k).last() == p[k - 1]);
        if k - 1 >= 2 && k - 1 != e {
            assert(inert(p[k - 1]));
        }
    }
}

proof fn lemma_no_dollar(t: Seq<char>, d: bool, inline: bool)
    requires
        forall|i: int| 0 <= i < t.len() ==> t[i] != '$',
    ensures
        delimiter_state(t, d, inline) == (d, inline),
    decreases t.len(),
{
    if t.len() > 0 {
        lemma_no_dollar(t.skip(1), d, inline);
    }
}

proof fn lemma_doubled_word(t: Seq<char>, i: int, n: int)
    requires
        0 <= i <= t.len(),
    ensures
        word(orphans_doubled(t, i, n)) == word(t.skip(i)),
    decreases t.len() - i,
{
    let d = orphans_doubled(t, i, n);
    let u = t.skip(i);
    lemma_word_step(d);
    lemma_word_step(u);
    if i < t.len() {
        assert(u.skip(1) =~= t.skip(i + 1));
        assert(u[0] == t[i]);
        assert(d[0] == t[i]);
        if ascii_letter(t[i]) {
            lemma_doubled_word(t, i + 1, n);
            assert(d.skip(1) =~= orphans_doubled(t, i + 1, n));
        }
    }
}

/// Both repairs of rows leave a placeholder alone.
proof fn lemma_rows_spare(p: Seq<char>, e: int)
    requires
        shaped(p, e),
    ensures
        spares(balancing(), p),
        spares(closing(), p),
{
    let n = p.len() as int;
    let none = Seq::<char>::empty();
    lemma_counts(p, e, n);
    assert(p.take(n) =~= p);
    assert forall|i: int| 0 <= i < p.len() implies p[i] != '$' by {
        if i >= 2 && i != e {
            assert(inert(p[i]));
        }
    }
    lemma_no_dollar(p, false, false);
    assert(brackets_balanced(p) == p);
    assert(inline_closed(p) == p);
    assert(brackets_balanced(none) == none);
    assert(inline_closed(none) == none);
    assert forall|l: Seq<char>| word(#[trigger] balancing()(l)) == word(l) by {
        let missing = occurrences(l, ']') - occurrences(l, '[');
        lemma_doubled_word(l, 0, missing);
        assert(l.skip(0) =~= l);
    }
    assert forall|l: Seq<char>| word(#[trigger] closing()(l)) == word(l) by {
        lemma_word_push(l, '$');
    }
}

// ---------------------------------------------------------------------------
// Mathematics stays mathematics
// ---------------------------------------------------------------------------

/// The text holds a dollar or an unescaped command; `esc` says that an unescaped
/// backslash stands before it.
spec fn mathy(t: Seq<char>, esc: bool) -> bool
    decreases t.len(),
{
    if t.len() == 0 {
        false
    } else if t[0] == '$' {
        true
    } else if esc {
        ascii_letter(t[0]) || mathy(t.skip(1), false)
    } else {
        mathy(t.skip(1), t[0] == '\\')
    }
}

proof fn lemma_dollar_mathy(t: Seq<char>, esc: bool, i: int)
    requires
        0 <= i < t.len(),
        t[i] == '$',
    ensures
        mathy(t, esc),
    decreases t.len(),
{
    if i > 0 {
        lemma_dollar_mathy(t.skip(1), false, i - 1);
        lemma_dollar_mathy(t.skip(1), true, i - 1);
    }
}

proof fn lemma_command_mathy(t: Seq<char>)
    requires
        forall|i: int| 0 <= i < t.len() ==> t[i] != '$',
    ensures
        mathy(t, false) == has_command(t),
    decreases t.len(),
{
    reveal_with_fuel(mathy, 3);
    if t.len() == 1 {
        assert(t.skip(1) =~= Seq::<char>::empty());
    } else if t.len() > 1 {
        if t[0] == '\\' {
            assert(t.skip(1).skip(1) =~= t.skip(2));
            assert(t.skip(1)[0] == t[1]);
            lemma_command_mathy(t.skip(2));
        } else {
            lemma_command_mathy(t.skip(1));
        }
    }
}

proof fn lemma_mathy(t: Seq<char>)
    ensures
        mathy(t, false) == math_like(t),
{
    if t.contains('$') {
        let i = choose|i: int| 0 <= i < t.len() && t[i] == '$';
        lemma_dollar_mathy(t, false, i);
    } else {
        assert forall|i: int| 0 <= i < t.len() implies t[i] != '$' by {
            if t[i] == '$' {
                assert(t.contains(t[i]));
            }
        }
        lemma_command_mathy(t);
    }
}

/// Behind another character than a backslash nothing is escaped.
proof fn lemma_mathy_parts(q: Seq<char>, y: Seq<char>, esc: bool)
    requires
        q.len() > 0,
        q.last() != '\\',
    ensures
        mathy(q + y, esc) == (mathy(q, esc) || mathy(y, false)),
    decreases q.len(),
{
    let t = q + y;
    let u = q.skip(1);
    assert(t[0] == q[0] && t.skip(1) =~= u + y);
    if u.len() > 0 {
        assert(u.last() == q.last());
        lemma_mathy_parts(u, y, false);
        lemma_mathy_parts(u, y, true);
    } else {
        assert(u + y =~= y);
        reveal_with_fuel(mathy, 2);
    }
}

/// A character that is no letter and no dollar adds no mathematics.
proof fn lemma_mathy_push(q: Seq<char>, c: char, esc: bool)
    requires
        !ascii_letter(c),
        c != '$',
    ensures
        mathy(q.push(c), esc) == mathy(q, esc),
    decreases q.len(),
{
    let t = q.push(c);
    if q.len() > 0 {
        assert(t[0] == q[0] && t.skip(1) =~= q.skip(1).push(c));
        lemma_mathy_push(q.skip(1), c, false);
        lemma_mathy_push(q.skip(1), c, true);
    } else {
        assert(t.skip(1) =~= Seq::<char>::empty());
        reveal_with_fuel(mathy, 2);
    }
}

/// Letters without an unescaped backslash before them are no mathematics.
proof fn lemma_mathy_letters(q: Seq<char>, y: Seq<char>)
    requires
        all_letters(q),
    ensures
        mathy(q + y, false) == mathy(y, false),
    decreases q.len(),
{
    let t = q + y;
    if q.len() > 0 {
        assert(ascii_letter(q[0]));
        assert forall|i: int| 0 <= i < q.skip(1).len() implies ascii_letter(
            #[trigger] q.skip(1)[i],
        ) by {
            assert(ascii_letter(q[i + 1]));
        }
        lemma_mathy_letters(q.skip(1), y);
        assert(t[0] == q[0] && t.skip(1) =~= q.skip(1) + y);
    } else {
        assert(t =~= y);
    }
}

proof fn lemma_restoring_mathy(t: Seq<char>, math: bool, esc: bool)
    ensures
        mathy(t, esc) ==> mathy(uncollided(t, math), esc),
    decreases t.len(),
{
    if t.len() > 0 {
        let cmds = collision_commands(t[0]);
        let r = uncollided(t, math);
        lemma_commands_are_letters(t[0]);
        lemma_collision(t, cmds);
        match collision(t, math) {
            Some(cmd) => {
                let n = cmd.len() as int;
                let i = choose|i: int| 0 <= i < cmds.len() && #[trigger] cmds[i] == cmd;
                assert(all_letters(cmds[i]));
                let rest = t.skip(n);
                let z = uncollided(rest, math);
                lemma_restoring_mathy(rest, math, false);
                let q = cmd.skip(1);
                assert(all_letters(q)) by {
                    assert forall|k: int| 0 <= k < q.len() implies ascii_letter(
                        #[trigger] q[k],
                    ) by {
                        assert(ascii_letter(cmd[k + 1]));
                    }
                }
                assert(t.skip(1) =~= q + rest) by {
                    assert(t.subrange(1, n) == q);
                    assert(t.skip(1) =~= t.subrange(1, n) + rest);
                }
                lemma_mathy_letters(q, rest);
                assert(r[0] == '\\' && r.skip(1) =~= cmd + z);
                lemma_mathy_letters(cmd, z);
                assert(ascii_letter(cmd[0]));
                assert((cmd + z)[0] == cmd[0]);
                assert(t[0] != '$' && t[0] != '\\' && !ascii_letter(t[0]));
                reveal_with_fuel(mathy, 2);
            },
            None => {
                assert(r[0] == t[0] && r.skip(1) =~= uncollided(t.skip(1), math));
                lemma_restoring_mathy(t.skip(1), math, false);
                lemma_restoring_mathy(t.skip(1), math, true);
            },
        }
    }
}

/// The rules that put a dollar where they change anything.
spec fn puts_dollar(rule: Rule) -> bool {
    rule != Rule::DropTag && rule != Rule::CloseIndexed && rule != Rule::CloseSimple && rule
        != Rule::BraceScript
}

proof fn lemma_dollar_put(rule: Rule, t: Seq<char>)
    requires
        puts_dollar(rule),
    ensures
        rule.rewritten(t) == t || rule.rewritten(t).contains('$'),
    decreases t.len(),
{
    let r = rule.rewritten(t);
    lemma_head_bounds(rule.pattern(), t);
    if t.len() == 0 {
        assert(r =~= t);
    } else {
        match rule.pattern().head(t) {
            Some(h) => {
                reveal(Rule::replacement);
                if rule == Rule::CloseTwo || rule == Rule::JoinSample || rule == Rule::Sample {
                    assert(r[1] == '$');
                } else {
                    assert(r[0] == '$');
                }
            },
            None => {
                let z = rule.rewritten(t.skip(1));
                lemma_dollar_put(rule, t.skip(1));
                if z == t.skip(1) {
                    assert(r =~= t);
                } else {
                    let i = choose|i: int| 0 <= i < z.len() && z[i] == '$';
                    assert(r[i + 1] == '$');
                }
            },
        }
    }
}

/// No rule makes prose of mathematics.
proof fn lemma_rule_mathy(rule: Rule, t: Seq<char>, esc: bool)
    requires
        rule != Rule::DropTag,
    ensures
        mathy(t, esc) ==> mathy(rule.rewritten(t), esc),
    decreases t.len(),
{
    let r = rule.rewritten(t);
    if puts_dollar(rule) {
        lemma_dollar_put(rule, t);
        if r != t {
            let i = choose|i: int| 0 <= i < r.len() && r[i] == '$';
            lemma_dollar_mathy(r, esc, i);
        }
    } else {
        lemma_head_bounds(rule.pattern(), t);
        if t.len() > 0 {
            match rule.pattern().head(t) {
                Some(h) => {
                    let x = t.skip(h.0);
                    let y = rule.rewritten(x);
                    lemma_rule_mathy(rule, x, false);
                    lemma_begins(rule, t);
                    if rule == Rule::BraceScript {
                        lemma_script_mathy(t, h, y, esc);
                    } else {
                        lemma_close_mathy(rule, t, h, y, esc);
                    }
                },
                None => {
                    assert(r[0] == t[0] && r.skip(1) =~= rule.rewritten(t.skip(1)));
                    lemma_rule_mathy(rule, t.skip(1), false);
                    lemma_rule_mathy(rule, t.skip(1), true);
                },
            }
        }
    }
}

proof fn lemma_script_mathy(t: Seq<char>, h: (int, int, int), y: Seq<char>, esc: bool)
    requires
        Pattern::Script.head(t) == Some(h),
    ensures
        mathy(Rule::BraceScript.replacement(t, h) + y, esc),
{
    reveal(Pattern::head);
    reveal(Rule::replacement);
    lemma_run_bounds(t, 2, is_letter());
    assert(is_letter()(t[2]));
    let r = Rule::BraceScript.replacement(t, h) + y;
    reveal_with_fuel(mathy, 5);
    if h.0 < t.len() && t[h.0] == '{' {
        assert(r[0] == t[0] && r.skip(1)[0] == '\\' && r.skip(1).skip(1)[0] == t[2]);
    } else {
        assert(r[0] == t[0] && r.skip(1)[0] == '{' && r.skip(1).skip(1)[0] == '\\' && r.skip(
            1,
        ).skip(1).skip(1)[0] == t[2]);
    }
}

proof fn lemma_close_mathy(rule: Rule, t: Seq<char>, h: (int, int, int), y: Seq<char>, esc: bool)
    requires
        rule == Rule::CloseIndexed || rule == Rule::CloseSimple,
        rule.pattern().head(t) == Some(h),
        0 < h.0 <= t.len(),
        mathy(t.skip(h.0), false) ==> mathy(y, false),
    ensures
        mathy(t, esc) ==> mathy(rule.replacement(t, h) + y, esc),
{
    lemma_close_match(rule, t, h);
    let q = t.take(h.1);
    let x = t.skip(h.0);
    let r = rule.replacement(t, h) + y;
    assert(t =~= q + (seq!['^'] + x));
    assert(r =~= q + (seq![']', '^'] + y));
    assert(q.last() == ']');
    lemma_mathy_parts(q, seq!['^'] + x, esc);
    lemma_mathy_parts(q, seq![']', '^'] + y, esc);
    assert((seq!['^'] + x).skip(1) =~= x);
    assert((seq![']', '^'] + y).skip(1).skip(1) =~= y);
    reveal_with_fuel(mathy, 3);
}

proof fn lemma_doubled_mathy(t: Seq<char>, i: int, n: int, esc: bool)
    requires
        0 <= i <= t.len(),
    ensures
        mathy(t.skip(i), esc) ==> mathy(orphans_doubled(t, i, n), esc),
    decreases t.len() - i,
{
    let u = t.skip(i);
    let d = orphans_doubled(t, i, n);
    if i < t.len() {
        assert(u[0] == t[i] && u.skip(1) =~= t.skip(i + 1));
        if orphan(t, i) && n > 0 {
            let z = orphans_doubled(t, i + 1, n - 1);
            lemma_doubled_mathy(t, i + 1, n - 1, false);
            assert(d[0] == '[' && d.skip(1)[0] == '[' && d.skip(1).skip(1) =~= z);
            reveal_with_fuel(mathy, 3);
        } else {
            let z = orphans_doubled(t, i + 1, n);
            lemma_doubled_mathy(t, i + 1, n, false);
            lemma_doubled_mathy(t, i + 1, n, true);
            assert(d[0] == t[i] && d.skip(1) =~= z);
        }
    }
}

/// A repair of rows that makes prose of no mathematics.
spec fn keeps_mathy(f: spec_fn(Seq<char>) -> Seq<char>) -> bool {
    forall|l: Seq<char>| mathy(l, false) ==> mathy(#[trigger] f(l), false)
}

proof fn lemma_trimmed_mathy(y: Seq<char>)
    ensures
        mathy(without_trailing(y, '\r'), false) == mathy(y, false),
    decreases y.len(),
{
    if y.len() > 0 && y.last() == '\r' {
        lemma_trimmed_mathy(y.drop_last());
        lemma_mathy_push(y.drop_last(), '\r', false);
        assert(y.drop_last().push('\r') =~= y);
    }
}

proof fn lemma_feed_mathy(l: Seq<char>, z: Seq<char>)
    ensures
        mathy(l + seq!['\n'] + z, false) == (mathy(l, false) || mathy(z, false)),
{
    let q = l + seq!['\n'];
    assert(q =~= l.push('\n'));
    lemma_mathy_push(l, '\n', false);
    lemma_mathy_parts(q, z, false);
}

proof fn lemma_rows_mathy(f: spec_fn(Seq<char>) -> Seq<char>, s: Seq<char>)
    requires
        keeps_mathy(f),
    ensures
        mathy(s, false) ==> mathy(by_rows(f, s), false),
    decreases s.len(),
{
    lemma_index_of(s, '\n');
    lemma_rows_step(f, s);
    match index_of(s, '\n') {
        Some(k) => {
            let l = s.take(k);
            let m = without_trailing(l, '\r');
            let z = s.skip(k + 1);
            lemma_rows_mathy(f, z);
            lemma_trimmed_mathy(l);
            lemma_feed_mathy(l, z);
            lemma_feed_mathy(f(m), by_rows(f, z));
            assert(l + seq!['\n'] + z =~= s);
            assert(mathy(m, false) ==> mathy(f(m), false));
        },
        None => {
            assert(mathy(s, false) ==> mathy(f(s), false));
        },
    }
}

proof fn lemma_rows_keep_mathy()
    ensures
        keeps_mathy(balancing()),
        keeps_mathy(closing()),
{
    assert forall|l: Seq<char>| mathy(l, false) implies mathy(
        #[trigger] balancing()(l),
        false,
    ) by {
        let missing = occurrences(l, ']') - occurrences(l, '[');
        lemma_doubled_mathy(l, 0, missing, false);
        assert(l.skip(0) =~= l);
    }
    assert forall|l: Seq<char>| mathy(l, false) implies mathy(#[trigger] closing()(l), false) by {
        let c = closing()(l);
        if c != l {
            lemma_dollar_mathy(c, false, l.len() as int);
        }
    }
}

// ---------------------------------------------------------------------------
// The whole repair
// ---------------------------------------------------------------------------

/// In `t` the text `p` has a line of its own, `a` standing before it and `b`
/// behind it.
pub open spec fn own_line(t: Seq<char>, a: Seq<char>, p: Seq<char>, b: Seq<char>) -> bool {
    t == a + (p + b) && starts_line(a) && ends_line(b)
}

/// Some line of `t` is `p`.
pub open spec fn has_line(t: Seq<char>, p: Seq<char>) -> bool {
    exists|a: Seq<char>, b: Seq<char>| own_line(t, a, p, b)
}

/// Some line of `t` is `p`, and where `safe` holds its end does not read like an
/// eaten command.
spec fn holds_line(t: Seq<char>, p: Seq<char>, safe: bool) -> bool {
    exists|a: Seq<char>, b: Seq<char>| #[trigger]
        own_line(t, a, p, b) && (safe ==> !reads_eaten(b))
}

/// `r` keeps the line of a placeholder in `t`, and is mathematics where `t` is.
spec fn faithful(t: Seq<char>, r: Seq<char>, p: Seq<char>, safe: bool) -> bool {
    &&& holds_line(t, p, safe) ==> holds_line(r, p, safe)
    &&& math_like(t) ==> math_like(r)
}

proof fn lemma_rule_faithful(rule: Rule, t: Seq<char>, p: Seq<char>, e: int, safe: bool)
    requires
        rule != Rule::DropTag,
        shaped(p, e),
    ensures
        faithful(t, rule.rewritten(t), p, safe),
{
    let r = rule.rewritten(t);
    lemma_rule_mathy(rule, t, false);
    lemma_mathy(t);
    lemma_mathy(r);
    if holds_line(t, p, safe) {
        let (a, b) = choose|a: Seq<char>, b: Seq<char>| #[trigger]
            own_line(t, a, p, b) && (safe ==> !reads_eaten(b));
        lemma_rule_parts(rule, a, p, e, b);
        lemma_rule_start(rule, a);
        lemma_rule_tail(rule, b);
        assert(own_line(r, rule.rewritten(a), p, rule.rewritten(b)));
    }
}

proof fn lemma_restoring_faithful(t: Seq<char>, p: Seq<char>, e: int, safe: bool, math: bool)
    requires
        shaped(p, e),
        safe || !math,
    ensures
        faithful(t, uncollided(t, math), p, safe),
{
    let r = uncollided(t, math);
    lemma_restoring_mathy(t, math, false);
    lemma_mathy(t);
    lemma_mathy(r);
    if holds_line(t, p, safe) {
        let (a, b) = choose|a: Seq<char>, b: Seq<char>| #[trigger]
            own_line(t, a, p, b) && (safe ==> !reads_eaten(b));
        lemma_restoring_parts(a, p, e, b, math);
        lemma_restoring_start(a, math);
        lemma_restoring_tail(b, math);
        assert(own_line(r, uncollided(a, math), p, uncollided(b, math)));
    }
}

proof fn lemma_rows_faithful(
    f: spec_fn(Seq<char>) -> Seq<char>,
    t: Seq<char>,
    p: Seq<char>,
    e: int,
    safe: bool,
)
    requires
        shaped(p, e),
        spares(f, p),
        keeps_mathy(f),
    ensures
        faithful(t, by_rows(f, t), p, safe),
{
    let r = by_rows(f, t);
    lemma_rows_mathy(f, t);
    lemma_mathy(t);
    lemma_mathy(r);
    if holds_line(t, p, safe) {
        let (a, b) = choose|a: Seq<char>, b: Seq<char>| #[trigger]
            own_line(t, a, p, b) && (safe ==> !reads_eaten(b));
        lemma_rows_parts(f, a, p, e, b);
        let before = if a.len() == 0 {
            Seq::empty()
        } else {
            by_rows(f, a)
        };
        assert(own_line(r, before, p, tail_rows(f, b)));
    }
}

proof fn lemma_fences_faithful(t: Seq<char>, p: Seq<char>, e: int, safe: bool)
    requires
        shaped(p, e),
    ensures
        faithful(t, fences_stripped(t), p, safe),
    decreases t.len(),
{
    let a = Rule::OpenInline.rewritten(t);
    let b = Rule::OpenMultiline.rewritten(a);
    let c = Rule::CloseFour.rewritten(b);
    lemma_rule_faithful(Rule::OpenInline, t, p, e, safe);
    lemma_rule_faithful(Rule::OpenMultiline, a, p, e, safe);
    lemma_rule_faithful(Rule::CloseFour, b, p, e, safe);
    lemma_rule_faithful(Rule::CloseTwo, c, p, e, safe);
    lemma_fences_pass_len(t);
    if fences_pass(t) != t {
        lemma_fences_faithful(fences_pass(t), p, e, safe);
    }
}

proof fn lemma_boundaries_faithful(t: Seq<char>, p: Seq<char>, e: int, safe: bool)
    requires
        shaped(p, e),
    ensures
        faithful(t, boundaries_stripped(t), p, safe),
    decreases t.len(),
{
    let a = Rule::BoundaryOpen.rewritten(t);
    lemma_rule_faithful(Rule::BoundaryOpen, t, p, e, safe);
    lemma_rule_faithful(Rule::BoundaryClose, a, p, e, safe);
    lemma_boundaries_pass_len(t);
    if boundaries_pass(t) != t {
        lemma_boundaries_faithful(boundaries_pass(t), p, e, safe);
    }
}

proof fn lemma_inner_faithful(t: Seq<char>, p: Seq<char>, e: int, safe: bool)
    requires
        shaped(p, e),
    ensures
        faithful(t, inner_brackets_closed(t), p, safe),
    decreases unclosed(t, 0),
{
    let a = Rule::CloseIndexed.rewritten(t);
    lemma_rule_faithful(Rule::CloseIndexed, t, p, e, safe);
    lemma_rule_faithful(Rule::CloseSimple, a, p, e, safe);
    lemma_inner_pass_shrinks(t);
    if inner_brackets_pass(t) != t {
        lemma_inner_faithful(inner_brackets_pass(t), p, e, safe);
    }
}

/// The repairs that follow the restoring of commands.
spec fn after_restoring(t: Seq<char>) -> Seq<char> {
    Rule::BraceScript.rewritten(
        all_inline_closed(
            inner_brackets_closed(
                all_brackets_balanced(sample_repaired(boundaries_stripped(fences_stripped(t)))),
            ),
        ),
    )
}

proof fn lemma_rest_faithful(t: Seq<char>, p: Seq<char>, e: int, safe: bool)
    requires
        shaped(p, e),
    ensures
        faithful(t, after_restoring(t), p, safe),
{
    let b = fences_stripped(t);
    let c = boundaries_stripped(b);
    let c1 = Rule::JoinSample.rewritten(c);
    let d = sample_repaired(c);
    let f = all_brackets_balanced(d);
    let g = inner_brackets_closed(f);
    let h = all_inline_closed(g);
    lemma_rows_spare(p, e);
    lemma_rows_keep_mathy();
    lemma_fences_faithful(t, p, e, safe);
    lemma_boundaries_faithful(b, p, e, safe);
    lemma_rule_faithful(Rule::JoinSample, c, p, e, safe);
    lemma_rule_faithful(Rule::Sample, c1, p, e, safe);
    lemma_rows_faithful(balancing(), d, p, e, safe);
    lemma_inner_faithful(f, p, e, safe);
    lemma_rows_faithful(closing(), g, p, e, safe);
    lemma_rule_faithful(Rule::BraceScript, h, p, e, safe);
}

/// A round makes prose of no mathematics, and keeps the line of a placeholder
/// that is safe or ends in prose.
proof fn lemma_round_faithful(t: Seq<char>, p: Seq<char>, e: int, safe: bool)
    requires
        shaped(p, e),
    ensures
        math_like(t) ==> math_like(round(t)),
        (safe || !math_like(round(t))) && holds_line(t, p, safe) ==> holds_line(
            round(t),
            p,
            safe,
        ),
{
    let m = math_like(t);
    let u = uncollided(t, m);
    let n = math_like(u);
    let v = commands_restored(t);
    assert(round(t) == after_restoring(v));
    lemma_restoring_mathy(t, m, false);
    lemma_restoring_mathy(u, n, false);
    lemma_mathy(t);
    lemma_mathy(u);
    lemma_mathy(v);
    lemma_rest_faithful(v, p, e, safe);
    if safe || !math_like(round(t)) {
        lemma_restoring_faithful(t, p, e, safe, m);
        lemma_restoring_faithful(u, p, e, safe, n);
    }
}

proof fn lemma_repair_faithful(t: Seq<char>, p: Seq<char>, e: int, safe: bool)
    requires
        shaped(p, e),
    ensures
        math_like(t) ==> math_like(repaired(t)),
        (safe || !math_like(repaired(t))) && holds_line(t, p, safe) ==> holds_line(
            repaired(t),
            p,
            safe,
        ),
    decreases
            tally(t, Sort::Control),
            unstripped(t),
            alone(t, 0),
            unclosed(t, 0),
            bare_lines(t),
            bare_scripts(t),
{
    lemma_round_faithful(t, p, e, safe);
    lemma_round_shrinks(t);
    if round(t) != t {
        lemma_repair_faithful(round(t), p, e, safe);
    }
}

/// The repair keeps a placeholder that has a line of its own: that line is a line
/// of the repaired text too. The one exception is mathematics in which the line
/// end behind the placeholder reads like an eaten command.
pub proof fn law_placeholder_lines_kept(s: Seq<char>, a: Seq<char>, p: Seq<char>, b: Seq<char>)
    requires
        is_mark(p),
        own_line(s, a, p, b),
        !(math_like(repaired(s)) && reads_eaten(b)),
    ensures
        has_line(repaired(s), p),
{
    let e = lemma_mark_shape(p);
    let safe = !reads_eaten(b);
    assert(own_line(s, a, p, b) && (safe ==> !reads_eaten(b)));
    assert(holds_line(s, p, safe));
    lemma_repair_faithful(s, p, e, safe);
    let r = repaired(s);
    let (x, y) = choose|x: Seq<char>, y: Seq<char>| #[trigger]
        own_line(r, x, p, y) && (safe ==> !reads_eaten(y));
    assert(own_line(r, x, p, y));
}

/// The repair makes prose of no mathematics.
pub proof fn law_repair_keeps_mathematics(s: Seq<char>)
    ensures
        math_like(s) ==> math_like(repaired(s)),
{
    reveal_strlit("a");
    let id = "a"@;
    assert(plain_id(id)) by {
        assert(id_char(id[0]));
    }
    let p = placeholder(id);
    assert(is_mark(p));
    let e = lemma_mark_shape(p);
    lemma_repair_faithful(s, p, e, true);
}

// ---------------------------------------------------------------------------
// The placeholders of a page
// ---------------------------------------------------------------------------

proof fn lemma_decimal_is_plain(n: nat)
    ensures
        plain_id(decimal(n)),
    decreases n,
{
    if n >= 10 {
        lemma_decimal_is_plain(n / 10);
        let d = decimal(n);
        let f = decimal(n / 10);
        assert forall|i: int| 0 <= i < d.len() implies id_char(#[trigger] d[i]) by {
            if i < f.len() {
                assert(d[i] == f[i]);
                assert(id_char(f[i]));
            }
        }
    }
}

/// The ids that tables and figures get make placeholders.
pub proof fn law_ids_make_placeholders(page: u32, index: int)
    requires
        0 <= index,
    ensures
        is_mark(placeholder(table_id(page, index))),
        is_mark(figure_placeholder(figure_id(page, index))),
{
    reveal_strlit("tbl_");
    reveal_strlit("fig_");
    reveal_strlit("_");
    lemma_decimal_is_plain(page as nat);
    lemma_decimal_is_plain(index as nat);
    let x = decimal(page as nat);
    let y = decimal(index as nat);
    let t = table_id(page, index);
    let f = figure_id(page, index);
    assert forall|i: int| 0 <= i < t.len() implies id_char(#[trigger] t[i]) && id_char(f[i]) by {
        if 4 <= i < 4 + x.len() {
            assert(t[i] == x[i - 4] && f[i] == x[i - 4]);
            assert(id_char(x[i - 4]));
        } else if i > 4 + x.len() {
            let k = i - 5 - x.len();
            assert(t[i] == y[k] && f[i] == y[k]);
            assert(id_char(y[k]));
        }
    }
    assert forall|i: int| 0 <= i < f.len() implies id_char(#[trigger] f[i]) by {
        assert(id_char(t[i]));
    }
    assert(plain_id(t) && plain_id(f));
    assert(placeholder(f) == placeholder(f));
}

/// A text with a character that is no white space has something left when it is
/// trimmed.
proof fn lemma_trim_keeps(t: Seq<char>, i: int)
    requires
        0 <= i < t.len(),
        !white_space(t[i]),
    ensures
        trim(t).len() > 0,
{
    let k = lemma_trim_start_keeps(t, i);
    lemma_trim_end_keeps(trim_start(t), k);
}

proof fn lemma_trim_start_keeps(t: Seq<char>, i: int) -> (k: int)
    requires
        0 <= i < t.len(),
        !white_space(t[i]),
    ensures
        0 <= k < trim_start(t).len(),
        !white_space(trim_start(t)[k]),
    decreases t.len(),
{
    if white_space(t[0]) {
        lemma_trim_start_keeps(t.skip(1), i - 1)
    } else {
        i
    }
}

proof fn lemma_trim_end_keeps(t: Seq<char>, i: int)
    requires
        0 <= i < t.len(),
        !white_space(t[i]),
    ensures
        trim_end(t).len() > 0,
    decreases t.len(),
{
    if white_space(t.last()) {
        lemma_trim_end_keeps(t.drop_last(), i);
    }
}

/// A page with a placeholder on a line of its own has text left after the
/// repair, and that line in it, with the exception that
/// [`law_placeholder_lines_kept`] makes.
pub proof fn law_pages_keep_placeholders(raw: Seq<char>, a: Seq<char>, p: Seq<char>, b: Seq<char>)
    requires
        is_mark(p),
        own_line(raw, a, p, b),
        !(math_like(repaired(raw)) && reads_eaten(b)),
    ensures
        page_text(raw) matches Some(t) && has_line(t, p),
{
    law_placeholder_lines_kept(raw, a, p, b);
    let e = lemma_mark_shape(p);
    let r = repaired(raw);
    let (x, y) = choose|x: Seq<char>, y: Seq<char>| own_line(r, x, p, y);
    assert(r[x.len() as int] == '!');
    lemma_trim_keeps(r, x.len() as int);
}

} // verus!
