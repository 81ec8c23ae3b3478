//! What the repairs of brackets, dollars and scripts leave to be done.
//!
//! Three measures of a text: the closing brackets that its carets lack, the
//! opening brackets that stand alone, and whether a line leaves inline
//! mathematics open. Each repair brings its own measure down where it changes
//! anything, and none of the repairs that come after it brings it up again.

use vstd::prelude::*;

use crate::latex_laws::{
    law_line_delimiters_idempotent, lemma_brace_first, lemma_rows_step, lemma_without_trailing,
    no_line_feed,
};
use crate::latex_repair::{
    balancing, brackets_balanced, by_rows, closing, delimiter_state, inline_closed,
    inner_brackets_pass, occurrences, orphan, orphans_doubled,
};
use crate::patterns::{is_letter, is_no_bracket, Pattern};
use crate::rewrite::{lemma_head_bounds, Rule};
use crate::text::{
    ascii_letter, index_of, lemma_index_of, lemma_run_bounds, run, stands_at, without_trailing,
};

verus! {

// ---------------------------------------------------------------------------
// Carets
// ---------------------------------------------------------------------------

/// How many closing brackets the carets of `t` lack of three each, `n` of them
/// standing before `t`.
pub open spec fn unclosed(t: Seq<char>, n: nat) -> nat
    decreases t.len(),
{
    if t.len() == 0 {
        0
    } else if t[0] == ']' {
        unclosed(t.skip(1), n + 1)
    } else {
        (if t[0] == '^' && n < 3 {
            (3 - n) as nat
        } else {
            0
        }) + unclosed(t.skip(1), 0)
    }
}

/// What stands before a character that is no closing bracket does not matter
/// behind it.
proof fn lemma_unclosed_behind(a: Seq<char>, c: char, b: Seq<char>, n: nat)
    requires
        c != ']',
    ensures
        unclosed(a + seq![c] + b, n) == unclosed(a + seq![c], n) + unclosed(b, 0),
    decreases a.len(),
{
    let t = a + seq![c] + b;
    let u = a + seq![c];
    if a.len() == 0 {
        assert(t[0] == c && t.skip(1) =~= b);
        assert(u[0] == c && u.skip(1) =~= Seq::<char>::empty());
        reveal_with_fuel(unclosed, 2);
    } else {
        assert(t[0] == a[0] && t.skip(1) =~= a.skip(1) + seq![c] + b);
        assert(u[0] == a[0] && u.skip(1) =~= a.skip(1) + seq![c]);
        if a[0] == ']' {
            lemma_unclosed_behind(a.skip(1), c, b, n + 1);
        } else {
            lemma_unclosed_behind(a.skip(1), c, b, 0);
        }
    }
}

/// Another character at the end adds nothing.
proof fn lemma_unclosed_push(a: Seq<char>, c: char, n: nat)
    requires
        c != ']',
        c != '^',
    ensures
        unclosed(a.push(c), n) == unclosed(a, n),
    decreases a.len(),
{
    let t = a.push(c);
    if a.len() == 0 {
        assert(t[0] == c && t.skip(1) =~= Seq::<char>::empty());
        reveal_with_fuel(unclosed, 2);
    } else {
        assert(t[0] == a[0] && t.skip(1) =~= a.skip(1).push(c));
        if a[0] == ']' {
            lemma_unclosed_push(a.skip(1), c, n + 1);
        } else {
            lemma_unclosed_push(a.skip(1), c, 0);
        }
    }
}

/// What a caret behind closing brackets lacks.
proof fn lemma_unclosed_caret(b: Seq<char>, x: Seq<char>, n: nat)
    requires
        forall|i: int| 0 <= i < b.len() ==> b[i] == ']',
    ensures
        unclosed(b + (seq!['^'] + x), n) == (if n + b.len() < 3 {
            3 - n - b.len()
        } else {
            0
        }) + unclosed(x, 0),
    decreases b.len(),
{
    let t = b + (seq!['^'] + x);
    if b.len() == 0 {
        assert(t[0] == '^' && t.skip(1) =~= x);
    } else {
        assert(t[0] == ']' && t.skip(1) =~= b.skip(1) + (seq!['^'] + x));
        lemma_unclosed_caret(b.skip(1), x, n + 1);
    }
}

/// Where the closing brackets before the caret of a match begin.
pub open spec fn brackets_from(rule: Rule, h: (int, int, int)) -> int {
    if rule == Rule::CloseIndexed {
        h.1 - 2
    } else {
        h.1 - 1
    }
}

pub open spec fn closes(rule: Rule) -> bool {
    rule == Rule::CloseIndexed || rule == Rule::CloseSimple
}

/// A match ends in closing brackets and a caret, and no closing bracket stands
/// before those.
pub proof fn lemma_close_match(rule: Rule, t: Seq<char>, h: (int, int, int))
    requires
        closes(rule),
        rule.pattern().head(t) == Some(h),
    ensures
        ({
            let k = brackets_from(rule, h);
            &&& 1 <= k < h.1
            &&& h.0 == h.1 + 1 <= t.len()
            &&& t[h.1] == '^'
            &&& t[k] == ']' && t[h.1 - 1] == ']'
            &&& t[k - 1] != ']'
            &&& rule.replacement(t, h) == t.take(h.1) + seq![']', '^']
        }),
{
    reveal(Pattern::head);
    reveal(Rule::replacement);
    lemma_head_bounds(rule.pattern(), t);
    let p = is_no_bracket();
    let a = run(t, 2, p);
    lemma_run_bounds(t, 2, p);
    assert(t.subrange(0, h.1) =~= t.take(h.1));
    if rule == Rule::CloseIndexed {
        let b = run(t, a + 1, p);
        lemma_run_bounds(t, a + 1, p);
        let x = seq![']', ']', '^'];
        assert(stands_at(t, b, x));
        assert(t.subrange(b, b + 3)[0] == t[b] && t.subrange(b, b + 3)[1] == t[b + 1] && t.subrange(
            b,
            b + 3,
        )[2] == t[b + 2]);
        if b > a + 1 {
            assert(p(t[b - 1]));
        }
    } else {
        let x = seq![']', '^'];
        assert(stands_at(t, a, x));
        assert(t.subrange(a, a + 2)[0] == t[a] && t.subrange(a, a + 2)[1] == t[a + 1]);
        if a > 2 {
            assert(p(t[a - 1]));
        } else {
            assert(t[1] == '[') by {
                assert(stands_at(t, 0, seq!['[', '[']));
                assert(t.subrange(0, 2)[1] == t[1]);
            }
        }
    }
}

/// One more closing bracket before a caret that has one or two leaves less to
/// close, if what follows does not leave more.
proof fn lemma_one_more_bracket(t: Seq<char>, k: int, e: int, y: Seq<char>, n: nat)
    requires
        1 <= k < e < t.len(),
        e - k < 3,
        t[k - 1] != ']',
        forall|i: int| k <= i < e ==> t[i] == ']',
        t[e] == '^',
        unclosed(y, 0) <= unclosed(t.skip(e + 1), 0),
    ensures
        unclosed(t.take(e) + seq![']', '^'] + y, n) < unclosed(t, n),
{
    let x = t.skip(e + 1);
    let a = t.take(k - 1);
    let c = t[k - 1];
    let few = t.subrange(k, e);
    let more = few.push(']');
    assert(t =~= a + seq![c] + (few + (seq!['^'] + x)));
    assert(t.take(e) + seq![']', '^'] + y =~= a + seq![c] + (more + (seq!['^'] + y)));
    lemma_unclosed_behind(a, c, few + (seq!['^'] + x), n);
    lemma_unclosed_behind(a, c, more + (seq!['^'] + y), n);
    lemma_unclosed_caret(few, x, 0);
    lemma_unclosed_caret(more, y, 0);
}

/// Closing inner brackets leaves less to close, unless it changes nothing.
proof fn lemma_close_shrinks(rule: Rule, t: Seq<char>, n: nat)
    requires
        closes(rule),
    ensures
        unclosed(rule.rewritten(t), n) <= unclosed(t, n),
        rule.rewritten(t) != t ==> unclosed(rule.rewritten(t), n) < unclosed(t, n),
    decreases t.len(),
{
    lemma_head_bounds(rule.pattern(), t);
    if t.len() == 0 {
        assert(rule.rewritten(t) =~= t);
    } else {
        match rule.pattern().head(t) {
            Some(h) => {
                lemma_close_shrinks(rule, t.skip(h.0), 0);
                lemma_close_match(rule, t, h);
                let y = rule.rewritten(t.skip(h.0));
                lemma_one_more_bracket(t, brackets_from(rule, h), h.1, y, n);
            },
            None => {
                let u = t.skip(1);
                let y = rule.rewritten(u);
                let r = seq![t[0]] + y;
                assert(r[0] == t[0] && r.skip(1) =~= y);
                if y == u {
                    assert(r =~= t);
                }
                if t[0] == ']' {
                    lemma_close_shrinks(rule, u, n + 1);
                } else {
                    lemma_close_shrinks(rule, u, 0);
                }
            },
        }
    }
}

/// A pass over the inner brackets leaves less to close, unless it changes
/// nothing.
pub proof fn lemma_inner_pass_shrinks(s: Seq<char>)
    ensures
        unclosed(inner_brackets_pass(s), 0) <= unclosed(s, 0),
        inner_brackets_pass(s) != s ==> unclosed(inner_brackets_pass(s), 0) < unclosed(s, 0),
{
    lemma_close_shrinks(Rule::CloseIndexed, s, 0);
    lemma_close_shrinks(Rule::CloseSimple, Rule::CloseIndexed.rewritten(s), 0);
}

/// Carriage returns at the end do not matter.
proof fn lemma_unclosed_trimmed(t: Seq<char>, n: nat)
    ensures
        unclosed(without_trailing(t, '\r'), n) == unclosed(t, n),
    decreases t.len(),
{
    if t.len() > 0 && t.last() == '\r' {
        lemma_unclosed_trimmed(t.drop_last(), n);
        lemma_unclosed_push(t.drop_last(), '\r', n);
        assert(t.drop_last().push('\r') =~= t);
    }
}

/// Closing inline mathematics closes no inner bracket and opens none.
pub proof fn lemma_closing_unclosed(s: Seq<char>, n: nat)
    ensures
        unclosed(by_rows(closing(), s), n) == unclosed(s, n),
    decreases s.len(),
{
    lemma_index_of(s, '\n');
    lemma_rows_step(closing(), s);
    match index_of(s, '\n') {
        Some(k) => {
            let l = s.take(k);
            let m = without_trailing(l, '\r');
            let rest = s.skip(k + 1);
            let c = inline_closed(m);
            lemma_closing_unclosed(rest, 0);
            lemma_unclosed_trimmed(l, n);
            lemma_unclosed_push(m, '$', n);
            assert(s =~= l + seq!['\n'] + rest);
            lemma_unclosed_behind(l, '\n', rest, n);
            lemma_unclosed_behind(c, '\n', by_rows(closing(), rest), n);
            lemma_unclosed_push(l, '\n', n);
            lemma_unclosed_push(c, '\n', n);
            assert(l + seq!['\n'] =~= l.push('\n'));
            assert(c + seq!['\n'] =~= c.push('\n'));
        },
        None => {
            lemma_unclosed_push(s, '$', n);
        },
    }
}

/// A script mark and the command behind it, as a match has them.
proof fn lemma_script_match(t: Seq<char>, h: (int, int, int))
    requires
        Pattern::Script.head(t) == Some(h),
    ensures
        h.0 > 2 && h.0 <= t.len() && h.1 == 1 && h.2 == h.0,
        t[0] == '^' || t[0] == '_',
        t[1] == '\\',
        forall|i: int| 2 <= i < h.0 ==> ascii_letter(#[trigger] t[i]),
        h.0 < t.len() ==> !ascii_letter(t[h.0]),
{
    reveal(Pattern::head);
    lemma_run_bounds(t, 2, is_letter());
    assert forall|i: int| 2 <= i < h.0 implies ascii_letter(#[trigger] t[i]) by {
        assert(is_letter()(t[i]));
    }
    if h.0 < t.len() {
        assert(!is_letter()(t[h.0]));
    }
}

/// The replacement of a script match: the match itself, or the match with
/// braces.
proof fn lemma_script_replacement(t: Seq<char>, h: (int, int, int))
    requires
        Pattern::Script.head(t) == Some(h),
    ensures
        Rule::BraceScript.replacement(t, h) == (if h.0 < t.len() && t[h.0] == '{' {
            t.take(h.0)
        } else {
            seq![t[0], '{'] + t.subrange(1, h.0) + seq!['}']
        }),
{
    reveal(Rule::replacement);
    lemma_script_match(t, h);
    assert(t.subrange(0, h.0) =~= t.take(h.0));
}

/// Characters that are neither a closing bracket nor a caret lack nothing.
proof fn lemma_unclosed_plain(g: Seq<char>, x: Seq<char>, n: nat)
    requires
        g.len() > 0,
        forall|i: int| 0 <= i < g.len() ==> g[i] != ']' && g[i] != '^',
    ensures
        unclosed(g + x, n) == unclosed(x, 0),
    decreases g.len(),
{
    let t = g + x;
    assert(t[0] == g[0] && t.skip(1) =~= g.skip(1) + x);
    if g.len() > 1 {
        lemma_unclosed_plain(g.skip(1), x, 0);
    } else {
        assert(t.skip(1) =~= x);
    }
}

/// Bracing scripts closes no inner bracket and opens none.
pub proof fn lemma_bracing_unclosed(t: Seq<char>, n: nat)
    ensures
        unclosed(Rule::BraceScript.rewritten(t), n) == unclosed(t, n),
    decreases t.len(),
{
    let rule = Rule::BraceScript;
    lemma_head_bounds(Pattern::Script, t);
    if t.len() > 0 {
        match Pattern::Script.head(t) {
            Some(h) => {
                lemma_script_match(t, h);
                lemma_script_replacement(t, h);
                let x = t.skip(h.0);
                let y = rule.rewritten(x);
                lemma_bracing_unclosed(x, 0);
                let g = t.subrange(1, h.0);
                assert forall|i: int| 0 <= i < g.len() implies g[i] != ']' && g[i] != '^' by {
                    if i > 0 {
                        assert(ascii_letter(t[i + 1]));
                    }
                }
                assert(t.skip(1) =~= g + x);
                lemma_unclosed_plain(g, x, 0);
                let r = rule.replacement(t, h) + y;
                if h.0 < t.len() && t[h.0] == '{' {
                    assert(r[0] == t[0] && r.skip(1) =~= g + y);
                    lemma_unclosed_plain(g, y, 0);
                } else {
                    let b = seq!['{'] + g + seq!['}'];
                    assert(r[0] == t[0] && r.skip(1) =~= b + y);
                    assert forall|i: int| 0 <= i < b.len() implies b[i] != ']' && b[i] != '^' by {
                        if 0 < i < b.len() - 1 {
                            assert(b[i] == g[i - 1]);
                        }
                    }
                    lemma_unclosed_plain(b, y, 0);
                }
            },
            None => {
                let u = t.skip(1);
                let r = seq![t[0]] + rule.rewritten(u);
                assert(r[0] == t[0] && r.skip(1) =~= rule.rewritten(u));
                if t[0] == ']' {
                    lemma_bracing_unclosed(u, n + 1);
                } else {
                    lemma_bracing_unclosed(u, 0);
                }
            },
        }
    }
}

// ---------------------------------------------------------------------------
// Opening brackets
// ---------------------------------------------------------------------------

spec fn one_if(b: bool) -> nat {
    if b {
        1
    } else {
        0
    }
}

/// How many opening brackets of `t` stand alone, `n` of them standing before
/// `t`.
pub closed spec fn alone(t: Seq<char>, n: nat) -> nat
    decreases t.len(),
{
    if t.len() == 0 {
        one_if(n == 1)
    } else if t[0] == '[' {
        alone(t.skip(1), n + 1)
    } else {
        one_if(n == 1) + alone(t.skip(1), 0)
    }
}

/// Another character parts what stands before it from what stands behind it.
proof fn lemma_alone_parted(a: Seq<char>, c: char, b: Seq<char>, n: nat)
    requires
        c != '[',
    ensures
        alone(a + seq![c] + b, n) == alone(a, n) + alone(b, 0),
    decreases a.len(),
{
    let t = a + seq![c] + b;
    if a.len() == 0 {
        assert(t[0] == c && t.skip(1) =~= b);
    } else {
        assert(t[0] == a[0] && t.skip(1) =~= a.skip(1) + seq![c] + b);
        if a[0] == '[' {
            lemma_alone_parted(a.skip(1), c, b, n + 1);
        } else {
            lemma_alone_parted(a.skip(1), c, b, 0);
        }
    }
}

proof fn lemma_alone_push(a: Seq<char>, c: char, n: nat)
    requires
        c != '[',
    ensures
        alone(a.push(c), n) == alone(a, n),
{
    let e = Seq::<char>::empty();
    lemma_alone_parted(a, c, e, n);
    assert(a + seq![c] + e =~= a.push(c));
}

proof fn lemma_alone_trimmed(t: Seq<char>, n: nat)
    ensures
        alone(without_trailing(t, '\r'), n) == alone(t, n),
    decreases t.len(),
{
    if t.len() > 0 && t.last() == '\r' {
        lemma_alone_trimmed(t.drop_last(), n);
        lemma_alone_push(t.drop_last(), '\r', n);
        assert(t.drop_last().push('\r') =~= t);
    }
}

/// Without opening brackets only the one before may stand alone.
proof fn lemma_alone_none(a: Seq<char>, n: nat)
    requires
        forall|i: int| 0 <= i < a.len() ==> a[i] != '[',
    ensures
        alone(a, n) == one_if(n == 1),
    decreases a.len(),
{
    if a.len() > 0 {
        lemma_alone_none(a.skip(1), 0);
    }
}

/// How many opening brackets stand directly before `i`.
spec fn brackets_before(t: Seq<char>, i: int) -> nat
    decreases i,
{
    if 0 < i <= t.len() && t[i - 1] == '[' {
        brackets_before(t, i - 1) + 1
    } else {
        0
    }
}

/// Doubling leaves fewer brackets alone, unless it changes nothing. `was_alone`
/// says that the bracket before `i` stood alone and was doubled.
proof fn lemma_doubled_alone(t: Seq<char>, i: int, n: int, was_alone: bool)
    requires
        0 <= i <= t.len(),
        was_alone ==> brackets_before(t, i) == 1 && (i < t.len() ==> t[i] != '['),
    ensures
        ({
            let d = orphans_doubled(t, i, n);
            let p = brackets_before(t, i);
            let q = if was_alone {
                2
            } else {
                p
            };
            &&& alone(d, q) <= alone(t.skip(i), p)
            &&& was_alone || d != t.skip(i) ==> alone(d, q) < alone(t.skip(i), p)
        }),
    decreases t.len() - i,
{
    let d = orphans_doubled(t, i, n);
    let p = brackets_before(t, i);
    let u = t.skip(i);
    if i == t.len() {
        assert(d =~= u);
    } else {
        assert(u[0] == t[i] && u.skip(1) =~= t.skip(i + 1));
        if orphan(t, i) && n > 0 {
            let z = orphans_doubled(t, i + 1, n - 1);
            assert(p == 0);
            reveal_with_fuel(brackets_before, 2);
            lemma_doubled_alone(t, i + 1, n - 1, true);
            assert(d[0] == '[' && d.skip(1)[0] == '[' && d.skip(1).skip(1) =~= z);
            reveal_with_fuel(alone, 3);
        } else {
            let z = orphans_doubled(t, i + 1, n);
            lemma_doubled_alone(t, i + 1, n, false);
            assert(d[0] == t[i] && d.skip(1) =~= z);
            if z == t.skip(i + 1) {
                assert(d =~= u);
            }
        }
    }
}

/// Balancing brackets leaves fewer alone, unless it only takes carriage returns
/// away.
pub proof fn lemma_balancing_alone(s: Seq<char>)
    ensures
        alone(by_rows(balancing(), s), 0) <= alone(s, 0),
        alone(by_rows(balancing(), s), 0) == alone(s, 0) ==> by_rows(balancing(), s) == by_rows(
            same(),
            s,
        ),
    decreases s.len(),
{
    lemma_index_of(s, '\n');
    lemma_rows_step(balancing(), s);
    lemma_rows_step(same(), s);
    match index_of(s, '\n') {
        Some(k) => {
            let l = s.take(k);
            let m = without_trailing(l, '\r');
            let rest = s.skip(k + 1);
            let b = brackets_balanced(m);
            lemma_balancing_alone(rest);
            lemma_alone_trimmed(l, 0);
            lemma_balanced_alone(m);
            assert(s =~= l + seq!['\n'] + rest);
            lemma_alone_parted(l, '\n', rest, 0);
            lemma_alone_parted(b, '\n', by_rows(balancing(), rest), 0);
        },
        None => {
            lemma_balanced_alone(s);
        },
    }
}

proof fn lemma_balanced_alone(t: Seq<char>)
    ensures
        alone(brackets_balanced(t), 0) <= alone(t, 0),
        alone(brackets_balanced(t), 0) == alone(t, 0) ==> brackets_balanced(t) == t,
{
    let missing = occurrences(t, ']') - occurrences(t, '[');
    lemma_doubled_alone(t, 0, missing, false);
    assert(t.skip(0) =~= t);
}

/// Leaves a row as it is.
pub open spec fn same() -> spec_fn(Seq<char>) -> Seq<char> {
    |l: Seq<char>| l
}

/// Closing inline mathematics leaves the same brackets alone.
pub proof fn lemma_closing_alone(s: Seq<char>, n: nat)
    ensures
        alone(by_rows(closing(), s), n) == alone(s, n),
    decreases s.len(),
{
    lemma_index_of(s, '\n');
    lemma_rows_step(closing(), s);
    match index_of(s, '\n') {
        Some(k) => {
            let l = s.take(k);
            let m = without_trailing(l, '\r');
            let rest = s.skip(k + 1);
            lemma_closing_alone(rest, 0);
            lemma_alone_trimmed(l, n);
            lemma_alone_push(m, '$', n);
            assert(s =~= l + seq!['\n'] + rest);
            lemma_alone_parted(l, '\n', rest, n);
            lemma_alone_parted(inline_closed(m), '\n', by_rows(closing(), rest), n);
        },
        None => {
            lemma_alone_push(s, '$', n);
        },
    }
}

/// Closing an inner bracket leaves the same brackets alone.
proof fn lemma_close_alone(rule: Rule, t: Seq<char>, n: nat)
    requires
        closes(rule),
    ensures
        alone(rule.rewritten(t), n) == alone(t, n),
    decreases t.len(),
{
    lemma_head_bounds(rule.pattern(), t);
    if t.len() > 0 {
        match rule.pattern().head(t) {
            Some(h) => {
                lemma_close_match(rule, t, h);
                let x = t.skip(h.0);
                let y = rule.rewritten(x);
                let a = t.take(h.1);
                lemma_close_alone(rule, x, 0);
                assert(t =~= a + seq!['^'] + x);
                assert(rule.rewritten(t) =~= a.push(']') + seq!['^'] + y);
                lemma_alone_parted(a, '^', x, n);
                lemma_alone_parted(a.push(']'), '^', y, n);
                lemma_alone_push(a, ']', n);
            },
            None => {
                let u = t.skip(1);
                let r = seq![t[0]] + rule.rewritten(u);
                assert(r[0] == t[0] && r.skip(1) =~= rule.rewritten(u));
                if t[0] == '[' {
                    lemma_close_alone(rule, u, n + 1);
                } else {
                    lemma_close_alone(rule, u, 0);
                }
            },
        }
    }
}

pub proof fn lemma_inner_pass_alone(s: Seq<char>)
    ensures
        alone(inner_brackets_pass(s), 0) == alone(s, 0),
{
    lemma_close_alone(Rule::CloseIndexed, s, 0);
    lemma_close_alone(Rule::CloseSimple, Rule::CloseIndexed.rewritten(s), 0);
}

/// Bracing scripts leaves the same brackets alone.
pub proof fn lemma_bracing_alone(t: Seq<char>, n: nat)
    ensures
        alone(Rule::BraceScript.rewritten(t), n) == alone(t, n),
    decreases t.len(),
{
    let rule = Rule::BraceScript;
    lemma_head_bounds(Pattern::Script, t);
    if t.len() > 0 {
        match Pattern::Script.head(t) {
            Some(h) => {
                lemma_script_match(t, h);
                lemma_script_replacement(t, h);
                let e = h.0 - 1;
                let x = t.skip(h.0);
                let y = rule.rewritten(x);
                let a = t.take(e);
                lemma_bracing_alone(x, 0);
                assert(ascii_letter(t[e]));
                assert forall|i: int| 0 <= i < a.len() implies a[i] != '[' by {
                    if i > 1 {
                        assert(ascii_letter(t[i]));
                    }
                }
                assert(t =~= a + seq![t[e]] + x);
                lemma_alone_parted(a, t[e], x, n);
                lemma_alone_none(a, n);
                if h.0 < t.len() && t[h.0] == '{' {
                    assert(rule.rewritten(t) =~= a + seq![t[e]] + y);
                    lemma_alone_parted(a, t[e], y, n);
                } else {
                    let b = seq![t[0], '{'] + t.subrange(1, h.0);
                    assert forall|i: int| 0 <= i < b.len() implies b[i] != '[' by {
                        if i > 2 {
                            assert(ascii_letter(t[i - 1]));
                        }
                    }
                    assert(rule.rewritten(t) =~= b + seq!['}'] + y);
                    lemma_alone_parted(b, '}', y, n);
                    lemma_alone_none(b, n);
                }
            },
            None => {
                let u = t.skip(1);
                let r = seq![t[0]] + rule.rewritten(u);
                assert(r[0] == t[0] && r.skip(1) =~= rule.rewritten(u));
                if t[0] == '[' {
                    lemma_bracing_alone(u, n + 1);
                } else {
                    lemma_bracing_alone(u, 0);
                }
            },
        }
    }
}

// ---------------------------------------------------------------------------
// Open lines
// ---------------------------------------------------------------------------

/// Some line of `t` leaves inline mathematics open and does not end in a
/// backslash; `inline` says whether the first line starts inside mathematics.
pub open spec fn gapes(t: Seq<char>, inline: bool) -> bool
    decreases t.len(),
{
    if t.len() == 0 {
        inline
    } else if t[0] == '\n' {
        inline || gapes(t.skip(1), false)
    } else if t[0] == '\\' && t.len() > 1 && t[1] == '$' {
        gapes(t.skip(2), inline)
    } else if t[0] == '\\' && (t.len() == 1 || t[1] == '\n') {
        gapes(t.skip(1), false)
    } else if t[0] == '$' && t.len() > 1 && t[1] == '$' {
        gapes(t.skip(2), inline)
    } else if t[0] == '$' {
        gapes(t.skip(1), !inline)
    } else {
        gapes(t.skip(1), inline)
    }
}

/// A text gapes in its first line or behind it.
proof fn lemma_gapes_row(l: Seq<char>, rest: Seq<char>, d: bool, inline: bool)
    requires
        no_line_feed(l),
        rest.len() > 0 ==> rest[0] == '\n',
    ensures
        gapes(l + rest, inline) == ((delimiter_state(l, d, inline).1 && !(l.len() > 0 && l.last()
            == '\\')) || (rest.len() > 0 && gapes(rest.skip(1), false))),
    decreases l.len(),
{
    let t = l + rest;
    if l.len() == 0 {
        assert(t =~= rest);
    } else if l[0] == '\\' && l.len() > 1 && l[1] == '$' {
        assert(t.skip(2) =~= l.skip(2) + rest);
        lemma_gapes_row(l.skip(2), rest, d, inline);
    } else if l[0] == '$' && l.len() > 1 && l[1] == '$' {
        assert(t.skip(2) =~= l.skip(2) + rest);
        lemma_gapes_row(l.skip(2), rest, !d, inline);
    } else if l.len() == 1 {
        assert(t.skip(1) =~= rest);
        assert(l.skip(1) =~= Seq::<char>::empty());
        reveal_with_fuel(delimiter_state, 2);
        reveal_with_fuel(gapes, 2);
    } else if l[0] == '$' {
        assert(t.skip(1) =~= l.skip(1) + rest);
        lemma_gapes_row(l.skip(1), rest, d, !inline);
    } else {
        assert(t.skip(1) =~= l.skip(1) + rest);
        lemma_gapes_row(l.skip(1), rest, d, inline);
    }
}

/// With its inline mathematics closed no line gapes.
pub proof fn lemma_closing_closes(s: Seq<char>)
    ensures
        !gapes(by_rows(closing(), s), false),
    decreases s.len(),
{
    lemma_index_of(s, '\n');
    lemma_rows_step(closing(), s);
    match index_of(s, '\n') {
        Some(k) => {
            let l = s.take(k);
            let m = without_trailing(l, '\r');
            let rest = by_rows(closing(), s.skip(k + 1));
            let c = inline_closed(m);
            assert(no_line_feed(l));
            lemma_without_trailing(l, '\r');
            law_line_delimiters_idempotent(m);
            lemma_closing_closes(s.skip(k + 1));
            lemma_gapes_row(c, seq!['\n'] + rest, false, false);
            assert((seq!['\n'] + rest).skip(1) =~= rest);
            assert(c + (seq!['\n'] + rest) =~= c + seq!['\n'] + rest);
        },
        None => {
            let e = Seq::<char>::empty();
            let c = inline_closed(s);
            assert(no_line_feed(s));
            law_line_delimiters_idempotent(s);
            lemma_gapes_row(c, e, false, false);
            assert(c + e =~= c);
        },
    }
}

/// Where no line gapes and no carriage return goes nothing is closed.
pub proof fn lemma_nothing_to_close(s: Seq<char>)
    requires
        !gapes(s, false),
        by_rows(same(), s) == s,
    ensures
        by_rows(closing(), s) == s,
    decreases s.len(),
{
    lemma_index_of(s, '\n');
    lemma_rows_step(closing(), s);
    lemma_rows_step(same(), s);
    match index_of(s, '\n') {
        Some(k) => {
            let l = s.take(k);
            let m = without_trailing(l, '\r');
            let rest = s.skip(k + 1);
            let r = by_rows(same(), rest);
            assert(no_line_feed(l));
            lemma_without_trailing(l, '\r');
            lemma_same_len(rest);
            assert(s == m + seq!['\n'] + r);
            assert(m.len() <= l.len());
            assert(m.len() + 1 + r.len() == l.len() + 1 + rest.len());
            assert(m =~= s.take(m.len() as int));
            assert(r =~= s.skip(m.len() as int + 1));
            lemma_gapes_row(l, seq!['\n'] + rest, false, false);
            assert((seq!['\n'] + rest).skip(1) =~= rest);
            assert(l + (seq!['\n'] + rest) =~= s);
            lemma_nothing_to_close(rest);
        },
        None => {
            let e = Seq::<char>::empty();
            assert(no_line_feed(s));
            lemma_gapes_row(s, e, false, false);
            assert(s + e =~= s);
        },
    }
}

/// Taking carriage returns away makes no text longer.
proof fn lemma_same_len(s: Seq<char>)
    ensures
        by_rows(same(), s).len() <= s.len(),
    decreases s.len(),
{
    lemma_index_of(s, '\n');
    lemma_rows_step(same(), s);
    if let Some(k) = index_of(s, '\n') {
        lemma_same_len(s.skip(k + 1));
        lemma_without_trailing(s.take(k), '\r');
    }
}

/// Letters and braces open and close nothing.
proof fn lemma_gapes_plain(g: Seq<char>, x: Seq<char>, inline: bool)
    requires
        forall|i: int| 0 <= i < g.len() ==> ascii_letter(g[i]) || g[i] == '{' || g[i] == '}',
    ensures
        gapes(g + x, inline) == gapes(x, inline),
    decreases g.len(),
{
    let t = g + x;
    if g.len() == 0 {
        assert(t =~= x);
    } else {
        assert(t[0] == g[0] && t.skip(1) =~= g.skip(1) + x);
        assert(ascii_letter(g[0]) || g[0] == '{' || g[0] == '}');
        lemma_gapes_plain(g.skip(1), x, inline);
    }
}

/// Bracing scripts leaves the same lines open.
pub proof fn lemma_bracing_gapes(t: Seq<char>, inline: bool)
    ensures
        gapes(Rule::BraceScript.rewritten(t), inline) == gapes(t, inline),
    decreases t.len(),
{
    let rule = Rule::BraceScript;
    let r = rule.rewritten(t);
    lemma_head_bounds(Pattern::Script, t);
    if t.len() > 0 {
        match Pattern::Script.head(t) {
            Some(h) => {
                lemma_script_match(t, h);
                lemma_script_replacement(t, h);
                let x = t.skip(h.0);
                let y = rule.rewritten(x);
                let g = t.subrange(2, h.0);
                lemma_bracing_gapes(x, inline);
                assert forall|i: int| 0 <= i < g.len() implies ascii_letter(g[i]) by {
                    assert(ascii_letter(t[i + 2]));
                }
                lemma_gapes_plain(g, x, inline);
                assert(ascii_letter(t[2]));
                assert(t.skip(1)[0] == '\\' && t.skip(1)[1] == t[2]);
                assert(t.skip(1).skip(1) =~= g + x);
                reveal_with_fuel(gapes, 3);
                if h.0 < t.len() && t[h.0] == '{' {
                    lemma_gapes_plain(g, y, inline);
                    assert(r[0] == t[0] && r.skip(1)[0] == '\\' && r.skip(1)[1] == t[2]);
                    assert(r.skip(1).skip(1) =~= g + y);
                } else {
                    let b = g.push('}');
                    lemma_gapes_plain(b, y, inline);
                    assert(r == seq![t[0], '{'] + t.subrange(1, h.0) + seq!['}'] + y);
                    assert(r[0] == t[0] && r.skip(1)[0] == '{');
                    let v = r.skip(1).skip(1);
                    assert(v[0] == '\\' && v[1] == t[2]);
                    assert(v.skip(1) =~= b + y);
                    reveal_with_fuel(gapes, 4);
                }
            },
            None => {
                let u = t.skip(1);
                let y = rule.rewritten(u);
                assert(r[0] == t[0] && r.skip(1) =~= y);
                if u.len() > 0 {
                    lemma_brace_first(u);
                    assert(r[1] == t[1]);
                } else {
                    assert(y =~= Seq::<char>::empty());
                }
                if t.len() > 1 && t[1] == '$' && (t[0] == '\\' || t[0] == '$') {
                    let v = t.skip(2);
                    assert(u.skip(1) =~= v);
                    assert(Pattern::Script.head(u) is None) by {
                        reveal(Pattern::head);
                        assert(u[0] == '$');
                    }
                    assert(y == seq!['$'] + rule.rewritten(v));
                    assert(r.skip(2) =~= rule.rewritten(v));
                    lemma_bracing_gapes(v, inline);
                } else {
                    lemma_bracing_gapes(u, inline);
                    lemma_bracing_gapes(u, false);
                    lemma_bracing_gapes(u, !inline);
                }
            },
        }
    }
}

} // verus!
