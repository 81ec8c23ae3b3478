//! The whole LaTeX repair comes to rest.
//!
//! Each repair either changes nothing or brings a measure of the text down that
//! no later repair brings up again: restoring commands takes control characters
//! away, stripping fences back-ticks, stripping boundaries backslashes and
//! repairing samples the letter `S`; the other repairs leave fewer brackets,
//! dollars and braces to be added. So the rounds of the repair end, and what
//! they end in no repair changes.

use vstd::prelude::*;

use crate::latex_laws::{
    all_letters, law_boundaries_idempotent, law_fences_idempotent, law_inner_brackets_idempotent,
    law_rule_fixed_points, law_samples_idempotent, law_scripts_idempotent,
    lemma_boundaries_pass_len, lemma_collision, lemma_commands_are_letters, lemma_fences_pass_len,
    lemma_rows_step, no_boundary_artefacts, no_fences, no_missing_inner_bracket, quiet,
};
use crate::latex_measure::{
    alone, gapes, lemma_balancing_alone, lemma_bracing_alone, lemma_bracing_gapes,
    lemma_bracing_unclosed, lemma_closing_alone, lemma_closing_closes, lemma_closing_unclosed,
    lemma_inner_pass_alone, lemma_inner_pass_shrinks, lemma_nothing_to_close, same, unclosed,
};
use crate::latex_repair::{
    all_brackets_balanced, all_inline_closed, balancing, boundaries_pass, boundaries_stripped,
    brackets_balanced, by_rows, closing, collision, collision_commands, commands_restored,
    fences_pass, fences_stripped, inline_closed, inner_brackets_closed, inner_brackets_pass,
    math_like, occurrences, orphan, orphans_doubled, repaired, round, sample_repaired, uncollided,
};
use crate::patterns::{is_char, is_space, is_word, script_s, Pattern};
use crate::rewrite::{lemma_head_bounds, Rule};
use crate::text::{
    ascii_letter, index_of, lemma_index_of, lemma_run_bounds, run, stands_at, without_trailing,
};

verus! {

broadcast use vstd::string::group_string_axioms;

// ---------------------------------------------------------------------------
// Counting
// ---------------------------------------------------------------------------

/// The sorts of characters that are counted.
pub enum Sort {
    /// The control characters that may be eaten commands, line ends among them.
    Control,
    Tick,
    Backslash,
    LetterS,
}

pub open spec fn of_sort(k: Sort, c: char) -> bool {
    match k {
        Sort::Control => c == '\t' || c == '\u{8}' || c == '\u{c}' || c == '\n' || c == '\r' || c
            == '\u{b}',
        Sort::Tick => c == '`',
        Sort::Backslash => c == '\\',
        Sort::LetterS => c == 'S',
    }
}

/// How many characters of a sort there are.
pub open spec fn tally(t: Seq<char>, k: Sort) -> nat
    decreases t.len(),
{
    if t.len() == 0 {
        0
    } else {
        (if of_sort(k, t[0]) {
            1nat
        } else {
            0nat
        }) + tally(t.skip(1), k)
    }
}

proof fn lemma_tally_sum(a: Seq<char>, b: Seq<char>, k: Sort)
    ensures
        tally(a + b, k) == tally(a, k) + tally(b, k),
    decreases a.len(),
{
    if a.len() == 0 {
        assert(a + b =~= b);
    } else {
        lemma_tally_sum(a.skip(1), b, k);
        assert((a + b).skip(1) =~= a.skip(1) + b);
    }
}

proof fn lemma_tally_split(t: Seq<char>, n: int, k: Sort)
    requires
        0 <= n <= t.len(),
    ensures
        tally(t, k) == tally(t.take(n), k) + tally(t.skip(n), k),
{
    lemma_tally_sum(t.take(n), t.skip(n), k);
    assert(t.take(n) + t.skip(n) =~= t);
}

proof fn lemma_tally_one(c: char, k: Sort)
    ensures
        tally(seq![c], k) == (if of_sort(k, c) {
            1nat
        } else {
            0nat
        }),
{
    assert(seq![c].skip(1) =~= Seq::<char>::empty());
    reveal_with_fuel(tally, 2);
}

proof fn lemma_tally_two(c: char, d: char, k: Sort)
    ensures
        tally(seq![c, d], k) == tally(seq![c], k) + tally(seq![d], k),
{
    lemma_tally_sum(seq![c], seq![d], k);
    assert(seq![c] + seq![d] =~= seq![c, d]);
}

/// A text with a character of the sort has one.
proof fn lemma_tally_has(t: Seq<char>, i: int, k: Sort)
    requires
        0 <= i < t.len(),
        of_sort(k, t[i]),
    ensures
        tally(t, k) >= 1,
    decreases t.len(),
{
    if i > 0 {
        lemma_tally_has(t.skip(1), i - 1, k);
    }
}

proof fn lemma_tally_none(t: Seq<char>, k: Sort)
    requires
        forall|i: int| 0 <= i < t.len() ==> !of_sort(k, #[trigger] t[i]),
    ensures
        tally(t, k) == 0,
    decreases t.len(),
{
    if t.len() > 0 {
        assert forall|i: int| 0 <= i < t.skip(1).len() implies !of_sort(
            k,
            #[trigger] t.skip(1)[i],
        ) by {
            assert(t.skip(1)[i] == t[i + 1]);
        }
        lemma_tally_none(t.skip(1), k);
    }
}

// ---------------------------------------------------------------------------
// Rules
// ---------------------------------------------------------------------------

/// The rules of the repair.
pub open spec fn repairs(rule: Rule) -> bool {
    rule != Rule::DropTag
}

/// The sort of which every match of the rule takes some away.
pub open spec fn drained(rule: Rule) -> Option<Sort> {
    match rule {
        Rule::OpenInline | Rule::OpenMultiline | Rule::CloseFour | Rule::CloseTwo => Some(
            Sort::Tick,
        ),
        Rule::BoundaryOpen | Rule::BoundaryClose => Some(Sort::Backslash),
        Rule::JoinSample | Rule::Sample => Some(Sort::LetterS),
        _ => None,
    }
}

proof fn lemma_match_samples(rule: Rule, t: Seq<char>, h: (int, int, int), k: Sort)
    requires
        rule == Rule::JoinSample || rule == Rule::Sample,
        rule.pattern().head(t) == Some(h),
    ensures
        tally(rule.replacement(t, h), k) <= tally(t.take(h.0), k),
        k is LetterS ==> tally(rule.replacement(t, h), k) < tally(t.take(h.0), k),
{
    reveal(Pattern::head);
    reveal(Rule::replacement);
    lemma_head_bounds(rule.pattern(), t);
    let front = t.take(h.1);
    let group = t.subrange(h.1, h.2);
    assert(t.take(h.0) =~= front + group);
    lemma_tally_sum(front, group, k);
    let b: int = if rule == Rule::Sample {
        0
    } else {
        let a = run(t, 1, is_space());
        let b = run(t, a + 1, is_space());
        let c = run(t, b + 10, is_space());
        let d = run(t, c + 1, is_space());
        lemma_run_bounds(t, 1, is_space());
        lemma_run_bounds(t, a + 1, is_space());
        lemma_run_bounds(t, b + 10, is_space());
        lemma_run_bounds(t, c + 1, is_space());
        lemma_run_bounds(t, d + 1, is_space());
        b
    };
    assert(stands_at(t, b, script_s()));
    assert(script_s()[0] == '\\' && script_s()[8] == 'S');
    assert(t.subrange(b, b + 10)[0] == t[b] && t.subrange(b, b + 10)[8] == t[b + 8]);
    assert(front[b] == '\\' && front[b + 8] == 'S');
    if k is Backslash {
        lemma_tally_has(front, b, k);
    }
    if k is LetterS {
        lemma_tally_has(front, b + 8, k);
    }
    lemma_tally_one('\\', k);
    lemma_tally_one('$', k);
    lemma_tally_one(' ', k);
    lemma_tally_two('\\', '$', k);
    if rule == Rule::Sample {
        lemma_tally_sum(seq!['\\', '$'], group, k);
    } else {
        lemma_tally_sum(seq!['\\', '$'], seq![' '], k);
        assert(seq!['\\', '$'] + seq![' '] =~= seq!['\\', '$', ' ']);
        lemma_tally_sum(seq!['\\', '$', ' '], group, k);
    }
}

proof fn lemma_match_marks(rule: Rule, t: Seq<char>, h: (int, int, int), k: Sort)
    requires
        drained(rule) == Some(Sort::Tick) || drained(rule) == Some(Sort::Backslash),
        rule.pattern().head(t) == Some(h),
    ensures
        tally(rule.replacement(t, h), k) <= tally(t.take(h.0), k),
        drained(rule) == Some(k) ==> tally(rule.replacement(t, h), k) < tally(t.take(h.0), k),
{
    reveal(Pattern::head);
    reveal(Rule::replacement);
    lemma_head_bounds(rule.pattern(), t);
    let m = t.take(h.0);
    lemma_tally_one('$', k);
    lemma_tally_one('\n', k);
    lemma_tally_two('$', '$', k);
    lemma_tally_sum(seq!['$', '$'], seq!['\n'], k);
    assert(seq!['$', '$'] + seq!['\n'] =~= seq!['$', '$', '\n']);
    lemma_tally_sum(seq!['\n'], seq!['$', '$'], k);
    assert(seq!['\n'] + seq!['$', '$'] =~= seq!['\n', '$', '$']);
    match rule {
        Rule::OpenInline => {
            let open = crate::patterns::fence_open();
            assert(stands_at(t, 0, open) && open[2] == '`');
            assert(t.subrange(0, 5)[2] == t[2]);
            assert(m[2] == '`');
            if k is Tick {
                lemma_tally_has(m, 2, k);
            }
        },
        Rule::OpenMultiline => {
            let open = crate::patterns::fence_open();
            let w = run(t, 5, is_word());
            lemma_run_bounds(t, 5, is_word());
            lemma_run_bounds(t, w, is_char('\\'));
            assert(stands_at(t, 0, open) && open[2] == '`');
            assert(t.subrange(0, 5)[2] == t[2]);
            assert(m[2] == '`');
            assert(m[h.0 - 1] == '\n');
            if k is Tick {
                lemma_tally_has(m, 2, k);
            }
            if k is Control {
                lemma_tally_has(m, h.0 - 1, k);
            }
        },
        Rule::CloseFour => {
            let x = seq!['`', '`', '`', '$', '$', '$', '$'];
            assert(stands_at(t, 0, x) && x[0] == '`');
            assert(t.subrange(0, 7)[0] == t[0]);
            assert(m[0] == '`');
            if k is Tick {
                lemma_tally_has(m, 0, k);
            }
        },
        Rule::CloseTwo => {
            let x = seq!['\n', '`', '`', '`', '$', '$'];
            assert(stands_at(t, 0, x) && x[0] == '\n' && x[1] == '`');
            assert(t.subrange(0, 6)[0] == t[0] && t.subrange(0, 6)[1] == t[1]);
            assert(m[0] == '\n' && m[1] == '`');
            if k is Tick {
                lemma_tally_has(m, 1, k);
            }
            if k is Control {
                lemma_tally_has(m, 0, k);
            }
        },
        Rule::BoundaryOpen => {
            lemma_run_bounds(t, 2, is_char('\\'));
            assert(m[2] == '\\');
            if k is Backslash {
                lemma_tally_has(m, 2, k);
            }
        },
        _ => {
            lemma_run_bounds(t, 0, is_char('\\'));
            assert(m[0] == '\\');
            if k is Backslash {
                lemma_tally_has(m, 0, k);
            }
        },
    }
}

proof fn lemma_match_adds(rule: Rule, t: Seq<char>, h: (int, int, int), k: Sort)
    requires
        rule == Rule::CloseIndexed || rule == Rule::CloseSimple || rule == Rule::BraceScript,
        rule.pattern().head(t) == Some(h),
    ensures
        tally(rule.replacement(t, h), k) == tally(t.take(h.0), k),
{
    reveal(Pattern::head);
    reveal(Rule::replacement);
    lemma_head_bounds(rule.pattern(), t);
    lemma_tally_one(']', k);
    lemma_tally_one('^', k);
    lemma_tally_one('{', k);
    lemma_tally_one('}', k);
    let m = t.take(h.0);
    if rule == Rule::BraceScript {
        let group = t.subrange(h.1, h.2);
        assert(m =~= seq![t[0]] + group);
        lemma_tally_sum(seq![t[0]], group, k);
        lemma_tally_two(t[0], '{', k);
        lemma_tally_sum(seq![t[0], '{'], group, k);
        lemma_tally_sum(seq![t[0], '{'] + group, seq!['}'], k);
        assert(t.subrange(0, h.0) =~= m);
    } else {
        let front = t.subrange(0, h.1);
        assert(t[h.1] == '^') by {
            if rule == Rule::CloseIndexed {
                let a = run(t, 2, crate::patterns::is_no_bracket());
                let b = run(t, a + 1, crate::patterns::is_no_bracket());
                let x = seq![']', ']', '^'];
                assert(stands_at(t, b, x) && x[2] == '^');
                assert(t.subrange(b, b + 3)[2] == t[b + 2]);
            } else {
                let a = run(t, 2, crate::patterns::is_no_bracket());
                let x = seq![']', '^'];
                assert(stands_at(t, a, x) && x[1] == '^');
                assert(t.subrange(a, a + 2)[1] == t[a + 1]);
            }
        }
        assert(m =~= front + seq!['^']);
        lemma_tally_sum(front, seq!['^'], k);
        lemma_tally_two(']', '^', k);
        lemma_tally_sum(front, seq![']', '^'], k);
    }
}

/// What a rule does to the numbers of characters.
proof fn lemma_rewritten_tally(rule: Rule, t: Seq<char>, k: Sort)
    requires
        repairs(rule),
    ensures
        tally(rule.rewritten(t), k) <= tally(t, k),
        drained(rule) == Some(k) && tally(rule.rewritten(t), k) == tally(t, k) ==> quiet(rule, t),
    decreases t.len(),
{
    lemma_head_bounds(rule.pattern(), t);
    if t.len() > 0 {
        match rule.pattern().head(t) {
            Some(h) => {
                if drained(rule) is None {
                    lemma_match_adds(rule, t, h, k);
                } else if rule == Rule::JoinSample || rule == Rule::Sample {
                    lemma_match_samples(rule, t, h, k);
                } else {
                    lemma_match_marks(rule, t, h, k);
                }
                lemma_rewritten_tally(rule, t.skip(h.0), k);
                lemma_tally_split(t, h.0, k);
                lemma_tally_sum(rule.replacement(t, h), rule.rewritten(t.skip(h.0)), k);
            },
            None => {
                let u = t.skip(1);
                lemma_rewritten_tally(rule, u, k);
                lemma_tally_sum(seq![t[0]], rule.rewritten(u), k);
                lemma_tally_one(t[0], k);
                if quiet(rule, u) {
                    assert forall|i: int| 0 <= i < t.len() implies rule.pattern().head(
                        #[trigger] t.skip(i),
                    ) is None by {
                        if i == 0 {
                            assert(t.skip(0) =~= t);
                        } else {
                            assert(u.skip(i - 1) =~= t.skip(i));
                        }
                    }
                }
            },
        }
    }
}

// ---------------------------------------------------------------------------
// Eaten commands
// ---------------------------------------------------------------------------

proof fn lemma_collision_control(t: Seq<char>, math: bool)
    ensures
        collision(t, math) matches Some(cmd) ==> 0 < cmd.len() <= t.len() && of_sort(
            Sort::Control,
            t[0],
        ) && all_letters(cmd),
{
    if t.len() > 0 {
        lemma_commands_are_letters(t[0]);
        lemma_collision(t, collision_commands(t[0]));
        if let Some(cmd) = collision(t, math) {
            let cmds = collision_commands(t[0]);
            let i = choose|i: int| 0 <= i < cmds.len() && #[trigger] cmds[i] == cmd;
            assert(all_letters(cmds[i]));
        }
    }
}

/// Restoring commands takes control characters away, unless it changes nothing.
proof fn lemma_uncollided_tally(t: Seq<char>, math: bool)
    ensures
        tally(uncollided(t, math), Sort::Control) <= tally(t, Sort::Control),
        tally(uncollided(t, math), Sort::Control) == tally(t, Sort::Control) ==> uncollided(
            t,
            math,
        ) == t,
    decreases t.len(),
{
    let k = Sort::Control;
    lemma_collision_control(t, math);
    if t.len() > 0 {
        match collision(t, math) {
            Some(cmd) => {
                let rest = t.skip(cmd.len() as int);
                let r = uncollided(rest, math);
                lemma_uncollided_tally(rest, math);
                lemma_tally_split(t, cmd.len() as int, k);
                assert(t.take(cmd.len() as int)[0] == t[0]);
                lemma_tally_has(t.take(cmd.len() as int), 0, k);
                assert forall|i: int| 0 <= i < cmd.len() implies !of_sort(
                    k,
                    #[trigger] cmd[i],
                ) by {
                    assert(ascii_letter(cmd[i]));
                }
                lemma_tally_none(cmd, k);
                lemma_tally_one('\\', k);
                lemma_tally_sum(seq!['\\'], cmd, k);
                lemma_tally_sum(seq!['\\'] + cmd, r, k);
            },
            None => {
                let u = t.skip(1);
                lemma_uncollided_tally(u, math);
                lemma_tally_one(t[0], k);
                lemma_tally_sum(seq![t[0]], uncollided(u, math), k);
                assert(seq![t[0]] + u =~= t);
            },
        }
    }
}

// ---------------------------------------------------------------------------
// Row by row
// ---------------------------------------------------------------------------

proof fn lemma_doubled_tally(t: Seq<char>, i: int, n: int, k: Sort)
    requires
        0 <= i <= t.len(),
    ensures
        tally(orphans_doubled(t, i, n), k) == tally(t.skip(i), k),
    decreases t.len() - i,
{
    if i < t.len() {
        assert(t.skip(i).skip(1) =~= t.skip(i + 1));
        assert(t.skip(i)[0] == t[i]);
        assert(seq![t[i]] + t.skip(i + 1) =~= t.skip(i));
        if orphan(t, i) && n > 0 {
            lemma_doubled_tally(t, i + 1, n - 1, k);
            lemma_tally_one('[', k);
            lemma_tally_two('[', '[', k);
            lemma_tally_sum(seq!['[', '['], orphans_doubled(t, i + 1, n - 1), k);
        } else {
            lemma_doubled_tally(t, i + 1, n, k);
            lemma_tally_one(t[i], k);
            lemma_tally_sum(seq![t[i]], orphans_doubled(t, i + 1, n), k);
        }
    } else {
        assert(t.skip(i) =~= Seq::<char>::empty());
    }
}

/// The line repairs add no character that is counted.
proof fn lemma_row_tally(l: Seq<char>, k: Sort)
    ensures
        tally(brackets_balanced(l), k) == tally(l, k),
        tally(inline_closed(l), k) == tally(l, k),
{
    let missing = occurrences(l, ']') - occurrences(l, '[');
    lemma_doubled_tally(l, 0, missing, k);
    assert(l.skip(0) =~= l);
    lemma_tally_one('$', k);
    lemma_tally_sum(l, seq!['$'], k);
    assert(l + seq!['$'] =~= l.push('$'));
}

proof fn lemma_trimmed_tally(x: Seq<char>, k: Sort)
    ensures
        tally(without_trailing(x, '\r'), k) <= tally(x, k),
        k is Control && tally(without_trailing(x, '\r'), k) == tally(x, k) ==> without_trailing(
            x,
            '\r',
        ) == x,
    decreases x.len(),
{
    if x.len() > 0 && x.last() == '\r' {
        lemma_trimmed_tally(x.drop_last(), k);
        lemma_tally_one('\r', k);
        lemma_tally_sum(x.drop_last(), seq!['\r'], k);
        assert(x.drop_last() + seq!['\r'] =~= x);
    }
}

/// A repair by rows that adds no character of a sort only ever takes some away,
/// and no control character where no carriage return goes.
proof fn lemma_by_rows_tally(f: spec_fn(Seq<char>) -> Seq<char>, s: Seq<char>, k: Sort)
    requires
        forall|l: Seq<char>| tally(#[trigger] f(l), k) == tally(l, k),
    ensures
        tally(by_rows(f, s), k) <= tally(s, k),
        k is Control && tally(by_rows(f, s), k) == tally(s, k) ==> by_rows(same(), s) == s,
    decreases s.len(),
{
    lemma_index_of(s, '\n');
    lemma_rows_step(f, s);
    lemma_rows_step(same(), s);
    if let Some(n) = index_of(s, '\n') {
        let nl = seq!['\n'];
        let x = s.take(n);
        let l = without_trailing(x, '\r');
        let rest = s.skip(n + 1);
        lemma_by_rows_tally(f, rest, k);
        lemma_trimmed_tally(x, k);
        assert(tally(f(l), k) == tally(l, k));
        lemma_tally_sum(x, nl, k);
        lemma_tally_sum(x + nl, rest, k);
        assert(x + nl + rest =~= s);
        lemma_tally_sum(f(l), nl, k);
        lemma_tally_sum(f(l) + nl, by_rows(f, rest), k);
    }
}

proof fn lemma_rows_tally(s: Seq<char>, k: Sort)
    ensures
        tally(all_brackets_balanced(s), k) <= tally(s, k),
        tally(all_inline_closed(s), k) <= tally(s, k),
        k is Control && tally(all_brackets_balanced(s), k) == tally(s, k) ==> by_rows(same(), s)
            == s,
        k is Control && tally(all_inline_closed(s), k) == tally(s, k) ==> by_rows(same(), s) == s,
{
    assert forall|l: Seq<char>| tally(#[trigger] balancing()(l), k) == tally(l, k) by {
        lemma_row_tally(l, k);
    }
    assert forall|l: Seq<char>| tally(#[trigger] closing()(l), k) == tally(l, k) by {
        lemma_row_tally(l, k);
    }
    lemma_by_rows_tally(balancing(), s, k);
    lemma_by_rows_tally(closing(), s, k);
}

// ---------------------------------------------------------------------------
// Repairs that repeat a pass
// ---------------------------------------------------------------------------

proof fn lemma_fences_tally(s: Seq<char>, k: Sort)
    ensures
        tally(fences_stripped(s), k) <= tally(s, k),
        k is Tick && tally(fences_stripped(s), k) == tally(s, k) ==> fences_stripped(s) == s,
    decreases s.len(),
{
    let a = Rule::OpenInline.rewritten(s);
    let b = Rule::OpenMultiline.rewritten(a);
    let c = Rule::CloseFour.rewritten(b);
    lemma_rewritten_tally(Rule::OpenInline, s, k);
    lemma_rewritten_tally(Rule::OpenMultiline, a, k);
    lemma_rewritten_tally(Rule::CloseFour, b, k);
    lemma_rewritten_tally(Rule::CloseTwo, c, k);
    lemma_fences_pass_len(s);
    if fences_pass(s) != s {
        lemma_fences_tally(fences_pass(s), k);
        law_rule_fixed_points(Rule::OpenInline, s);
        law_rule_fixed_points(Rule::OpenMultiline, a);
        law_rule_fixed_points(Rule::CloseFour, b);
        law_rule_fixed_points(Rule::CloseTwo, c);
    }
}

proof fn lemma_boundaries_tally(s: Seq<char>, k: Sort)
    ensures
        tally(boundaries_stripped(s), k) <= tally(s, k),
        k is Backslash && tally(boundaries_stripped(s), k) == tally(s, k) ==> boundaries_stripped(s)
            == s,
    decreases s.len(),
{
    let a = Rule::BoundaryOpen.rewritten(s);
    lemma_rewritten_tally(Rule::BoundaryOpen, s, k);
    lemma_rewritten_tally(Rule::BoundaryClose, a, k);
    lemma_boundaries_pass_len(s);
    if boundaries_pass(s) != s {
        lemma_boundaries_tally(boundaries_pass(s), k);
        law_rule_fixed_points(Rule::BoundaryOpen, s);
        law_rule_fixed_points(Rule::BoundaryClose, a);
    }
}

proof fn lemma_samples_tally(s: Seq<char>, k: Sort)
    ensures
        tally(sample_repaired(s), k) <= tally(s, k),
        k is LetterS && tally(sample_repaired(s), k) == tally(s, k) ==> sample_repaired(s) == s,
{
    let a = Rule::JoinSample.rewritten(s);
    lemma_rewritten_tally(Rule::JoinSample, s, k);
    lemma_rewritten_tally(Rule::Sample, a, k);
    law_rule_fixed_points(Rule::JoinSample, s);
    law_rule_fixed_points(Rule::Sample, a);
}

proof fn lemma_inner_tally(s: Seq<char>, k: Sort)
    ensures
        tally(inner_brackets_closed(s), k) <= tally(s, k),
        alone(inner_brackets_closed(s), 0) == alone(s, 0),
        unclosed(inner_brackets_closed(s), 0) <= unclosed(s, 0),
        inner_brackets_closed(s) != s ==> unclosed(inner_brackets_closed(s), 0) < unclosed(s, 0),
    decreases unclosed(s, 0),
{
    let a = Rule::CloseIndexed.rewritten(s);
    lemma_rewritten_tally(Rule::CloseIndexed, s, k);
    lemma_rewritten_tally(Rule::CloseSimple, a, k);
    lemma_inner_pass_shrinks(s);
    lemma_inner_pass_alone(s);
    if inner_brackets_pass(s) != s {
        lemma_inner_tally(inner_brackets_pass(s), k);
    }
}

// ---------------------------------------------------------------------------
// The whole repair
// ---------------------------------------------------------------------------

/// The characters that fences, boundaries and samples are taken away with.
pub open spec fn unstripped(t: Seq<char>) -> nat {
    tally(t, Sort::Tick) + tally(t, Sort::Backslash) + tally(t, Sort::LetterS)
}

pub open spec fn bare_lines(t: Seq<char>) -> nat {
    if gapes(t, false) {
        1
    } else {
        0
    }
}

pub open spec fn bare_scripts(t: Seq<char>) -> nat {
    if Rule::BraceScript.rewritten(t) == t {
        0
    } else {
        1
    }
}

/// The first measure of the two texts that differs is lower for `t`.
pub open spec fn below(t: Seq<char>, s: Seq<char>) -> bool {
    ||| tally(t, Sort::Control) < tally(s, Sort::Control)
    ||| {
        &&& tally(t, Sort::Control) == tally(s, Sort::Control)
        &&& {
            ||| unstripped(t) < unstripped(s)
            ||| unstripped(t) == unstripped(s) && below_added(t, s)
        }
    }
}

/// The first measure of what the last repairs add that differs is lower for `t`.
pub open spec fn below_added(t: Seq<char>, s: Seq<char>) -> bool {
    ||| alone(t, 0) < alone(s, 0)
    ||| {
        &&& alone(t, 0) == alone(s, 0)
        &&& {
            ||| unclosed(t, 0) < unclosed(s, 0)
            ||| {
                &&& unclosed(t, 0) == unclosed(s, 0)
                &&& {
                    ||| bare_lines(t) < bare_lines(s)
                    ||| bare_lines(t) == bare_lines(s) && bare_scripts(t) < bare_scripts(s)
                }
            }
        }
    }
}

/// None of the repairs changes `t`.
pub open spec fn unchanged(t: Seq<char>) -> bool {
    &&& commands_restored(t) == t
    &&& fences_stripped(t) == t
    &&& boundaries_stripped(t) == t
    &&& sample_repaired(t) == t
    &&& all_brackets_balanced(t) == t
    &&& inner_brackets_closed(t) == t
    &&& all_inline_closed(t) == t
    &&& Rule::BraceScript.rewritten(t) == t
}

/// The last four repairs.
spec fn completed(s: Seq<char>) -> Seq<char> {
    Rule::BraceScript.rewritten(
        all_inline_closed(inner_brackets_closed(all_brackets_balanced(s))),
    )
}

proof fn lemma_completed_tally(s: Seq<char>, k: Sort)
    ensures
        tally(completed(s), k) <= tally(s, k),
        k is Control && tally(completed(s), k) == tally(s, k) ==> by_rows(same(), s) == s,
{
    let e = all_brackets_balanced(s);
    let f = inner_brackets_closed(e);
    let g = all_inline_closed(f);
    lemma_rows_tally(s, k);
    lemma_inner_tally(e, k);
    lemma_rows_tally(f, k);
    lemma_rewritten_tally(Rule::BraceScript, g, k);
}

/// The last four repairs leave less to add, unless they change nothing or take
/// a carriage return away.
proof fn lemma_completed_below(s: Seq<char>)
    requires
        by_rows(same(), s) == s,
    ensures
        below_added(completed(s), s) || (all_brackets_balanced(s) == s && inner_brackets_closed(s)
            == s && all_inline_closed(s) == s && Rule::BraceScript.rewritten(s) == s),
{
    let e = all_brackets_balanced(s);
    let f = inner_brackets_closed(e);
    let g = all_inline_closed(f);
    let r = completed(s);
    lemma_balancing_alone(s);
    lemma_inner_tally(e, Sort::Control);
    lemma_closing_alone(f, 0);
    lemma_bracing_alone(g, 0);
    lemma_closing_unclosed(f, 0);
    lemma_bracing_unclosed(g, 0);
    lemma_closing_closes(f);
    lemma_bracing_gapes(g, false);
    law_scripts_idempotent(g);
    if !below_added(r, s) {
        assert(e == s);
        assert(f == s);
        assert(!gapes(s, false));
        lemma_nothing_to_close(s);
        assert(g == s);
    }
}

/// A round of the repair brings the measures down or changes nothing.
proof fn lemma_round(s: Seq<char>)
    ensures
        below(round(s), s) || unchanged(s),
{
    let t = uncollided(s, math_like(s));
    let a = commands_restored(s);
    let b = fences_stripped(a);
    let c = boundaries_stripped(b);
    let d = sample_repaired(c);
    let r = round(s);
    lemma_uncollided_tally(s, math_like(s));
    lemma_uncollided_tally(t, math_like(t));
    assert(r == completed(d));
    lemma_fences_tally(a, Sort::Control);
    lemma_boundaries_tally(b, Sort::Control);
    lemma_samples_tally(c, Sort::Control);
    lemma_completed_tally(d, Sort::Control);
    if !below(r, s) {
        assert(a == s);
        lemma_fences_tally(s, Sort::Tick);
        lemma_boundaries_tally(b, Sort::Tick);
        lemma_samples_tally(c, Sort::Tick);
        lemma_completed_tally(d, Sort::Tick);
        lemma_fences_tally(s, Sort::Backslash);
        lemma_boundaries_tally(b, Sort::Backslash);
        lemma_samples_tally(c, Sort::Backslash);
        lemma_completed_tally(d, Sort::Backslash);
        lemma_fences_tally(s, Sort::LetterS);
        lemma_boundaries_tally(b, Sort::LetterS);
        lemma_samples_tally(c, Sort::LetterS);
        lemma_completed_tally(d, Sort::LetterS);
        assert(b == s);
        assert(c == s);
        assert(d == s);
        lemma_completed_below(s);
    }
}

/// A round that changes the text brings its measures down.
pub proof fn lemma_round_shrinks(s: Seq<char>)
    ensures
        round(s) != s ==> below(round(s), s),
{
    lemma_round(s);
}

/// No repair has anything to do in `t`.
pub open spec fn at_rest(t: Seq<char>) -> bool {
    &&& commands_restored(t) == t
    &&& no_fences(t)
    &&& no_boundary_artefacts(t)
    &&& quiet(Rule::JoinSample, t) && quiet(Rule::Sample, t)
    &&& all_brackets_balanced(t) == t
    &&& no_missing_inner_bracket(t)
    &&& all_inline_closed(t) == t
    &&& Rule::BraceScript.rewritten(t) == t
}

/// A round of the repair leaves exactly the texts alone in which none of its
/// repairs has anything to do.
pub proof fn law_round_fixed_points(s: Seq<char>)
    ensures
        round(s) == s <==> at_rest(s),
{
    lemma_round(s);
    law_fences_idempotent(s);
    law_boundaries_idempotent(s);
    law_inner_brackets_idempotent(s);
    law_samples_idempotent(s);
    law_rule_fixed_points(Rule::JoinSample, s);
    law_rule_fixed_points(Rule::Sample, s);
}

/// The whole repair leaves no repair anything to do, leaves exactly the texts
/// alone in which none has, and repairing twice is the same as repairing once.
pub proof fn law_repair_idempotent(s: Seq<char>)
    ensures
        at_rest(repaired(s)),
        repaired(s) == s <==> at_rest(s),
        repaired(repaired(s)) == repaired(s),
    decreases
            tally(s, Sort::Control),
            unstripped(s),
            alone(s, 0),
            unclosed(s, 0),
            bare_lines(s),
            bare_scripts(s),
{
    law_round_fixed_points(s);
    lemma_round_shrinks(s);
    if round(s) != s {
        law_repair_idempotent(round(s));
    }
}

} // verus!
