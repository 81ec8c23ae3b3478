//! Laws of the LaTeX repairs: which texts they leave alone, and that making a
//! repair twice is the same as making it once.

use vstd::prelude::*;

use crate::latex_measure::{lemma_inner_pass_shrinks, unclosed};
use crate::latex_repair::{
    all_brackets_balanced, all_inline_closed, balancing, boundaries_pass, boundaries_stripped,
    brackets_balanced, by_rows, closing, collides, collision, collision_commands,
    commands_restored, delimiter_state, fences_pass, fences_stripped, first_collision,
    inline_closed, inner_brackets_closed, inner_brackets_pass, left_open, math_like, occurrences,
    orphan, orphans_doubled, sample_repaired, uncollided,
};
use crate::patterns::{is_letter, is_space, script_s, set_token_end, Pattern};
use crate::rewrite::{lemma_head_bounds, Rule};
use crate::text::{
    ascii_letter, index_of, lemma_index_of, lemma_index_of_is, lemma_join_front,
    lemma_run_bounds, rows, run, stands_at, white_space, without_trailing,
};

verus! {

broadcast use vstd::string::group_string_axioms;

// ---------------------------------------------------------------------------
// Texts without a match
// ---------------------------------------------------------------------------

/// The rule's pattern matches nowhere in `t`.
pub open spec fn quiet(rule: Rule, t: Seq<char>) -> bool {
    forall|i: int| 0 <= i < t.len() ==> rule.pattern().head(#[trigger] t.skip(i)) is None
}

/// A quiet text stays quiet behind any prefix.
proof fn lemma_quiet_skip(rule: Rule, t: Seq<char>, k: int)
    requires
        quiet(rule, t),
        0 <= k <= t.len(),
    ensures
        quiet(rule, t.skip(k)),
{
    assert forall|i: int| 0 <= i < t.skip(k).len() implies rule.pattern().head(
        #[trigger] t.skip(k).skip(i),
    ) is None by {
        assert(t.skip(k).skip(i) =~= t.skip(k + i));
    }
}

/// A quiet text is left alone.
pub proof fn lemma_quiet_same(rule: Rule, t: Seq<char>)
    requires
        quiet(rule, t),
    ensures
        rule.rewritten(t) == t,
    decreases t.len(),
{
    if t.len() > 0 {
        assert(t.skip(0) =~= t);
        lemma_quiet_skip(rule, t, 1);
        lemma_quiet_same(rule, t.skip(1));
        assert(seq![t[0]] + t.skip(1) =~= t);
    }
}

/// The rules whose replacement is shorter than what it replaces.
pub open spec fn shortens(rule: Rule) -> bool {
    rule != Rule::BraceScript && !lengthens(rule)
}

/// The rules that add a bracket.
pub open spec fn lengthens(rule: Rule) -> bool {
    rule == Rule::CloseIndexed || rule == Rule::CloseSimple
}

proof fn lemma_replacement_len(rule: Rule, t: Seq<char>, h: (int, int, int))
    requires
        rule.pattern().head(t) == Some(h),
    ensures
        shortens(rule) ==> rule.replacement(t, h).len() < h.0,
        lengthens(rule) ==> rule.replacement(t, h).len() > h.0,
{
    reveal(Pattern::head);
    reveal(Rule::replacement);
    lemma_head_bounds(rule.pattern(), t);
    match rule {
        Rule::Sample => {},
        Rule::JoinSample => {
            let a = run(t, 1, is_space());
            let b = run(t, a + 1, is_space());
            let c = run(t, b + 10, is_space());
            let d = run(t, c + 1, is_space());
            lemma_run_bounds(t, 1, is_space());
            lemma_run_bounds(t, a + 1, is_space());
            lemma_run_bounds(t, b + 10, is_space());
            lemma_run_bounds(t, c + 1, is_space());
            lemma_run_bounds(t, d + 1, is_space());
        },
        Rule::OpenMultiline => {
            let w = run(t, 5, crate::patterns::is_word());
            lemma_run_bounds(t, 5, crate::patterns::is_word());
            lemma_run_bounds(t, w, crate::patterns::is_char('\\'));
        },
        _ => {},
    }
}

proof fn lemma_rewritten_len(rule: Rule, t: Seq<char>)
    requires
        rule != Rule::BraceScript,
    ensures
        shortens(rule) ==> rule.rewritten(t).len() <= t.len(),
        lengthens(rule) ==> rule.rewritten(t).len() >= t.len(),
        rule.rewritten(t).len() == t.len() ==> quiet(rule, t),
    decreases t.len(),
{
    lemma_head_bounds(rule.pattern(), t);
    if t.len() > 0 {
        match rule.pattern().head(t) {
            Some(h) => {
                lemma_replacement_len(rule, t, h);
                lemma_rewritten_len(rule, t.skip(h.0));
            },
            None => {
                let u = t.skip(1);
                lemma_rewritten_len(rule, u);
                if rule.rewritten(t).len() == t.len() {
                    assert forall|i: int| 0 <= i < t.len() implies rule.pattern().head(
                        #[trigger] t.skip(i),
                    ) is None by {
                        if i == 0 {
                            assert(t.skip(0) =~= t);
                        } else {
                            assert(u.skip(i - 1) =~= t.skip(i));
                        }
                    }
                }
            },
        }
    }
}

/// A replacement rule leaves exactly the texts alone in which its pattern
/// matches nowhere.
pub proof fn law_rule_fixed_points(rule: Rule, t: Seq<char>)
    requires
        rule != Rule::BraceScript,
    ensures
        rule.rewritten(t) == t <==> quiet(rule, t),
{
    lemma_rewritten_len(rule, t);
    if quiet(rule, t) {
        lemma_quiet_same(rule, t);
    }
}

/// No fence is left to strip.
pub open spec fn no_fences(t: Seq<char>) -> bool {
    quiet(Rule::OpenInline, t) && quiet(Rule::OpenMultiline, t) && quiet(Rule::CloseFour, t)
        && quiet(Rule::CloseTwo, t)
}

/// A pass over the fences leaves exactly the texts without fences alone, and
/// makes the others shorter.
pub proof fn lemma_fences_pass_len(s: Seq<char>)
    ensures
        fences_pass(s).len() <= s.len(),
        fences_pass(s) != s ==> fences_pass(s).len() < s.len(),
        fences_pass(s) == s <==> no_fences(s),
{
    let a = Rule::OpenInline.rewritten(s);
    let b = Rule::OpenMultiline.rewritten(a);
    let c = Rule::CloseFour.rewritten(b);
    lemma_rewritten_len(Rule::OpenInline, s);
    lemma_rewritten_len(Rule::OpenMultiline, a);
    lemma_rewritten_len(Rule::CloseFour, b);
    lemma_rewritten_len(Rule::CloseTwo, c);
    law_rule_fixed_points(Rule::OpenInline, s);
    law_rule_fixed_points(Rule::OpenMultiline, a);
    law_rule_fixed_points(Rule::CloseFour, b);
    law_rule_fixed_points(Rule::CloseTwo, c);
    if fences_pass(s).len() == s.len() {
        assert(a == s);
        assert(b == a);
        assert(c == b);
    }
}

/// Stripping fences leaves none behind, leaves exactly the texts without fences
/// alone, and stripping twice is the same as stripping once.
pub proof fn law_fences_idempotent(s: Seq<char>)
    ensures
        no_fences(fences_stripped(s)),
        fences_stripped(s) == s <==> no_fences(s),
        fences_stripped(fences_stripped(s)) == fences_stripped(s),
    decreases s.len(),
{
    lemma_fences_pass_len(s);
    if fences_pass(s) != s {
        law_fences_idempotent(fences_pass(s));
    }
}

/// No boundary artefact is left.
pub open spec fn no_boundary_artefacts(t: Seq<char>) -> bool {
    quiet(Rule::BoundaryOpen, t) && quiet(Rule::BoundaryClose, t)
}

/// A pass over the boundary artefacts leaves exactly the texts without them
/// alone, and makes the others shorter.
pub proof fn lemma_boundaries_pass_len(s: Seq<char>)
    ensures
        boundaries_pass(s).len() <= s.len(),
        boundaries_pass(s) != s ==> boundaries_pass(s).len() < s.len(),
        boundaries_pass(s) == s <==> no_boundary_artefacts(s),
{
    let a = Rule::BoundaryOpen.rewritten(s);
    lemma_rewritten_len(Rule::BoundaryOpen, s);
    lemma_rewritten_len(Rule::BoundaryClose, a);
    law_rule_fixed_points(Rule::BoundaryOpen, s);
    law_rule_fixed_points(Rule::BoundaryClose, a);
    if boundaries_pass(s).len() == s.len() {
        assert(a == s);
    }
}

/// Stripping boundary artefacts leaves none behind, leaves exactly the texts
/// without them alone, and stripping twice is the same as stripping once.
pub proof fn law_boundaries_idempotent(s: Seq<char>)
    ensures
        no_boundary_artefacts(boundaries_stripped(s)),
        boundaries_stripped(s) == s <==> no_boundary_artefacts(s),
        boundaries_stripped(boundaries_stripped(s)) == boundaries_stripped(s),
    decreases s.len(),
{
    lemma_boundaries_pass_len(s);
    if boundaries_pass(s) != s {
        law_boundaries_idempotent(boundaries_pass(s));
    }
}

/// No inner bracket is missing.
pub open spec fn no_missing_inner_bracket(t: Seq<char>) -> bool {
    quiet(Rule::CloseIndexed, t) && quiet(Rule::CloseSimple, t)
}

/// A pass over the inner brackets leaves exactly the texts alone that miss none.
proof fn lemma_inner_pass_fixed(s: Seq<char>)
    ensures
        inner_brackets_pass(s) == s <==> no_missing_inner_bracket(s),
{
    let a = Rule::CloseIndexed.rewritten(s);
    lemma_rewritten_len(Rule::CloseIndexed, s);
    lemma_rewritten_len(Rule::CloseSimple, a);
    law_rule_fixed_points(Rule::CloseIndexed, s);
    law_rule_fixed_points(Rule::CloseSimple, a);
    if inner_brackets_pass(s) == s {
        assert(a == s);
    }
}

/// Closing inner brackets leaves none missing, leaves exactly the texts alone
/// that miss none, and closing twice is the same as closing once.
pub proof fn law_inner_brackets_idempotent(s: Seq<char>)
    ensures
        no_missing_inner_bracket(inner_brackets_closed(s)),
        inner_brackets_closed(s) == s <==> no_missing_inner_bracket(s),
        inner_brackets_closed(inner_brackets_closed(s)) == inner_brackets_closed(s),
    decreases unclosed(s, 0),
{
    lemma_inner_pass_fixed(s);
    lemma_inner_pass_shrinks(s);
    if inner_brackets_pass(s) != s {
        law_inner_brackets_idempotent(inner_brackets_pass(s));
    }
}

// ---------------------------------------------------------------------------
// Scripts
// ---------------------------------------------------------------------------

/// Characters that no script match starts with pass through.
proof fn lemma_brace_passes(p: Seq<char>, r: Seq<char>)
    requires
        forall|i: int| 0 <= i < p.len() ==> p[i] != '^' && p[i] != '_',
    ensures
        Rule::BraceScript.rewritten(p + r) == p + Rule::BraceScript.rewritten(r),
    decreases p.len(),
{
    if p.len() == 0 {
        assert(p + r =~= r);
        assert(p + Rule::BraceScript.rewritten(r) =~= Rule::BraceScript.rewritten(r));
    } else {
        reveal(Pattern::head);
        let q = p.skip(1);
        assert((p + r).skip(1) =~= q + r);
        assert((p + r)[0] == p[0]);
        lemma_brace_passes(q, r);
        assert(seq![p[0]] + (q + Rule::BraceScript.rewritten(r)) =~= p
            + Rule::BraceScript.rewritten(r));
    }
}

/// The first character stays.
pub proof fn lemma_brace_first(t: Seq<char>)
    requires
        t.len() > 0,
    ensures
        Rule::BraceScript.rewritten(t).len() > 0,
        Rule::BraceScript.rewritten(t)[0] == t[0],
{
    reveal(Rule::replacement);
    lemma_head_bounds(Pattern::Script, t);
}

/// Runs over the same characters end at the same place.
proof fn lemma_run_agree(x: Seq<char>, y: Seq<char>, i: int, p: spec_fn(char) -> bool)
    requires
        0 <= i,
        run(y, i, p) < y.len(),
        run(y, i, p) < x.len(),
        forall|k: int| i <= k <= run(y, i, p) ==> #[trigger] x[k] == y[k],
    ensures
        run(x, i, p) == run(y, i, p),
    decreases y.len() - i,
{
    lemma_run_bounds(y, i, p);
    if i < y.len() && p(y[i]) {
        lemma_run_bounds(y, i + 1, p);
        assert(x[i] == y[i]);
        lemma_run_agree(x, y, i + 1, p);
    } else {
        assert(x[i] == y[i]);
    }
}

/// Bracing scripts twice is the same as bracing them once.
pub proof fn law_scripts_idempotent(t: Seq<char>)
    ensures
        Rule::BraceScript.rewritten(Rule::BraceScript.rewritten(t)) == Rule::BraceScript.rewritten(
            t,
        ),
    decreases t.len(),
{
    let rule = Rule::BraceScript;
    let y = rule.rewritten(t);
    lemma_head_bounds(Pattern::Script, t);
    if t.len() == 0 {
    } else {
        match Pattern::Script.head(t) {
            None => {
                let u = t.skip(1);
                let bu = rule.rewritten(u);
                law_scripts_idempotent(u);
                assert(y == seq![t[0]] + bu);
                assert(y.skip(1) =~= bu);
                assert(Pattern::Script.head(y) is None) by {
                    reveal(Pattern::head);
                    lemma_run_bounds(y, 2, is_letter());
                    if Pattern::Script.head(y) is Some {
                        assert(y[1] == '\\' && ascii_letter(y[2]));
                        assert(bu[0] == '\\' && bu[1] == y[2]);
                        lemma_brace_first(u);
                        let v = u.skip(1);
                        assert(bu == seq![u[0]] + rule.rewritten(v));
                        assert(rule.rewritten(v)[0] == y[2]);
                        assert(v.len() > 0);
                        lemma_brace_first(v);
                        assert(t[1] == '\\' && t[2] == y[2]);
                        lemma_run_bounds(t, 3, is_letter());
                        assert(run(t, 2, is_letter()) > 2);
                    }
                }
            },
            Some(h) => {
                let e = h.0;
                let z = t.skip(e);
                let bz = rule.rewritten(z);
                law_scripts_idempotent(z);
                reveal(Rule::replacement);
                lemma_run_bounds(t, 2, is_letter());
                assert(h == (e, 1int, e) && run(t, 2, is_letter()) == e && e > 2 && (t[0] == '^'
                    || t[0] == '_') && t[1] == '\\') by {
                    reveal(Pattern::head);
                }
                if e < t.len() && t[e] == '{' {
                    lemma_brace_first(z);
                    assert(y == t.subrange(0, e) + bz);
                    assert(y[e] == '{');
                    assert forall|k: int| 2 <= k <= e implies #[trigger] y[k] == t[k] by {}
                    lemma_run_agree(y, t, 2, is_letter());
                    assert(Pattern::Script.head(y) == Some((e, 1int, e))) by {
                        reveal(Pattern::head);
                    }
                    assert(y.skip(e) =~= bz);
                    assert(y.subrange(0, e) =~= t.subrange(0, e));
                } else {
                    let p = seq!['{'] + t.subrange(1, e) + seq!['}'];
                    assert(y =~= seq![t[0]] + (p + bz));
                    assert(y.skip(1) =~= p + bz);
                    assert(y[1] == '{');
                    assert(Pattern::Script.head(y) is None) by {
                        reveal(Pattern::head);
                    }
                    assert forall|i: int| 0 <= i < p.len() implies p[i] != '^' && p[i] != '_' by {
                        if 1 <= i <= e - 1 {
                            assert(p[i] == t[i]);
                            if i >= 2 {
                                assert(ascii_letter(t[i]));
                            }
                        }
                    }
                    lemma_brace_passes(p, bz);
                    assert(rule.rewritten(y) =~= y);
                }
            },
        }
    }
}

/// A script mark stands at `i` and a command behind it.
pub open spec fn script_at(t: Seq<char>, i: int) -> bool {
    &&& 0 <= i && i + 2 < t.len()
    &&& t[i] == '^' || t[i] == '_'
    &&& t[i + 1] == '\\'
    &&& ascii_letter(t[i + 2])
}

/// Where the command of the script mark at `i` ends: behind its last letter.
pub open spec fn script_end(t: Seq<char>, i: int) -> int {
    run(t, i + 2, is_letter())
}

/// A brace follows every command that is used as a script.
pub open spec fn scripts_braced(t: Seq<char>) -> bool {
    forall|i: int|
        #[trigger] script_at(t, i) ==> script_end(t, i) < t.len() && t[script_end(t, i)] == '{'
}

/// `r` is `t` with nothing but braces round some of the commands that are used
/// as scripts.
pub open spec fn braces_added(t: Seq<char>, r: Seq<char>) -> bool
    decreases t.len(),
{
    if t.len() == 0 {
        r.len() == 0
    } else {
        ||| r.len() > 0 && r[0] == t[0] && braces_added(t.skip(1), r.skip(1))
        ||| {
            let e = script_end(t, 0);
            &&& script_at(t, 0) && 2 < e <= t.len() && e + 2 <= r.len()
            &&& r.take(e + 2) == seq![t[0], '{'] + t.subrange(1, e) + seq!['}']
            &&& braces_added(t.skip(e), r.skip(e + 2))
        }
    }
}

/// A script match begins where a script mark stands, and ends with its command.
proof fn lemma_script_head(t: Seq<char>)
    ensures
        script_at(t, 0) <==> Pattern::Script.head(t) is Some,
        script_at(t, 0) ==> Pattern::Script.head(t) == Some(
            (script_end(t, 0), 1int, script_end(t, 0)),
        ),
        script_at(t, 0) ==> 2 < script_end(t, 0) <= t.len(),
        script_at(t, 0) ==> forall|i: int| 0 < i < script_end(t, 0) ==> !script_at(t, i),
{
    reveal(Pattern::head);
    lemma_run_bounds(t, 2, is_letter());
    if script_at(t, 0) {
        lemma_run_bounds(t, 3, is_letter());
        assert forall|i: int| 0 < i < script_end(t, 0) implies !script_at(t, i) by {
            if i >= 2 {
                assert(is_letter()(t[i]));
            }
        }
    }
}

/// Script marks are found in the rest of a text where they are in the text.
proof fn lemma_script_skip(t: Seq<char>, k: int, i: int)
    requires
        0 <= k <= t.len(),
        0 <= i,
    ensures
        script_at(t.skip(k), i) == script_at(t, k + i),
        script_at(t, k + i) ==> script_end(t.skip(k), i) + k == script_end(t, k + i),
{
    if script_at(t, k + i) {
        lemma_run_skip(t, k, i + 2);
    }
}

proof fn lemma_run_skip(t: Seq<char>, k: int, i: int)
    requires
        0 <= k <= t.len(),
        0 <= i,
    ensures
        run(t.skip(k), i, is_letter()) + k == run(t, k + i, is_letter()),
    decreases t.len() - i,
{
    if k + i < t.len() && ascii_letter(t[k + i]) {
        assert(t.skip(k)[i] == t[k + i]);
        lemma_run_skip(t, k, i + 1);
    }
}

/// Bracing makes no text shorter, and keeps only those at their length whose
/// scripts are braced.
proof fn lemma_bracing_len(t: Seq<char>)
    ensures
        Rule::BraceScript.rewritten(t).len() >= t.len(),
        Rule::BraceScript.rewritten(t).len() == t.len() ==> scripts_braced(t),
    decreases t.len(),
{
    let rule = Rule::BraceScript;
    lemma_script_head(t);
    if t.len() > 0 {
        let k = if script_at(t, 0) {
            script_end(t, 0)
        } else {
            1
        };
        let y = rule.rewritten(t.skip(k));
        lemma_bracing_len(t.skip(k));
        if script_at(t, 0) {
            reveal(Rule::replacement);
            let h = (k, 1int, k);
            assert(rule.rewritten(t) == rule.replacement(t, h) + y);
            assert(k < t.len() && t[k] == '{' ==> rule.replacement(t, h).len() == k);
            assert(!(k < t.len() && t[k] == '{') ==> rule.replacement(t, h).len() == k + 2);
        } else {
            assert(rule.rewritten(t) == seq![t[0]] + y);
        }
        if rule.rewritten(t).len() == t.len() {
            assert(scripts_braced(t.skip(k)));
            assert forall|i: int| #[trigger] script_at(t, i) implies script_end(t, i) < t.len()
                && t[script_end(t, i)] == '{' by {
                if i >= k {
                    let u = t.skip(k);
                    let j = i - k;
                    lemma_script_skip(t, k, j);
                    lemma_run_bounds(u, j + 2, is_letter());
                    assert(k + j == i);
                    assert(script_at(u, j));
                    assert(u[script_end(u, j)] == '{');
                    assert(u[script_end(u, j)] == t[script_end(u, j) + k]);
                } else {
                    assert(i == 0);
                }
            }
        }
    }
}

/// Adding braces behind a common front is adding them.
proof fn lemma_braces_added_behind(p: Seq<char>, t: Seq<char>, r: Seq<char>)
    requires
        braces_added(t, r),
    ensures
        braces_added(p + t, p + r),
    decreases p.len(),
{
    if p.len() == 0 {
        assert(p + t =~= t);
        assert(p + r =~= r);
    } else {
        lemma_braces_added_behind(p.skip(1), t, r);
        assert((p + t).skip(1) =~= p.skip(1) + t);
        assert((p + r).skip(1) =~= p.skip(1) + r);
    }
}

proof fn lemma_bracing_adds(t: Seq<char>)
    ensures
        braces_added(t, Rule::BraceScript.rewritten(t)),
    decreases t.len(),
{
    let rule = Rule::BraceScript;
    let r = rule.rewritten(t);
    lemma_script_head(t);
    if t.len() > 0 {
        if script_at(t, 0) {
            let e = script_end(t, 0);
            let x = t.skip(e);
            let y = rule.rewritten(x);
            reveal(Rule::replacement);
            lemma_bracing_adds(x);
            if e < t.len() && t[e] == '{' {
                lemma_braces_added_behind(t.take(e), x, y);
                assert(t.take(e) + x =~= t);
                assert(t.take(e) + y =~= r);
            } else {
                let w = seq![t[0], '{'] + t.subrange(1, e) + seq!['}'];
                assert(r == w + y);
                assert(r.take(e + 2) =~= w);
                assert(r.skip(e + 2) =~= y);
            }
        } else {
            lemma_bracing_adds(t.skip(1));
            assert(r.skip(1) =~= rule.rewritten(t.skip(1)));
        }
    }
}

/// After bracing, a brace follows every command that is used as a script, and
/// nothing was added but braces round such commands.
pub proof fn law_scripts_braced(s: Seq<char>)
    ensures
        scripts_braced(Rule::BraceScript.rewritten(s)),
        braces_added(s, Rule::BraceScript.rewritten(s)),
{
    law_scripts_idempotent(s);
    lemma_bracing_len(Rule::BraceScript.rewritten(s));
    lemma_bracing_adds(s);
}

// ---------------------------------------------------------------------------
// Sampling marks
// ---------------------------------------------------------------------------

/// The first `k` characters of `x` went unchanged into `y = rule(x)`.
spec fn copied(rule: Rule, x: Seq<char>, y: Seq<char>, k: int) -> bool {
    &&& 0 <= k <= x.len() && k <= y.len()
    &&& x.take(k) == y.take(k)
    &&& y.skip(k) == rule.rewritten(x.skip(k))
}

/// The sampling rules, whose replacement starts with `\$`.
spec fn samples(rule: Rule) -> bool {
    rule == Rule::Sample || rule == Rule::JoinSample
}

/// What does not start with `\$` was not put there by a sampling rule.
proof fn lemma_copied_step(rule: Rule, x: Seq<char>, y: Seq<char>, k: int)
    requires
        samples(rule),
        copied(rule, x, y, k),
        k < y.len(),
        !(y[k] == '\\' && k + 1 < y.len() && y[k + 1] == '$'),
    ensures
        copied(rule, x, y, k + 1),
{
    let t = x.skip(k);
    let z = y.skip(k);
    lemma_head_bounds(rule.pattern(), t);
    assert(z == rule.rewritten(t));
    assert(z[0] == y[k]);
    assert(t.len() > 0);
    match rule.pattern().head(t) {
        Some(h) => {
            reveal(Rule::replacement);
            assert(rule.replacement(t, h).len() >= 2);
            assert(z.len() >= 2);
            assert(z[0] == '\\' && z[1] == '$');
            assert(z[1] == y[k + 1]);
        },
        None => {
            assert(z[0] == t[0]);
            assert(y[k] == x[k]);
            assert(x.take(k + 1) =~= x.take(k).push(x[k]));
            assert(y.take(k + 1) =~= y.take(k).push(y[k]));
            assert(y.skip(k + 1) =~= z.skip(1));
            assert(z.skip(1) =~= rule.rewritten(t.skip(1)));
            assert(t.skip(1) =~= x.skip(k + 1));
        },
    }
}

proof fn lemma_copied(rule: Rule, x: Seq<char>, n: int)
    requires
        samples(rule),
        0 <= n <= rule.rewritten(x).len(),
        forall|j: int|
            0 <= j < n ==> !(#[trigger] rule.rewritten(x)[j] == '\\' && j + 1 < rule.rewritten(
                x,
            ).len() && rule.rewritten(x)[j + 1] == '$'),
    ensures
        copied(rule, x, rule.rewritten(x), n),
    decreases n,
{
    let y = rule.rewritten(x);
    if n == 0 {
        assert(x.skip(0) =~= x);
        assert(y.skip(0) =~= y);
        assert(x.take(0) =~= y.take(0));
    } else {
        lemma_copied(rule, x, n - 1);
        assert(!(y[n - 1] == '\\' && n < y.len() && y[n] == '$'));
        lemma_copied_step(rule, x, y, n - 1);
    }
}

/// A set token is no white space, no dollar, and holds no `\$`.
proof fn lemma_set_token(t: Seq<char>, w: int)
    requires
        0 <= w,
        set_token_end(t, w) is Some,
    ensures
        w < set_token_end(t, w).unwrap() <= t.len(),
        !white_space(t[w]),
        forall|j: int|
            w <= j < set_token_end(t, w).unwrap() ==> #[trigger] t[j] != '$',
        forall|j: int|
            w <= j < set_token_end(t, w).unwrap() && #[trigger] t[j] == '\\' ==> j + 1
                < set_token_end(t, w).unwrap() && (t[j + 1] == '{' || (t[j + 1] == 'm' && t[j + 8]
                != 'S' && j == w)),
{
    let e = set_token_end(t, w).unwrap();
    let m = crate::patterns::mathbb_open();
    if stands_at(t, w, m) && e == w + 10 {
        let u = t.subrange(w, w + 8);
        assert forall|j: int| 0 <= j < 8 implies t[w + j] == #[trigger] m[j] by {
            assert(u[j] == t[w + j]);
        }
        assert(m[0] == '\\' && m[1] == 'm' && m[2] == 'a' && m[3] == 't' && m[4] == 'h' && m[5]
            == 'b' && m[6] == 'b' && m[7] == '{');
        assert(t[w] == '\\' && t[w + 1] == 'm' && t[w + 2] == 'a' && t[w + 3] == 't' && t[w + 4]
            == 'h' && t[w + 5] == 'b' && t[w + 6] == 'b' && t[w + 7] == '{');
    } else if stands_at(t, w, seq!['\\', '{']) {
        let u = t.subrange(w, w + 2);
        assert(u[0] == t[w] && u[1] == t[w + 1]);
    }
}

/// The same characters hold the same set token.
proof fn lemma_set_token_agree(x: Seq<char>, y: Seq<char>, w: int)
    requires
        0 <= w,
        set_token_end(y, w) is Some,
        set_token_end(y, w).unwrap() <= x.len(),
        forall|k: int| w <= k < set_token_end(y, w).unwrap() ==> #[trigger] x[k] == y[k],
    ensures
        set_token_end(x, w) == set_token_end(y, w),
{
    let e = set_token_end(y, w).unwrap();
    let m = crate::patterns::mathbb_open();
    lemma_set_token(y, w);
    if stands_at(y, w, m) && e == w + 10 {
        assert(x.subrange(w, w + 8) =~= y.subrange(w, w + 8));
    } else if stands_at(y, w, seq!['\\', '{']) {
        assert(x.subrange(w, w + 2) =~= y.subrange(w, w + 2));
        if stands_at(x, w, m) {
            assert(x.subrange(w, w + 8)[1] == m[1]);
        }
    } else {
        if stands_at(x, w, m) {
            assert(x.subrange(w, w + 8)[0] == m[0]);
        }
        if stands_at(x, w, seq!['\\', '{']) {
            assert(x.subrange(w, w + 2)[0] == '\\');
        }
    }
}

/// The characters of `\mathbb{S}` where it stands.
proof fn lemma_script_s(t: Seq<char>, b: int)
    requires
        stands_at(t, b, script_s()),
    ensures
        t[b] == '\\',
        t[b + 1] == 'm',
        t[b + 8] == 'S',
        forall|j: int| b < j < b + 10 ==> #[trigger] t[j] != '\\' && t[j] != '$',
{
    let u = t.subrange(b, b + 10);
    let s = script_s();
    assert forall|j: int| 0 <= j < 10 implies t[b + j] == #[trigger] s[j] by {
        assert(u[j] == t[b + j]);
    }
    assert(s[0] == '\\' && s[1] == 'm' && s[2] == 'a' && s[3] == 't' && s[4] == 'h' && s[5] == 'b'
        && s[6] == 'b' && s[7] == '{' && s[8] == 'S' && s[9] == '}');
    assert(t[b] == '\\' && t[b + 1] == 'm' && t[b + 2] == 'a' && t[b + 3] == 't' && t[b + 4] == 'h'
        && t[b + 5] == 'b' && t[b + 6] == 'b' && t[b + 7] == '{' && t[b + 8] == 'S' && t[b + 9]
        == '}');
}

/// A sampling match holds no `\$`.
proof fn lemma_sample_match_clean(rule: Rule, y: Seq<char>)
    requires
        samples(rule),
        rule.pattern().head(y) is Some,
    ensures
        forall|j: int|
            0 <= j < rule.pattern().head(y).unwrap().0 ==> !(#[trigger] y[j] == '\\' && j + 1
                < y.len() && y[j + 1] == '$'),
{
    reveal(Pattern::head);
    let sp = is_space();
    if rule == Rule::Sample {
        let w = run(y, 10, sp);
        lemma_run_bounds(y, 10, sp);
        lemma_script_s(y, 0);
        lemma_set_token(y, w);
    } else {
        let a = run(y, 1, sp);
        let b = run(y, a + 1, sp);
        let c = run(y, b + 10, sp);
        let d = run(y, c + 1, sp);
        let e = run(y, d + 1, sp);
        lemma_run_bounds(y, 1, sp);
        lemma_run_bounds(y, a + 1, sp);
        lemma_run_bounds(y, b + 10, sp);
        lemma_run_bounds(y, c + 1, sp);
        lemma_run_bounds(y, d + 1, sp);
        lemma_script_s(y, b);
        lemma_set_token(y, e);
    }
}

/// A sampling match depends on its own characters only.
proof fn lemma_sample_match_agree(rule: Rule, x: Seq<char>, y: Seq<char>)
    requires
        samples(rule),
        rule.pattern().head(y) is Some,
        rule.pattern().head(y).unwrap().0 <= x.len(),
        forall|k: int|
            0 <= k < rule.pattern().head(y).unwrap().0 ==> #[trigger] x[k] == y[k],
    ensures
        rule.pattern().head(x) is Some,
{
    reveal(Pattern::head);
    let sp = is_space();
    if rule == Rule::Sample {
        let w = run(y, 10, sp);
        lemma_run_bounds(y, 10, sp);
        lemma_set_token(y, w);
        assert(x.subrange(0, 10) =~= y.subrange(0, 10));
        lemma_run_agree(x, y, 10, sp);
        lemma_set_token_agree(x, y, w);
    } else {
        let a = run(y, 1, sp);
        let b = run(y, a + 1, sp);
        let c = run(y, b + 10, sp);
        let d = run(y, c + 1, sp);
        let e = run(y, d + 1, sp);
        lemma_run_bounds(y, 1, sp);
        lemma_run_bounds(y, a + 1, sp);
        lemma_run_bounds(y, b + 10, sp);
        lemma_run_bounds(y, c + 1, sp);
        lemma_run_bounds(y, d + 1, sp);
        lemma_set_token(y, e);
        lemma_run_agree(x, y, 1, sp);
        lemma_run_agree(x, y, a + 1, sp);
        assert(x.subrange(b, b + 10) =~= y.subrange(b, b + 10));
        lemma_run_agree(x, y, b + 10, sp);
        lemma_run_agree(x, y, c + 1, sp);
        lemma_run_agree(x, y, d + 1, sp);
        lemma_set_token_agree(x, y, e);
    }
}

/// A match of a sampling pattern in the result of a sampling rule was there
/// before, at the start of the text that was rewritten.
proof fn lemma_sample_match_old(rule: Rule, seen: Rule, x: Seq<char>)
    requires
        samples(rule),
        samples(seen),
        seen.pattern().head(rule.rewritten(x)) is Some,
    ensures
        seen.pattern().head(x) is Some,
{
    let y = rule.rewritten(x);
    lemma_head_bounds(seen.pattern(), y);
    let n = seen.pattern().head(y).unwrap().0;
    lemma_sample_match_clean(seen, y);
    lemma_copied(rule, x, n);
    assert forall|k: int| 0 <= k < n implies #[trigger] x[k] == y[k] by {
        assert(x.take(n)[k] == y.take(n)[k]);
    }
    lemma_sample_match_agree(seen, x, y);
}

/// `r` is `\$`, white space, and a set token that starts at `w`.
spec fn sampled(r: Seq<char>, w: int) -> bool {
    &&& 2 <= w < r.len()
    &&& r[0] == '\\' && r[1] == '$'
    &&& forall|k: int| 2 <= k < w ==> white_space(#[trigger] r[k])
    &&& !white_space(r[w])
    &&& forall|k: int| w <= k < r.len() ==> #[trigger] r[k] != '$'
    &&& forall|k: int|
        w <= k < r.len() && #[trigger] r[k] == '\\' ==> k + 1 < r.len() && (r[k + 1] == '{' || (
        r[k + 1] == 'm' && k + 8 < r.len() && r[k + 8] != 'S'))
}

/// Where the set token starts that a sampling rule keeps.
spec fn kept_at(rule: Rule, t: Seq<char>) -> int {
    if rule == Rule::Sample {
        run(t, 10, is_space()) - 8
    } else {
        3
    }
}

proof fn lemma_sampled(rule: Rule, t: Seq<char>, h: (int, int, int))
    requires
        samples(rule),
        rule.pattern().head(t) == Some(h),
    ensures
        sampled(rule.replacement(t, h), kept_at(rule, t)),
{
    reveal(Pattern::head);
    reveal(Rule::replacement);
    let sp = is_space();
    lemma_head_bounds(rule.pattern(), t);
    let r = rule.replacement(t, h);
    let w = kept_at(rule, t);
    if rule == Rule::Sample {
        lemma_run_bounds(t, 10, sp);
        let w0 = run(t, 10, sp);
        lemma_set_token(t, w0);
        assert(forall|k: int| 2 <= k < r.len() ==> #[trigger] r[k] == t[k + 8]);
        assert forall|k: int| 2 <= k < w implies white_space(#[trigger] r[k]) by {
            assert(sp(t[k + 8]));
        }
        assert forall|k: int| w <= k < r.len() && #[trigger] r[k] == '\\' implies k + 1 < r.len()
            && (r[k + 1] == '{' || (r[k + 1] == 'm' && k + 8 < r.len() && r[k + 8] != 'S')) by {
            assert(t[k + 8] == '\\');
            assert(r[k + 1] == t[k + 9]);
            if t[k + 9] == 'm' {
                lemma_token_is_letter(t, w0);
                assert(r[k + 8] == t[k + 16]);
            }
        }
    } else {
        let a = run(t, 1, sp);
        let b = run(t, a + 1, sp);
        let c = run(t, b + 10, sp);
        let d = run(t, c + 1, sp);
        let e = run(t, d + 1, sp);
        lemma_run_bounds(t, 1, sp);
        lemma_run_bounds(t, a + 1, sp);
        lemma_run_bounds(t, b + 10, sp);
        lemma_run_bounds(t, c + 1, sp);
        lemma_run_bounds(t, d + 1, sp);
        lemma_set_token(t, e);
        assert(h.1 == e);
        assert(r[2] == ' ');
        assert(forall|k: int| 3 <= k < r.len() ==> #[trigger] r[k] == t[k - 3 + e]);
        assert forall|k: int| w <= k < r.len() && #[trigger] r[k] == '\\' implies k + 1 < r.len()
            && (r[k + 1] == '{' || (r[k + 1] == 'm' && k + 8 < r.len() && r[k + 8] != 'S')) by {
            assert(t[k - 3 + e] == '\\');
            assert(r[k + 1] == t[k - 2 + e]);
            if t[k - 2 + e] == 'm' {
                lemma_token_is_letter(t, e);
                assert(r[k + 8] == t[k + 5 + e]);
            }
        }
    }
}

/// A set token with an `m` behind its backslash is a blackboard letter.
proof fn lemma_token_is_letter(t: Seq<char>, w: int)
    requires
        0 <= w,
        set_token_end(t, w) is Some,
        t[w] == '\\',
        t[w + 1] == 'm',
    ensures
        set_token_end(t, w) == Some(w + 10),
{
    if stands_at(t, w, seq!['\\', '{']) {
        assert(t.subrange(w, w + 2)[1] == '{');
    }
}

/// No sampling pattern matches inside what a sampling rule puts.
proof fn lemma_sampled_quiet(seen: Rule, r: Seq<char>, w: int, rest: Seq<char>, i: int)
    requires
        samples(seen),
        sampled(r, w),
        0 <= i < r.len(),
    ensures
        seen.pattern().head((r + rest).skip(i)) is None,
{
    reveal(Pattern::head);
    let sp = is_space();
    let y = r + rest;
    let u = y.skip(i);
    assert(u[0] == r[i]);
    if seen == Rule::Sample {
        if stands_at(u, 0, script_s()) {
            lemma_script_s(u, 0);
            assert(u[1] == y[i + 1] && u[8] == y[i + 8]);
            if 2 <= i < w {
                assert(white_space(r[i]));
            }
            if i >= w {
                assert(r[i] == '\\');
                assert(y[i + 1] == r[i + 1]);
                assert(r[i + 1] == 'm');
                assert(y[i + 8] == r[i + 8]);
            }
        }
    } else if u[0] == '$' {
        if 2 <= i < w {
            assert(white_space(r[i]));
        }
        assert(i == 1);
        let a = run(u, 1, sp);
        lemma_run_bounds(u, 1, sp);
        assert(u[w - 1] == r[w]);
        if a > w - 1 {
            assert(sp(u[w - 1]));
        }
        if a < w - 1 {
            assert(u[a] == r[a + 1]);
            assert(white_space(r[a + 1]));
            assert(sp(u[a]));
        }
        assert(a == w - 1);
        assert(u[a] != '$');
    }
}

/// What a sampling rule makes is quiet for another sampling pattern if the text
/// was, and quiet for its own in any case.
proof fn lemma_sample_quiet(rule: Rule, seen: Rule, x: Seq<char>)
    requires
        samples(rule),
        samples(seen),
        rule == seen || quiet(seen, x),
    ensures
        quiet(seen, rule.rewritten(x)),
    decreases x.len(),
{
    let y = rule.rewritten(x);
    lemma_head_bounds(rule.pattern(), x);
    if x.len() > 0 {
        match rule.pattern().head(x) {
            Some(h) => {
                let z = x.skip(h.0);
                let r = rule.replacement(x, h);
                if rule != seen {
                    lemma_quiet_skip(seen, x, h.0);
                }
                lemma_sample_quiet(rule, seen, z);
                lemma_sampled(rule, x, h);
                assert forall|i: int| 0 <= i < y.len() implies seen.pattern().head(
                    #[trigger] y.skip(i),
                ) is None by {
                    if i < r.len() {
                        lemma_sampled_quiet(seen, r, kept_at(rule, x), rule.rewritten(z), i);
                    } else {
                        assert(y.skip(i) =~= rule.rewritten(z).skip(i - r.len()));
                    }
                }
            },
            None => {
                let u = x.skip(1);
                if rule != seen {
                    lemma_quiet_skip(seen, x, 1);
                    assert(x.skip(0) =~= x);
                }
                lemma_sample_quiet(rule, seen, u);
                assert forall|i: int| 0 <= i < y.len() implies seen.pattern().head(
                    #[trigger] y.skip(i),
                ) is None by {
                    if i == 0 {
                        assert(y.skip(0) =~= y);
                        if seen.pattern().head(y) is Some {
                            lemma_sample_match_old(rule, seen, x);
                        }
                    } else {
                        assert(y.skip(i) =~= rule.rewritten(u).skip(i - 1));
                    }
                }
            },
        }
    }
}

/// Repairing sampling marks leaves none to repair, and repairing twice is the
/// same as repairing once.
pub proof fn law_samples_idempotent(s: Seq<char>)
    ensures
        quiet(Rule::JoinSample, sample_repaired(s)),
        quiet(Rule::Sample, sample_repaired(s)),
        sample_repaired(sample_repaired(s)) == sample_repaired(s),
{
    let a = Rule::JoinSample.rewritten(s);
    let b = Rule::Sample.rewritten(a);
    lemma_sample_quiet(Rule::JoinSample, Rule::JoinSample, s);
    lemma_sample_quiet(Rule::Sample, Rule::JoinSample, a);
    lemma_sample_quiet(Rule::Sample, Rule::Sample, a);
    lemma_quiet_same(Rule::JoinSample, b);
    lemma_quiet_same(Rule::Sample, b);
}

// ---------------------------------------------------------------------------
// Line by line
// ---------------------------------------------------------------------------

pub open spec fn no_line_feed(t: Seq<char>) -> bool {
    forall|i: int| 0 <= i < t.len() ==> t[i] != '\n'
}

/// `s` made over row by row: its first row, and the rest behind a line feed.
pub proof fn lemma_rows_step(f: spec_fn(Seq<char>) -> Seq<char>, s: Seq<char>)
    ensures
        match index_of(s, '\n') {
            Some(k) => by_rows(f, s) == f(without_trailing(s.take(k), '\r')) + seq!['\n'] + by_rows(
                f,
                s.skip(k + 1),
            ),
            None => by_rows(f, s) == f(s),
        },
{
    let nl = seq!['\n'];
    let fs = rows(s).map_values(f);
    lemma_index_of(s, '\n');
    match index_of(s, '\n') {
        Some(k) => {
            let more = rows(s.skip(k + 1)).map_values(f);
            lemma_rows_not_empty(s.skip(k + 1));
            lemma_join_front(fs, nl);
            assert(fs.skip(1) =~= more);
        },
        None => {
            assert(fs =~= seq![f(s)]);
        },
    }
}

proof fn lemma_rows_not_empty(s: Seq<char>)
    ensures
        rows(s).len() > 0,
{
    lemma_index_of(s, '\n');
}

/// The text does not end in a carriage return.
pub open spec fn no_return_at_end(t: Seq<char>) -> bool {
    t.len() == 0 || t.last() != '\r'
}

pub proof fn lemma_without_trailing(t: Seq<char>, c: char)
    ensures
        without_trailing(t, c).len() == 0 || without_trailing(t, c).last() != c,
        t.len() == 0 || t.last() != c ==> without_trailing(t, c) == t,
        without_trailing(t, c).len() <= t.len(),
        no_line_feed(t) ==> no_line_feed(without_trailing(t, c)),
    decreases t.len(),
{
    if t.len() > 0 && t.last() == c {
        lemma_without_trailing(t.drop_last(), c);
    }
}

/// A line function that keeps lines lines and is idempotent on them: it makes
/// no line feed, and ends a line in a carriage return only if it did so before.
spec fn steady(f: spec_fn(Seq<char>) -> Seq<char>) -> bool {
    forall|l: Seq<char>|
        no_line_feed(l) ==> {
            &&& no_line_feed(#[trigger] f(l))
            &&& no_return_at_end(l) ==> no_return_at_end(f(l))
            &&& f(f(l)) == f(l)
        }
}

/// Making every row over twice with such a function is the same as doing so
/// once.
proof fn lemma_by_rows_twice(f: spec_fn(Seq<char>) -> Seq<char>, s: Seq<char>)
    requires
        steady(f),
    ensures
        by_rows(f, by_rows(f, s)) == by_rows(f, s),
    decreases s.len(),
{
    let r = by_rows(f, s);
    lemma_index_of(s, '\n');
    lemma_rows_step(f, s);
    lemma_rows_step(f, r);
    match index_of(s, '\n') {
        Some(k) => {
            let l = without_trailing(s.take(k), '\r');
            let rest = by_rows(f, s.skip(k + 1));
            assert(no_line_feed(s.take(k)));
            lemma_without_trailing(s.take(k), '\r');
            let fl = f(l);
            let n = fl.len() as int;
            assert(r == fl + seq!['\n'] + rest);
            assert(no_line_feed(fl));
            assert forall|j: int| 0 <= j < n implies r[j] != '\n' by {
                assert(r[j] == fl[j]);
            }
            assert(r[n] == '\n');
            lemma_index_of_is(r, '\n', n);
            assert(r.take(n) =~= fl);
            assert(r.skip(n + 1) =~= rest);
            lemma_without_trailing(fl, '\r');
            lemma_by_rows_twice(f, s.skip(k + 1));
        },
        None => {
            assert(no_line_feed(s));
            lemma_index_of_is(r, '\n', r.len() as int);
        },
    }
}

// ---------------------------------------------------------------------------
// Double brackets
// ---------------------------------------------------------------------------

/// The orphans of `t` from `i` on.
spec fn orphan_count(t: Seq<char>, i: int) -> nat
    decreases t.len() - i,
{
    if i < 0 || i >= t.len() {
        0
    } else {
        orphan_count(t, i + 1) + (if orphan(t, i) {
            1nat
        } else {
            0nat
        })
    }
}

proof fn lemma_occurrences_add(a: Seq<char>, b: Seq<char>, c: char)
    ensures
        occurrences(a + b, c) == occurrences(a, c) + occurrences(b, c),
    decreases b.len(),
{
    if b.len() == 0 {
        assert(a + b =~= a);
    } else {
        assert((a + b).drop_last() =~= a + b.drop_last());
        lemma_occurrences_add(a, b.drop_last(), c);
    }
}

proof fn lemma_doubled_counts(t: Seq<char>, i: int, n: int)
    requires
        0 <= i <= t.len(),
        0 <= n,
    ensures
        occurrences(orphans_doubled(t, i, n), ']') == occurrences(t.skip(i), ']'),
        occurrences(orphans_doubled(t, i, n), '[') == occurrences(t.skip(i), '[') + (if n
            < orphan_count(t, i) {
            n
        } else {
            orphan_count(t, i) as int
        }),
    decreases t.len() - i,
{
    if i < t.len() {
        let one = seq![t[i]];
        let two = seq!['[', '['];
        assert(t.skip(i) =~= one + t.skip(i + 1));
        lemma_occurrences_add(one, t.skip(i + 1), '[');
        lemma_occurrences_add(one, t.skip(i + 1), ']');
        reveal_with_fuel(occurrences, 3);
        assert(one.drop_last() =~= Seq::<char>::empty());
        assert(two.drop_last() =~= seq!['[']);
        assert(two.drop_last().drop_last() =~= Seq::<char>::empty());
        if orphan(t, i) && n > 0 {
            let z = orphans_doubled(t, i + 1, n - 1);
            lemma_doubled_counts(t, i + 1, n - 1);
            lemma_occurrences_add(two, z, '[');
            lemma_occurrences_add(two, z, ']');
        } else {
            let z = orphans_doubled(t, i + 1, n);
            lemma_doubled_counts(t, i + 1, n);
            lemma_occurrences_add(one, z, '[');
            lemma_occurrences_add(one, z, ']');
        }
    }
}

/// Doubling keeps the first and the last character, and makes no line feed.
proof fn lemma_doubled_ends(t: Seq<char>, i: int, n: int)
    requires
        0 <= i < t.len(),
        no_line_feed(t),
    ensures
        orphans_doubled(t, i, n).len() > 0,
        orphans_doubled(t, i, n)[0] == t[i],
        orphans_doubled(t, i, n).last() == t.last(),
        no_line_feed(orphans_doubled(t, i, n)),
    decreases t.len() - i,
{
    let m = if orphan(t, i) && n > 0 {
        n - 1
    } else {
        n
    };
    let z = orphans_doubled(t, i + 1, m);
    if i + 1 < t.len() {
        lemma_doubled_ends(t, i + 1, m);
        assert(orphans_doubled(t, i, n).last() == z.last());
    } else {
        assert(z =~= Seq::<char>::empty());
    }
}

/// With all orphans doubled every opening bracket has a neighbour of its kind.
proof fn lemma_doubled_neighbours(t: Seq<char>, i: int, n: int)
    requires
        0 <= i <= t.len(),
        n >= orphan_count(t, i),
    ensures
        forall|j: int|
            0 <= j < orphans_doubled(t, i, n).len() && #[trigger] orphans_doubled(t, i, n)[j]
                == '[' ==> (j + 1 < orphans_doubled(t, i, n).len() && orphans_doubled(t, i, n)[j
                + 1] == '[') || (j > 0 && orphans_doubled(t, i, n)[j - 1] == '[') || (j == 0 && i
                > 0 && t[i - 1] == '['),
    decreases t.len() - i,
{
    let d = orphans_doubled(t, i, n);
    if i < t.len() {
        if orphan(t, i) {
            let z = orphans_doubled(t, i + 1, n - 1);
            lemma_doubled_neighbours(t, i + 1, n - 1);
            assert(d == seq!['[', '['] + z);
            assert forall|j: int| 0 <= j < d.len() && #[trigger] d[j] == '[' implies (j + 1
                < d.len() && d[j + 1] == '[') || (j > 0 && d[j - 1] == '[') || (j == 0 && i > 0
                && t[i - 1] == '[') by {
                if j == 0 {
                    assert(d[1] == '[');
                } else if j == 1 {
                    assert(d[0] == '[');
                } else {
                    assert(z[j - 2] == d[j]);
                    if j - 2 + 1 < z.len() {
                        assert(z[j - 1] == d[j + 1]);
                    }
                    if j - 2 > 0 {
                        assert(z[j - 3] == d[j - 1]);
                    } else {
                        assert(d[1] == '[');
                    }
                }
            }
        } else {
            let z = orphans_doubled(t, i + 1, n);
            lemma_doubled_neighbours(t, i + 1, n);
            assert(d == seq![t[i]] + z);
            assert forall|j: int| 0 <= j < d.len() && #[trigger] d[j] == '[' implies (j + 1
                < d.len() && d[j + 1] == '[') || (j > 0 && d[j - 1] == '[') || (j == 0 && i > 0
                && t[i - 1] == '[') by {
                if j == 0 {
                    if i + 1 < t.len() && t[i + 1] == '[' {
                        lemma_doubled_first(t, i + 1, n);
                        assert(d[1] == z[0]);
                    }
                } else {
                    assert(z[j - 1] == d[j]);
                    if j < z.len() {
                        assert(z[j] == d[j + 1]);
                    }
                    if j > 1 {
                        assert(z[j - 2] == d[j - 1]);
                    } else {
                        assert(d[0] == t[i]);
                    }
                }
            }
        }
    }
}

proof fn lemma_doubled_first(t: Seq<char>, i: int, n: int)
    requires
        0 <= i < t.len(),
    ensures
        orphans_doubled(t, i, n).len() > 0,
        orphans_doubled(t, i, n)[0] == t[i],
{
}

/// Without orphans nothing is doubled.
proof fn lemma_no_orphans(t: Seq<char>, i: int, n: int)
    requires
        0 <= i <= t.len(),
        forall|j: int| 0 <= j < t.len() ==> !orphan(t, j),
    ensures
        orphans_doubled(t, i, n) == t.skip(i),
    decreases t.len() - i,
{
    if i < t.len() {
        lemma_no_orphans(t, i + 1, n);
        assert(seq![t[i]] + t.skip(i + 1) =~= t.skip(i));
    }
}

/// Balancing the brackets of a line twice is the same as balancing them once.
pub proof fn law_line_brackets_idempotent(t: Seq<char>)
    ensures
        brackets_balanced(brackets_balanced(t)) == brackets_balanced(t),
{
    let m = occurrences(t, ']') - occurrences(t, '[');
    if m > 0 {
        let d = orphans_doubled(t, 0, m);
        assert(t.skip(0) =~= t);
        lemma_doubled_counts(t, 0, m);
        if m > orphan_count(t, 0) {
            lemma_doubled_neighbours(t, 0, m);
            assert forall|j: int| 0 <= j < d.len() implies !orphan(d, j) by {
                if d[j] == '[' {
                }
            }
            lemma_no_orphans(d, 0, occurrences(d, ']') - occurrences(d, '['));
            assert(d.skip(0) =~= d);
        }
    }
}

/// Balancing double brackets twice is the same as balancing them once.
pub proof fn law_brackets_idempotent(s: Seq<char>)
    ensures
        all_brackets_balanced(all_brackets_balanced(s)) == all_brackets_balanced(s),
{
    let f = balancing();
    assert forall|l: Seq<char>| no_line_feed(l) implies {
        &&& no_line_feed(#[trigger] f(l))
        &&& no_return_at_end(l) ==> no_return_at_end(f(l))
        &&& f(f(l)) == f(l)
    } by {
        law_line_brackets_idempotent(l);
        let m = occurrences(l, ']') - occurrences(l, '[');
        if l.len() > 0 {
            lemma_doubled_ends(l, 0, m);
        }
    }
    lemma_by_rows_twice(f, s);
}

// ---------------------------------------------------------------------------
// Math delimiters
// ---------------------------------------------------------------------------

/// One more dollar closes what is open and opens what is closed, unless a
/// backslash stands before it.
proof fn lemma_one_more_dollar(t: Seq<char>, d: bool, inline: bool)
    requires
        t.len() > 0 ==> t.last() != '\\',
    ensures
        delimiter_state(t.push('$'), d, inline).1 == !delimiter_state(t, d, inline).1,
    decreases t.len(),
{
    reveal_with_fuel(delimiter_state, 3);
    let p = t.push('$');
    if t.len() == 0 {
        assert(p.skip(1) =~= Seq::<char>::empty());
    } else if t[0] == '\\' && t.len() > 1 && t[1] == '$' {
        assert(p.skip(2) =~= t.skip(2).push('$'));
        lemma_one_more_dollar(t.skip(2), d, inline);
    } else if t[0] == '$' && t.len() > 1 && t[1] == '$' {
        assert(p.skip(2) =~= t.skip(2).push('$'));
        lemma_one_more_dollar(t.skip(2), !d, inline);
    } else if t.len() == 1 {
        assert(t.skip(1) =~= Seq::<char>::empty());
        assert(p.skip(2) =~= Seq::<char>::empty());
        assert(p.skip(1) =~= seq!['$']);
        assert(p.skip(1).skip(1) =~= Seq::<char>::empty());
    } else if t[0] == '$' {
        assert(p.skip(1) =~= t.skip(1).push('$'));
        lemma_one_more_dollar(t.skip(1), d, !inline);
    } else {
        assert(p.skip(1) =~= t.skip(1).push('$'));
        lemma_one_more_dollar(t.skip(1), d, inline);
    }
}

/// Closing the inline mathematics of a line leaves it closed, and closing it
/// twice is the same as closing it once.
pub proof fn law_line_delimiters_idempotent(t: Seq<char>)
    ensures
        !left_open(inline_closed(t)),
        inline_closed(inline_closed(t)) == inline_closed(t),
{
    if left_open(t) {
        lemma_one_more_dollar(t, false, false);
    }
}

/// Closing inline mathematics twice is the same as closing it once.
pub proof fn law_delimiters_idempotent(s: Seq<char>)
    ensures
        all_inline_closed(all_inline_closed(s)) == all_inline_closed(s),
{
    let f = closing();
    assert forall|l: Seq<char>| no_line_feed(l) implies {
        &&& no_line_feed(#[trigger] f(l))
        &&& no_return_at_end(l) ==> no_return_at_end(f(l))
        &&& f(f(l)) == f(l)
    } by {
        law_line_delimiters_idempotent(l);
    }
    lemma_by_rows_twice(f, s);
}

// ---------------------------------------------------------------------------
// Eaten commands
// ---------------------------------------------------------------------------

pub open spec fn all_letters(t: Seq<char>) -> bool {
    forall|i: int| 0 <= i < t.len() ==> ascii_letter(#[trigger] t[i])
}

/// Commands consist of letters.
pub proof fn lemma_commands_are_letters(c: char)
    ensures
        forall|i: int|
            0 <= i < collision_commands(c).len() ==> all_letters(
                #[trigger] collision_commands(c)[i],
            ),
        ascii_letter(c) || c == '\\' ==> collision_commands(c).len() == 0,
{
    if c == '\t' {
        reveal_strlit("textbf");
        reveal_strlit("textit");
        reveal_strlit("textrm");
        reveal_strlit("text");
        reveal_strlit("theta");
        reveal_strlit("times");
        reveal_strlit("top");
        reveal_strlit("tau");
        reveal_strlit("to");
    } else if c == '\u{8}' {
        reveal_strlit("begin");
        reveal_strlit("bigoplus");
        reveal_strlit("bigotimes");
        reveal_strlit("beta");
        reveal_strlit("boxed");
        reveal_strlit("big");
        reveal_strlit("bar");
    } else if c == '\u{c}' {
        reveal_strlit("forall");
        reveal_strlit("frac");
        reveal_strlit("frown");
        reveal_strlit("flat");
        reveal_strlit("floor");
    } else if c == '\n' {
        reveal_strlit("nabla");
        reveal_strlit("notin");
        reveal_strlit("newline");
        reveal_strlit("neq");
        reveal_strlit("ne");
        reveal_strlit("not");
    } else if c == '\r' {
        reveal_strlit("rightarrow");
        reveal_strlit("rightharpoon");
        reveal_strlit("rangle");
        reveal_strlit("rho");
        reveal_strlit("rm");
    } else if c == '\u{b}' {
        reveal_strlit("varepsilon");
        reveal_strlit("varphi");
        reveal_strlit("varpi");
        reveal_strlit("vec");
        reveal_strlit("vert");
    }
}

pub proof fn lemma_collision(t: Seq<char>, cmds: Seq<Seq<char>>)
    ensures
        first_collision(t, cmds) matches Some(cmd) ==> collides(t, cmd) && exists|i: int|
            0 <= i < cmds.len() && #[trigger] cmds[i] == cmd,
        first_collision(t, cmds) is None ==> forall|i: int|
            0 <= i < cmds.len() ==> !collides(t, #[trigger] cmds[i]),
    decreases cmds.len(),
{
    if cmds.len() > 0 {
        let rest = cmds.skip(1);
        if collides(t, cmds[0]) {
            assert(cmds[0] == cmds[0]);
        } else {
            lemma_collision(t, rest);
            if let Some(cmd) = first_collision(t, cmds) {
                let j = choose|j: int| 0 <= j < rest.len() && #[trigger] rest[j] == cmd;
                assert(cmds[j + 1] == cmd);
            } else {
                assert forall|i: int| 0 <= i < cmds.len() implies !collides(
                    t,
                    #[trigger] cmds[i],
                ) by {
                    if i > 0 {
                        assert(rest[i - 1] == cmds[i]);
                    }
                }
            }
        }
    }
}

/// Letters at the front of what was restored stood at the front before.
proof fn lemma_letters_copied(x: Seq<char>, math: bool, k: int)
    requires
        0 <= k <= uncollided(x, math).len(),
        forall|j: int| 0 <= j < k ==> ascii_letter(#[trigger] uncollided(x, math)[j]),
    ensures
        k <= x.len(),
        x.take(k) == uncollided(x, math).take(k),
        uncollided(x, math).skip(k) == uncollided(x.skip(k), math),
    decreases k,
{
    let y = uncollided(x, math);
    if k == 0 {
        assert(x.take(0) =~= y.take(0));
        assert(y.skip(0) =~= y);
        assert(x.skip(0) =~= x);
    } else {
        lemma_letters_copied(x, math, k - 1);
        let t = x.skip(k - 1);
        let z = y.skip(k - 1);
        assert(z[0] == y[k - 1]);
        assert(t.len() > 0);
        lemma_collision(t, collision_commands(t[0]));
        assert(collision(t, math) is None);
        assert(z[0] == t[0]);
        assert(x.take(k) =~= x.take(k - 1).push(x[k - 1]));
        assert(y.take(k) =~= y.take(k - 1).push(y[k - 1]));
        assert(z.skip(1) =~= uncollided(t.skip(1), math));
        assert(y.skip(k) =~= z.skip(1));
        assert(t.skip(1) =~= x.skip(k));
    }
}

/// No command is left to restore.
#[verifier::rlimit(40)]
#[verifier::spinoff_prover]
proof fn lemma_none_left(t: Seq<char>, math: bool)
    ensures
        forall|i: int|
            0 <= i < uncollided(t, math).len() ==> collision(
                #[trigger] uncollided(t, math).skip(i),
                math,
            ) is None,
    decreases t.len(),
{
    let y = uncollided(t, math);
    if t.len() > 0 {
        let c = t[0];
        lemma_collision(t, collision_commands(c));
        lemma_commands_are_letters(c);
        match collision(t, math) {
            Some(cmd) => {
                let n = cmd.len() as int;
                let z = uncollided(t.skip(n), math);
                lemma_none_left(t.skip(n), math);
                assert(all_letters(cmd));
                assert forall|i: int| 0 <= i < y.len() implies collision(
                    #[trigger] y.skip(i),
                    math,
                ) is None by {
                    if i <= n {
                        assert(y.skip(i)[0] == y[i]);
                        assert(i > 0 ==> y[i] == cmd[i - 1]);
                        lemma_commands_are_letters(y[i]);
                    } else {
                        assert(y.skip(i) =~= z.skip(i - n - 1));
                    }
                }
            },
            None => {
                let u = t.skip(1);
                let z = uncollided(u, math);
                lemma_none_left(u, math);
                assert forall|i: int| 0 <= i < y.len() implies collision(
                    #[trigger] y.skip(i),
                    math,
                ) is None by {
                    if i > 0 {
                        assert(y.skip(i) =~= z.skip(i - 1));
                    } else {
                        assert(y.skip(0) =~= y);
                        assert(y[0] == c);
                        lemma_collision(y, collision_commands(c));
                        if let Some(cmd) = first_collision(y, collision_commands(c)) {
                            let k = cmd.len() - 1;
                            assert(all_letters(cmd));
                            assert forall|j: int| 0 <= j < k implies ascii_letter(
                                #[trigger] z[j],
                            ) by {
                                assert(z[j] == y[j + 1]);
                                assert(y.subrange(1, k + 1)[j] == cmd.skip(1)[j]);
                                assert(cmd[j + 1] == z[j]);
                            }
                            lemma_letters_copied(u, math, k);
                            assert(t.subrange(1, k + 1) =~= u.take(k));
                            assert(y.subrange(1, k + 1) =~= z.take(k));
                            if k + 1 < t.len() && ascii_letter(t[k + 1]) {
                                let v = u.skip(k);
                                assert(v[0] == t[k + 1]);
                                lemma_commands_are_letters(v[0]);
                                assert(collision(v, math) is None);
                                assert(z.skip(k)[0] == v[0]);
                                assert(y[k + 1] == v[0]);
                            }
                            assert(collides(t, cmd));
                            if !((c == '\n' || c == '\r') && !math) {
                                let i = choose|i: int|
                                    0 <= i < collision_commands(c).len()
                                        && #[trigger] collision_commands(c)[i] == cmd;
                                assert(!collides(t, collision_commands(c)[i]));
                            }
                        }
                    }
                }
            },
        }
    }
}

/// Where nothing collides nothing changes.
proof fn lemma_no_collision_same(t: Seq<char>, math: bool)
    requires
        forall|i: int| 0 <= i < t.len() ==> collision(#[trigger] t.skip(i), math) is None,
    ensures
        uncollided(t, math) == t,
    decreases t.len(),
{
    if t.len() > 0 {
        let u = t.skip(1);
        assert(t.skip(0) =~= t);
        assert forall|i: int| 0 <= i < u.len() implies collision(
            #[trigger] u.skip(i),
            math,
        ) is None by {
            assert(u.skip(i) =~= t.skip(i + 1));
        }
        lemma_no_collision_same(u, math);
        assert(seq![t[0]] + u =~= t);
    }
}

/// Restoring leaves nothing to restore, whether or not the text then looks like
/// mathematics, unless line ends were left alone and now count.
proof fn lemma_restored_same(s: Seq<char>, math: bool, again: bool)
    requires
        math || !again,
    ensures
        uncollided(uncollided(s, math), again) == uncollided(s, math),
{
    let u = uncollided(s, math);
    lemma_none_left(s, math);
    assert forall|i: int| 0 <= i < u.len() implies collision(
        #[trigger] u.skip(i),
        again,
    ) is None by {
        assert(collision(u.skip(i), math) is None);
    }
    lemma_no_collision_same(u, again);
}

/// Restoring eaten commands twice is the same as restoring them once.
pub proof fn law_collisions_idempotent(s: Seq<char>)
    ensures
        commands_restored(commands_restored(s)) == commands_restored(s),
{
    let t = uncollided(s, math_like(s));
    let r = commands_restored(s);
    if math_like(s) || !math_like(t) {
        lemma_restored_same(s, math_like(s), math_like(t));
    } else {
        lemma_restored_same(t, math_like(t), math_like(r));
    }
}

} // verus!
