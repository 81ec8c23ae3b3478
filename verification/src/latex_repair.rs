//! Deterministic repair of mangled LaTeX.
//!
//! Text that comes from optical recognition or from a language model's JSON
//! carries a small set of typical faults in its mathematics: commands whose
//! backslash was swallowed by a JSON escape, a sampling `$` read as
//! `\mathbb{S}`, missing brackets, stray code fences, unclosed `$`, unbraced
//! scripts. Each repair is a pure function with its meaning stated over
//! character sequences; [`repair_latex`] runs them in a fixed order.

use vstd::prelude::*;

use crate::latex_laws::{lemma_boundaries_pass_len, lemma_fences_pass_len};
use crate::latex_measure::{alone, lemma_inner_pass_shrinks, unclosed};
use crate::latex_rest::{bare_lines, bare_scripts, lemma_round_shrinks, tally, unstripped, Sort};
use crate::rewrite::Rule;
use crate::text::{
    ascii_letter, chars_of, is_ascii_letter, join, join_of, names, put_range, rows, rows_of,
    same_str, string_of, texts,
};

verus! {

broadcast use vstd::string::group_string_axioms;

// ---------------------------------------------------------------------------
// Commands eaten by JSON escapes
// ---------------------------------------------------------------------------

/// The commands that begin with the letter a control character stands for,
/// longer ones before their prefixes.
pub open spec fn collision_commands(c: char) -> Seq<Seq<char>> {
    if c == '\t' {
        seq![
            "textbf"@,
            "textit"@,
            "textrm"@,
            "text"@,
            "theta"@,
            "times"@,
            "top"@,
            "tau"@,
            "to"@,
        ]
    } else if c == '\u{8}' {
        seq!["begin"@, "bigoplus"@, "bigotimes"@, "beta"@, "boxed"@, "big"@, "bar"@]
    } else if c == '\u{c}' {
        seq!["forall"@, "frac"@, "frown"@, "flat"@, "floor"@]
    } else if c == '\n' {
        seq!["nabla"@, "notin"@, "newline"@, "neq"@, "ne"@, "not"@]
    } else if c == '\r' {
        seq!["rightarrow"@, "rightharpoon"@, "rangle"@, "rho"@, "rm"@]
    } else if c == '\u{b}' {
        seq!["varepsilon"@, "varphi"@, "varpi"@, "vec"@, "vert"@]
    } else {
        Seq::empty()
    }
}

/// The control characters of the table, in its order.
pub open spec fn collision_controls() -> Seq<char> {
    seq!['\t', '\u{8}', '\u{c}', '\n', '\r', '\u{b}']
}

/// `t` is a control character followed by what is left of `cmd` without its
/// first letter, and no letter follows.
pub open spec fn collides(t: Seq<char>, cmd: Seq<char>) -> bool {
    &&& 0 < cmd.len() <= t.len()
    &&& t.subrange(1, cmd.len() as int) == cmd.skip(1)
    &&& cmd.len() < t.len() ==> !ascii_letter(t[cmd.len() as int])
}

/// The first command of the list that `t` collides with.
pub open spec fn first_collision(t: Seq<char>, cmds: Seq<Seq<char>>) -> Option<Seq<char>>
    decreases cmds.len(),
{
    if cmds.len() == 0 {
        None
    } else if collides(t, cmds[0]) {
        Some(cmds[0])
    } else {
        first_collision(t, cmds.skip(1))
    }
}

/// The command to restore at the start of `t`. Line ends are left alone
/// outside mathematics.
pub open spec fn collision(t: Seq<char>, math: bool) -> Option<Seq<char>> {
    if t.len() == 0 || ((t[0] == '\n' || t[0] == '\r') && !math) {
        None
    } else {
        first_collision(t, collision_commands(t[0]))
    }
}

/// `t` with every eaten command restored.
pub open spec fn uncollided(t: Seq<char>, math: bool) -> Seq<char>
    decreases t.len(),
{
    if t.len() == 0 {
        Seq::empty()
    } else {
        match collision(t, math) {
            Some(cmd) => if 0 < cmd.len() <= t.len() {
                seq!['\\'] + cmd + uncollided(t.skip(cmd.len() as int), math)
            } else {
                Seq::empty()
            },
            None => seq![t[0]] + uncollided(t.skip(1), math),
        }
    }
}

/// An unescaped backslash stands before a letter.
pub open spec fn has_command(t: Seq<char>) -> bool
    decreases t.len(),
{
    if t.len() < 2 {
        false
    } else if t[0] == '\\' {
        ascii_letter(t[1]) || has_command(t.skip(2))
    } else {
        has_command(t.skip(1))
    }
}

/// The text holds a `$` or an unescaped command.
pub open spec fn math_like(t: Seq<char>) -> bool {
    t.contains('$') || has_command(t)
}

/// Each control character of the table with the commands it stands for.
pub fn escape_collision_table() -> (r: Vec<(char, Vec<&'static str>)>)
    ensures
        r@.len() == collision_controls().len(),
        forall|i: int|
            0 <= i < r@.len() ==> (#[trigger] r@[i]).0 == collision_controls()[i],
        forall|i: int|
            0 <= i < r@.len() ==> names((#[trigger] r@[i]).1@) == collision_commands(r@[i].0),
{
    let t = vec![
        "textbf",
        "textit",
        "textrm",
        "text",
        "theta",
        "times",
        "top",
        "tau",
        "to",
    ];
    assert(names(t@) =~= collision_commands('\t'));
    let b = vec!["begin", "bigoplus", "bigotimes", "beta", "boxed", "big", "bar"];
    assert(names(b@) =~= collision_commands('\u{8}'));
    let f = vec!["forall", "frac", "frown", "flat", "floor"];
    assert(names(f@) =~= collision_commands('\u{c}'));
    let n = vec!["nabla", "notin", "newline", "neq", "ne", "not"];
    assert(names(n@) =~= collision_commands('\n'));
    let r = vec!["rightarrow", "rightharpoon", "rangle", "rho", "rm"];
    assert(names(r@) =~= collision_commands('\r'));
    let v = vec!["varepsilon", "varphi", "varpi", "vec", "vert"];
    assert(names(v@) =~= collision_commands('\u{b}'));
    vec![('\t', t), ('\u{8}', b), ('\u{c}', f), ('\n', n), ('\r', r), ('\u{b}', v)]
}

/// Whether the text looks like mathematics.
pub fn is_math_like(s: &str) -> (r: bool)
    ensures
        r == math_like(s@),
{
    let v = chars_of(s);
    let mut dollar = false;
    let mut i: usize = 0;
    while i < v.len() && !dollar
        invariant
            i <= v@.len(),
            dollar ==> v@.contains('$'),
            !dollar ==> forall|j: int| 0 <= j < i ==> v@[j] != '$',
        decreases v.len() - i + (if dollar { 0int } else { 1int }),
    {
        if v[i] == '$' {
            dollar = true;
        } else {
            i = i + 1;
        }
    }
    if dollar {
        return true;
    }
    let mut k: usize = 0;
    assert(v@.skip(0) =~= v@);
    let len = v.len();
    while k < len && len - k >= 2
        invariant
            k <= len,
            len == v@.len(),
            !v@.contains('$'),
            has_command(v@) == has_command(v@.skip(k as int)),
            v@ == s@,
        decreases len - k,
    {
        if v[k] == '\\' {
            if is_ascii_letter(v[k + 1]) {
                return true;
            }
            assert(v@.skip(k as int).skip(2) =~= v@.skip(k + 2));
            k = k + 2;
        } else {
            assert(v@.skip(k as int).skip(1) =~= v@.skip(k + 1));
            k = k + 1;
        }
    }
    false
}

/// Whether `v` from `i` on collides with `cmd`.
fn collides_at(v: &Vec<char>, i: usize, cmd: &Vec<char>) -> (r: bool)
    requires
        i <= v@.len(),
    ensures
        r == collides(v@.skip(i as int), cmd@),
{
    let n = cmd.len();
    let len = v.len();
    if n == 0 || n > len - i {
        return false;
    }
    let ghost t = v@.skip(i as int);
    let mut k: usize = 1;
    while k < n
        invariant
            1 <= k <= n,
            n == cmd@.len(),
            i + n <= len,
            len == v@.len(),
            t == v@.skip(i as int),
            forall|j: int| 1 <= j < k ==> t[j] == cmd@[j],
        decreases n - k,
    {
        if v[i + k] != cmd[k] {
            proof {
                assert(t[k as int] == v@[i + k]);
                assert(t.subrange(1, n as int)[k - 1] != cmd@.skip(1)[k - 1]);
            }
            return false;
        }
        k = k + 1;
    }
    assert(t.subrange(1, n as int) =~= cmd@.skip(1));
    n == len - i || !is_ascii_letter(v[i + n])
}

/// The position in `cmds` of the first command that `v` collides with at `i`.
fn first_collision_at(v: &Vec<char>, i: usize, cmds: &Vec<&'static str>) -> (r: Option<Vec<char>>)
    requires
        i <= v@.len(),
    ensures
        match r {
            Some(cmd) => first_collision(v@.skip(i as int), names(cmds@)) == Some(cmd@),
            None => first_collision(v@.skip(i as int), names(cmds@)) is None,
        },
{
    let ghost t = v@.skip(i as int);
    let ghost all = names(cmds@);
    let mut k: usize = 0;
    assert(all.skip(0) =~= all);
    while k < cmds.len()
        invariant
            i <= v@.len(),
            k <= cmds@.len(),
            t == v@.skip(i as int),
            all == names(cmds@),
            first_collision(t, all) == first_collision(t, all.skip(k as int)),
        decreases cmds.len() - k,
    {
        let cmd = chars_of(cmds[k]);
        assert(all.skip(k as int)[0] == cmd@);
        if collides_at(v, i, &cmd) {
            return Some(cmd);
        }
        assert(all.skip(k as int).skip(1) =~= all.skip(k + 1));
        k = k + 1;
    }
    None
}

/// `s` with the eaten commands restored. What is restored first may show that
/// the text is mathematics, so that its line ends may be eaten commands too.
pub open spec fn commands_restored(s: Seq<char>) -> Seq<char> {
    let t = uncollided(s, math_like(s));
    uncollided(t, math_like(t))
}

/// Restores commands whose backslash and first letter became one control
/// character. Line ends count as such only in text that looks like
/// mathematics.
pub fn reconstruct_escape_collisions(s: &str) -> (r: String)
    ensures
        r@ == commands_restored(s@),
{
    let t = restore_once(s);
    restore_once(t.as_str())
}

/// Restores the commands that are seen to be eaten in the text as it is.
fn restore_once(s: &str) -> (r: String)
    ensures
        r@ == uncollided(s@, math_like(s@)),
{
    let math = is_math_like(s);
    let table = escape_collision_table();
    let v = chars_of(s);
    let mut out: Vec<char> = Vec::new();
    let mut i: usize = 0;
    assert(v@.skip(0) =~= v@);
    while i < v.len()
        invariant
            i <= v@.len(),
            v@ == s@,
            table@.len() == collision_controls().len(),
            forall|k: int|
                0 <= k < table@.len() ==> (#[trigger] table@[k]).0 == collision_controls()[k],
            forall|k: int|
                0 <= k < table@.len() ==> names((#[trigger] table@[k]).1@) == collision_commands(
                    table@[k].0,
                ),
            uncollided(s@, math) == out@ + uncollided(s@.skip(i as int), math),
        decreases v.len() - i,
    {
        let c = v[i];
        let ghost t = s@.skip(i as int);
        let mut cmd: Option<Vec<char>> = None;
        if !((c == '\n' || c == '\r') && !math) {
            let mut k: usize = 0;
            while k < table.len() && table[k].0 != c
                invariant
                    k <= table@.len(),
                    forall|j: int| 0 <= j < k ==> (#[trigger] table@[j]).0 != c,
                decreases table.len() - k,
            {
                k = k + 1;
            }
            if k < table.len() {
                cmd = first_collision_at(&v, i, &table[k].1);
                assert(names(table@[k as int].1@) == collision_commands(c));
            } else {
                assert(collision_commands(c) =~= Seq::<Seq<char>>::empty()) by {
                    assert(table@[0].0 != c && table@[1].0 != c && table@[2].0 != c && table@[3].0
                        != c && table@[4].0 != c && table@[5].0 != c);
                }
            }
        }
        let ghost before = out@;
        match cmd {
            Some(name) => {
                proof {
                    lemma_first_collision(t, collision_commands(c));
                }
                out.push('\\');
                put_range(&name, 0, name.len(), &mut out);
                proof {
                    let n = name@.len() as int;
                    assert(name@.subrange(0, n) =~= name@);
                    assert(t.skip(n) =~= s@.skip(i + n));
                    let z = uncollided(s@.skip(i + n), math);
                    assert(before + (seq!['\\'] + name@ + z) =~= before.push('\\') + name@ + z);
                }
                i = i + name.len();
            },
            None => {
                out.push(c);
                proof {
                    assert(t.skip(1) =~= s@.skip(i + 1));
                    let z = uncollided(s@.skip(i + 1), math);
                    assert(before + (seq![t[0]] + z) =~= before.push(c) + z);
                }
                i = i + 1;
            },
        }
    }
    assert(uncollided(s@.skip(i as int), math) =~= Seq::<char>::empty());
    assert(out@ + Seq::<char>::empty() =~= out@);
    string_of(&out)
}

/// What is found collides.
proof fn lemma_first_collision(t: Seq<char>, cmds: Seq<Seq<char>>)
    ensures
        first_collision(t, cmds) matches Some(cmd) ==> collides(t, cmd) && cmds.contains(cmd),
    decreases cmds.len(),
{
    if cmds.len() > 0 {
        if collides(t, cmds[0]) {
            assert(cmds.contains(cmds[0]));
        } else {
            lemma_first_collision(t, cmds.skip(1));
            if let Some(cmd) = first_collision(t, cmds) {
                let j = choose|j: int| 0 <= j < cmds.skip(1).len() && cmds.skip(1)[j] == cmd;
                assert(cmds[j + 1] == cmd);
            }
        }
    }
}

// ---------------------------------------------------------------------------
// Repairs by rewriting
// ---------------------------------------------------------------------------

pub open spec fn sample_repaired(s: Seq<char>) -> Seq<char> {
    Rule::Sample.rewritten(Rule::JoinSample.rewritten(s))
}

/// Rewrites `\mathbb{S}` before a set to the sampling mark `\$`, also where
/// the mathematics around it was broken into pieces.
pub fn repair_sample_dollar(s: &str) -> (r: String)
    ensures
        r@ == sample_repaired(s@),
{
    let a = Rule::JoinSample.apply(s);
    Rule::Sample.apply(a.as_str())
}

/// One pass over the missing inner brackets of `[[x[i]]^` and `[[v]^`.
pub open spec fn inner_brackets_pass(s: Seq<char>) -> Seq<char> {
    Rule::CloseSimple.rewritten(Rule::CloseIndexed.rewritten(s))
}

/// The passes repeated until one changes nothing: the bracket that one adds may
/// show that another is missing.
pub open spec fn inner_brackets_closed(s: Seq<char>) -> Seq<char>
    decreases unclosed(s, 0),
{
    let t = inner_brackets_pass(s);
    if t == s {
        s
    } else {
        proof {
            lemma_inner_pass_shrinks(s);
        }
        inner_brackets_closed(t)
    }
}

/// Adds the missing inner bracket of `[[x[i]]^` and `[[v]^`.
pub fn repair_missing_inner_bracket(s: &str) -> (r: String)
    ensures
        r@ == inner_brackets_closed(s@),
{
    let mut cur = string_of(&chars_of(s));
    loop
        invariant
            inner_brackets_closed(s@) == inner_brackets_closed(cur@),
        decreases unclosed(cur@, 0),
    {
        let a = Rule::CloseIndexed.apply(cur.as_str());
        let next = Rule::CloseSimple.apply(a.as_str());
        if same_str(next.as_str(), cur.as_str()) {
            return cur;
        }
        proof {
            lemma_inner_pass_shrinks(cur@);
        }
        cur = next;
    }
}

/// One pass over the code fences.
pub open spec fn fences_pass(s: Seq<char>) -> Seq<char> {
    Rule::CloseTwo.rewritten(
        Rule::CloseFour.rewritten(Rule::OpenMultiline.rewritten(Rule::OpenInline.rewritten(s))),
    )
}

/// The passes repeated until one changes nothing: a fence that goes may uncover
/// another.
pub open spec fn fences_stripped(s: Seq<char>) -> Seq<char>
    decreases s.len(),
{
    let t = fences_pass(s);
    if t == s {
        s
    } else {
        proof {
            lemma_fences_pass_len(s);
        }
        fences_stripped(t)
    }
}

/// Removes code fences that were put around a display block.
pub fn strip_fake_latex_codefence(s: &str) -> (r: String)
    ensures
        r@ == fences_stripped(s@),
{
    let mut cur = string_of(&chars_of(s));
    loop
        invariant
            fences_stripped(s@) == fences_stripped(cur@),
        decreases cur@.len(),
    {
        let a = Rule::OpenInline.apply(cur.as_str());
        let b = Rule::OpenMultiline.apply(a.as_str());
        let c = Rule::CloseFour.apply(b.as_str());
        let next = Rule::CloseTwo.apply(c.as_str());
        if same_str(next.as_str(), cur.as_str()) {
            return cur;
        }
        proof {
            lemma_fences_pass_len(cur@);
        }
        cur = next;
    }
}

/// One pass over the backslashes and surplus dollars at display delimiters.
pub open spec fn boundaries_pass(s: Seq<char>) -> Seq<char> {
    Rule::BoundaryClose.rewritten(Rule::BoundaryOpen.rewritten(s))
}

/// The passes repeated until one changes nothing: what goes may bring a
/// delimiter next to backslashes.
pub open spec fn boundaries_stripped(s: Seq<char>) -> Seq<char>
    decreases s.len(),
{
    let t = boundaries_pass(s);
    if t == s {
        s
    } else {
        proof {
            lemma_boundaries_pass_len(s);
        }
        boundaries_stripped(t)
    }
}

/// Removes backslashes and surplus dollars at display delimiters.
pub fn strip_ocr_math_boundary_artefacts(s: &str) -> (r: String)
    ensures
        r@ == boundaries_stripped(s@),
{
    let mut cur = string_of(&chars_of(s));
    loop
        invariant
            boundaries_stripped(s@) == boundaries_stripped(cur@),
        decreases cur@.len(),
    {
        let a = Rule::BoundaryOpen.apply(cur.as_str());
        let next = Rule::BoundaryClose.apply(a.as_str());
        if same_str(next.as_str(), cur.as_str()) {
            return cur;
        }
        proof {
            lemma_boundaries_pass_len(cur@);
        }
        cur = next;
    }
}

/// Puts braces round a command that is used as a script, unless a brace
/// follows it.
pub fn brace_single_token_scripts(s: &str) -> (r: String)
    ensures
        r@ == Rule::BraceScript.rewritten(s@),
{
    Rule::BraceScript.apply(s)
}

// ---------------------------------------------------------------------------
// Double brackets
// ---------------------------------------------------------------------------

/// How often `c` occurs in `t`.
pub open spec fn occurrences(t: Seq<char>, c: char) -> nat
    decreases t.len(),
{
    if t.len() == 0 {
        0
    } else {
        occurrences(t.drop_last(), c) + (if t.last() == c {
            1nat
        } else {
            0nat
        })
    }
}

/// An opening bracket without a neighbour of its kind.
pub open spec fn orphan(t: Seq<char>, i: int) -> bool {
    &&& 0 <= i < t.len() && t[i] == '['
    &&& !(i + 1 < t.len() && t[i + 1] == '[')
    &&& !(i > 0 && t[i - 1] == '[')
}

/// `t` from `i` on with the first `n` orphans doubled.
pub open spec fn orphans_doubled(t: Seq<char>, i: int, n: int) -> Seq<char>
    decreases t.len() - i,
{
    if i < 0 || i >= t.len() {
        Seq::empty()
    } else if orphan(t, i) && n > 0 {
        seq!['[', '['] + orphans_doubled(t, i + 1, n - 1)
    } else {
        seq![t[i]] + orphans_doubled(t, i + 1, n)
    }
}

/// A line with as many orphans doubled as it lacks opening brackets.
pub open spec fn brackets_balanced(t: Seq<char>) -> Seq<char> {
    let missing = occurrences(t, ']') - occurrences(t, '[');
    if missing <= 0 {
        t
    } else {
        orphans_doubled(t, 0, missing)
    }
}

/// The rows of `s`, each made over by `f`, with line feeds between them.
pub open spec fn by_rows(f: spec_fn(Seq<char>) -> Seq<char>, s: Seq<char>) -> Seq<char> {
    join(rows(s).map_values(f), seq!['\n'])
}

pub open spec fn balancing() -> spec_fn(Seq<char>) -> Seq<char> {
    |l: Seq<char>| brackets_balanced(l)
}

/// Every line with its brackets balanced.
pub open spec fn all_brackets_balanced(s: Seq<char>) -> Seq<char> {
    by_rows(balancing(), s)
}

fn count_char(line: &Vec<char>, c: char) -> (n: usize)
    ensures
        n == occurrences(line@, c),
{
    let mut n: usize = 0;
    let mut i: usize = 0;
    assert(line@.take(0) =~= Seq::<char>::empty());
    while i < line.len()
        invariant
            i <= line@.len(),
            n <= i,
            n == occurrences(line@.take(i as int), c),
        decreases line.len() - i,
    {
        assert(line@.take(i + 1).drop_last() =~= line@.take(i as int));
        if line[i] == c {
            n = n + 1;
        }
        i = i + 1;
    }
    assert(line@.take(i as int) =~= line@);
    n
}

/// Doubles orphan opening brackets while the line closes more than it opens.
pub fn balance_double_brackets_line(line: &Vec<char>) -> (r: Vec<char>)
    ensures
        r@ == brackets_balanced(line@),
{
    let opens = count_char(line, '[');
    let closes = count_char(line, ']');
    if closes <= opens {
        let mut same: Vec<char> = Vec::new();
        put_range(line, 0, line.len(), &mut same);
        assert(same@ =~= line@);
        return same;
    }
    let missing = closes - opens;
    let mut fixed: usize = 0;
    let mut out: Vec<char> = Vec::new();
    let mut i: usize = 0;
    while i < line.len()
        invariant
            i <= line@.len(),
            fixed <= missing,
            orphans_doubled(line@, 0, missing as int) == out@ + orphans_doubled(
                line@,
                i as int,
                missing - fixed,
            ),
        decreases line.len() - i,
    {
        let lone = line[i] == '[' && !(i + 1 < line.len() && line[i + 1] == '[') && !(i > 0
            && line[i - 1] == '[');
        let ghost before = out@;
        let ghost z = orphans_doubled(line@, i + 1, missing - fixed - 1);
        let ghost y = orphans_doubled(line@, i + 1, missing - fixed);
        if lone && fixed < missing {
            out.push('[');
            out.push('[');
            fixed = fixed + 1;
            assert(before + (seq!['[', '['] + z) =~= before.push('[').push('[') + z);
        } else {
            out.push(line[i]);
            assert(before + (seq![line@[i as int]] + y) =~= before.push(line@[i as int]) + y);
        }
        i = i + 1;
    }
    assert(out@ + Seq::<char>::empty() =~= out@);
    out
}

/// Balances the double brackets of every line. Line feeds stay, carriage returns
/// before them go.
pub fn balance_double_brackets(s: &str) -> (r: String)
    ensures
        r@ == all_brackets_balanced(s@),
{
    let parts = rows_of(&chars_of(s));
    let mut done: Vec<Vec<char>> = Vec::new();
    let mut i: usize = 0;
    let ghost f = balancing();
    while i < parts.len()
        invariant
            i <= parts@.len(),
            f == balancing(),
            texts(done@) == texts(parts@).take(i as int).map_values(f),
        decreases parts.len() - i,
    {
        let line = balance_double_brackets_line(&parts[i]);
        let ghost before = texts(done@);
        let ghost l = line@;
        done.push(line);
        assert(texts(done@) =~= before.push(l));
        assert(texts(parts@).take(i + 1).map_values(f) =~= texts(parts@).take(i as int).map_values(
            f,
        ).push(l));
        i = i + 1;
    }
    assert(texts(parts@).take(i as int) =~= texts(parts@));
    let sep = vec!['\n'];
    assert(sep@ =~= seq!['\n']);
    let r = join_of(&done, &sep);
    string_of(&r)
}

// ---------------------------------------------------------------------------
// Math delimiters
// ---------------------------------------------------------------------------

/// Whether the text ends inside a display block and inside inline mathematics,
/// given where it starts. `\$` is not a delimiter and `$$` is one.
pub open spec fn delimiter_state(t: Seq<char>, display: bool, inline: bool) -> (bool, bool)
    decreases t.len(),
{
    if t.len() == 0 {
        (display, inline)
    } else if t[0] == '\\' && t.len() > 1 && t[1] == '$' {
        delimiter_state(t.skip(2), display, inline)
    } else if t[0] == '$' && t.len() > 1 && t[1] == '$' {
        delimiter_state(t.skip(2), !display, inline)
    } else if t[0] == '$' {
        delimiter_state(t.skip(1), display, !inline)
    } else {
        delimiter_state(t.skip(1), display, inline)
    }
}

/// The line leaves inline mathematics open, and a dollar behind it would not be
/// escaped.
pub open spec fn left_open(t: Seq<char>) -> bool {
    delimiter_state(t, false, false).1 && !(t.len() > 0 && t.last() == '\\')
}

/// A line with the inline mathematics that it leaves open closed.
pub open spec fn inline_closed(t: Seq<char>) -> Seq<char> {
    if left_open(t) {
        t.push('$')
    } else {
        t
    }
}

pub open spec fn closing() -> spec_fn(Seq<char>) -> Seq<char> {
    |l: Seq<char>| inline_closed(l)
}

/// Every line with its inline mathematics closed.
pub open spec fn all_inline_closed(s: Seq<char>) -> Seq<char> {
    by_rows(closing(), s)
}

/// Whether inline mathematics is open does not depend on display blocks.
proof fn lemma_inline_ignores_display(t: Seq<char>, d: bool, e: bool, inline: bool)
    ensures
        delimiter_state(t, d, inline).1 == delimiter_state(t, e, inline).1,
    decreases t.len(),
{
    if t.len() == 0 {
    } else if t[0] == '\\' && t.len() > 1 && t[1] == '$' {
        lemma_inline_ignores_display(t.skip(2), d, e, inline);
    } else if t[0] == '$' && t.len() > 1 && t[1] == '$' {
        lemma_inline_ignores_display(t.skip(2), !d, !e, inline);
    } else if t[0] == '$' {
        lemma_inline_ignores_display(t.skip(1), d, e, !inline);
    } else {
        lemma_inline_ignores_display(t.skip(1), d, e, inline);
    }
}

/// Closes the inline mathematics of one line, unless its last backslash would
/// escape the dollar, and says whether the line ends
/// inside a display block when it starts inside one or not.
pub fn balance_math_delimiters_line(line: &Vec<char>, entered_inside_display: bool) -> (r: (
    Vec<char>,
    bool,
))
    ensures
        r.0@ == inline_closed(line@),
        r.1 == delimiter_state(line@, entered_inside_display, false).0,
{
    let mut display = entered_inside_display;
    let mut inline = false;
    let mut i: usize = 0;
    assert(line@.skip(0) =~= line@);
    while i < line.len()
        invariant
            i <= line@.len(),
            delimiter_state(line@, entered_inside_display, false) == delimiter_state(
                line@.skip(i as int),
                display,
                inline,
            ),
        decreases line.len() - i,
    {
        let ghost t = line@.skip(i as int);
        if line[i] == '\\' && i + 1 < line.len() && line[i + 1] == '$' {
            assert(t.skip(2) =~= line@.skip(i + 2));
            i = i + 2;
        } else if line[i] == '$' && i + 1 < line.len() && line[i + 1] == '$' {
            assert(t.skip(2) =~= line@.skip(i + 2));
            display = !display;
            i = i + 2;
        } else if line[i] == '$' {
            assert(t.skip(1) =~= line@.skip(i + 1));
            inline = !inline;
            i = i + 1;
        } else {
            assert(t.skip(1) =~= line@.skip(i + 1));
            i = i + 1;
        }
    }
    let mut out: Vec<char> = Vec::new();
    put_range(line, 0, line.len(), &mut out);
    assert(out@ =~= line@);
    if inline && !(line.len() > 0 && line[line.len() - 1] == '\\') {
        out.push('$');
    }
    proof {
        lemma_inline_ignores_display(line@, entered_inside_display, false, false);
    }
    (out, display)
}

/// Closes the inline mathematics of every line; display blocks may span lines.
/// Line feeds stay, carriage returns before them go.
pub fn balance_math_delimiters(s: &str) -> (r: String)
    ensures
        r@ == all_inline_closed(s@),
{
    let parts = rows_of(&chars_of(s));
    let mut done: Vec<Vec<char>> = Vec::new();
    let mut inside = false;
    let mut i: usize = 0;
    let ghost f = closing();
    while i < parts.len()
        invariant
            i <= parts@.len(),
            f == closing(),
            texts(done@) == texts(parts@).take(i as int).map_values(f),
        decreases parts.len() - i,
    {
        let (line, ended_inside) = balance_math_delimiters_line(&parts[i], inside);
        inside = ended_inside;
        let ghost before = texts(done@);
        let ghost l = line@;
        done.push(line);
        assert(texts(done@) =~= before.push(l));
        assert(texts(parts@).take(i + 1).map_values(f) =~= texts(parts@).take(i as int).map_values(
            f,
        ).push(l));
        i = i + 1;
    }
    assert(texts(parts@).take(i as int) =~= texts(parts@));
    let sep = vec!['\n'];
    assert(sep@ =~= seq!['\n']);
    let r = join_of(&done, &sep);
    string_of(&r)
}

// ---------------------------------------------------------------------------
// The whole repair
// ---------------------------------------------------------------------------

/// All repairs, once each, in the order in which they are made.
pub open spec fn round(s: Seq<char>) -> Seq<char> {
    Rule::BraceScript.rewritten(
        all_inline_closed(
            inner_brackets_closed(
                all_brackets_balanced(
                    sample_repaired(boundaries_stripped(fences_stripped(commands_restored(s)))),
                ),
            ),
        ),
    )
}

/// The rounds repeated until one changes nothing: a repair may make work for
/// one that came before it.
pub open spec fn repaired(s: Seq<char>) -> Seq<char>
    decreases
            tally(s, Sort::Control),
            unstripped(s),
            alone(s, 0),
            unclosed(s, 0),
            bare_lines(s),
            bare_scripts(s),
{
    let t = round(s);
    if t == s {
        s
    } else {
        proof {
            lemma_round_shrinks(s);
        }
        repaired(t)
    }
}

/// Repairs the LaTeX in a text.
pub fn repair_latex(s: &str) -> (r: String)
    ensures
        r@ == repaired(s@),
{
    let mut cur = string_of(&chars_of(s));
    loop
        invariant
            repaired(s@) == repaired(cur@),
        decreases
                tally(cur@, Sort::Control),
                unstripped(cur@),
                alone(cur@, 0),
                unclosed(cur@, 0),
                bare_lines(cur@),
                bare_scripts(cur@),
    {
        let a = reconstruct_escape_collisions(cur.as_str());
        let b = strip_fake_latex_codefence(a.as_str());
        let c = strip_ocr_math_boundary_artefacts(b.as_str());
        let d = repair_sample_dollar(c.as_str());
        let e = balance_double_brackets(d.as_str());
        let f = repair_missing_inner_bracket(e.as_str());
        let g = balance_math_delimiters(f.as_str());
        let next = brace_single_token_scripts(g.as_str());
        if same_str(next.as_str(), cur.as_str()) {
            return cur;
        }
        proof {
            lemma_round_shrinks(cur@);
        }
        cur = next;
    }
}

} // verus!
