//! Laws of the commands that JSON escapes eat.
//!
//! A backslash and a letter of a JSON text may be read as one control
//! character: `\times` becomes a tab and `imes`. The laws here say which
//! commands come back, and that nothing else is touched.

use vstd::prelude::*;

use crate::latex_laws::{all_letters, lemma_collision, lemma_commands_are_letters};
use crate::latex_repair::{
    collides, collision, collision_commands, commands_restored, first_collision, has_command,
    math_like, uncollided,
};
use crate::text::ascii_letter;

verus! {

broadcast use vstd::string::group_string_axioms;

/// The text holds no control character that may stand for a command.
pub open spec fn uneaten(t: Seq<char>) -> bool {
    forall|i: int|
        0 <= i < t.len() ==> #[trigger] t[i] != '\t' && t[i] != '\u{8}' && t[i] != '\u{c}' && t[i]
            != '\n' && t[i] != '\r' && t[i] != '\u{b}'
}

/// The text does not go on with a letter.
pub open spec fn word_over(t: Seq<char>) -> bool {
    t.len() == 0 || !ascii_letter(t[0])
}

/// The letter that JSON writes behind a backslash for a control character.
pub open spec fn escape_letter(c: char) -> char {
    if c == '\t' {
        't'
    } else if c == '\u{8}' {
        'b'
    } else if c == '\u{c}' {
        'f'
    } else if c == '\n' {
        'n'
    } else if c == '\r' {
        'r'
    } else {
        'v'
    }
}

/// The commands of a control character begin with its letter.
proof fn lemma_first_letters(c: char)
    ensures
        forall|i: int|
            0 <= i < collision_commands(c).len() ==> (#[trigger] collision_commands(c)[i]).len() >= 2
                && collision_commands(c)[i][0] == escape_letter(c),
{
    if c == '\t' {
        reveal_strlit("textbf");
        reveal_strlit("textit");
        reveal_strlit("textrm");
        reveal_strlit("text");
        reveal_strlit("theta");
        reveal_strlit("times");
        reveal_strlit("top");
        reveal_strlit("tau");
        reveal_strlit("to");
    } else if c == '\u{8}' {
        reveal_strlit("begin");
        reveal_strlit("bigoplus");
        reveal_strlit("bigotimes");
        reveal_strlit("beta");
        reveal_strlit("boxed");
        reveal_strlit("big");
        reveal_strlit("bar");
    } else if c == '\u{c}' {
        reveal_strlit("forall");
        reveal_strlit("frac");
        reveal_strlit("frown");
        reveal_strlit("flat");
        reveal_strlit("floor");
    } else if c == '\n' {
        reveal_strlit("nabla");
        reveal_strlit("notin");
        reveal_strlit("newline");
        reveal_strlit("neq");
        reveal_strlit("ne");
        reveal_strlit("not");
    } else if c == '\r' {
        reveal_strlit("rightarrow");
        reveal_strlit("rightharpoon");
        reveal_strlit("rangle");
        reveal_strlit("rho");
        reveal_strlit("rm");
    } else if c == '\u{b}' {
        reveal_strlit("varepsilon");
        reveal_strlit("varphi");
        reveal_strlit("varpi");
        reveal_strlit("vec");
        reveal_strlit("vert");
    }
}

/// What collides before the end of a word does so without what follows.
proof fn lemma_collides_apart(u: Seq<char>, x: Seq<char>, cmds: Seq<Seq<char>>)
    requires
        u.len() > 0,
        word_over(x),
        forall|i: int| 0 <= i < cmds.len() ==> all_letters(#[trigger] cmds[i]),
    ensures
        first_collision(u + x, cmds) == first_collision(u, cmds),
    decreases cmds.len(),
{
    if cmds.len() > 0 {
        let rest = cmds.skip(1);
        assert forall|i: int| 0 <= i < rest.len() implies all_letters(#[trigger] rest[i]) by {
            assert(rest[i] == cmds[i + 1]);
        }
        lemma_collides_apart(u, x, rest);
        let t = u + x;
        let cmd = cmds[0];
        let n = cmd.len() as int;
        assert(all_letters(cmd));
        if 0 < n <= u.len() {
            assert(t.subrange(1, n) =~= u.subrange(1, n));
            if n < u.len() {
                assert(t[n] == u[n]);
            } else if n < t.len() {
                assert(t[n] == x[0]);
            }
        } else if collides(t, cmd) {
            let k = u.len() as int;
            assert(t.subrange(1, n)[k - 1] == t[k]);
            assert(t[k] == x[0]);
            assert(cmd.skip(1)[k - 1] == cmd[k]);
            assert(ascii_letter(cmd[k]));
        }
    }
}

/// Commands are restored piece by piece: what stands before the end of a word
/// and what stands behind it do not depend on each other.
pub proof fn law_restored_piecewise(a: Seq<char>, x: Seq<char>, math: bool)
    requires
        word_over(x),
    ensures
        uncollided(a + x, math) == uncollided(a, math) + uncollided(x, math),
    decreases a.len(),
{
    let t = a + x;
    let y = uncollided(x, math);
    if a.len() == 0 {
        assert(t =~= x);
        assert(uncollided(a, math) + y =~= y);
    } else {
        let cmds = collision_commands(a[0]);
        assert(t[0] == a[0]);
        lemma_commands_are_letters(a[0]);
        lemma_collides_apart(a, x, cmds);
        lemma_collision(a, cmds);
        match collision(a, math) {
            Some(cmd) => {
                let n = cmd.len() as int;
                assert(t.skip(n) =~= a.skip(n) + x);
                law_restored_piecewise(a.skip(n), x, math);
                let z = uncollided(a.skip(n), math);
                assert(seq!['\\'] + cmd + (z + y) =~= seq!['\\'] + cmd + z + y);
            },
            None => {
                assert(t.skip(1) =~= a.skip(1) + x);
                law_restored_piecewise(a.skip(1), x, math);
                let z = uncollided(a.skip(1), math);
                assert(seq![a[0]] + (z + y) =~= seq![a[0]] + z + y);
            },
        }
    }
}

/// A text without those control characters is left as it is.
proof fn lemma_uneaten_same(t: Seq<char>, math: bool)
    requires
        uneaten(t),
    ensures
        uncollided(t, math) == t,
    decreases t.len(),
{
    if t.len() > 0 {
        let u = t.skip(1);
        assert forall|i: int| 0 <= i < u.len() implies #[trigger] u[i] != '\t' && u[i] != '\u{8}'
            && u[i] != '\u{c}' && u[i] != '\n' && u[i] != '\r' && u[i] != '\u{b}' by {
            assert(u[i] == t[i + 1]);
        }
        lemma_uneaten_same(u, math);
        assert(collision_commands(t[0]) =~= Seq::<Seq<char>>::empty());
        assert(collision(t, math) is None);
        assert(seq![t[0]] + u =~= t);
    }
}

/// A command of the table comes back where nothing but its rest stands behind
/// the control character.
proof fn lemma_comes_back(c: char, k: int, b: Seq<char>, math: bool)
    requires
        0 <= k < collision_commands(c).len(),
        word_over(b),
        c == '\n' || c == '\r' ==> math,
    ensures
        uncollided(seq![c] + collision_commands(c)[k].skip(1) + b, math) == seq!['\\']
            + collision_commands(c)[k] + uncollided(b, math),
{
    let cmds = collision_commands(c);
    let cmd = cmds[k];
    let n = cmd.len() as int;
    let t = seq![c] + cmd.skip(1) + b;
    lemma_commands_are_letters(c);
    lemma_first_letters(c);
    lemma_collision(t, cmds);
    assert(all_letters(cmd) && cmd.len() >= 2);
    assert(t.subrange(1, n) =~= cmd.skip(1));
    assert(n < t.len() ==> t[n] == b[0]);
    assert(collides(t, cmds[k]));
    assert(first_collision(t, cmds) is Some);
    let other = first_collision(t, cmds)->0;
    let j = choose|j: int| 0 <= j < cmds.len() && #[trigger] cmds[j] == other;
    assert(all_letters(cmds[j]) && cmds[j][0] == escape_letter(c));
    let m = other.len() as int;
    if m < n {
        assert(t[m] == cmd.skip(1)[m - 1]);
        assert(cmd.skip(1)[m - 1] == cmd[m]);
        assert(ascii_letter(cmd[m]));
    }
    if n < m {
        assert(t.subrange(1, m)[n - 1] == t[n]);
        assert(other.skip(1)[n - 1] == other[n]);
        assert(ascii_letter(other[n]));
    }
    assert(m == n);
    assert(other.skip(1) == cmd.skip(1));
    assert forall|i: int| 0 <= i < n implies other[i] == cmd[i] by {
        if i > 0 {
            assert(other.skip(1)[i - 1] == other[i]);
            assert(cmd.skip(1)[i - 1] == cmd[i]);
        }
    }
    assert(other =~= cmd);
    assert(t.skip(n) =~= b);
}

/// A command of the table comes back in the midst of a text.
proof fn lemma_comes_back_within(a: Seq<char>, c: char, k: int, b: Seq<char>)
    requires
        0 <= k < collision_commands(c).len(),
        uneaten(a),
        uneaten(b),
        word_over(b),
        c == '\n' || c == '\r' ==> a.contains('$') || b.contains('$'),
    ensures
        commands_restored(a + (seq![c] + collision_commands(c)[k].skip(1)) + b) == a + (seq!['\\']
            + collision_commands(c)[k]) + b,
{
    let cmd = collision_commands(c)[k];
    let e = seq![c] + cmd.skip(1);
    let s = a + e + b;
    let r = a + (seq!['\\'] + cmd) + b;
    lemma_commands_are_letters(c);
    lemma_first_letters(c);
    assert(all_letters(cmd));
    if a.contains('$') {
        let i = choose|i: int| 0 <= i < a.len() && a[i] == '$';
        assert(s[i] == '$' && r[i] == '$');
        assert(s.contains('$') && r.contains('$'));
    } else if b.contains('$') {
        let i = choose|i: int| 0 <= i < b.len() && b[i] == '$';
        assert(s[a.len() + e.len() + i] == '$' && r[a.len() + 1 + cmd.len() + i] == '$');
        assert(s.contains('$') && r.contains('$'));
    }
    let math = math_like(s);
    assert(s =~= a + (e + b));
    assert(word_over(e + b));
    law_restored_piecewise(a, e + b, math);
    lemma_uneaten_same(a, math);
    lemma_uneaten_same(b, math);
    lemma_comes_back(c, k, b, math);
    assert(uncollided(s, math) =~= r);
    assert forall|i: int| 0 <= i < r.len() implies #[trigger] r[i] != '\t' && r[i] != '\u{8}' && r[i]
        != '\u{c}' && r[i] != '\n' && r[i] != '\r' && r[i] != '\u{b}' by {
        let m = a.len() as int;
        let n = m + 1 + cmd.len();
        if i < m {
            assert(r[i] == a[i]);
        } else if i == m {
            assert(r[i] == '\\');
        } else if i < n {
            assert(r[i] == cmd[i - m - 1]);
            assert(ascii_letter(cmd[i - m - 1]));
        } else {
            assert(r[i] == b[i - n]);
        }
    }
    lemma_uneaten_same(r, math_like(r));
}

/// In a text without other such control characters, a tab followed by the rest of one
/// of these commands, and then no letter, becomes that command.
pub proof fn law_tab_commands(a: Seq<char>, b: Seq<char>)
    requires
        uneaten(a),
        uneaten(b),
        word_over(b),
    ensures
        commands_restored(a + "\textbf"@ + b) == a + "\\textbf"@ + b,
        commands_restored(a + "\textit"@ + b) == a + "\\textit"@ + b,
        commands_restored(a + "\textrm"@ + b) == a + "\\textrm"@ + b,
        commands_restored(a + "\text"@ + b) == a + "\\text"@ + b,
        commands_restored(a + "\theta"@ + b) == a + "\\theta"@ + b,
        commands_restored(a + "\times"@ + b) == a + "\\times"@ + b,
        commands_restored(a + "\top"@ + b) == a + "\\top"@ + b,
        commands_restored(a + "\tau"@ + b) == a + "\\tau"@ + b,
        commands_restored(a + "\to"@ + b) == a + "\\to"@ + b,
{
    assert(commands_restored(a + "\textbf"@ + b) == a + "\\textbf"@ + b) by {
        reveal_strlit("\textbf");
        reveal_strlit("\\textbf");
        reveal_strlit("textbf");
        lemma_comes_back_within(a, '\t', 0, b);
        assert("\textbf"@ =~= seq!['\t'] + "textbf"@.skip(1));
        assert("\\textbf"@ =~= seq!['\\'] + "textbf"@);
    }
    assert(commands_restored(a + "\textit"@ + b) == a + "\\textit"@ + b) by {
        reveal_strlit("\textit");
        reveal_strlit("\\textit");
        reveal_strlit("textit");
        lemma_comes_back_within(a, '\t', 1, b);
        assert("\textit"@ =~= seq!['\t'] + "textit"@.skip(1));
        assert("\\textit"@ =~= seq!['\\'] + "textit"@);
    }
    assert(commands_restored(a + "\textrm"@ + b) == a + "\\textrm"@ + b) by {
        reveal_strlit("\textrm");
        reveal_strlit("\\textrm");
        reveal_strlit("textrm");
        lemma_comes_back_within(a, '\t', 2, b);
        assert("\textrm"@ =~= seq!['\t'] + "textrm"@.skip(1));
        assert("\\textrm"@ =~= seq!['\\'] + "textrm"@);
    }
    assert(commands_restored(a + "\text"@ + b) == a + "\\text"@ + b) by {
        reveal_strlit("\text");
        reveal_strlit("\\text");
        reveal_strlit("text");
        lemma_comes_back_within(a, '\t', 3, b);
        assert("\text"@ =~= seq!['\t'] + "text"@.skip(1));
        assert("\\text"@ =~= seq!['\\'] + "text"@);
    }
    assert(commands_restored(a + "\theta"@ + b) == a + "\\theta"@ + b) by {
        reveal_strlit("\theta");
        reveal_strlit("\\theta");
        reveal_strlit("theta");
        lemma_comes_back_within(a, '\t', 4, b);
        assert("\theta"@ =~= seq!['\t'] + "theta"@.skip(1));
        assert("\\theta"@ =~= seq!['\\'] + "theta"@);
    }
    assert(commands_restored(a + "\times"@ + b) == a + "\\times"@ + b) by {
        reveal_strlit("\times");
        reveal_strlit("\\times");
        reveal_strlit("times");
        lemma_comes_back_within(a, '\t', 5, b);
        assert("\times"@ =~= seq!['\t'] + "times"@.skip(1));
        assert("\\times"@ =~= seq!['\\'] + "times"@);
    }
    assert(commands_restored(a + "\top"@ + b) == a + "\\top"@ + b) by {
        reveal_strlit("\top");
        reveal_strlit("\\top");
        reveal_strlit("top");
        lemma_comes_back_within(a, '\t', 6, b);
        assert("\top"@ =~= seq!['\t'] + "top"@.skip(1));
        assert("\\top"@ =~= seq!['\\'] + "top"@);
    }
    assert(commands_restored(a + "\tau"@ + b) == a + "\\tau"@ + b) by {
        reveal_strlit("\tau");
        reveal_strlit("\\tau");
        reveal_strlit("tau");
        lemma_comes_back_within(a, '\t', 7, b);
        assert("\tau"@ =~= seq!['\t'] + "tau"@.skip(1));
        assert("\\tau"@ =~= seq!['\\'] + "tau"@);
    }
    assert(commands_restored(a + "\to"@ + b) == a + "\\to"@ + b) by {
        reveal_strlit("\to");
        reveal_strlit("\\to");
        reveal_strlit("to");
        lemma_comes_back_within(a, '\t', 8, b);
        assert("\to"@ =~= seq!['\t'] + "to"@.skip(1));
        assert("\\to"@ =~= seq!['\\'] + "to"@);
    }
}

/// In a text without other such control characters, a backspace followed by the rest of one
/// of these commands, and then no letter, becomes that command.
pub proof fn law_backspace_commands(a: Seq<char>, b: Seq<char>)
    requires
        uneaten(a),
        uneaten(b),
        word_over(b),
    ensures
        commands_restored(a + "\u{8}egin"@ + b) == a + "\\begin"@ + b,
        commands_restored(a + "\u{8}igoplus"@ + b) == a + "\\bigoplus"@ + b,
        commands_restored(a + "\u{8}igotimes"@ + b) == a + "\\bigotimes"@ + b,
        commands_restored(a + "\u{8}eta"@ + b) == a + "\\beta"@ + b,
        commands_restored(a + "\u{8}oxed"@ + b) == a + "\\boxed"@ + b,
        commands_restored(a + "\u{8}ig"@ + b) == a + "\\big"@ + b,
        commands_restored(a + "\u{8}ar"@ + b) == a + "\\bar"@ + b,
{
    assert(commands_restored(a + "\u{8}egin"@ + b) == a + "\\begin"@ + b) by {
        reveal_strlit("\u{8}egin");
        reveal_strlit("\\begin");
        reveal_strlit("begin");
        lemma_comes_back_within(a, '\u{8}', 0, b);
        assert("\u{8}egin"@ =~= seq!['\u{8}'] + "begin"@.skip(1));
        assert("\\begin"@ =~= seq!['\\'] + "begin"@);
    }
    assert(commands_restored(a + "\u{8}igoplus"@ + b) == a + "\\bigoplus"@ + b) by {
        reveal_strlit("\u{8}igoplus");
        reveal_strlit("\\bigoplus");
        reveal_strlit("bigoplus");
        lemma_comes_back_within(a, '\u{8}', 1, b);
        assert("\u{8}igoplus"@ =~= seq!['\u{8}'] + "bigoplus"@.skip(1));
        assert("\\bigoplus"@ =~= seq!['\\'] + "bigoplus"@);
    }
    assert(commands_restored(a + "\u{8}igotimes"@ + b) == a + "\\bigotimes"@ + b) by {
        reveal_strlit("\u{8}igotimes");
        reveal_strlit("\\bigotimes");
        reveal_strlit("bigotimes");
        lemma_comes_back_within(a, '\u{8}', 2, b);
        assert("\u{8}igotimes"@ =~= seq!['\u{8}'] + "bigotimes"@.skip(1));
        assert("\\bigotimes"@ =~= seq!['\\'] + "bigotimes"@);
    }
    assert(commands_restored(a + "\u{8}eta"@ + b) == a + "\\beta"@ + b) by {
        reveal_strlit("\u{8}eta");
        reveal_strlit("\\beta");
        reveal_strlit("beta");
        lemma_comes_back_within(a, '\u{8}', 3, b);
        assert("\u{8}eta"@ =~= seq!['\u{8}'] + "beta"@.skip(1));
        assert("\\beta"@ =~= seq!['\\'] + "beta"@);
    }
    assert(commands_restored(a + "\u{8}oxed"@ + b) == a + "\\boxed"@ + b) by {
        reveal_strlit("\u{8}oxed");
        reveal_strlit("\\boxed");
        reveal_strlit("boxed");
        lemma_comes_back_within(a, '\u{8}', 4, b);
        assert("\u{8}oxed"@ =~= seq!['\u{8}'] + "boxed"@.skip(1));
        assert("\\boxed"@ =~= seq!['\\'] + "boxed"@);
    }
    assert(commands_restored(a + "\u{8}ig"@ + b) == a + "\\big"@ + b) by {
        reveal_strlit("\u{8}ig");
        reveal_strlit("\\big");
        reveal_strlit("big");
        lemma_comes_back_within(a, '\u{8}', 5, b);
        assert("\u{8}ig"@ =~= seq!['\u{8}'] + "big"@.skip(1));
        assert("\\big"@ =~= seq!['\\'] + "big"@);
    }
    assert(commands_restored(a + "\u{8}ar"@ + b) == a + "\\bar"@ + b) by {
        reveal_strlit("\u{8}ar");
        reveal_strlit("\\bar");
        reveal_strlit("bar");
        lemma_comes_back_within(a, '\u{8}', 6, b);
        assert("\u{8}ar"@ =~= seq!['\u{8}'] + "bar"@.skip(1));
        assert("\\bar"@ =~= seq!['\\'] + "bar"@);
    }
}

/// In a text without other such control characters, a form feed followed by the rest of one
/// of these commands, and then no letter, becomes that command.
pub proof fn law_form_feed_commands(a: Seq<char>, b: Seq<char>)
    requires
        uneaten(a),
        uneaten(b),
        word_over(b),
    ensures
        commands_restored(a + "\u{c}orall"@ + b) == a + "\\forall"@ + b,
        commands_restored(a + "\u{c}rac"@ + b) == a + "\\frac"@ + b,
        commands_restored(a + "\u{c}rown"@ + b) == a + "\\frown"@ + b,
        commands_restored(a + "\u{c}lat"@ + b) == a + "\\flat"@ + b,
        commands_restored(a + "\u{c}loor"@ + b) == a + "\\floor"@ + b,
{
    assert(commands_restored(a + "\u{c}orall"@ + b) == a + "\\forall"@ + b) by {
        reveal_strlit("\u{c}orall");
        reveal_strlit("\\forall");
        reveal_strlit("forall");
        lemma_comes_back_within(a, '\u{c}', 0, b);
        assert("\u{c}orall"@ =~= seq!['\u{c}'] + "forall"@.skip(1));
        assert("\\forall"@ =~= seq!['\\'] + "forall"@);
    }
    assert(commands_restored(a + "\u{c}rac"@ + b) == a + "\\frac"@ + b) by {
        reveal_strlit("\u{c}rac");
        reveal_strlit("\\frac");
        reveal_strlit("frac");
        lemma_comes_back_within(a, '\u{c}', 1, b);
        assert("\u{c}rac"@ =~= seq!['\u{c}'] + "frac"@.skip(1));
        assert("\\frac"@ =~= seq!['\\'] + "frac"@);
    }
    assert(commands_restored(a + "\u{c}rown"@ + b) == a + "\\frown"@ + b) by {
        reveal_strlit("\u{c}rown");
        reveal_strlit("\\frown");
        reveal_strlit("frown");
        lemma_comes_back_within(a, '\u{c}', 2, b);
        assert("\u{c}rown"@ =~= seq!['\u{c}'] + "frown"@.skip(1));
        assert("\\frown"@ =~= seq!['\\'] + "frown"@);
    }
    assert(commands_restored(a + "\u{c}lat"@ + b) == a + "\\flat"@ + b) by {
        reveal_strlit("\u{c}lat");
        reveal_strlit("\\flat");
        reveal_strlit("flat");
        lemma_comes_back_within(a, '\u{c}', 3, b);
        assert("\u{c}lat"@ =~= seq!['\u{c}'] + "flat"@.skip(1));
        assert("\\flat"@ =~= seq!['\\'] + "flat"@);
    }
    assert(commands_restored(a + "\u{c}loor"@ + b) == a + "\\floor"@ + b) by {
        reveal_strlit("\u{c}loor");
        reveal_strlit("\\floor");
        reveal_strlit("floor");
        lemma_comes_back_within(a, '\u{c}', 4, b);
        assert("\u{c}loor"@ =~= seq!['\u{c}'] + "floor"@.skip(1));
        assert("\\floor"@ =~= seq!['\\'] + "floor"@);
    }
}

/// In a text without other such control characters but with a `$`, a line feed followed by the rest of one
/// of these commands, and then no letter, becomes that command.
pub proof fn law_line_feed_commands(a: Seq<char>, b: Seq<char>)
    requires
        uneaten(a),
        uneaten(b),
        word_over(b),
        a.contains('$') || b.contains('$'),
    ensures
        commands_restored(a + "\nabla"@ + b) == a + "\\nabla"@ + b,
        commands_restored(a + "\notin"@ + b) == a + "\\notin"@ + b,
        commands_restored(a + "\newline"@ + b) == a + "\\newline"@ + b,
        commands_restored(a + "\neq"@ + b) == a + "\\neq"@ + b,
        commands_restored(a + "\ne"@ + b) == a + "\\ne"@ + b,
        commands_restored(a + "\not"@ + b) == a + "\\not"@ + b,
{
    assert(commands_restored(a + "\nabla"@ + b) == a + "\\nabla"@ + b) by {
        reveal_strlit("\nabla");
        reveal_strlit("\\nabla");
        reveal_strlit("nabla");
        lemma_comes_back_within(a, '\n', 0, b);
        assert("\nabla"@ =~= seq!['\n'] + "nabla"@.skip(1));
        assert("\\nabla"@ =~= seq!['\\'] + "nabla"@);
    }
    assert(commands_restored(a + "\notin"@ + b) == a + "\\notin"@ + b) by {
        reveal_strlit("\notin");
        reveal_strlit("\\notin");
        reveal_strlit("notin");
        lemma_comes_back_within(a, '\n', 1, b);
        assert("\notin"@ =~= seq!['\n'] + "notin"@.skip(1));
        assert("\\notin"@ =~= seq!['\\'] + "notin"@);
    }
    assert(commands_restored(a + "\newline"@ + b) == a + "\\newline"@ + b) by {
        reveal_strlit("\newline");
        reveal_strlit("\\newline");
        reveal_strlit("newline");
        lemma_comes_back_within(a, '\n', 2, b);
        assert("\newline"@ =~= seq!['\n'] + "newline"@.skip(1));
        assert("\\newline"@ =~= seq!['\\'] + "newline"@);
    }
    assert(commands_restored(a + "\neq"@ + b) == a + "\\neq"@ + b) by {
        reveal_strlit("\neq");
        reveal_strlit("\\neq");
        reveal_strlit("neq");
        lemma_comes_back_within(a, '\n', 3, b);
        assert("\neq"@ =~= seq!['\n'] + "neq"@.skip(1));
        assert("\\neq"@ =~= seq!['\\'] + "neq"@);
    }
    assert(commands_restored(a + "\ne"@ + b) == a + "\\ne"@ + b) by {
        reveal_strlit("\ne");
        reveal_strlit("\\ne");
        reveal_strlit("ne");
        lemma_comes_back_within(a, '\n', 4, b);
        assert("\ne"@ =~= seq!['\n'] + "ne"@.skip(1));
        assert("\\ne"@ =~= seq!['\\'] + "ne"@);
    }
    assert(commands_restored(a + "\not"@ + b) == a + "\\not"@ + b) by {
        reveal_strlit("\not");
        reveal_strlit("\\not");
        reveal_strlit("not");
        lemma_comes_back_within(a, '\n', 5, b);
        assert("\not"@ =~= seq!['\n'] + "not"@.skip(1));
        assert("\\not"@ =~= seq!['\\'] + "not"@);
    }
}

/// In a text without other such control characters but with a `$`, a carriage return followed by the rest of one
/// of these commands, and then no letter, becomes that command.
pub proof fn law_carriage_return_commands(a: Seq<char>, b: Seq<char>)
    requires
        uneaten(a),
        uneaten(b),
        word_over(b),
        a.contains('$') || b.contains('$'),
    ensures
        commands_restored(a + "\rightarrow"@ + b) == a + "\\rightarrow"@ + b,
        commands_restored(a + "\rightharpoon"@ + b) == a + "\\rightharpoon"@ + b,
        commands_restored(a + "\rangle"@ + b) == a + "\\rangle"@ + b,
        commands_restored(a + "\rho"@ + b) == a + "\\rho"@ + b,
        commands_restored(a + "\rm"@ + b) == a + "\\rm"@ + b,
{
    assert(commands_restored(a + "\rightarrow"@ + b) == a + "\\rightarrow"@ + b) by {
        reveal_strlit("\rightarrow");
        reveal_strlit("\\rightarrow");
        reveal_strlit("rightarrow");
        lemma_comes_back_within(a, '\r', 0, b);
        assert("\rightarrow"@ =~= seq!['\r'] + "rightarrow"@.skip(1));
        assert("\\rightarrow"@ =~= seq!['\\'] + "rightarrow"@);
    }
    assert(commands_restored(a + "\rightharpoon"@ + b) == a + "\\rightharpoon"@ + b) by {
        reveal_strlit("\rightharpoon");
        reveal_strlit("\\rightharpoon");
        reveal_strlit("rightharpoon");
        lemma_comes_back_within(a, '\r', 1, b);
        assert("\rightharpoon"@ =~= seq!['\r'] + "rightharpoon"@.skip(1));
        assert("\\rightharpoon"@ =~= seq!['\\'] + "rightharpoon"@);
    }
    assert(commands_restored(a + "\rangle"@ + b) == a + "\\rangle"@ + b) by {
        reveal_strlit("\rangle");
        reveal_strlit("\\rangle");
        reveal_strlit("rangle");
        lemma_comes_back_within(a, '\r', 2, b);
        assert("\rangle"@ =~= seq!['\r'] + "rangle"@.skip(1));
        assert("\\rangle"@ =~= seq!['\\'] + "rangle"@);
    }
    assert(commands_restored(a + "\rho"@ + b) == a + "\\rho"@ + b) by {
        reveal_strlit("\rho");
        reveal_strlit("\\rho");
        reveal_strlit("rho");
        lemma_comes_back_within(a, '\r', 3, b);
        assert("\rho"@ =~= seq!['\r'] + "rho"@.skip(1));
        assert("\\rho"@ =~= seq!['\\'] + "rho"@);
    }
    assert(commands_restored(a + "\rm"@ + b) == a + "\\rm"@ + b) by {
        reveal_strlit("\rm");
        reveal_strlit("\\rm");
        reveal_strlit("rm");
        lemma_comes_back_within(a, '\r', 4, b);
        assert("\rm"@ =~= seq!['\r'] + "rm"@.skip(1));
        assert("\\rm"@ =~= seq!['\\'] + "rm"@);
    }
}

/// In a text without other such control characters, a vertical tab followed by the rest of one
/// of these commands, and then no letter, becomes that command.
pub proof fn law_vertical_tab_commands(a: Seq<char>, b: Seq<char>)
    requires
        uneaten(a),
        uneaten(b),
        word_over(b),
    ensures
        commands_restored(a + "\u{b}arepsilon"@ + b) == a + "\\varepsilon"@ + b,
        commands_restored(a + "\u{b}arphi"@ + b) == a + "\\varphi"@ + b,
        commands_restored(a + "\u{b}arpi"@ + b) == a + "\\varpi"@ + b,
        commands_restored(a + "\u{b}ec"@ + b) == a + "\\vec"@ + b,
        commands_restored(a + "\u{b}ert"@ + b) == a + "\\vert"@ + b,
{
    assert(commands_restored(a + "\u{b}arepsilon"@ + b) == a + "\\varepsilon"@ + b) by {
        reveal_strlit("\u{b}arepsilon");
        reveal_strlit("\\varepsilon");
        reveal_strlit("varepsilon");
        lemma_comes_back_within(a, '\u{b}', 0, b);
        assert("\u{b}arepsilon"@ =~= seq!['\u{b}'] + "varepsilon"@.skip(1));
        assert("\\varepsilon"@ =~= seq!['\\'] + "varepsilon"@);
    }
    assert(commands_restored(a + "\u{b}arphi"@ + b) == a + "\\varphi"@ + b) by {
        reveal_strlit("\u{b}arphi");
        reveal_strlit("\\varphi");
        reveal_strlit("varphi");
        lemma_comes_back_within(a, '\u{b}', 1, b);
        assert("\u{b}arphi"@ =~= seq!['\u{b}'] + "varphi"@.skip(1));
        assert("\\varphi"@ =~= seq!['\\'] + "varphi"@);
    }
    assert(commands_restored(a + "\u{b}arpi"@ + b) == a + "\\varpi"@ + b) by {
        reveal_strlit("\u{b}arpi");
        reveal_strlit("\\varpi");
        reveal_strlit("varpi");
        lemma_comes_back_within(a, '\u{b}', 2, b);
        assert("\u{b}arpi"@ =~= seq!['\u{b}'] + "varpi"@.skip(1));
        assert("\\varpi"@ =~= seq!['\\'] + "varpi"@);
    }
    assert(commands_restored(a + "\u{b}ec"@ + b) == a + "\\vec"@ + b) by {
        reveal_strlit("\u{b}ec");
        reveal_strlit("\\vec");
        reveal_strlit("vec");
        lemma_comes_back_within(a, '\u{b}', 3, b);
        assert("\u{b}ec"@ =~= seq!['\u{b}'] + "vec"@.skip(1));
        assert("\\vec"@ =~= seq!['\\'] + "vec"@);
    }
    assert(commands_restored(a + "\u{b}ert"@ + b) == a + "\\vert"@ + b) by {
        reveal_strlit("\u{b}ert");
        reveal_strlit("\\vert");
        reveal_strlit("vert");
        lemma_comes_back_within(a, '\u{b}', 4, b);
        assert("\u{b}ert"@ =~= seq!['\u{b}'] + "vert"@.skip(1));
        assert("\\vert"@ =~= seq!['\\'] + "vert"@);
    }
}

/// No other word is taken for the rest of a command: a control character before
/// one stays.
pub proof fn law_other_words_stay(c: char, w: Seq<char>, b: Seq<char>, math: bool)
    requires
        all_letters(w),
        word_over(b),
        c == '\t' ==> !seq!["extbf"@, "extit"@, "extrm"@, "ext"@, "heta"@, "imes"@, "op"@, "au"@, "o"@].contains(w),
        c == '\u{8}' ==> !seq!["egin"@, "igoplus"@, "igotimes"@, "eta"@, "oxed"@, "ig"@, "ar"@].contains(w),
        c == '\u{c}' ==> !seq!["orall"@, "rac"@, "rown"@, "lat"@, "loor"@].contains(w),
        c == '\n' ==> !seq!["abla"@, "otin"@, "ewline"@, "eq"@, "e"@, "ot"@].contains(w),
        c == '\r' ==> !seq!["ightarrow"@, "ightharpoon"@, "angle"@, "ho"@, "m"@].contains(w),
        c == '\u{b}' ==> !seq!["arepsilon"@, "arphi"@, "arpi"@, "ec"@, "ert"@].contains(w),
    ensures
        uncollided(seq![c] + w + b, math) == seq![c] + uncollided(w + b, math),
{
    let t = seq![c] + w + b;
    let cmds = collision_commands(c);
    lemma_commands_are_letters(c);
    lemma_first_letters(c);
    lemma_collision(t, cmds);
    assert(t.skip(1) =~= w + b);
    if collision(t, math) is Some {
        let cmd = first_collision(t, cmds)->0;
        let j = choose|j: int| 0 <= j < cmds.len() && #[trigger] cmds[j] == cmd;
        assert(all_letters(cmds[j]));
        let n = cmd.len() as int;
        let m = w.len() as int;
        if n - 1 < m {
            assert(t[n] == w[n - 1]);
        }
        if m < n - 1 {
            assert(t.subrange(1, n)[m] == t[m + 1]);
            assert(cmd.skip(1)[m] == cmd[m + 1]);
            assert(ascii_letter(cmd[m + 1]));
            assert(t[m + 1] == b[0]);
        }
        assert(t.subrange(1, n) =~= w);
        assert(w =~= cmd.skip(1));
        lemma_rests(c, j);
    }
}

/// The rests of the commands of the table.
proof fn lemma_rests(c: char, j: int)
    requires
        0 <= j < collision_commands(c).len(),
    ensures
        c == '\t' ==> seq!["extbf"@, "extit"@, "extrm"@, "ext"@, "heta"@, "imes"@, "op"@, "au"@, "o"@].contains(
            collision_commands(c)[j].skip(1),
        ),
        c == '\u{8}' ==> seq!["egin"@, "igoplus"@, "igotimes"@, "eta"@, "oxed"@, "ig"@, "ar"@].contains(
            collision_commands(c)[j].skip(1),
        ),
        c == '\u{c}' ==> seq!["orall"@, "rac"@, "rown"@, "lat"@, "loor"@].contains(
            collision_commands(c)[j].skip(1),
        ),
        c == '\n' ==> seq!["abla"@, "otin"@, "ewline"@, "eq"@, "e"@, "ot"@].contains(
            collision_commands(c)[j].skip(1),
        ),
        c == '\r' ==> seq!["ightarrow"@, "ightharpoon"@, "angle"@, "ho"@, "m"@].contains(
            collision_commands(c)[j].skip(1),
        ),
        c == '\u{b}' ==> seq!["arepsilon"@, "arphi"@, "arpi"@, "ec"@, "ert"@].contains(
            collision_commands(c)[j].skip(1),
        ),
{
    let rest = collision_commands(c)[j].skip(1);
    if c == '\t' {
        let all = seq!["extbf"@, "extit"@, "extrm"@, "ext"@, "heta"@, "imes"@, "op"@, "au"@, "o"@];
        reveal_strlit("textbf");
        reveal_strlit("extbf");
        assert("textbf"@.skip(1) =~= "extbf"@);
        reveal_strlit("textit");
        reveal_strlit("extit");
        assert("textit"@.skip(1) =~= "extit"@);
        reveal_strlit("textrm");
        reveal_strlit("extrm");
        assert("textrm"@.skip(1) =~= "extrm"@);
        reveal_strlit("text");
        reveal_strlit("ext");
        assert("text"@.skip(1) =~= "ext"@);
        reveal_strlit("theta");
        reveal_strlit("heta");
        assert("theta"@.skip(1) =~= "heta"@);
        reveal_strlit("times");
        reveal_strlit("imes");
        assert("times"@.skip(1) =~= "imes"@);
        reveal_strlit("top");
        reveal_strlit("op");
        assert("top"@.skip(1) =~= "op"@);
        reveal_strlit("tau");
        reveal_strlit("au");
        assert("tau"@.skip(1) =~= "au"@);
        reveal_strlit("to");
        reveal_strlit("o");
        assert("to"@.skip(1) =~= "o"@);
        assert(all[j] == rest);
    } else if c == '\u{8}' {
        let all = seq!["egin"@, "igoplus"@, "igotimes"@, "eta"@, "oxed"@, "ig"@, "ar"@];
        reveal_strlit("begin");
        reveal_strlit("egin");
        assert("begin"@.skip(1) =~= "egin"@);
        reveal_strlit("bigoplus");
        reveal_strlit("igoplus");
        assert("bigoplus"@.skip(1) =~= "igoplus"@);
        reveal_strlit("bigotimes");
        reveal_strlit("igotimes");
        assert("bigotimes"@.skip(1) =~= "igotimes"@);
        reveal_strlit("beta");
        reveal_strlit("eta");
        assert("beta"@.skip(1) =~= "eta"@);
        reveal_strlit("boxed");
        reveal_strlit("oxed");
        assert("boxed"@.skip(1) =~= "oxed"@);
        reveal_strlit("big");
        reveal_strlit("ig");
        assert("big"@.skip(1) =~= "ig"@);
        reveal_strlit("bar");
        reveal_strlit("ar");
        assert("bar"@.skip(1) =~= "ar"@);
        assert(all[j] == rest);
    } else if c == '\u{c}' {
        let all = seq!["orall"@, "rac"@, "rown"@, "lat"@, "loor"@];
        reveal_strlit("forall");
        reveal_strlit("orall");
        assert("forall"@.skip(1) =~= "orall"@);
        reveal_strlit("frac");
        reveal_strlit("rac");
        assert("frac"@.skip(1) =~= "rac"@);
        reveal_strlit("frown");
        reveal_strlit("rown");
        assert("frown"@.skip(1) =~= "rown"@);
        reveal_strlit("flat");
        reveal_strlit("lat");
        assert("flat"@.skip(1) =~= "lat"@);
        reveal_strlit("floor");
        reveal_strlit("loor");
        assert("floor"@.skip(1) =~= "loor"@);
        assert(all[j] == rest);
    } else if c == '\n' {
        let all = seq!["abla"@, "otin"@, "ewline"@, "eq"@, "e"@, "ot"@];
        reveal_strlit("nabla");
        reveal_strlit("abla");
        assert("nabla"@.skip(1) =~= "abla"@);
        reveal_strlit("notin");
        reveal_strlit("otin");
        assert("notin"@.skip(1) =~= "otin"@);
        reveal_strlit("newline");
        reveal_strlit("ewline");
        assert("newline"@.skip(1) =~= "ewline"@);
        reveal_strlit("neq");
        reveal_strlit("eq");
        assert("neq"@.skip(1) =~= "eq"@);
        reveal_strlit("ne");
        reveal_strlit("e");
        assert("ne"@.skip(1) =~= "e"@);
        reveal_strlit("not");
        reveal_strlit("ot");
        assert("not"@.skip(1) =~= "ot"@);
        assert(all[j] == rest);
    } else if c == '\r' {
        let all = seq!["ightarrow"@, "ightharpoon"@, "angle"@, "ho"@, "m"@];
        reveal_strlit("rightarrow");
        reveal_strlit("ightarrow");
        assert("rightarrow"@.skip(1) =~= "ightarrow"@);
        reveal_strlit("rightharpoon");
        reveal_strlit("ightharpoon");
        assert("rightharpoon"@.skip(1) =~= "ightharpoon"@);
        reveal_strlit("rangle");
        reveal_strlit("angle");
        assert("rangle"@.skip(1) =~= "angle"@);
        reveal_strlit("rho");
        reveal_strlit("ho");
        assert("rho"@.skip(1) =~= "ho"@);
        reveal_strlit("rm");
        reveal_strlit("m");
        assert("rm"@.skip(1) =~= "m"@);
        assert(all[j] == rest);
    } else if c == '\u{b}' {
        let all = seq!["arepsilon"@, "arphi"@, "arpi"@, "ec"@, "ert"@];
        reveal_strlit("varepsilon");
        reveal_strlit("arepsilon");
        assert("varepsilon"@.skip(1) =~= "arepsilon"@);
        reveal_strlit("varphi");
        reveal_strlit("arphi");
        assert("varphi"@.skip(1) =~= "arphi"@);
        reveal_strlit("varpi");
        reveal_strlit("arpi");
        assert("varpi"@.skip(1) =~= "arpi"@);
        reveal_strlit("vec");
        reveal_strlit("ec");
        assert("vec"@.skip(1) =~= "ec"@);
        reveal_strlit("vert");
        reveal_strlit("ert");
        assert("vert"@.skip(1) =~= "ert"@);
        assert(all[j] == rest);
    }
}

/// A text without those control characters stays as it is.
pub proof fn law_uneaten_text_stays(s: Seq<char>)
    requires
        uneaten(s),
    ensures
        commands_restored(s) == s,
{
    lemma_uneaten_same(s, math_like(s));
}

/// The line ends of a text that does not look like mathematics stay.
pub proof fn law_prose_keeps_line_ends(s: Seq<char>)
    requires
        !math_like(s),
        forall|i: int|
            0 <= i < s.len() ==> #[trigger] s[i] != '\t' && s[i] != '\u{8}' && s[i] != '\u{c}'
                && s[i] != '\u{b}',
    ensures
        commands_restored(s) == s,
{
    lemma_prose_same(s);
}

proof fn lemma_prose_same(t: Seq<char>)
    requires
        forall|i: int|
            0 <= i < t.len() ==> #[trigger] t[i] != '\t' && t[i] != '\u{8}' && t[i] != '\u{c}'
                && t[i] != '\u{b}',
    ensures
        uncollided(t, false) == t,
    decreases t.len(),
{
    if t.len() > 0 {
        let u = t.skip(1);
        assert forall|i: int| 0 <= i < u.len() implies #[trigger] u[i] != '\t' && u[i] != '\u{8}'
            && u[i] != '\u{c}' && u[i] != '\u{b}' by {
            assert(u[i] == t[i + 1]);
        }
        lemma_prose_same(u);
        assert(t[0] != '\n' && t[0] != '\r' ==> collision_commands(t[0]) =~= Seq::<
            Seq<char>,
        >::empty());
        assert(collision(t, false) is None);
        assert(seq![t[0]] + u =~= t);
    }
}

/// A text looks like mathematics if it holds a `$`, or a backslash before a
/// letter that no backslash precedes; a text with neither a `$` nor a backslash
/// does not.
pub proof fn law_looks_like_mathematics(a: Seq<char>, l: char, b: Seq<char>)
    ensures
        math_like(a + seq!['$'] + b),
        !a.contains('\\') && ascii_letter(l) ==> math_like(a + seq!['\\', l] + b),
        !a.contains('\\') && !a.contains('$') ==> !math_like(a),
{
    let s = a + seq!['$'] + b;
    assert(s[a.len() as int] == '$');
    if !a.contains('\\') {
        lemma_command_behind(a, seq!['\\', l] + b);
        assert(a + (seq!['\\', l] + b) =~= a + seq!['\\', l] + b);
        lemma_command_behind(a, Seq::empty());
        assert(a + Seq::<char>::empty() =~= a);
        assert((seq!['\\', l] + b)[1] == l);
    }
}

/// Text without a backslash holds no command.
proof fn lemma_command_behind(a: Seq<char>, x: Seq<char>)
    requires
        !a.contains('\\'),
    ensures
        has_command(a + x) == has_command(x),
    decreases a.len(),
{
    if a.len() == 0 {
        assert(a + x =~= x);
    } else {
        let t = a + x;
        assert(a.contains(a[0]));
        assert forall|i: int| 0 <= i < a.skip(1).len() implies a.skip(1)[i] != '\\' by {
            assert(a.contains(a[i + 1]));
        }
        lemma_command_behind(a.skip(1), x);
        assert(t.skip(1) =~= a.skip(1) + x);
        assert(t[0] == a[0]);
        if t.len() < 2 {
            assert(x.len() == 0);
        }
    }
}

} // verus!
