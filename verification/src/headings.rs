//! Headings of the references and of the sections behind them.

use vstd::prelude::*;

use crate::patterns::{digit_char, word_char};
use crate::text::{lower, run, white_space};

verus! {

/// Questions about a single line.
#[derive(Clone, Copy, Debug, PartialEq, Eq, Structural)]
pub enum LinePattern {
    /// The line is the heading of the references.
    References,
    /// The line opens a section that may follow the references.
    Section,
}

pub open spec fn space() -> spec_fn(char) -> bool {
    |c: char| white_space(c)
}

pub open spec fn number_digits() -> spec_fn(char) -> bool {
    |c: char| digit_char(c)
}

/// `c` is the lower-case letter `l` when case is ignored, as Unicode folds it:
/// the long s counts as an s and the Kelvin sign as a k.
pub open spec fn folds_to(c: char, l: char) -> bool {
    lower(c) == l || (l == 's' && c == '\u{17f}') || (l == 'k' && c == '\u{212a}')
}

/// The word `w`, which is lower case, stands in `t` at `i` when case is ignored.
pub open spec fn word_at(t: Seq<char>, i: int, w: Seq<char>) -> bool {
    0 <= i && i + w.len() <= t.len() && forall|k: int|
        #![trigger w[k]]
        0 <= k < w.len() ==> folds_to(t[i + k], w[k])
}

/// Only white space follows from `i` on.
pub open spec fn blank_from(t: Seq<char>, i: int) -> bool {
    run(t, i, space()) == t.len()
}

/// Two words with white space between them, and then only white space.
pub open spec fn two_words_end(t: Seq<char>, k: int, a: Seq<char>, b: Seq<char>) -> bool {
    let g = run(t, k + a.len(), space());
    word_at(t, k, a) && g > k + a.len() && word_at(t, g, b) && blank_from(t, g + b.len())
}

/// From `k` on the line is a name of the references.
pub open spec fn references_name_at(t: Seq<char>, k: int) -> bool {
    ||| word_at(t, k, "references"@) && blank_from(t, k + "references"@.len())
    ||| word_at(t, k, "bibliography"@) && blank_from(t, k + "bibliography"@.len())
    ||| two_words_end(t, k, "works"@, "cited"@)
    ||| two_words_end(t, k, "literature"@, "cited"@)
}

/// The line is a name of the references, perhaps numbered, and nothing else.
pub open spec fn references_heading(t: Seq<char>) -> bool {
    let a = run(t, 0, space());
    let d = run(t, a, number_digits());
    let p = if d < t.len() && t[d] == '.' {
        d + 1
    } else {
        d
    };
    let q = run(t, p, space());
    references_name_at(t, a) || (d > a && q > p && references_name_at(t, q))
}

pub open spec fn capital(c: char) -> bool {
    'A' <= c <= 'Z'
}

pub open spec fn title_char(c: char) -> bool {
    'A' <= c <= 'Z' || 'a' <= c <= 'z' || digit_char(c) || c == '-' || c == ' '
}

/// A word ends at `p`.
pub open spec fn word_ends(t: Seq<char>, p: int) -> bool {
    p == t.len() || !word_char(t[p])
}

/// The line begins with an appendix or a supplement, spelt with a capital.
pub open spec fn appendix_heading(t: Seq<char>) -> bool {
    t.len() > 0 && (t[0] == 'A' || t[0] == 'S') && {
        ||| word_at(t, 1, "ppendix"@) && word_ends(t, 1 + ("ppendix"@.len() as int))
        ||| word_at(t, 1, "upplement"@) && word_ends(t, 1 + ("upplement"@.len() as int))
        ||| word_at(t, 1, "upplementary"@) && word_ends(t, 1 + ("upplementary"@.len() as int))
    }
}

/// From `m` on: white space, a capital, and at most 120 characters of a title.
pub open spec fn title_from(t: Seq<char>, m: int) -> bool {
    let q = run(t, m, space());
    m < q < t.len() && capital(t[q]) && t.len() - q - 1 <= 120 && forall|k: int|
        q < k < t.len() ==> title_char(#[trigger] t[k])
}

/// A capital, perhaps a mark such as `.`, `)`, `.1` or `.1.`, and a title.
pub open spec fn lettered_heading(t: Seq<char>) -> bool {
    let d = run(t, 2, number_digits());
    t.len() > 0 && capital(t[0]) && {
        ||| title_from(t, 1)
        ||| t.len() > 1 && (t[1] == '.' || t[1] == ')') && title_from(t, 2)
        ||| t.len() > 1 && t[1] == '.' && d > 2 && title_from(t, d)
        ||| t.len() > 1 && t[1] == '.' && 2 < d < t.len() && t[d] == '.' && title_from(t, d + 1)
    }
}

impl LinePattern {
    pub open spec fn holds(self, t: Seq<char>) -> bool {
        match self {
            LinePattern::References => references_heading(t),
            LinePattern::Section => appendix_heading(t) || lettered_heading(t),
        }
    }

    /// The regular expression that is matched.
    pub open spec fn source(self) -> Seq<char> {
        match self {
            LinePattern::References =>
                r"(?i)^\s*(?:\d+\.?\s+)?(?:references|bibliography|works\s+cited|literature\s+cited)\s*$"@,
            LinePattern::Section =>
                r"^[AS](?i:ppendix|upplement(?:ary)?)\b|^[A-Z](?:\.\d+\.?|[.)])?\s+[A-Z][A-Za-z\d\- ]{0,120}$"@,
        }
    }

    pub fn source_text(self) -> (r: &'static str)
        ensures
            r@ == self.source(),
    {
        match self {
            LinePattern::References =>
                r"(?i)^\s*(?:\d+\.?\s+)?(?:references|bibliography|works\s+cited|literature\s+cited)\s*$",
            LinePattern::Section =>
                r"^[AS](?i:ppendix|upplement(?:ary)?)\b|^[A-Z](?:\.\d+\.?|[.)])?\s+[A-Z][A-Za-z\d\- ]{0,120}$",
        }
    }
}

/// `regex::Regex::is_match` on the regular expression `source`: whether it
/// matches somewhere in `text`. The contract says of each of the two expressions
/// which texts it matches, by the syntax that the crate documents; both are
/// anchored at the start, and `(?i)` folds case as Unicode does.
#[verifier::external_body]
fn is_match(source: &str, text: &str) -> (r: bool)
    requires
        exists|p: LinePattern| source@ == #[trigger] p.source(),
    ensures
        forall|p: LinePattern| source@ == #[trigger] p.source() ==> r == p.holds(text@),
{
    regex::Regex::new(source).unwrap().is_match(text)
}

/// Whether a line is what a pattern asks for.
pub fn line_is(pattern: LinePattern, text: &str) -> (r: bool)
    ensures
        r == pattern.holds(text@),
{
    is_match(pattern.source_text(), text)
}

} // verus!
