//! The regular expressions the library searches with.
//!
//! Each [`Pattern`] has the source text that is handed to the `regex` crate
//! and a specification of where it matches. All of them match at least one
//! character and are determined by their start: at one position a pattern
//! either does not match or matches one stretch of text.

use vstd::prelude::*;

use crate::text::{ascii_digit, ascii_letter, first_at, lower, run, stands_at, white_space};

verus! {

/// The patterns that are searched for over a whole text.
#[derive(Clone, Copy, Debug, PartialEq, Eq, Structural)]
pub enum Pattern {
    /// `$ $\mathbb{S}$ $` and the set token after it (the group).
    FragmentedSample,
    /// `\mathbb{S}`, then white space and a set token (the group).
    ContiguousSample,
    /// `[[x[i]]^`, the group being the caret.
    IndexedBracket,
    /// `[[v]^`, the group being the caret.
    SimpleBracket,
    /// An opening fence between two display delimiters on one line.
    FenceOpenInline,
    /// A display delimiter and an opening fence that ends its line.
    FenceOpenMultiline,
    /// A closing fence and four dollars.
    FenceCloseFour,
    /// A closing fence on its own line and two dollars.
    FenceCloseTwo,
    /// Backslashes between two display delimiters.
    MathOpen,
    /// Backslashes and three or more dollars.
    MathClose,
    /// A script mark and a command (the group).
    Script,
    /// A centred HTML table.
    TableDiv,
    /// An HTML table row, the group being its content.
    TableRow,
    /// An HTML header cell, the group being its content.
    HeaderCell,
    /// An HTML data cell, the group being its content.
    DataCell,
    /// Any HTML tag.
    Tag,
    /// `[[table:id]]`, the group being the id.
    TableRef,
    /// A centred HTML image, the group being its source.
    ImageDiv,
}

/// What the class `\w` of the `regex` crate holds beyond ASCII.
pub uninterp spec fn unicode_word(c: char) -> bool;

/// What the class `\d` of the `regex` crate holds beyond ASCII.
pub uninterp spec fn unicode_digit(c: char) -> bool;

/// The class `\w`.
pub open spec fn word_char(c: char) -> bool {
    if c <= '\u{7f}' {
        ascii_letter(c) || ascii_digit(c) || c == '_'
    } else {
        unicode_word(c)
    }
}

/// The class `\d`. No digit is white space.
pub open spec fn digit_char(c: char) -> bool {
    if c <= '\u{7f}' {
        ascii_digit(c)
    } else {
        unicode_digit(c) && !white_space(c)
    }
}

/// The characters of a table id.
pub open spec fn id_char(c: char) -> bool {
    ascii_letter(c) || ascii_digit(c) || c == '_'
}

/// `s`, which is lower case, stands in `t` at `i` when ASCII case is ignored.
pub open spec fn stands_at_any_case(t: Seq<char>, i: int, s: Seq<char>) -> bool {
    0 <= i && i + s.len() <= t.len() && (forall|k: int|
        #![trigger s[k]]
        0 <= k < s.len() ==> lower(t[i + k]) == s[k])
}

/// The first position from `i` on at which `s` stands when case is ignored.
pub open spec fn first_at_any_case(t: Seq<char>, i: int, s: Seq<char>) -> Option<int>
    decreases t.len() + 1 - i,
{
    if i < 0 || i > t.len() {
        None
    } else if stands_at_any_case(t, i, s) {
        Some(i)
    } else {
        first_at_any_case(t, i + 1, s)
    }
}

pub open spec fn is_space() -> spec_fn(char) -> bool {
    |c: char| white_space(c)
}

pub open spec fn is_letter() -> spec_fn(char) -> bool {
    |c: char| ascii_letter(c)
}

pub open spec fn is_word() -> spec_fn(char) -> bool {
    |c: char| word_char(c)
}

pub open spec fn is_id() -> spec_fn(char) -> bool {
    |c: char| id_char(c)
}

pub open spec fn is_char(x: char) -> spec_fn(char) -> bool {
    |c: char| c == x
}

pub open spec fn is_no_bracket() -> spec_fn(char) -> bool {
    |c: char| c != '[' && c != ']'
}

/// `\mathbb{S}`.
pub open spec fn script_s() -> Seq<char> {
    seq!['\\', 'm', 'a', 't', 'h', 'b', 'b', '{', 'S', '}']
}

/// `\mathbb{`.
pub open spec fn mathbb_open() -> Seq<char> {
    seq!['\\', 'm', 'a', 't', 'h', 'b', 'b', '{']
}

pub open spec fn two_dollars() -> Seq<char> {
    seq!['$', '$']
}

/// The end of the set token that stands at `w`: a blackboard letter, an opening
/// brace, an opening bracket or a digit.
pub open spec fn set_token_end(t: Seq<char>, w: int) -> Option<int> {
    if stands_at(t, w, mathbb_open()) && w + 10 <= t.len() && t[w + 9] == '}' && (t[w + 8] == 'Z'
        || t[w + 8] == 'R' || t[w + 8] == 'N' || t[w + 8] == 'F' || t[w + 8] == 'Q') {
        Some(w + 10)
    } else if stands_at(t, w, seq!['\\', '{']) {
        Some(w + 2)
    } else if 0 <= w < t.len() && (t[w] == '[' || digit_char(t[w])) {
        Some(w + 1)
    } else {
        None
    }
}

/// A match at the start of a text: its length, and where its group begins and
/// ends. A pattern without a group has its whole match as the group.
pub type Head = Option<(int, int, int)>;

pub open spec fn contiguous_sample_head(t: Seq<char>) -> Head {
    if stands_at(t, 0, script_s()) {
        match set_token_end(t, run(t, 10, is_space())) {
            Some(e) => Some((e, 10, e)),
            None => None,
        }
    } else {
        None
    }
}

pub open spec fn fragmented_sample_head(t: Seq<char>) -> Head {
    let a = run(t, 1, is_space());
    let b = run(t, a + 1, is_space());
    let c = run(t, b + 10, is_space());
    let d = run(t, c + 1, is_space());
    let e = run(t, d + 1, is_space());
    if t.len() > 0 && t[0] == '$' && a < t.len() && t[a] == '$' && stands_at(t, b, script_s()) && c
        < t.len() && t[c] == '$' && d < t.len() && t[d] == '$' {
        match set_token_end(t, e) {
            Some(f) => Some((f, e, f)),
            None => None,
        }
    } else {
        None
    }
}

pub open spec fn indexed_bracket_head(t: Seq<char>) -> Head {
    let a = run(t, 2, is_no_bracket());
    let b = run(t, a + 1, is_no_bracket());
    if stands_at(t, 0, seq!['[', '[']) && a < t.len() && t[a] == '[' && stands_at(
        t,
        b,
        seq![']', ']', '^'],
    ) {
        Some((b + 3, b + 2, b + 3))
    } else {
        None
    }
}

pub open spec fn simple_bracket_head(t: Seq<char>) -> Head {
    let a = run(t, 2, is_no_bracket());
    if stands_at(t, 0, seq!['[', '[']) && stands_at(t, a, seq![']', '^']) {
        Some((a + 2, a + 1, a + 2))
    } else {
        None
    }
}

pub open spec fn fence_open() -> Seq<char> {
    seq!['$', '$', '`', '`', '`']
}

pub open spec fn fence_open_inline_head(t: Seq<char>) -> Head {
    let w = run(t, 5, is_word());
    let b = run(t, w, is_char('\\'));
    if stands_at(t, 0, fence_open()) && w > 5 && b > w && stands_at(t, b, two_dollars()) {
        Some((b + 2, 0, b + 2))
    } else {
        None
    }
}

pub open spec fn fence_open_multiline_head(t: Seq<char>) -> Head {
    let b = run(t, run(t, 5, is_word()), is_char('\\'));
    if stands_at(t, 0, fence_open()) && b < t.len() && t[b] == '\n' {
        Some((b + 1, 0, b + 1))
    } else {
        None
    }
}

pub open spec fn literal_head(t: Seq<char>, s: Seq<char>) -> Head {
    if stands_at(t, 0, s) {
        Some((s.len() as int, 0, s.len() as int))
    } else {
        None
    }
}

pub open spec fn math_open_head(t: Seq<char>) -> Head {
    let b = run(t, 2, is_char('\\'));
    if stands_at(t, 0, two_dollars()) && b > 2 && stands_at(t, b, two_dollars()) {
        Some((b + 2, 0, b + 2))
    } else {
        None
    }
}

pub open spec fn math_close_head(t: Seq<char>) -> Head {
    let b = run(t, 0, is_char('\\'));
    let d = run(t, b, is_char('$'));
    if b >= 1 && d - b >= 3 {
        Some((d, 0, d))
    } else {
        None
    }
}

pub open spec fn script_head(t: Seq<char>) -> Head {
    let e = run(t, 2, is_letter());
    if t.len() >= 3 && (t[0] == '^' || t[0] == '_') && t[1] == '\\' && e > 2 {
        Some((e, 1, e))
    } else {
        None
    }
}

pub open spec fn table_div_head(t: Seq<char>) -> Head {
    let open = "<div style=\"text-align: center;\"><table border=\"1\">"@;
    let close = "</table></div>"@;
    if open.len() > 0 && stands_at(t, 0, open) {
        match first_at(t, open.len() as int, close) {
            Some(k) => Some((k + close.len(), 0, k + close.len())),
            None => None,
        }
    } else {
        None
    }
}

/// An element `<ab...>...</ab>` with a two-letter name, the shortest one.
pub open spec fn element_head(t: Seq<char>, a: char, b: char) -> Head {
    if stands_at_any_case(t, 0, seq!['<', a, b]) {
        match first_at(t, 3, seq!['>']) {
            Some(g) => match first_at_any_case(t, g + 1, seq!['<', '/', a, b, '>']) {
                Some(k) => Some((k + 5, g + 1, k)),
                None => None,
            },
            None => None,
        }
    } else {
        None
    }
}

pub open spec fn tag_head(t: Seq<char>) -> Head {
    if t.len() > 0 && t[0] == '<' {
        match first_at(t, 1, seq!['>']) {
            Some(g) => if g >= 2 {
                Some((g + 1, 0, g + 1))
            } else {
                None
            },
            None => None,
        }
    } else {
        None
    }
}

pub open spec fn table_ref_head(t: Seq<char>) -> Head {
    let e = run(t, 8, is_id());
    if stands_at(t, 0, seq!['[', '[', 't', 'a', 'b', 'l', 'e', ':']) && e > 8 && stands_at(
        t,
        e,
        seq![']', ']'],
    ) {
        Some((e + 2, 8, e))
    } else {
        None
    }
}

pub open spec fn is_no_quote() -> spec_fn(char) -> bool {
    |c: char| c != '"'
}

pub open spec fn image_div_head(t: Seq<char>) -> Head {
    let open = "<div style=\"text-align: center;\"><img src=\""@;
    let close = "</div>"@;
    let q = run(t, open.len() as int, is_no_quote());
    if open.len() > 0 && stands_at(t, 0, open) && q < t.len() && t[q] == '"' {
        match first_at(t, q + 1, seq!['>']) {
            Some(g) => if g >= q + 2 && t[g - 1] == '/' && stands_at(t, g + 1, close) {
                Some((g + 1 + close.len(), open.len() as int, q))
            } else {
                None
            },
            None => None,
        }
    } else {
        None
    }
}

impl Pattern {
    /// The match of the pattern at the start of `t`.
    #[verifier::opaque]
    pub open spec fn head(self, t: Seq<char>) -> Head {
        match self {
            Pattern::FragmentedSample => fragmented_sample_head(t),
            Pattern::ContiguousSample => contiguous_sample_head(t),
            Pattern::IndexedBracket => indexed_bracket_head(t),
            Pattern::SimpleBracket => simple_bracket_head(t),
            Pattern::FenceOpenInline => fence_open_inline_head(t),
            Pattern::FenceOpenMultiline => fence_open_multiline_head(t),
            Pattern::FenceCloseFour => literal_head(t, seq!['`', '`', '`', '$', '$', '$', '$']),
            Pattern::FenceCloseTwo => literal_head(t, seq!['\n', '`', '`', '`', '$', '$']),
            Pattern::MathOpen => math_open_head(t),
            Pattern::MathClose => math_close_head(t),
            Pattern::Script => script_head(t),
            Pattern::TableDiv => table_div_head(t),
            Pattern::TableRow => element_head(t, 't', 'r'),
            Pattern::HeaderCell => element_head(t, 't', 'h'),
            Pattern::DataCell => element_head(t, 't', 'd'),
            Pattern::Tag => tag_head(t),
            Pattern::TableRef => table_ref_head(t),
            Pattern::ImageDiv => image_div_head(t),
        }
    }

    /// The successive matches in `t`, leftmost first and never overlapping, as
    /// start, end, group start and group end. Positions are counted from `off`.
    pub open spec fn hits(self, t: Seq<char>, off: int) -> Seq<(int, int, int, int)>
        decreases t.len(),
    {
        if t.len() == 0 {
            Seq::empty()
        } else {
            match self.head(t) {
                Some(h) => if 0 < h.0 <= t.len() {
                    seq![(off, off + h.0, off + h.1, off + h.2)] + self.hits(t.skip(h.0), off + h.0)
                } else {
                    Seq::empty()
                },
                None => self.hits(t.skip(1), off + 1),
            }
        }
    }

    /// The regular expression that is searched for.
    pub open spec fn source(self) -> Seq<char> {
        match self {
            Pattern::FragmentedSample =>
                r"\$\s*\$\s*\\mathbb\{S\}\s*\$\s*\$\s*(\\mathbb\{[ZRNFQ]\}|\\\{|\[|\d)"@,
            Pattern::ContiguousSample =>
                r"\\mathbb\{S\}(\s*(?:\\mathbb\{[ZRNFQ]\}|\\\{|\[|\d))"@,
            Pattern::IndexedBracket => r"\[\[[^\[\]]*\[[^\[\]]*\]\](\^)"@,
            Pattern::SimpleBracket => r"\[\[[^\[\]]*\](\^)"@,
            Pattern::FenceOpenInline => r"\$\$```\w+\\+\$\$"@,
            Pattern::FenceOpenMultiline => r"\$\$```\w*\\*\n"@,
            Pattern::FenceCloseFour => r"```\$\$\$\$"@,
            Pattern::FenceCloseTwo => r"\n```\$\$"@,
            Pattern::MathOpen => r"\$\$\\+\$\$"@,
            Pattern::MathClose => r"\\+\$\${2,}"@,
            Pattern::Script => r"[\^_](\\[a-zA-Z]+)"@,
            Pattern::TableDiv =>
                r#"(?s)<div style="text-align: center;"><table border="1">.*?</table></div>"#@,
            Pattern::TableRow => r"(?si)<tr[^>]*>(.*?)</tr>"@,
            Pattern::HeaderCell => r"(?si)<th[^>]*>(.*?)</th>"@,
            Pattern::DataCell => r"(?si)<td[^>]*>(.*?)</td>"@,
            Pattern::Tag => r"<[^>]+>"@,
            Pattern::TableRef => r"\[\[table:([A-Za-z0-9_]+)\]\]"@,
            Pattern::ImageDiv =>
                r#"<div style="text-align: center;"><img src="([^"]*)"[^>]*/></div>"#@,
        }
    }

    pub fn source_text(self) -> (r: &'static str)
        ensures
            r@ == self.source(),
    {
        match self {
            Pattern::FragmentedSample =>
                r"\$\s*\$\s*\\mathbb\{S\}\s*\$\s*\$\s*(\\mathbb\{[ZRNFQ]\}|\\\{|\[|\d)",
            Pattern::ContiguousSample => r"\\mathbb\{S\}(\s*(?:\\mathbb\{[ZRNFQ]\}|\\\{|\[|\d))",
            Pattern::IndexedBracket => r"\[\[[^\[\]]*\[[^\[\]]*\]\](\^)",
            Pattern::SimpleBracket => r"\[\[[^\[\]]*\](\^)",
            Pattern::FenceOpenInline => r"\$\$```\w+\\+\$\$",
            Pattern::FenceOpenMultiline => r"\$\$```\w*\\*\n",
            Pattern::FenceCloseFour => r"```\$\$\$\$",
            Pattern::FenceCloseTwo => r"\n```\$\$",
            Pattern::MathOpen => r"\$\$\\+\$\$",
            Pattern::MathClose => r"\\+\$\${2,}",
            Pattern::Script => r"[\^_](\\[a-zA-Z]+)",
            Pattern::TableDiv =>
                r#"(?s)<div style="text-align: center;"><table border="1">.*?</table></div>"#,
            Pattern::TableRow => r"(?si)<tr[^>]*>(.*?)</tr>",
            Pattern::HeaderCell => r"(?si)<th[^>]*>(.*?)</th>",
            Pattern::DataCell => r"(?si)<td[^>]*>(.*?)</td>",
            Pattern::Tag => r"<[^>]+>",
            Pattern::TableRef => r"\[\[table:([A-Za-z0-9_]+)\]\]",
            Pattern::ImageDiv =>
                r#"<div style="text-align: center;"><img src="([^"]*)"[^>]*/></div>"#,
        }
    }
}

/// A match in a text, by character positions.
#[derive(Clone, Copy, Debug)]
pub struct Found {
    pub start: usize,
    pub end: usize,
    pub group_start: usize,
    pub group_end: usize,
}

impl View for Found {
    type V = (int, int, int, int);

    open spec fn view(&self) -> (int, int, int, int) {
        (self.start as int, self.end as int, self.group_start as int, self.group_end as int)
    }
}

/// The positions of a list of matches.
pub open spec fn positions(found: Seq<Found>) -> Seq<(int, int, int, int)> {
    found.map_values(|f: Found| f@)
}

/// `regex::Regex::captures_iter` on the regular expression `source`: the
/// successive non-overlapping matches in `text`, each with its first capture
/// group (or itself, where the expression has no group). The byte offsets that
/// the crate reports are given as character positions.
///
/// The contract says where each of the library's patterns matches. It holds by
/// the syntax that the crate documents: greedy runs of a class, the lazy `.*?`
/// that ends at the first closing tag, and leftmost-first search. The first
/// character of a fence's language tag is in `\w`, and a sampled set that ends
/// beyond ASCII ends in a character of `\d`.
#[verifier::external_body]
fn captures_iter(source: &str, text: &str) -> (r: Vec<Found>)
    requires
        exists|p: Pattern| source@ == #[trigger] p.source(),
    ensures
        forall|p: Pattern|
            source@ == #[trigger] p.source() ==> positions(r@) == p.hits(text@, 0),
        source@ == Pattern::FenceOpenInline.source() ==> forall|i: int|
            0 <= i < r@.len() && (#[trigger] r@[i]).start + 5 < text@.len() && text@[r@[i].start + 5]
                > '\u{7f}' ==> unicode_word(text@[r@[i].start + 5]),
        source@ == Pattern::ContiguousSample.source() ==> forall|i: int|
            0 <= i < r@.len() && 0 < (#[trigger] r@[i]).end <= text@.len() && text@[r@[i].end - 1]
                > '\u{7f}' ==> unicode_digit(text@[r@[i].end - 1]),
{
    let re = regex::Regex::new(source).unwrap();
    re.captures_iter(text)
        .map(|c| {
            let m = c.get(0).unwrap();
            let g = c.get(1).unwrap_or(m);
            Found {
                start: text[..m.start()].chars().count(),
                end: text[..m.end()].chars().count(),
                group_start: text[..g.start()].chars().count(),
                group_end: text[..g.end()].chars().count(),
            }
        })
        .collect()
}

/// Every match of `pattern` in `text`.
pub fn find_all(pattern: Pattern, text: &str) -> (r: Vec<Found>)
    ensures
        positions(r@) == pattern.hits(text@, 0),
{
    captures_iter(pattern.source_text(), text)
}

} // verus!
