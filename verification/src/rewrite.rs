//! Replacing every match of a pattern.

use vstd::prelude::*;

use crate::patterns::{find_all, Found, Pattern};
use crate::text::{chars_of, lemma_first_at, lemma_run_bounds, put_range, string_of};

verus! {

broadcast use vstd::string::group_string_axioms;

/// The replacements that the library makes.
#[derive(Clone, Copy, Debug, PartialEq, Eq, Structural)]
pub enum Rule {
    /// A fragmented sampling mark becomes `\$ ` before its set.
    JoinSample,
    /// `\mathbb{S}` before a set becomes `\$`.
    Sample,
    /// `[[x[i]]^` gets its missing bracket.
    CloseIndexed,
    /// `[[v]^` gets its missing bracket.
    CloseSimple,
    /// An inline opening fence becomes `$$`.
    OpenInline,
    /// An opening fence at a line's end becomes `$$` and the line's end.
    OpenMultiline,
    /// A closing fence with four dollars becomes `$$`.
    CloseFour,
    /// A closing fence on its own line becomes a line with `$$`.
    CloseTwo,
    /// Backslashes between display delimiters go.
    BoundaryOpen,
    /// Backslashes and surplus dollars become `$$`.
    BoundaryClose,
    /// A command used as a script gets braces, unless a brace follows it.
    BraceScript,
    /// A tag is dropped.
    DropTag,
}

impl Rule {
    pub open spec fn pattern(self) -> Pattern {
        match self {
            Rule::JoinSample => Pattern::FragmentedSample,
            Rule::Sample => Pattern::ContiguousSample,
            Rule::CloseIndexed => Pattern::IndexedBracket,
            Rule::CloseSimple => Pattern::SimpleBracket,
            Rule::OpenInline => Pattern::FenceOpenInline,
            Rule::OpenMultiline => Pattern::FenceOpenMultiline,
            Rule::CloseFour => Pattern::FenceCloseFour,
            Rule::CloseTwo => Pattern::FenceCloseTwo,
            Rule::BoundaryOpen => Pattern::MathOpen,
            Rule::BoundaryClose => Pattern::MathClose,
            Rule::BraceScript => Pattern::Script,
            Rule::DropTag => Pattern::Tag,
        }
    }

    /// What stands in place of the match `h` at the start of `t`.
    #[verifier::opaque]
    pub open spec fn replacement(self, t: Seq<char>, h: (int, int, int)) -> Seq<char> {
        match self {
            Rule::JoinSample => seq!['\\', '$', ' '] + t.subrange(h.1, h.2),
            Rule::Sample => seq!['\\', '$'] + t.subrange(h.1, h.2),
            Rule::CloseIndexed => t.subrange(0, h.1) + seq![']', '^'],
            Rule::CloseSimple => t.subrange(0, h.1) + seq![']', '^'],
            Rule::OpenInline => seq!['$', '$'],
            Rule::OpenMultiline => seq!['$', '$', '\n'],
            Rule::CloseFour => seq!['$', '$'],
            Rule::CloseTwo => seq!['\n', '$', '$'],
            Rule::BoundaryOpen => seq!['$', '$'],
            Rule::BoundaryClose => seq!['$', '$'],
            Rule::BraceScript => if h.0 < t.len() && t[h.0] == '{' {
                t.subrange(0, h.0)
            } else {
                seq![t[0], '{'] + t.subrange(h.1, h.2) + seq!['}']
            },
            Rule::DropTag => Seq::empty(),
        }
    }

    /// `t` with every match replaced and everything else kept.
    pub open spec fn rewritten(self, t: Seq<char>) -> Seq<char>
        decreases t.len(),
    {
        if t.len() == 0 {
            Seq::empty()
        } else {
            match self.pattern().head(t) {
                Some(h) => if 0 < h.0 <= t.len() {
                    self.replacement(t, h) + self.rewritten(t.skip(h.0))
                } else {
                    Seq::empty()
                },
                None => seq![t[0]] + self.rewritten(t.skip(1)),
            }
        }
    }

    fn searched(self) -> (r: Pattern)
        ensures
            r == self.pattern(),
    {
        match self {
            Rule::JoinSample => Pattern::FragmentedSample,
            Rule::Sample => Pattern::ContiguousSample,
            Rule::CloseIndexed => Pattern::IndexedBracket,
            Rule::CloseSimple => Pattern::SimpleBracket,
            Rule::OpenInline => Pattern::FenceOpenInline,
            Rule::OpenMultiline => Pattern::FenceOpenMultiline,
            Rule::CloseFour => Pattern::FenceCloseFour,
            Rule::CloseTwo => Pattern::FenceCloseTwo,
            Rule::BoundaryOpen => Pattern::MathOpen,
            Rule::BoundaryClose => Pattern::MathClose,
            Rule::BraceScript => Pattern::Script,
            Rule::DropTag => Pattern::Tag,
        }
    }

    /// Appends the replacement of the match `f` in `s` to `out`.
    fn put(self, s: &Vec<char>, f: Found, out: &mut Vec<char>)
        requires
            f.start < f.end <= s@.len(),
            f.start <= f.group_start <= f.group_end <= f.end,
        ensures
            final(out)@ == old(out)@ + self.replacement(
                s@.skip(f.start as int),
                (f.end - f.start, f.group_start - f.start, f.group_end - f.start),
            ),
    {
        let ghost t = s@.skip(f.start as int);
        let ghost h = (f.end - f.start, f.group_start - f.start, f.group_end - f.start);
        let ghost before = out@;
        reveal(Rule::replacement);
        assert(t.subrange(h.1, h.2) =~= s@.subrange(f.group_start as int, f.group_end as int));
        assert(t.subrange(0, h.1) =~= s@.subrange(f.start as int, f.group_start as int));
        assert(t.subrange(0, h.0) =~= s@.subrange(f.start as int, f.end as int));
        match self {
            Rule::JoinSample => {
                out.push('\\');
                out.push('$');
                out.push(' ');
                put_range(s, f.group_start, f.group_end, out);
                assert(out@ =~= before + self.replacement(t, h));
            },
            Rule::Sample => {
                out.push('\\');
                out.push('$');
                put_range(s, f.group_start, f.group_end, out);
                assert(out@ =~= before + self.replacement(t, h));
            },
            Rule::CloseIndexed | Rule::CloseSimple => {
                put_range(s, f.start, f.group_start, out);
                out.push(']');
                out.push('^');
                assert(out@ =~= before + self.replacement(t, h));
            },
            Rule::OpenInline | Rule::CloseFour | Rule::BoundaryOpen | Rule::BoundaryClose => {
                out.push('$');
                out.push('$');
                assert(out@ =~= before + self.replacement(t, h));
            },
            Rule::OpenMultiline => {
                out.push('$');
                out.push('$');
                out.push('\n');
                assert(out@ =~= before + self.replacement(t, h));
            },
            Rule::CloseTwo => {
                out.push('\n');
                out.push('$');
                out.push('$');
                assert(out@ =~= before + self.replacement(t, h));
            },
            Rule::BraceScript => {
                if f.end < s.len() && s[f.end] == '{' {
                    put_range(s, f.start, f.end, out);
                    assert(out@ =~= before + self.replacement(t, h));
                } else {
                    out.push(s[f.start]);
                    out.push('{');
                    put_range(s, f.group_start, f.group_end, out);
                    out.push('}');
                    assert(out@ =~= before + self.replacement(t, h));
                }
            },
            Rule::DropTag => {
                assert(out@ =~= before + self.replacement(t, h));
            },
        }
    }

    /// Rewrites every match in `s`.
    pub fn apply(self, s: &str) -> (r: String)
        ensures
            r@ == self.rewritten(s@),
    {
        let found = find_all(self.searched(), s);
        let v = chars_of(s);
        let mut out: Vec<char> = Vec::new();
        let mut last: usize = 0;
        let mut k: usize = 0;
        let ghost p = self.pattern();
        let ghost hits = p.hits(s@, 0);
        assert(hits.skip(0) =~= hits);
        assert(s@.skip(0) =~= s@);
        assert(found@.len() == hits.len()) by {
            assert(positions_len(found@) == found@.len());
        }
        while k < found.len()
            invariant
                p == self.pattern(),
                v@ == s@,
                last <= v@.len(),
                k <= found@.len(),
                found@.len() == hits.len(),
                crate::patterns::positions(found@) == hits,
                hits.skip(k as int) == p.hits(s@.skip(last as int), last as int),
                self.rewritten(s@) == out@ + self.rewritten(s@.skip(last as int)),
            decreases found.len() - k,
        {
            let f = found[k];
            let ghost rest = s@.skip(last as int);
            let ghost b = f.end - last;
            proof {
                lemma_next_hit(self, rest, last as int);
                assert(hits[k as int] == crate::patterns::positions(found@)[k as int]);
                assert(hits.skip(k as int)[0] == hits[k as int]);
                assert(f@ == hits[k as int]);
                assert(rest.skip(f.start - last) =~= s@.skip(f.start as int));
                assert(rest.skip(b) =~= s@.skip(f.end as int));
                assert(hits.skip(k as int).skip(1) =~= hits.skip(k + 1));
                assert(rest.take(f.start - last) =~= s@.subrange(last as int, f.start as int));
            }
            let ghost before = out@;
            put_range(&v, last, f.start, &mut out);
            self.put(&v, f, &mut out);
            proof {
                let h = (f.end - f.start, f.group_start - f.start, f.group_end - f.start);
                let a = s@.subrange(last as int, f.start as int);
                let r = self.replacement(s@.skip(f.start as int), h);
                let z = self.rewritten(s@.skip(f.end as int));
                assert(before + (a + r + z) =~= before + a + r + z);
            }
            last = f.end;
            k = k + 1;
        }
        let ghost before = out@;
        proof {
            assert(hits.skip(k as int).len() == 0);
            lemma_no_hit(self, s@.skip(last as int), last as int);
            assert(s@.skip(last as int) =~= s@.subrange(last as int, s@.len() as int));
        }
        let end = v.len();
        put_range(&v, last, end, &mut out);
        string_of(&out)
    }
}

/// The number of matches.
spec fn positions_len(found: Seq<Found>) -> nat {
    crate::patterns::positions(found).len()
}

pub proof fn lemma_first_at_any_case(t: Seq<char>, i: int, s: Seq<char>)
    ensures
        crate::patterns::first_at_any_case(t, i, s) matches Some(k) ==> i <= k
            && crate::patterns::stands_at_any_case(t, k, s),
    decreases t.len() + 1 - i,
{
    if 0 <= i <= t.len() && !crate::patterns::stands_at_any_case(t, i, s) {
        lemma_first_at_any_case(t, i + 1, s);
    }
}

/// A match is not empty, lies in the text and holds its group.
pub proof fn lemma_head_bounds(p: Pattern, t: Seq<char>)
    ensures
        p.head(t) matches Some(h) ==> 0 < h.0 <= t.len() && 0 <= h.1 <= h.2 <= h.0,
{
    reveal(Pattern::head);
    use_run_bounds(t);
    match p {
        Pattern::TableDiv => {
            lemma_first_at(
                t,
                ("<div style=\"text-align: center;\"><table border=\"1\">"@).len() as int,
                "</table></div>"@,
            );
        },
        Pattern::TableRow => {
            lemma_element_bounds(t, 't', 'r');
        },
        Pattern::HeaderCell => {
            lemma_element_bounds(t, 't', 'h');
        },
        Pattern::DataCell => {
            lemma_element_bounds(t, 't', 'd');
        },
        Pattern::Tag => {
            lemma_first_at(t, 1, seq!['>']);
        },
        Pattern::ImageDiv => {
            let n = ("<div style=\"text-align: center;\"><img src=\""@).len() as int;
            let q = crate::text::run(t, n, crate::patterns::is_no_quote());
            lemma_first_at(t, q + 1, seq!['>']);
        },
        _ => {},
    }
}

proof fn lemma_element_bounds(t: Seq<char>, a: char, b: char)
    ensures
        crate::patterns::element_head(t, a, b) matches Some(h) ==> 0 < h.0 <= t.len() && 0 <= h.1
            <= h.2 <= h.0,
{
    lemma_first_at(t, 3, seq!['>']);
    if let Some(g) = crate::text::first_at(t, 3, seq!['>']) {
        lemma_first_at_any_case(t, g + 1, seq!['<', '/', a, b, '>']);
    }
}

/// [`lemma_run_bounds`] for every start and class.
proof fn use_run_bounds(t: Seq<char>)
    ensures
        forall|i: int, p: spec_fn(char) -> bool|
            0 <= i ==> i <= #[trigger] crate::text::run(t, i, p) && (i <= t.len()
                ==> crate::text::run(t, i, p) <= t.len()),
{
    assert forall|i: int, p: spec_fn(char) -> bool| 0 <= i implies i
        <= #[trigger] crate::text::run(t, i, p) && (i <= t.len() ==> crate::text::run(
        t,
        i,
        p,
    ) <= t.len()) by {
        lemma_run_bounds(t, i, p);
    }
}

/// Where nothing is found, nothing is rewritten.
pub proof fn lemma_no_hit(rule: Rule, t: Seq<char>, off: int)
    requires
        rule.pattern().hits(t, off).len() == 0,
    ensures
        rule.rewritten(t) == t,
    decreases t.len(),
{
    lemma_head_bounds(rule.pattern(), t);
    if t.len() > 0 {
        lemma_no_hit(rule, t.skip(1), off + 1);
        assert(seq![t[0]] + t.skip(1) =~= t);
    }
}

/// What stands before the first match is kept, the match is replaced, and the
/// rest is rewritten by itself.
pub proof fn lemma_next_hit(rule: Rule, t: Seq<char>, off: int)
    requires
        rule.pattern().hits(t, off).len() > 0,
    ensures
        ({
            let hits = rule.pattern().hits(t, off);
            let (s, e, gs, ge) = hits[0];
            &&& off <= s < e <= off + t.len()
            &&& s <= gs <= ge <= e
            &&& rule.pattern().head(t.skip(s - off)) == Some((e - s, gs - s, ge - s))
            &&& rule.rewritten(t) == t.take(s - off) + rule.replacement(
                t.skip(s - off),
                (e - s, gs - s, ge - s),
            ) + rule.rewritten(t.skip(e - off))
            &&& hits.skip(1) == rule.pattern().hits(t.skip(e - off), e)
        }),
    decreases t.len(),
{
    let p = rule.pattern();
    lemma_head_bounds(p, t);
    match p.head(t) {
        Some(h) => {
            let hits = p.hits(t, off);
            assert(hits.skip(1) =~= p.hits(t.skip(h.0), off + h.0));
            assert(t.skip(0) =~= t);
            assert(t.take(0) + rule.replacement(t, h) =~= rule.replacement(t, h));
        },
        None => {
            let u = t.skip(1);
            lemma_next_hit(rule, u, off + 1);
            let (s, e, gs, ge) = p.hits(u, off + 1)[0];
            assert(u.skip(s - off - 1) =~= t.skip(s - off));
            assert(u.skip(e - off - 1) =~= t.skip(e - off));
            let r = rule.replacement(t.skip(s - off), (e - s, gs - s, ge - s));
            let z = rule.rewritten(t.skip(e - off));
            assert(seq![t[0]] + (u.take(s - off - 1) + r + z) =~= t.take(s - off) + r + z);
        },
    }
}

} // verus!
