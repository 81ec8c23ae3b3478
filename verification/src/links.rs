//! Links of a document and its references section.

use vstd::prelude::*;

use crate::headings::{line_is, LinePattern};
use crate::text::{
    chars_of, lemma_run_bounds, lemma_run_is, lemma_trim_start, put_range, range_of, run, string_of,
    trim, trim_of, trim_start, trim_start_of, white_space,
};

verus! {

broadcast use vstd::string::group_string_axioms;

/// A link on a page.
#[derive(Clone, Debug)]
pub struct PdfLinkAnnotation {
    pub url: String,
    /// The page, counted from zero.
    pub page_index: usize,
    /// The height of the link's top edge: larger is higher on the page.
    pub y_top: i64,
}

/// Where the heading of the references stands.
#[derive(Clone, Copy, Debug)]
pub struct ReferenceBoundary {
    pub page_index: usize,
    /// The height of the heading's top edge.
    pub y_top: i64,
}

/// The links of a document and the start of its references.
#[derive(Clone, Debug)]
pub struct LinkExtraction {
    pub links: Vec<PdfLinkAnnotation>,
    pub refs_boundary: Option<ReferenceBoundary>,
    pub page_count: usize,
}

/// The place on page `page` at height `y` comes after the boundary.
pub open spec fn past_boundary(boundary: Option<ReferenceBoundary>, page: int, y: int) -> bool {
    match boundary {
        None => false,
        Some(b) => page > b.page_index || (page == b.page_index && y < b.y_top),
    }
}

impl LinkExtraction {
    /// Whether a link stands below the heading of the references.
    pub fn is_past_refs(&self, link: &PdfLinkAnnotation) -> (r: bool)
        ensures
            r == past_boundary(self.refs_boundary, link.page_index as int, link.y_top as int),
    {
        match self.refs_boundary {
            None => false,
            Some(b) => link.page_index > b.page_index || (link.page_index == b.page_index
                && link.y_top < b.y_top),
        }
    }
}

/// Whether a piece of text on a page is the heading of the references.
pub fn is_references_heading(segment: &str) -> (r: bool)
    ensures
        r == LinePattern::References.holds(trim(segment@)),
{
    let t = string_of(&trim_of(&chars_of(segment)));
    line_is(LinePattern::References, t.as_str())
}

/// The first segment that is the heading of the references.
pub open spec fn first_heading(segments: Seq<Seq<char>>, i: int) -> Option<int>
    decreases segments.len() - i,
{
    if i < 0 || i >= segments.len() {
        None
    } else if LinePattern::References.holds(trim(segments[i])) {
        Some(i)
    } else {
        first_heading(segments, i + 1)
    }
}

/// The boundary after the texts of one more page: the one that was known, or
/// the first heading on the page.
pub fn boundary_after_page(
    known: Option<ReferenceBoundary>,
    page_index: usize,
    segments: &Vec<(String, i64)>,
) -> (r: Option<ReferenceBoundary>)
    ensures
        match known {
            Some(b) => r == Some(b),
            None => match first_heading(segments@.map_values(|s: (String, i64)| s.0@), 0) {
                Some(k) => r == Some(ReferenceBoundary { page_index, y_top: segments@[k].1 }),
                None => r is None,
            },
        },
{
    if known.is_some() {
        return known;
    }
    let ghost all = segments@.map_values(|s: (String, i64)| s.0@);
    let mut i: usize = 0;
    while i < segments.len()
        invariant
            i <= segments@.len(),
            known is None,
            all == segments@.map_values(|s: (String, i64)| s.0@),
            first_heading(all, 0) == first_heading(all, i as int),
        decreases segments.len() - i,
    {
        assert(all[i as int] == segments@[i as int].0@);
        if is_references_heading(segments[i].0.as_str()) {
            return Some(ReferenceBoundary { page_index, y_top: segments[i].1 });
        }
        i = i + 1;
    }
    None
}

// ---------------------------------------------------------------------------
// Taking out the references
// ---------------------------------------------------------------------------

pub open spec fn hash() -> spec_fn(char) -> bool {
    |c: char| c == '#'
}

/// The end of the line that contains position `c`.
pub open spec fn line_end(t: Seq<char>, c: int) -> int {
    run(t, c, |x: char| x != '\n')
}

/// The level of a heading: the number of its marks.
pub open spec fn heading_level(line: Seq<char>) -> int {
    run(trim_start(line), 0, hash())
}

/// A line without its heading marks and the white space around it.
pub open spec fn heading_text(line: Seq<char>) -> Seq<char> {
    trim(trim_start(line).skip(heading_level(line)))
}

/// The start of the first line from `c` on that is the heading of the
/// references.
pub open spec fn references_at(t: Seq<char>, c: int) -> Option<int>
    decreases t.len() + 1 - c,
{
    let e = line_end(t, c);
    if c < 0 || c >= t.len() || e < c || e > t.len() {
        None
    } else if LinePattern::References.holds(heading_text(t.subrange(c, e))) {
        Some(c)
    } else {
        references_at(t, e + 1)
    }
}

/// A line opens a section behind references whose heading has the given level.
/// A marked heading does so if it is at least as important; a second heading of
/// the references does not.
pub open spec fn opens_section(line: Seq<char>, refs_level: int) -> bool {
    let text = heading_text(line);
    let level = heading_level(line);
    if text.len() == 0 || LinePattern::References.holds(text) {
        false
    } else if level > 0 {
        refs_level == 0 || level <= refs_level
    } else {
        LinePattern::Section.holds(text)
    }
}

/// The start of the first line from `c` on that opens a section.
pub open spec fn section_at(t: Seq<char>, c: int, refs_level: int) -> Option<int>
    decreases t.len() + 1 - c,
{
    let e = line_end(t, c);
    if c < 0 || c >= t.len() || e < c || e > t.len() {
        None
    } else if opens_section(t.subrange(c, e), refs_level) {
        Some(c)
    } else {
        section_at(t, e + 1, refs_level)
    }
}

/// `t` without its references: from their heading to the next section, or to
/// the end.
pub open spec fn without_references(t: Seq<char>) -> Seq<char> {
    match references_at(t, 0) {
        None => t,
        Some(r) => {
            let e = line_end(t, r);
            match section_at(t, e + 1, heading_level(t.subrange(r, e))) {
                Some(q) => t.take(r) + t.skip(q),
                None => t.take(r),
            }
        },
    }
}

/// The end of the line at `c`.
fn find_line_end(v: &Vec<char>, c: usize) -> (e: usize)
    requires
        c <= v@.len(),
    ensures
        e == line_end(v@, c as int),
        c <= e <= v@.len(),
{
    let ghost p = |x: char| x != '\n';
    let mut e: usize = c;
    while e < v.len() && v[e] != '\n'
        invariant
            c <= e <= v@.len(),
            p == (|x: char| x != '\n'),
            run(v@, c as int, p) == run(v@, e as int, p),
        decreases v.len() - e,
    {
        e = e + 1;
    }
    e
}

/// The level and the text of a heading.
fn read_heading(line: &Vec<char>) -> (r: (usize, Vec<char>))
    ensures
        r.0 == heading_level(line@),
        r.1@ == heading_text(line@),
{
    let t = trim_start_of(line);
    let mut n: usize = 0;
    while n < t.len() && t[n] == '#'
        invariant
            n <= t@.len(),
            run(t@, 0, hash()) == run(t@, n as int, hash()),
        decreases t.len() - n,
    {
        n = n + 1;
    }
    let rest = range_of(&t, n, t.len());
    assert(rest@ =~= t@.skip(n as int));
    (n, trim_of(&rest))
}

/// Whether a line opens a section behind the references.
pub fn is_section_start_after_refs(line: &Vec<char>, refs_hash_level: usize) -> (r: bool)
    ensures
        r == opens_section(line@, refs_hash_level as int),
{
    let (level, text) = read_heading(line);
    if text.len() == 0 {
        return false;
    }
    let cleaned = string_of(&text);
    if line_is(LinePattern::References, cleaned.as_str()) {
        return false;
    }
    if level > 0 {
        return refs_hash_level == 0 || level <= refs_hash_level;
    }
    line_is(LinePattern::Section, cleaned.as_str())
}

/// Takes the references out of a document and keeps what follows them.
pub fn strip_references_section(markdown: &str) -> (r: String)
    ensures
        r@ == without_references(markdown@),
{
    let v = chars_of(markdown);
    let len = v.len();
    let mut c: usize = 0;
    while c < len
        invariant
            c <= len,
            len == v@.len(),
            v@ == markdown@,
            references_at(v@, 0) == references_at(v@, c as int),
        decreases len - c,
    {
        let e = find_line_end(&v, c);
        let line = range_of(&v, c, e);
        let (level, text) = read_heading(&line);
        if line_is(LinePattern::References, string_of(&text).as_str()) {
            let mut out: Vec<char> = Vec::new();
            put_range(&v, 0, c, &mut out);
            assert(out@ =~= v@.take(c as int));
            let mut q: usize = if e < len {
                e + 1
            } else {
                len
            };
            proof {
                if e == len {
                    assert(section_at(v@, e + 1, level as int) is None);
                    assert(section_at(v@, q as int, level as int) is None);
                }
            }
            while q < len
                invariant
                    q <= len,
                    c <= e <= len,
                    len == v@.len(),
                    v@ == markdown@,
                    out@ == v@.take(c as int),
                    references_at(v@, 0) == Some(c as int),
                    e == line_end(v@, c as int),
                    level == heading_level(v@.subrange(c as int, e as int)),
                    section_at(v@, e + 1, level as int) == section_at(
                        v@,
                        q as int,
                        level as int,
                    ),
                decreases len - q,
            {
                let f = find_line_end(&v, q);
                let next = range_of(&v, q, f);
                if is_section_start_after_refs(&next, level) {
                    put_range(&v, q, len, &mut out);
                    assert(out@ =~= v@.take(c as int) + v@.skip(q as int));
                    return string_of(&out);
                }
                if f < len {
                    q = f + 1;
                } else {
                    assert(section_at(v@, f + 1, level as int) is None);
                    q = len;
                    assert(section_at(v@, q as int, level as int) is None);
                }
            }
            return string_of(&out);
        }
        if e < len {
            c = e + 1;
        } else {
            assert(references_at(v@, e + 1) is None);
            c = len;
            assert(references_at(v@, c as int) is None);
        }
    }
    string_of(&v)
}

/// A reference heading lies in the text.
proof fn lemma_references_at(t: Seq<char>, c: int)
    ensures
        references_at(t, c) matches Some(r) ==> c <= r < t.len(),
    decreases t.len() + 1 - c,
{
    let e = line_end(t, c);
    if !(c < 0 || c >= t.len() || e < c || e > t.len()) {
        lemma_references_at(t, e + 1);
    }
}

proof fn lemma_section_at(t: Seq<char>, c: int, level: int)
    ensures
        section_at(t, c, level) matches Some(q) ==> c <= q < t.len(),
    decreases t.len() + 1 - c,
{
    let e = line_end(t, c);
    if !(c < 0 || c >= t.len() || e < c || e > t.len()) {
        lemma_section_at(t, e + 1, level);
    }
}

/// Only the references go: a text without their heading stays as it is, and of
/// any other one what stands before the heading stays at the front and what is
/// kept behind it is an end of the text.
pub proof fn law_only_references_go(t: Seq<char>)
    ensures
        references_at(t, 0) is None ==> without_references(t) == t,
        references_at(t, 0) matches Some(r) ==> exists|q: int|
            r < q <= t.len() && without_references(t) == #[trigger] t.take(r) + t.skip(q),
{
    lemma_references_at(t, 0);
    if let Some(r) = references_at(t, 0) {
        let e = line_end(t, r);
        lemma_run_bounds(t, r, |x: char| x != '\n');
        let level = heading_level(t.subrange(r, e));
        lemma_section_at(t, e + 1, level);
        match section_at(t, e + 1, level) {
            Some(q) => {
                assert(without_references(t) == t.take(r) + t.skip(q));
            },
            None => {
                let n = t.len() as int;
                assert(t.take(r) + t.skip(n) =~= t.take(r));
            },
        }
    }
}

/// A line begins at `c`.
pub open spec fn starts_at(t: Seq<char>, c: int) -> bool {
    0 <= c < t.len() && (c == 0 || t[c - 1] == '\n')
}

/// The line that begins at `c`.
pub open spec fn line_from(t: Seq<char>, c: int) -> Seq<char> {
    t.subrange(c, line_end(t, c))
}

/// The level of a heading is the number of `#` in front of its text, and its
/// text is what stands behind them, trimmed. A line without such marks has level
/// zero.
pub proof fn law_heading_marks(blank: Seq<char>, n: nat, rest: Seq<char>)
    requires
        forall|i: int| 0 <= i < blank.len() ==> white_space(#[trigger] blank[i]),
        rest.len() > 0 ==> rest[0] != '#',
        n == 0 && rest.len() > 0 ==> !white_space(rest[0]),
    ensures
        heading_level(blank + Seq::new(n, |i: int| '#') + rest) == n,
        heading_text(blank + Seq::new(n, |i: int| '#') + rest) == trim(rest),
{
    let marks = Seq::new(n, |i: int| '#');
    let line = blank + marks + rest;
    let b = blank.len() as int;
    assert forall|j: int| 0 <= j < b implies white_space(#[trigger] line[j]) by {
        assert(line[j] == blank[j]);
    }
    if b < line.len() {
        assert(line[b] == (if n > 0 { '#' } else { rest[0] }));
    }
    lemma_trim_start(line, b);
    let t = line.skip(b);
    assert(t =~= marks + rest);
    assert forall|k: int| 0 <= k < n implies hash()(#[trigger] t[k]) by {
        assert(t[k] == marks[k]);
    }
    if n < t.len() {
        assert(t[n as int] == rest[0]);
    }
    lemma_run_is(t, 0, n as int, hash());
    assert(t.skip(n as int) =~= rest);
}

/// The lines of a text, one by one: no line begins inside another.
proof fn lemma_next_start(t: Seq<char>, c: int, d: int)
    requires
        0 <= c < d,
        starts_at(t, d),
    ensures
        line_end(t, c) + 1 <= d,
{
    lemma_run_bounds(t, c, |x: char| x != '\n');
    let e = line_end(t, c);
    if d <= e {
        assert((|x: char| x != '\n')(t[d - 1]));
    }
}

proof fn lemma_end_starts(t: Seq<char>, c: int)
    requires
        0 <= c <= t.len(),
    ensures
        c <= line_end(t, c) <= t.len(),
        line_end(t, c) + 1 < t.len() ==> starts_at(t, line_end(t, c) + 1),
{
    lemma_run_bounds(t, c, |x: char| x != '\n');
}

/// Where the references are found: at the start of a line whose text is their
/// heading, and no earlier line has such a text. Where they are not found no
/// line has one.
pub proof fn law_first_references_heading(t: Seq<char>, c: int)
    requires
        starts_at(t, c),
    ensures
        references_at(t, 0) matches Some(r) ==> starts_at(t, r) && LinePattern::References.holds(
            heading_text(line_from(t, r)),
        ) && (c < r ==> !LinePattern::References.holds(heading_text(line_from(t, c)))),
        references_at(t, 0) is None ==> !LinePattern::References.holds(
            heading_text(line_from(t, c)),
        ),
{
    lemma_first_references(t, 0, c);
}

proof fn lemma_first_references(t: Seq<char>, i: int, c: int)
    requires
        starts_at(t, i),
        starts_at(t, c),
        i <= c,
    ensures
        references_at(t, i) matches Some(r) ==> starts_at(t, r) && LinePattern::References.holds(
            heading_text(line_from(t, r)),
        ) && (c < r ==> !LinePattern::References.holds(heading_text(line_from(t, c)))),
        references_at(t, i) is None ==> !LinePattern::References.holds(
            heading_text(line_from(t, c)),
        ),
    decreases t.len() - i,
{
    let e = line_end(t, i);
    lemma_end_starts(t, i);
    lemma_references_at(t, e + 1);
    if !LinePattern::References.holds(heading_text(t.subrange(i, e))) {
        if e + 1 < t.len() {
            if i < c {
                lemma_next_start(t, i, c);
                lemma_first_references(t, e + 1, c);
            } else {
                lemma_first_references(t, e + 1, e + 1);
            }
        } else {
            if i < c {
                lemma_next_start(t, i, c);
            }
        }
    }
}

/// Behind the references the text is kept from a section on. Of a heading of
/// the references with `n` marks that is every later line with a text that is
/// not again such a heading and with at most `n` marks, or any number of them if
/// `n` is zero: the result ends with the text from that line on.
pub proof fn law_sections_after_references_stay(t: Seq<char>, r: int, q: int)
    requires
        references_at(t, 0) == Some(r),
        r < q,
        starts_at(t, q),
        heading_text(line_from(t, q)).len() > 0,
        !LinePattern::References.holds(heading_text(line_from(t, q))),
        heading_level(line_from(t, q)) > 0,
        heading_level(line_from(t, r)) == 0 || heading_level(line_from(t, q)) <= heading_level(
            line_from(t, r),
        ),
    ensures
        without_references(t).len() >= r + (t.len() - q),
        without_references(t).skip(without_references(t).len() - (t.len() - q)) == t.skip(q),
{
    lemma_references_at(t, 0);
    let e = line_end(t, r);
    lemma_next_start(t, r, q);
    lemma_end_starts(t, r);
    lemma_section_found(t, e + 1, heading_level(line_from(t, r)), q);
    lemma_section_at(t, e + 1, heading_level(line_from(t, r)));
    let p = section_at(t, e + 1, heading_level(line_from(t, r)))->0;
    let w = t.take(r) + t.skip(p);
    assert(w.skip(w.len() - (t.len() - q)) =~= t.skip(q));
}

/// A section without marks behind the references, such as an appendix, is kept
/// from its line on.
pub proof fn law_appendix_after_references_stays(t: Seq<char>, r: int, q: int)
    requires
        references_at(t, 0) == Some(r),
        r < q,
        starts_at(t, q),
        heading_text(line_from(t, q)).len() > 0,
        !LinePattern::References.holds(heading_text(line_from(t, q))),
        heading_level(line_from(t, q)) == 0,
        LinePattern::Section.holds(heading_text(line_from(t, q))),
    ensures
        without_references(t).len() >= r + (t.len() - q),
        without_references(t).skip(without_references(t).len() - (t.len() - q)) == t.skip(q),
{
    lemma_references_at(t, 0);
    let e = line_end(t, r);
    lemma_next_start(t, r, q);
    lemma_end_starts(t, r);
    lemma_section_found(t, e + 1, heading_level(line_from(t, r)), q);
    lemma_section_at(t, e + 1, heading_level(line_from(t, r)));
    let p = section_at(t, e + 1, heading_level(line_from(t, r)))->0;
    let w = t.take(r) + t.skip(p);
    assert(w.skip(w.len() - (t.len() - q)) =~= t.skip(q));
}

/// A line that opens a section is found, or an earlier one is.
proof fn lemma_section_found(t: Seq<char>, i: int, level: int, q: int)
    requires
        starts_at(t, i),
        starts_at(t, q),
        i <= q,
        opens_section(line_from(t, q), level),
    ensures
        section_at(t, i, level) matches Some(p) && i <= p <= q,
    decreases t.len() - i,
{
    let e = line_end(t, i);
    lemma_end_starts(t, i);
    if !opens_section(t.subrange(i, e), level) {
        lemma_next_start(t, i, q);
        lemma_section_found(t, e + 1, level, q);
    }
}

/// What goes with the references: a line `c` behind their heading, which has `n`
/// marks, whose text is empty or again such a heading, or that has more than `n`
/// marks where `n` is not zero, or that has none and opens no section. If every
/// line up to `q` is such a line, the text between the heading and `q` goes; if
/// every line is, nothing behind the heading stays.
pub proof fn law_reference_lines_go(t: Seq<char>, r: int, q: int)
    requires
        references_at(t, 0) == Some(r),
        r < q <= t.len(),
        q == t.len() || starts_at(t, q),
        forall|c: int|
            r < c < q && #[trigger] starts_at(t, c) ==> heading_text(line_from(t, c)).len() == 0
                || LinePattern::References.holds(heading_text(line_from(t, c))) || (heading_level(
                line_from(t, c),
            ) > heading_level(line_from(t, r)) > 0) || (heading_level(line_from(t, c)) == 0
                && !LinePattern::Section.holds(heading_text(line_from(t, c)))),
    ensures
        without_references(t).len() <= r + (t.len() - q),
        without_references(t).take(r) == t.take(r),
        q == t.len() ==> without_references(t) == t.take(r),
{
    lemma_references_at(t, 0);
    let e = line_end(t, r);
    let level = heading_level(line_from(t, r));
    lemma_run_bounds(trim_start(line_from(t, r)), 0, hash());
    lemma_end_starts(t, r);
    lemma_section_at(t, e + 1, level);
    if q < t.len() {
        lemma_next_start(t, r, q);
    }
    if e + 1 < t.len() {
        lemma_section_late(t, e + 1, level, r, q);
    }
    match section_at(t, e + 1, level) {
        Some(p) => {
            let w = t.take(r) + t.skip(p);
            assert(w.take(r) =~= t.take(r));
        },
        None => {
            assert(t.take(r).take(r) =~= t.take(r));
        },
    }
}

proof fn lemma_section_late(t: Seq<char>, i: int, level: int, r: int, q: int)
    requires
        starts_at(t, i),
        r < i,
        level == heading_level(line_from(t, r)),
        q == t.len() || starts_at(t, q),
        forall|c: int|
            r < c < q && #[trigger] starts_at(t, c) ==> heading_text(line_from(t, c)).len() == 0
                || LinePattern::References.holds(heading_text(line_from(t, c))) || (heading_level(
                line_from(t, c),
            ) > heading_level(line_from(t, r)) > 0) || (heading_level(line_from(t, c)) == 0
                && !LinePattern::Section.holds(heading_text(line_from(t, c)))),
    ensures
        section_at(t, i, level) matches Some(p) ==> q <= p < t.len(),
    decreases t.len() - i,
{
    let e = line_end(t, i);
    lemma_end_starts(t, i);
    lemma_section_at(t, i, level);
    if i < q {
        assert(!opens_section(line_from(t, i), level));
        if e + 1 < t.len() {
            lemma_section_late(t, e + 1, level, r, q);
        }
    }
}

} // verus!
