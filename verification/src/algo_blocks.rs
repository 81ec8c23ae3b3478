//! Boxed algorithm listings.
//!
//! Page layout models read boxed content such as "Protocol 1" or
//! "Functionality F" as one flat bullet with every step on a single line. The
//! functions here turn such a bullet back into a heading, bold labels and a
//! numbered list.

use vstd::prelude::*;

use crate::text::{
    ascii_digit, ascii_space, chars_of, decimal, digits_value, has_at, is_ascii_space, is_digit,
    lemma_run_bounds, lines, lines_of, names, number, parts, parts_of, put_all, put_decimal,
    put_str, range_of, run, same_text, stands_at, string_of, texts, trim, trim_of, trim_start,
    trim_start_of, Separator,
};

verus! {

broadcast use vstd::string::group_string_axioms;

/// The words that open a boxed block.
pub open spec fn block_headings() -> Seq<Seq<char>> {
    seq![
        "Protocol"@,
        "Functionality"@,
        "Algorithm"@,
        "Definition"@,
        "Theorem"@,
        "Lemma"@,
        "Proposition"@,
        "Corollary"@,
    ]
}

/// The labels inside a boxed block.
pub open spec fn block_labels() -> Seq<Seq<char>> {
    seq![
        "Input:"@,
        "Output:"@,
        "Setup phase:"@,
        "Online phase:"@,
        "Setup:"@,
        "Online:"@,
        "Functionality:"@,
        "Requires:"@,
        "Ensures:"@,
        "Precondition:"@,
        "Postcondition:"@,
    ]
}

pub fn algo_block_headings() -> (r: Vec<&'static str>)
    ensures
        names(r@) == block_headings(),
{
    let r = vec![
        "Protocol",
        "Functionality",
        "Algorithm",
        "Definition",
        "Theorem",
        "Lemma",
        "Proposition",
        "Corollary",
    ];
    assert(names(r@) =~= block_headings());
    r
}

pub fn algo_block_labels() -> (r: Vec<&'static str>)
    ensures
        names(r@) == block_labels(),
{
    let r = vec![
        "Input:",
        "Output:",
        "Setup phase:",
        "Online phase:",
        "Setup:",
        "Online:",
        "Functionality:",
        "Requires:",
        "Ensures:",
        "Precondition:",
        "Postcondition:",
    ];
    assert(names(r@) =~= block_labels());
    r
}

/// `t` is the word `kw` and then, white space aside, a digit, a colon or an
/// opening parenthesis.
pub open spec fn headed_by(t: Seq<char>, kw: Seq<char>) -> bool {
    let r = trim_start(t.skip(kw.len() as int));
    stands_at(t, 0, kw) && r.len() > 0 && (ascii_digit(r[0]) || r[0] == ':' || r[0] == '(')
}

/// `t` opens a boxed block.
pub open spec fn opens_block(t: Seq<char>) -> bool {
    exists|i: int| 0 <= i < block_headings().len() && headed_by(t, #[trigger] block_headings()[i])
}

/// Whether a text opens a boxed block: a heading word and a number, a colon or a
/// parenthesis.
pub fn starts_with_algo_heading(text: &Vec<char>) -> (r: bool)
    ensures
        r == opens_block(text@),
{
    let kws = algo_block_headings();
    let mut i: usize = 0;
    while i < kws.len()
        invariant
            i <= kws@.len(),
            names(kws@) == block_headings(),
            forall|j: int|
                0 <= j < i ==> !headed_by(text@, #[trigger] block_headings()[j]),
        decreases kws.len() - i,
    {
        let kw = chars_of(kws[i]);
        assert(names(kws@)[i as int] == kw@);
        if has_at(text, 0, &kw) {
            let rest = range_of(text, kw.len(), text.len());
            assert(rest@ =~= text@.skip(kw@.len() as int));
            let after = trim_start_of(&rest);
            if after.len() > 0 && (is_digit(after[0]) || after[0] == ':' || after[0] == '(') {
                assert(headed_by(text@, block_headings()[i as int]));
                return true;
            }
        }
        i = i + 1;
    }
    assert(block_headings().len() == kws@.len()) by {
        assert(names(kws@).len() == kws@.len());
    }
    false
}

// ---------------------------------------------------------------------------
// Heading and body
// ---------------------------------------------------------------------------

/// A label stands at `i`, behind white space or a full stop.
pub open spec fn label_at(t: Seq<char>, i: int) -> bool {
    0 < i < t.len() && (ascii_space(t[i - 1]) || t[i - 1] == '.') && (exists|k: int|
        0 <= k < block_labels().len() && stands_at(t, i, #[trigger] block_labels()[k]))
}

/// A one-digit step marker stands at `i`, behind a blank.
pub open spec fn step_at(t: Seq<char>, i: int) -> bool {
    0 < i && i + 1 < t.len() && t[i - 1] == ' ' && ascii_digit(t[i]) && (t[i + 1] == ':' || t[i + 1]
        == '.')
}

/// The first position from `i` on at which a label or a step begins. What
/// stands at the very start belongs to the heading.
pub open spec fn heading_end(t: Seq<char>, i: int) -> int
    decreases t.len() - i,
{
    if i >= t.len() {
        t.len() as int
    } else if label_at(t, i) || step_at(t, i) {
        i
    } else {
        heading_end(t, i + 1)
    }
}

/// The position in the list of the first label that stands at `i`.
fn label_index(t: &Vec<char>, i: usize) -> (r: Option<usize>)
    ensures
        match r {
            Some(k) => first_label(t@, i as int, 0) == Some(k as int) && k < block_labels().len()
                && stands_at(t@, i as int, block_labels()[k as int]),
            None => first_label(t@, i as int, 0) is None && forall|k: int|
                0 <= k < block_labels().len() ==> !stands_at(
                    t@,
                    i as int,
                    #[trigger] block_labels()[k],
                ),
        },
{
    let labels = algo_block_labels();
    let mut k: usize = 0;
    assert(names(labels@).len() == labels@.len());
    while k < labels.len()
        invariant
            k <= labels@.len(),
            names(labels@) == block_labels(),
            labels@.len() == block_labels().len(),
            first_label(t@, i as int, 0) == first_label(t@, i as int, k as int),
            forall|j: int|
                0 <= j < k ==> !stands_at(t@, i as int, #[trigger] block_labels()[j]),
        decreases labels.len() - k,
    {
        let l = chars_of(labels[k]);
        assert(names(labels@)[k as int] == l@);
        if has_at(t, i, &l) {
            return Some(k);
        }
        k = k + 1;
    }
    None
}

/// The first label from the `k`-th on that stands in `t` at `i`.
pub open spec fn first_label(t: Seq<char>, i: int, k: int) -> Option<int>
    decreases block_labels().len() - k,
{
    if k < 0 || k >= block_labels().len() {
        None
    } else if stands_at(t, i, block_labels()[k]) {
        Some(k)
    } else {
        first_label(t, i, k + 1)
    }
}

/// Splits a block into its heading and its body: the body begins at the first
/// label or step.
pub fn split_heading_from_body(content: &Vec<char>) -> (r: (Vec<char>, Vec<char>))
    ensures
        r.0@ == content@.take(heading_end(content@, 0)),
        r.1@ == content@.skip(heading_end(content@, 0)),
{
    let len = content.len();
    let mut i: usize = 0;
    while i < len
        invariant_except_break
            i <= len,
            len == content@.len(),
            heading_end(content@, 0) == heading_end(content@, i as int),
        ensures
            i <= len,
            len == content@.len(),
            heading_end(content@, 0) == i,
        decreases len - i,
    {
        if i > 0 {
            let behind = content[i - 1];
            if (is_ascii_space(behind) || behind == '.') && label_index(content, i).is_some() {
                assert(label_at(content@, i as int));
                break ;
            }
            if behind == ' ' && len - i > 1 && is_digit(content[i]) && (content[i + 1] == ':'
                || content[i + 1] == '.') {
                break ;
            }
        }
        i = i + 1;
    }
    proof {
        assert(content@.take(i as int) =~= content@.subrange(0, i as int));
        assert(content@.skip(i as int) =~= content@.subrange(i as int, len as int));
    }
    (range_of(content, 0, i), range_of(content, i, len))
}

// ---------------------------------------------------------------------------
// Segments
// ---------------------------------------------------------------------------

pub open spec fn digits() -> spec_fn(char) -> bool {
    |c: char| ascii_digit(c)
}

/// The words of a body, separated by ASCII white space.
pub open spec fn words(t: Seq<char>) -> Seq<Seq<char>> {
    parts(Separator::AsciiSpace, t, 0)
}

/// A token of digits and a closing colon or full stop.
pub open spec fn step_marker(w: Seq<char>) -> bool {
    w.len() >= 2 && ascii_digit(w[0]) && run(w, 0, digits()) == w.len() - 1 && (w.last() == ':'
        || w.last() == '.')
}

/// The `i`-th word is a label, or is one together with the next word.
pub open spec fn label_word(ws: Seq<Seq<char>>, i: int) -> bool {
    block_labels().contains(ws[i]) || (i + 1 < ws.len() && block_labels().contains(
        ws[i] + seq![' '] + ws[i + 1],
    ))
}

/// The words from `i` on grouped into segments, each word followed by a blank.
/// A label or a step marker begins a segment; `cur` is the segment so far.
pub open spec fn segments(ws: Seq<Seq<char>>, i: int, cur: Seq<char>) -> Seq<Seq<char>>
    decreases ws.len() - i,
{
    if i < 0 || i >= ws.len() {
        if trim(cur).len() > 0 {
            seq![cur]
        } else {
            Seq::empty()
        }
    } else if (label_word(ws, i) || step_marker(ws[i])) && trim(cur).len() > 0 {
        seq![cur] + segments(ws, i + 1, ws[i] + seq![' '])
    } else {
        segments(ws, i + 1, cur + ws[i] + seq![' '])
    }
}

fn run_of_digits(w: &Vec<char>) -> (e: usize)
    ensures
        e == run(w@, 0, digits()),
        e <= w@.len(),
{
    let mut e: usize = 0;
    while e < w.len() && is_digit(w[e])
        invariant
            e <= w@.len(),
            run(w@, 0, digits()) == run(w@, e as int, digits()),
        decreases w.len() - e,
    {
        e = e + 1;
    }
    e
}

/// Whether a token marks a step, such as `1:` or `10.`.
pub fn looks_like_step_marker(token: &Vec<char>) -> (r: bool)
    ensures
        r == step_marker(token@),
{
    let n = token.len();
    n >= 2 && is_digit(token[0]) && run_of_digits(token) == n - 1 && (token[n - 1] == ':' || token[n
        - 1] == '.')
}

fn is_label_text(w: &Vec<char>) -> (r: bool)
    ensures
        r == block_labels().contains(w@),
{
    let labels = algo_block_labels();
    let mut k: usize = 0;
    assert(names(labels@).len() == labels@.len());
    while k < labels.len()
        invariant
            k <= labels@.len(),
            labels@.len() == block_labels().len(),
            names(labels@) == block_labels(),
            forall|j: int| 0 <= j < k ==> w@ != #[trigger] block_labels()[j],
        decreases labels.len() - k,
    {
        let l = chars_of(labels[k]);
        assert(names(labels@)[k as int] == l@);
        if same_text(w, &l) {
            assert(block_labels()[k as int] == w@);
            return true;
        }
        k = k + 1;
    }
    false
}

/// Splits a body at its labels and step markers.
pub fn split_into_segments(body: &Vec<char>) -> (r: Vec<Vec<char>>)
    ensures
        texts(r@) == segments(words(body@), 0, Seq::empty()),
{
    let ws = parts_of(Separator::AsciiSpace, body);
    let ghost all = texts(ws@);
    let mut out: Vec<Vec<char>> = Vec::new();
    let mut cur: Vec<char> = Vec::new();
    let mut i: usize = 0;
    assert(cur@ =~= Seq::<char>::empty());
    assert(texts(out@) =~= Seq::<Seq<char>>::empty());
    assert(Seq::<Seq<char>>::empty() + segments(all, 0, cur@) =~= segments(all, 0, cur@));
    while i < ws.len()
        invariant
            i <= ws@.len(),
            all == texts(ws@),
            segments(all, 0, Seq::empty()) == texts(out@) + segments(all, i as int, cur@),
        decreases ws.len() - i,
    {
        let mut label = is_label_text(&ws[i]);
        if !label && i + 1 < ws.len() {
            let mut pair: Vec<char> = Vec::new();
            put_all(&ws[i], &mut pair);
            pair.push(' ');
            put_all(&ws[i + 1], &mut pair);
            assert(pair@ =~= all[i as int] + seq![' '] + all[i + 1]);
            label = is_label_text(&pair);
        }
        let starts = label || looks_like_step_marker(&ws[i]);
        let full = trim_of(&cur).len() > 0;
        let ghost old_cur = cur@;
        let ghost before = texts(out@);
        if starts && full {
            let mut next: Vec<char> = Vec::new();
            put_all(&ws[i], &mut next);
            next.push(' ');
            assert(next@ =~= all[i as int] + seq![' ']);
            out.push(cur);
            cur = next;
            proof {
                assert(texts(out@) =~= before.push(old_cur));
                let z = segments(all, i + 1, cur@);
                assert(before + (seq![old_cur] + z) =~= before.push(old_cur) + z);
            }
        } else {
            put_all(&ws[i], &mut cur);
            cur.push(' ');
            assert(cur@ =~= old_cur + all[i as int] + seq![' ']);
        }
        i = i + 1;
    }
    let ghost before = texts(out@);
    let ghost last = cur@;
    if trim_of(&cur).len() > 0 {
        out.push(cur);
        assert(texts(out@) =~= before + seq![last]);
    } else {
        assert(before + Seq::<Seq<char>>::empty() =~= before);
    }
    out
}

// ---------------------------------------------------------------------------
// Rendering
// ---------------------------------------------------------------------------

/// Where the text of a step begins: behind its number and a colon or full stop.
/// The number must fit a machine word.
pub open spec fn step_text_at(seg: Seq<char>) -> Option<int> {
    let d = run(seg, 0, digits());
    if 0 < d < seg.len() && (seg[d] == ':' || seg[d] == '.') && number(seg.take(d)) <= usize::MAX {
        Some(d + 1)
    } else {
        None
    }
}

/// The bold label and the text behind it.
pub open spec fn labelled(label: Seq<char>, rest: Seq<char>) -> Seq<char> {
    if rest.len() == 0 {
        "**"@ + label + "**\n\n"@
    } else {
        "**"@ + label + "** "@ + rest + "\n\n"@
    }
}

/// The blank line that ends or begins a list.
pub open spec fn gap(yes: bool) -> Seq<char> {
    if yes {
        seq!['\n']
    } else {
        Seq::empty()
    }
}

/// What one trimmed segment that is not empty becomes: a step numbered `n`, a
/// bold label, or a paragraph.
pub open spec fn piece(seg: Seq<char>, in_list: bool, n: nat) -> Seq<char> {
    match step_text_at(seg) {
        Some(k) => gap(!in_list) + decimal(n) + ". "@ + trim(seg.skip(k)) + seq!['\n'],
        None => match first_label(seg, 0, 0) {
            Some(k) => gap(in_list) + labelled(
                block_labels()[k].drop_last(),
                trim(seg.skip(block_labels()[k].len() as int)),
            ),
            None => gap(in_list) + seg + "\n\n"@,
        },
    }
}

/// The segments from `i` on: steps as a numbered list that counts from `n`,
/// labels in bold, the rest as paragraphs.
pub open spec fn rendered(segs: Seq<Seq<char>>, i: int, in_list: bool, n: nat) -> Seq<char>
    decreases segs.len() - i,
{
    if i < 0 || i >= segs.len() {
        Seq::empty()
    } else {
        let seg = trim(segs[i]);
        if seg.len() == 0 {
            rendered(segs, i + 1, in_list, n)
        } else if step_text_at(seg) is Some {
            piece(seg, in_list, n) + rendered(segs, i + 1, true, n + 1)
        } else {
            piece(seg, in_list, n) + rendered(segs, i + 1, false, n)
        }
    }
}

/// A boxed block as a heading and its rendered body.
pub open spec fn reflowed(content: Seq<char>) -> Seq<char> {
    let e = heading_end(content, 0);
    "\n#### "@ + trim(content.take(e)) + "\n\n"@ + rendered(
        segments(words(content.skip(e)), 0, Seq::empty()),
        0,
        false,
        1,
    )
}

/// What follows the mark of a bullet.
pub open spec fn bullet(line: Seq<char>) -> Option<Seq<char>> {
    let t = trim_start(line);
    if stands_at(t, 0, seq!['-', ' ']) || stands_at(t, 0, seq!['*', ' ']) {
        Some(t.skip(2))
    } else {
        None
    }
}

/// One line of the result: a boxed block reflowed, anything else as it is.
pub open spec fn line_out(line: Seq<char>) -> Seq<char> {
    match bullet(line) {
        Some(content) => if opens_block(content) {
            reflowed(content) + seq!['\n']
        } else {
            line + seq!['\n']
        },
        None => line + seq!['\n'],
    }
}

/// The lines from the `i`-th on, each ended by a line feed.
pub open spec fn lines_out(ls: Seq<Seq<char>>, i: int) -> Seq<char>
    decreases ls.len() - i,
{
    if i < 0 || i >= ls.len() {
        Seq::empty()
    } else {
        line_out(ls[i]) + lines_out(ls, i + 1)
    }
}

/// The number of a step and the position of its text.
pub fn extract_leading_step_number(seg: &Vec<char>) -> (r: Option<(usize, usize)>)
    ensures
        match r {
            Some((n, k)) => step_text_at(seg@) == Some(k as int) && k <= seg@.len() && n == number(
                seg@.take(k - 1),
            ),
            None => step_text_at(seg@) is None,
        },
{
    let d = run_of_digits(seg);
    if d == 0 || d >= seg.len() || (seg[d] != ':' && seg[d] != '.') {
        return None;
    }
    let ghost t = seg@.subrange(0, d as int);
    proof {
        lemma_run_bounds(seg@, 0, digits());
        assert forall|j: int| 0 <= j < t.len() implies ascii_digit(#[trigger] t[j]) by {
            assert(digits()(seg@[j]));
        }
        assert(seg@.take(d as int) =~= t);
    }
    match digits_value(seg, 0, d) {
        Some(n) => if n <= usize::MAX as u64 {
            Some((n as usize, d + 1))
        } else {
            None
        },
        None => None,
    }
}

/// The label at the start of a segment, without its colon, and what follows it.
pub fn extract_leading_label(seg: &Vec<char>) -> (r: Option<(Vec<char>, Vec<char>)>)
    ensures
        match r {
            Some((label, rest)) => first_label(seg@, 0, 0) matches Some(k) && label@
                == block_labels()[k].drop_last() && rest@ == seg@.skip(
                block_labels()[k].len() as int,
            ),
            None => first_label(seg@, 0, 0) is None,
        },
{
    match label_index(seg, 0) {
        Some(k) => {
            let labels = algo_block_labels();
            assert(names(labels@).len() == labels@.len());
            let l = chars_of(labels[k]);
            proof {
                assert(names(labels@)[k as int] == l@);
                lemma_labels_not_empty(k as int);
            }
            let label = range_of(&l, 0, l.len() - 1);
            assert(label@ =~= l@.drop_last());
            let rest = range_of(seg, l.len(), seg.len());
            assert(rest@ =~= seg@.skip(l@.len() as int));
            Some((label, rest))
        },
        None => None,
    }
}

proof fn lemma_labels_not_empty(k: int)
    requires
        0 <= k < block_labels().len(),
    ensures
        block_labels()[k].len() > 0,
{
    reveal_strlit("Input:");
    reveal_strlit("Output:");
    reveal_strlit("Setup phase:");
    reveal_strlit("Online phase:");
    reveal_strlit("Setup:");
    reveal_strlit("Online:");
    reveal_strlit("Functionality:");
    reveal_strlit("Requires:");
    reveal_strlit("Ensures:");
    reveal_strlit("Precondition:");
    reveal_strlit("Postcondition:");
}

/// Appends one segment, and says whether it was a step.
fn put_segment(seg: &Vec<char>, in_list: bool, n: u64, out: &mut Vec<char>) -> (step: bool)
    ensures
        final(out)@ == old(out)@ + piece(seg@, in_list, n as nat),
        step == (step_text_at(seg@) is Some),
{
    let ghost before = out@;
    match extract_leading_step_number(seg) {
        Some((_number, k)) => {
            let text = range_of(seg, k, seg.len());
            assert(text@ =~= seg@.skip(k as int));
            if !in_list {
                out.push('\n');
            }
            put_decimal(n, out);
            put_str(". ", out);
            put_all(&trim_of(&text), out);
            out.push('\n');
            assert(out@ =~= before + piece(seg@, in_list, n as nat));
            true
        },
        None => {
            if in_list {
                out.push('\n');
            }
            match extract_leading_label(seg) {
                Some((label, rest)) => {
                    let text = trim_of(&rest);
                    put_str("**", out);
                    put_all(&label, out);
                    if text.len() == 0 {
                        put_str("**\n\n", out);
                    } else {
                        put_str("** ", out);
                        put_all(&text, out);
                        put_str("\n\n", out);
                    }
                    assert(out@ =~= before + piece(seg@, in_list, n as nat));
                },
                None => {
                    put_all(seg, out);
                    put_str("\n\n", out);
                    assert(out@ =~= before + piece(seg@, in_list, n as nat));
                },
            }
            false
        },
    }
}

/// A boxed block as a heading, bold labels and a numbered list.
pub fn reflow_algo_block(content: &Vec<char>) -> (r: Vec<char>)
    ensures
        r@ == reflowed(content@),
{
    let (heading, body) = split_heading_from_body(content);
    let mut out: Vec<char> = Vec::new();
    put_str("\n#### ", &mut out);
    put_all(&trim_of(&heading), &mut out);
    put_str("\n\n", &mut out);
    let segs = split_into_segments(&body);
    let ghost all = texts(segs@);
    let ghost head = out@;
    let mut in_list = false;
    let mut steps: usize = 0;
    let mut i: usize = 0;
    let count = segs.len();
    proof {
        assert(head =~= "\n#### "@ + trim(heading@) + "\n\n"@);
    }
    while i < count
        invariant
            i <= count,
            count == segs@.len(),
            all == texts(segs@),
            steps <= i,
            head + rendered(all, 0, false, 1) == out@ + rendered(
                all,
                i as int,
                in_list,
                (steps + 1) as nat,
            ),
        decreases count - i,
    {
        let seg = trim_of(&segs[i]);
        assert(seg@ == trim(all[i as int]));
        let ghost before = out@;
        if seg.len() > 0 {
            let n: u64 = (steps + 1) as u64;
            let ghost a = piece(seg@, in_list, n as nat);
            let step = put_segment(&seg, in_list, n, &mut out);
            proof {
                let y = rendered(all, i + 1, true, (n + 1) as nat);
                let z = rendered(all, i + 1, false, n as nat);
                assert(before + (a + y) =~= before + a + y);
                assert(before + (a + z) =~= before + a + z);
            }
            in_list = step;
            if step {
                steps = steps + 1;
            }
        }
        i = i + 1;
    }
    assert(out@ + Seq::<char>::empty() =~= out@);
    out
}

/// Rewrites the bullets that hold boxed blocks and leaves other lines alone.
pub fn postprocess_algorithm_blocks(markdown: &str) -> (r: String)
    ensures
        r@ == lines_out(lines(markdown@), 0),
{
    let ls = lines_of(&chars_of(markdown));
    let ghost all = texts(ls@);
    let dash = vec!['-', ' '];
    let star = vec!['*', ' '];
    assert(dash@ =~= seq!['-', ' ']);
    assert(star@ =~= seq!['*', ' ']);
    let mut out: Vec<char> = Vec::new();
    let mut i: usize = 0;
    assert(out@ + lines_out(all, 0) =~= lines_out(all, 0));
    while i < ls.len()
        invariant
            i <= ls@.len(),
            all == texts(ls@),
            dash@ == seq!['-', ' '],
            star@ == seq!['*', ' '],
            lines_out(all, 0) == out@ + lines_out(all, i as int),
        decreases ls.len() - i,
    {
        let line = &ls[i];
        let ghost before = out@;
        let t = trim_start_of(line);
        let mut done = false;
        if has_at(&t, 0, &dash) || has_at(&t, 0, &star) {
            let content = range_of(&t, 2, t.len());
            assert(content@ =~= t@.skip(2));
            if starts_with_algo_heading(&content) {
                put_all(&reflow_algo_block(&content), &mut out);
                done = true;
            }
        }
        if !done {
            put_all(line, &mut out);
        }
        out.push('\n');
        proof {
            assert(out@ =~= before + line_out(all[i as int]));
            let z = lines_out(all, i + 1);
            assert(before + (line_out(all[i as int]) + z) =~= before + line_out(all[i as int]) + z);
        }
        i = i + 1;
    }
    assert(out@ + Seq::<char>::empty() =~= out@);
    string_of(&out)
}

} // verus!
