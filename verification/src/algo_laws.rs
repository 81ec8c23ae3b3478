//! Laws of reflowed algorithm listings.

use vstd::prelude::*;

use crate::algo_blocks::{
    block_headings, block_labels, digits, first_label, gap, headed_by, heading_end, label_at,
    label_word, line_out, lines_out, opens_block, piece, reflowed, rendered, segments, step_at,
    step_marker, step_text_at, words,
};
use crate::text::{
    all_digits, ascii_digit, ascii_letter, ascii_space, decimal, law_trim, lemma_run_bounds,
    lemma_run_is, lemma_trim_end, lemma_trim_start, number, parts, run, stands_at, trim, trim_start,
    white_space, Separator,
};

verus! {

broadcast use vstd::string::group_string_axioms;

// ---------------------------------------------------------------------------
// Words
// ---------------------------------------------------------------------------

/// The words from the `a`-th up to the `b`-th, each followed by a blank.
pub open spec fn spaced(ws: Seq<Seq<char>>, a: int, b: int) -> Seq<char>
    decreases b - a,
{
    if a >= b {
        Seq::empty()
    } else {
        spaced(ws, a, b - 1) + ws[b - 1] + seq![' ']
    }
}

/// Digits and a closing colon or full stop stand at the front of a word.
pub open spec fn numbered_word(w: Seq<char>) -> bool {
    let d = run(w, 0, digits());
    0 < d < w.len() && (w[d] == ':' || w[d] == '.')
}

/// A word of a listing that is neither the number of a step nor part of a label,
/// and holds no white space that ASCII does not have.
pub open spec fn content_word(ws: Seq<Seq<char>>, j: int) -> bool {
    &&& ws[j].len() > 0
    &&& forall|i: int| 0 <= i < ws[j].len() ==> !white_space(#[trigger] ws[j][i])
    &&& !numbered_word(ws[j])
    &&& forall|k: int|
        0 <= k < block_labels().len() ==> !stands_at(ws[j], 0, #[trigger] block_labels()[k])
    &&& !((ws[j] == "Setup"@ || ws[j] == "Online"@) && j + 1 < ws.len() && stands_at(
        ws[j + 1],
        0,
        "phase:"@,
    ))
    &&& !(stands_at(ws[j], 0, "phase:"@) && j > 0 && (stands_at(
        ws[j - 1],
        ws[j - 1].len() - 5,
        "Setup"@,
    ) || stands_at(ws[j - 1], ws[j - 1].len() - 6, "Online"@)))
}

/// A word is not empty and holds no ASCII white space.
pub open spec fn is_word(w: Seq<char>) -> bool {
    w.len() > 0 && forall|i: int| 0 <= i < w.len() ==> !ascii_space(#[trigger] w[i])
}

proof fn lemma_words(t: Seq<char>, i: int)
    requires
        0 <= i <= t.len(),
    ensures
        forall|k: int|
            0 <= k < parts(Separator::AsciiSpace, t, i).len() ==> is_word(
                #[trigger] parts(Separator::AsciiSpace, t, i)[k],
            ),
    decreases t.len() - i,
{
    let sep = Separator::AsciiSpace;
    let a = run(t, i, sep.yes());
    let b = run(t, a, sep.no());
    lemma_run_bounds(t, i, sep.yes());
    lemma_run_bounds(t, a, sep.no());
    if a < b {
        lemma_words(t, b);
        let rest = parts(sep, t, b);
        let w = t.subrange(a, b);
        assert(is_word(w)) by {
            assert forall|k: int| 0 <= k < w.len() implies !ascii_space(#[trigger] w[k]) by {
                assert(sep.no()(t[a + k]));
            }
        }
        let all = parts(sep, t, i);
        assert(all =~= seq![w] + rest);
        assert forall|k: int| 0 <= k < all.len() implies is_word(#[trigger] all[k]) by {
            if k > 0 {
                assert(all[k] == rest[k - 1]);
            }
        }
    }
}

/// Where a word stands among the words around it.
proof fn lemma_spaced_at(ws: Seq<Seq<char>>, a: int, j: int, b: int)
    requires
        0 <= a <= j < b <= ws.len(),
    ensures
        spaced(ws, a, j).len() + ws[j].len() + 1 <= spaced(ws, a, b).len(),
        stands_at(spaced(ws, a, b), spaced(ws, a, j).len() as int, ws[j]),
        spaced(ws, a, b)[spaced(ws, a, j).len() as int + ws[j].len()] == ' ',
        j > a ==> spaced(ws, a, b)[spaced(ws, a, j).len() - 1] == ' ',
        j + 1 == b ==> spaced(ws, a, b).len() == spaced(ws, a, j).len() + ws[j].len() + 1,
        spaced(ws, a, j + 1).len() == spaced(ws, a, j).len() + ws[j].len() + 1,
    decreases b - a,
{
    let t = spaced(ws, a, b);
    let u = spaced(ws, a, b - 1);
    let p = spaced(ws, a, j).len() as int;
    let n = ws[j].len() as int;
    assert(t =~= u + ws[b - 1] + seq![' ']);
    assert(spaced(ws, a, j + 1) =~= spaced(ws, a, j) + ws[j] + seq![' ']);
    if j == b - 1 {
        assert(t.subrange(p, p + n) =~= ws[j]);
        if j > a {
            lemma_spaced_at(ws, a, j - 1, b - 1);
            assert(t[p - 1] == u[p - 1]);
        }
    } else {
        lemma_spaced_at(ws, a, j, b - 1);
        assert(t.subrange(p, p + n) =~= u.subrange(p, p + n));
        assert(t[p + n] == u[p + n]);
        if j > a {
            assert(t[p - 1] == u[p - 1]);
        }
    }
}

// ---------------------------------------------------------------------------
// Labels
// ---------------------------------------------------------------------------

/// A label ends with its only colon, and a blank in it stands before `phase:`.
proof fn lemma_label_shape(k: int)
    requires
        0 <= k < block_labels().len(),
    ensures
        block_labels()[k].len() >= 6,
        'A' <= block_labels()[k][0] <= 'Z',
        forall|q: int|
            0 <= q < block_labels()[k].len() ==> (#[trigger] block_labels()[k][q] == ':' <==> q
                == block_labels()[k].len() - 1),
        forall|q: int|
            0 <= q < block_labels()[k].len() && #[trigger] block_labels()[k][q] == ' ' ==> (
            block_labels()[k].take(q) == "Setup"@ || block_labels()[k].take(q) == "Online"@)
                && block_labels()[k].skip(q + 1) == "phase:"@,
{
    reveal_strlit("Setup");
    reveal_strlit("Online");
    reveal_strlit("phase:");
    reveal_strlit("Input:");
    reveal_strlit("Output:");
    reveal_strlit("Setup phase:");
    reveal_strlit("Online phase:");
    reveal_strlit("Setup:");
    reveal_strlit("Online:");
    reveal_strlit("Functionality:");
    reveal_strlit("Requires:");
    reveal_strlit("Ensures:");
    reveal_strlit("Precondition:");
    reveal_strlit("Postcondition:");
    let l = block_labels()[k];
    assert forall|q: int| 0 <= q < l.len() && #[trigger] l[q] == ' ' implies (l.take(q)
        == "Setup"@ || l.take(q) == "Online"@) && l.skip(q + 1) == "phase:"@ by {
        if k == 2 {
            assert(q == 5);
            assert(l.take(5) =~= "Setup"@);
            assert(l.skip(6) =~= "phase:"@);
        } else if k == 3 {
            assert(q == 6);
            assert(l.take(6) =~= "Online"@);
            assert(l.skip(7) =~= "phase:"@);
        }
    }
}

/// The first label of the list that stands at a place does stand there.
proof fn lemma_first_label(t: Seq<char>, i: int, k: int)
    requires
        0 <= k <= block_labels().len(),
    ensures
        first_label(t, i, k) matches Some(m) ==> k <= m < block_labels().len() && stands_at(
            t,
            i,
            block_labels()[m],
        ),
        first_label(t, i, k) is None ==> forall|m: int|
            k <= m < block_labels().len() ==> !stands_at(t, i, #[trigger] block_labels()[m]),
    decreases block_labels().len() - k,
{
    if k < block_labels().len() && !stands_at(t, i, block_labels()[k]) {
        lemma_first_label(t, i, k + 1);
    }
}

// ---------------------------------------------------------------------------
// No content is lost
// ---------------------------------------------------------------------------

/// A word that stands in a stretch stands in the text, and the other way round.
proof fn lemma_stands_within(t: Seq<char>, a: int, b: int, p: int, w: Seq<char>)
    requires
        0 <= a <= b <= t.len(),
        a <= p,
        p + w.len() <= b,
    ensures
        stands_at(t, p, w) <==> stands_at(t.subrange(a, b), p - a, w),
{
    let u = t.subrange(a, b);
    assert(u.subrange(p - a, p - a + w.len()) =~= t.subrange(p, p + w.len()));
}

proof fn lemma_stands_in_sum(a: Seq<char>, t: Seq<char>, b: Seq<char>, p: int, w: Seq<char>)
    requires
        stands_at(t, p, w),
    ensures
        stands_at(a + t + b, a.len() + p, w),
{
    let s = a + t + b;
    let q = a.len() + p;
    assert(s.subrange(q, q + w.len()) =~= t.subrange(p, p + w.len()));
}

/// The words of a segment that are content stand behind the number or label that
/// the segment begins with.
#[verifier::rlimit(60)]
#[verifier::spinoff_prover]
proof fn lemma_content_behind(ws: Seq<Seq<char>>, a: int, j: int, b: int, x: int, y: int, cut: int)
    requires
        0 <= a <= j < b <= ws.len(),
        forall|k: int| 0 <= k < ws.len() ==> is_word(#[trigger] ws[k]),
        content_word(ws, j),
        0 <= x <= y <= spaced(ws, a, b).len(),
        forall|i: int|
            0 <= i < x || y <= i < spaced(ws, a, b).len() ==> white_space(
                #[trigger] spaced(ws, a, b)[i],
            ),
        ({
            let t = spaced(ws, a, b).subrange(x, y);
            ||| cut == 0
            ||| step_text_at(t) == Some(cut)
            ||| first_label(t, 0, 0) matches Some(k) && cut == block_labels()[k].len()
        }),
    ensures
        x + cut <= spaced(ws, a, j).len(),
        spaced(ws, a, j).len() + ws[j].len() <= y,
{
    let cur = spaced(ws, a, b);
    let t = cur.subrange(x, y);
    let big = spaced(ws, a, j).len() as int;
    let w = ws[j];
    let n = w.len() as int;
    lemma_spaced_at(ws, a, j, b);
    assert(cur.subrange(big, big + n) == w);
    assert(w[0] == cur[big]);
    assert(w[n - 1] == cur[big + n - 1]);
    assert(x <= big);
    assert(big + n <= y);
    let p = big - x;
    assert forall|i: int| 0 <= i < n implies #[trigger] w[i] == t[p + i] by {
        assert(cur.subrange(big, big + n)[i] == cur[big + i]);
    }
    assert(p + n < t.len() ==> t[p + n] == ' ');
    assert(p > 0 ==> t[p - 1] == ' ') by {
        if p > 0 && j == a {
            assert(big == 0);
        }
    }
    if p < cut {
        if step_text_at(t) == Some(cut) {
            let d = run(t, 0, digits());
            lemma_run_bounds(t, 0, digits());
            assert(cut == d + 1);
            if p > 0 {
                assert(digits()(t[p - 1]));
            } else if n <= d {
                if n < d {
                    assert(digits()(t[n]));
                }
            } else {
                assert forall|i: int| 0 <= i < d implies digits()(#[trigger] w[i]) by {
                    assert(digits()(t[i]));
                    assert(w[i] == t[p + i]);
                }
                assert(w[d] == t[p + d]);
                lemma_run_is(w, 0, d, digits());
                assert(numbered_word(w));
            }
        } else {
            lemma_first_label(t, 0, 0);
            let k = first_label(t, 0, 0)->0;
            let l = block_labels()[k];
            lemma_label_shape(k);
            assert(stands_at(t, 0, l));
            assert forall|i: int| 0 <= i < l.len() implies #[trigger] l[i] == t[i] by {
                assert(t.subrange(0, l.len() as int)[i] == t[i]);
            }
            if p == 0 {
                if n >= l.len() {
                    assert(w.subrange(0, l.len() as int) =~= l);
                    assert(stands_at(w, 0, block_labels()[k]));
                } else {
                    assert(l[n] == t[n]);
                    assert(l[n] == ' ');
                    assert(w =~= l.take(n));
                    reveal_strlit("phase:");
                    assert(l.skip(n + 1).len() == 6);
                    assert(j + 1 < b);
                    lemma_starts_with_phase(ws, a, j + 1, b, x, y, l, n + 1);
                }
            } else {
                let q = p - 1;
                assert(l[q] == ' ');
                assert(l.skip(q + 1) == "phase:"@);
                lemma_starts_with_phase(ws, a, j, b, x, y, l, p);
                assert(j > a) by {
                    if j == a {
                        assert(big == 0);
                    }
                }
                lemma_ends_with_first(ws, a, j, b, x, y, l, q);
            }
        }
    }
}

/// A word that stands in a label where `phase:` does begins with it.
#[verifier::rlimit(30)]
proof fn lemma_starts_with_phase(
    ws: Seq<Seq<char>>,
    a: int,
    j: int,
    b: int,
    x: int,
    y: int,
    l: Seq<char>,
    p: int,
)
    requires
        0 <= a <= j < b <= ws.len(),
        is_word(ws[j]),
        0 <= x <= y <= spaced(ws, a, b).len(),
        spaced(ws, a, j).len() == x + p,
        0 <= p <= l.len(),
        l.skip(p) == "phase:"@,
        stands_at(spaced(ws, a, b).subrange(x, y), 0, l),
    ensures
        stands_at(ws[j], 0, "phase:"@),
{
    reveal_strlit("phase:");
    let cur = spaced(ws, a, b);
    let t = cur.subrange(x, y);
    let w = ws[j];
    let n = w.len() as int;
    lemma_spaced_at(ws, a, j, b);
    assert(cur.subrange(x + p, x + p + n) == w);
    assert(l.len() == p + 6) by {
        assert(l.skip(p).len() == l.len() - p);
    }
    assert forall|i: int| 0 <= i < 6 implies #[trigger] "phase:"@[i] == cur[x + p + i] by {
        assert(l.skip(p)[i] == l[p + i]);
        assert(t.subrange(0, l.len() as int)[p + i] == t[p + i]);
    }
    if n < 6 {
        assert(cur[x + p + n] == ' ');
        assert("phase:"@[n] == ' ');
    }
    assert(w.subrange(0, 6) =~= "phase:"@) by {
        assert forall|i: int| 0 <= i < 6 implies w[i] == "phase:"@[i] by {
            assert(cur.subrange(x + p, x + p + n)[i] == cur[x + p + i]);
        }
    }
}

/// The word before one that stands in a label where `phase:` does ends with the
/// label's first word.
#[verifier::rlimit(30)]
proof fn lemma_ends_with_first(
    ws: Seq<Seq<char>>,
    a: int,
    j: int,
    b: int,
    x: int,
    y: int,
    l: Seq<char>,
    q: int,
)
    requires
        0 <= a < j < b <= ws.len(),
        is_word(ws[j - 1]),
        0 <= x <= y <= spaced(ws, a, b).len(),
        spaced(ws, a, j).len() == x + q + 1,
        0 <= q < l.len(),
        l.take(q) == "Setup"@ || l.take(q) == "Online"@,
        stands_at(spaced(ws, a, b).subrange(x, y), 0, l),
    ensures
        stands_at(ws[j - 1], ws[j - 1].len() - 5, "Setup"@) || stands_at(
            ws[j - 1],
            ws[j - 1].len() - 6,
            "Online"@,
        ),
{
    reveal_strlit("Setup");
    reveal_strlit("Online");
    let cur = spaced(ws, a, b);
    let t = cur.subrange(x, y);
    let w = ws[j - 1];
    let n = w.len() as int;
    let f = l.take(q);
    lemma_spaced_at(ws, a, j - 1, b);
    let s = spaced(ws, a, j - 1).len() as int;
    assert(s + n + 1 == x + q + 1);
    assert(cur.subrange(s, s + n) == w);
    assert forall|i: int| 0 <= i < q implies #[trigger] f[i] == cur[x + i] by {
        assert(f[i] == l[i]);
        assert(t.subrange(0, l.len() as int)[i] == t[i]);
    }
    assert(f.len() == q);
    assert("Setup"@.len() == 5 && "Online"@.len() == 6);
    assert forall|i: int| 0 <= i < q implies #[trigger] f[i] != ' ' by {
        if f == "Setup"@ {
            assert(i == 0 || i == 1 || i == 2 || i == 3 || i == 4);
        } else {
            assert(i == 0 || i == 1 || i == 2 || i == 3 || i == 4 || i == 5);
        }
    }
    if n < q {
        if j - 1 > a {
            assert(cur[s - 1] == ' ');
            assert(f[s - 1 - x] == ' ');
        } else {
            assert(s == 0);
        }
    }
    assert(w.subrange(n - q, n) =~= f) by {
        assert forall|i: int| 0 <= i < q implies w[n - q + i] == f[i] by {
            assert(cur.subrange(s, s + n)[n - q + i] == cur[s + n - q + i]);
        }
    }
}

/// What a segment becomes is its text from some place on, trimmed, with something
/// put before it and behind it. Only a step's number or a label is cut off.
proof fn lemma_piece_core(t: Seq<char>, in_list: bool, n: nat) -> (r: (
    Seq<char>,
    Seq<char>,
    int,
    int,
    int,
))
    ensures
        ({
            let (front, back, cut, u, v) = r;
            let rest = t.skip(cut);
            &&& cut == 0 || step_text_at(t) == Some(cut) || (first_label(t, 0, 0) matches Some(k)
                && cut == block_labels()[k].len())
            &&& 0 <= cut <= t.len()
            &&& 0 <= u <= v <= rest.len()
            &&& forall|i: int|
                0 <= i < u || v <= i < rest.len() ==> white_space(#[trigger] rest[i])
            &&& u < v ==> piece(t, in_list, n) == front + rest.subrange(u, v) + back
        }),
{
    lemma_first_label(t, 0, 0);
    match step_text_at(t) {
        Some(cut) => {
            lemma_run_bounds(t, 0, digits());
            let (u, v) = law_trim(t.skip(cut));
            (gap(!in_list) + decimal(n) + ". "@, seq!['\n'], cut, u, v)
        },
        None => match first_label(t, 0, 0) {
            Some(k) => {
                let cut = block_labels()[k].len() as int;
                let (u, v) = law_trim(t.skip(cut));
                let l = "**"@ + block_labels()[k].drop_last() + "** "@;
                let core = t.skip(cut).subrange(u, v);
                if u < v {
                    assert(gap(in_list) + (l + core + "\n\n"@) =~= gap(in_list) + l + core
                        + "\n\n"@);
                }
                (gap(in_list) + l, "\n\n"@, cut, u, v)
            },
            None => {
                let rest = t.skip(0);
                assert(rest.subrange(0, rest.len() as int) =~= t);
                (gap(in_list), "\n\n"@, 0, 0, rest.len() as int)
            },
        },
    }
}

/// What a segment becomes holds its content words, all moved by the same
/// distance.
proof fn lemma_piece_holds(
    ws: Seq<Seq<char>>,
    a: int,
    b: int,
    in_list: bool,
    n: nat,
) -> (delta: int)
    requires
        0 <= a <= b <= ws.len(),
        forall|k: int| 0 <= k < ws.len() ==> is_word(#[trigger] ws[k]),
    ensures
        forall|j: int|
            a <= j < b && #[trigger] content_word(ws, j) ==> stands_at(
                piece(trim(spaced(ws, a, b)), in_list, n),
                spaced(ws, a, j).len() + delta,
                ws[j],
            ),
{
    let cur = spaced(ws, a, b);
    let (x, y) = law_trim(cur);
    let t = cur.subrange(x, y);
    let (front, back, cut, u, v) = lemma_piece_core(t, in_list, n);
    let out = piece(t, in_list, n);
    let delta = front.len() - u - cut - x;
    assert forall|j: int| a <= j < b && #[trigger] content_word(ws, j) implies stands_at(
        out,
        spaced(ws, a, j).len() + delta,
        ws[j],
    ) by {
        lemma_content_behind(ws, a, j, b, x, y, cut);
        lemma_spaced_at(ws, a, j, b);
        assert(ws[j].len() > 0 && !white_space(ws[j][0]) && !white_space(
            ws[j][ws[j].len() - 1],
        ));
        lemma_word_moves(
            cur,
            x,
            y,
            cut,
            u,
            v,
            spaced(ws, a, j).len() as int,
            ws[j],
            front,
            back,
        );
    }
    delta
}

/// A word keeps its place in what is left of a text that is cut twice.
proof fn lemma_word_moves(
    cur: Seq<char>,
    x: int,
    y: int,
    cut: int,
    u: int,
    v: int,
    big: int,
    w: Seq<char>,
    front: Seq<char>,
    back: Seq<char>,
)
    requires
        0 <= x <= y <= cur.len(),
        0 <= cut <= y - x,
        0 <= u <= v <= y - x - cut,
        stands_at(cur, big, w),
        x + cut <= big,
        big + w.len() <= y,
        w.len() > 0,
        !white_space(w[0]),
        !white_space(w[w.len() - 1]),
        forall|i: int|
            0 <= i < u || v <= i < y - x - cut ==> white_space(
                #[trigger] cur.subrange(x, y).skip(cut)[i],
            ),
    ensures
        u < v,
        stands_at(
            front + cur.subrange(x, y).skip(cut).subrange(u, v) + back,
            big + (front.len() - u - cut - x),
            w,
        ),
{
    let t = cur.subrange(x, y);
    let rest = t.skip(cut);
    let m = w.len() as int;
    lemma_stands_within(cur, x, y, big, w);
    let p = big - x;
    lemma_stands_within(t, cut, t.len() as int, p, w);
    assert(t.subrange(cut, t.len() as int) =~= rest);
    let q = p - cut;
    assert(rest.subrange(q, q + m)[0] == rest[q]);
    assert(rest.subrange(q, q + m)[m - 1] == rest[q + m - 1]);
    assert(u <= q && q + m <= v);
    lemma_stands_within(rest, u, v, q, w);
    lemma_stands_in_sum(front, rest.subrange(u, v), back, q - u, w);
}

/// Where rendering begins does not matter.
proof fn lemma_rendered_tail(s: Seq<char>, rest: Seq<Seq<char>>, i: int, in_list: bool, n: nat)
    requires
        0 <= i,
    ensures
        rendered(seq![s] + rest, i + 1, in_list, n) == rendered(rest, i, in_list, n),
    decreases rest.len() - i,
{
    let all = seq![s] + rest;
    if i < rest.len() {
        assert(all[i + 1] == rest[i]);
        let seg = trim(rest[i]);
        if seg.len() == 0 {
            lemma_rendered_tail(s, rest, i + 1, in_list, n);
        } else if step_text_at(seg) is Some {
            lemma_rendered_tail(s, rest, i + 1, true, n + 1);
        } else {
            lemma_rendered_tail(s, rest, i + 1, false, n);
        }
    }
}

/// The content words from the `a`-th on stand in what their segments become, in
/// their order.
pub open spec fn in_place(ws: Seq<Seq<char>>, a: int, at: Seq<int>, out: Seq<char>) -> bool {
    &&& at.len() == ws.len()
    &&& forall|j: int|
        a <= j < ws.len() && #[trigger] content_word(ws, j) ==> stands_at(out, at[j], ws[j])
    &&& forall|j: int, k: int|
        a <= j < k < ws.len() && #[trigger] content_word(ws, j) && #[trigger] content_word(ws, k)
            ==> at[j] + ws[j].len() <= at[k]
}

/// Text without anything but white space holds no content word.
proof fn lemma_no_content(ws: Seq<Seq<char>>, a: int, b: int)
    requires
        0 <= a <= b <= ws.len(),
        trim(spaced(ws, a, b)).len() == 0,
    ensures
        forall|j: int| a <= j < b ==> !#[trigger] content_word(ws, j),
{
    let cur = spaced(ws, a, b);
    let (x, y) = law_trim(cur);
    assert(x == y);
    assert forall|j: int| a <= j < b implies !#[trigger] content_word(ws, j) by {
        if content_word(ws, j) {
            lemma_spaced_at(ws, a, j, b);
            let p = spaced(ws, a, j).len() as int;
            assert(cur.subrange(p, p + ws[j].len())[0] == cur[p]);
            assert(ws[j][0] == cur[p]);
        }
    }
}

/// A segment and what follows it, put together.
proof fn lemma_segment_then(
    ws: Seq<Seq<char>>,
    a: int,
    i: int,
    in_list: bool,
    n: nat,
    after: Seq<int>,
    tail: Seq<char>,
) -> (at: Seq<int>)
    requires
        0 <= a <= i <= ws.len(),
        forall|k: int| 0 <= k < ws.len() ==> is_word(#[trigger] ws[k]),
        in_place(ws, i, after, tail),
    ensures
        in_place(ws, a, at, piece(trim(spaced(ws, a, i)), in_list, n) + tail),
{
    let p = piece(trim(spaced(ws, a, i)), in_list, n);
    let delta = lemma_piece_holds(ws, a, i, in_list, n);
    let at = Seq::new(
        ws.len(),
        |j: int|
            if j < i {
                spaced(ws, a, j).len() + delta
            } else {
                p.len() + after[j]
            },
    );
    let out = p + tail;
    assert forall|j: int| a <= j < ws.len() && #[trigger] content_word(ws, j) implies stands_at(
        out,
        at[j],
        ws[j],
    ) by {
        if j < i {
            lemma_stands_in_sum(Seq::empty(), p, tail, at[j], ws[j]);
            assert(Seq::<char>::empty() + p + tail =~= out);
        } else {
            lemma_stands_in_sum(p, tail, Seq::empty(), after[j], ws[j]);
            assert(p + tail + Seq::<char>::empty() =~= out);
        }
    }
    assert forall|j: int, k: int|
        a <= j < k < ws.len() && #[trigger] content_word(ws, j) && #[trigger] content_word(
            ws,
            k,
        ) implies at[j] + ws[j].len() <= at[k] by {
        if k < i {
            lemma_spaced_at(ws, a, j, k);
        } else if j < i {
            assert(stands_at(p, at[j], ws[j]));
            assert(stands_at(tail, after[k], ws[k]));
        }
    }
    at
}

/// What the words from the `i`-th on become, with those from the `a`-th on as
/// the segment in hand.
proof fn lemma_segments_hold(
    ws: Seq<Seq<char>>,
    a: int,
    i: int,
    in_list: bool,
    n: nat,
) -> (at: Seq<int>)
    requires
        0 <= a <= i <= ws.len(),
        forall|k: int| 0 <= k < ws.len() ==> is_word(#[trigger] ws[k]),
    ensures
        in_place(ws, a, at, rendered(segments(ws, i, spaced(ws, a, i)), 0, in_list, n)),
    decreases ws.len() - i,
{
    let cur = spaced(ws, a, i);
    let segs = segments(ws, i, cur);
    let out = rendered(segs, 0, in_list, n);
    let step = step_text_at(trim(cur)) is Some;
    let m: nat = if step {
        n + 1
    } else {
        n
    };
    if i >= ws.len() {
        let none = Seq::new(ws.len(), |j: int| 0int);
        if trim(cur).len() > 0 {
            let tail = rendered(seq![cur], 1, step, m);
            assert(tail =~= Seq::<char>::empty());
            assert(seq![cur][0] == cur);
            assert(out =~= piece(trim(cur), in_list, n) + tail);
            assert(in_place(ws, i, none, tail));
            lemma_segment_then(ws, a, i, in_list, n, none, tail)
        } else {
            lemma_no_content(ws, a, i);
            none
        }
    } else if (label_word(ws, i) || step_marker(ws[i])) && trim(cur).len() > 0 {
        assert(spaced(ws, i, i + 1) =~= ws[i] + seq![' ']) by {
            assert(spaced(ws, i, i) =~= Seq::<char>::empty());
        }
        let rest = segments(ws, i + 1, ws[i] + seq![' ']);
        let after = lemma_segments_hold(ws, i, i + 1, step, m);
        lemma_rendered_tail(cur, rest, 0, step, m);
        assert(segs == seq![cur] + rest);
        assert(segs[0] == cur);
        let tail = rendered(rest, 0, step, m);
        assert(out =~= piece(trim(cur), in_list, n) + tail);
        lemma_segment_then(ws, a, i, in_list, n, after, tail)
    } else {
        assert(spaced(ws, a, i + 1) =~= cur + ws[i] + seq![' ']);
        lemma_segments_hold(ws, a, i + 1, in_list, n)
    }
}

/// Reflowing a listing loses no content. Every word of its body that is neither
/// the number of a step nor part of a label stands in the result, and the words
/// stand there one behind the other in their order.
pub proof fn law_reflow_keeps_words(content: Seq<char>) -> (at: Seq<int>)
    ensures
        ({
            let ws = words(content.skip(heading_end(content, 0)));
            let out = reflowed(content);
            &&& at.len() == ws.len()
            &&& forall|j: int|
                0 <= j < ws.len() && #[trigger] content_word(ws, j) ==> stands_at(
                    out,
                    at[j],
                    ws[j],
                )
            &&& forall|j: int, k: int|
                0 <= j < k < ws.len() && #[trigger] content_word(ws, j) && #[trigger] content_word(
                    ws,
                    k,
                ) ==> at[j] + ws[j].len() <= at[k]
        }),
{
    let e = heading_end(content, 0);
    let ws = words(content.skip(e));
    lemma_words(content.skip(e), 0);
    let front = "\n#### "@ + trim(content.take(e)) + "\n\n"@;
    assert(spaced(ws, 0, 0) =~= Seq::<char>::empty());
    let after = lemma_segments_hold(ws, 0, 0, false, 1);
    let body = rendered(segments(ws, 0, Seq::empty()), 0, false, 1);
    let at = after.map_values(|p: int| front.len() + p);
    assert forall|j: int| 0 <= j < ws.len() && #[trigger] content_word(ws, j) implies stands_at(
        reflowed(content),
        at[j],
        ws[j],
    ) by {
        lemma_stands_in_sum(front, body, Seq::empty(), after[j], ws[j]);
        assert(front + body + Seq::<char>::empty() =~= reflowed(content));
    }
    at
}

// ---------------------------------------------------------------------------
// Labels stay with their text
// ---------------------------------------------------------------------------

/// A word begins a segment.
pub open spec fn begins_segment(ws: Seq<Seq<char>>, i: int) -> bool {
    label_word(ws, i) || step_marker(ws[i])
}

/// What stands behind white space only is trimmed as if it stood alone.
proof fn lemma_trim_behind_white(ws: Seq<Seq<char>>, a: int, i: int, j: int)
    requires
        0 <= a <= i <= j <= ws.len(),
        trim(spaced(ws, a, i)).len() == 0,
    ensures
        trim(spaced(ws, a, j)) == trim(spaced(ws, i, j)),
{
    let u = spaced(ws, a, i);
    let v = spaced(ws, i, j);
    lemma_spaced_sum(ws, a, i, j);
    let (x, y) = law_trim(u);
    assert(x == y);
    let t = u + v;
    let (p, q) = law_trim(v);
    let n = u.len() as int;
    assert forall|k: int| 0 <= k < n implies white_space(#[trigger] t[k]) by {
        assert(t[k] == u[k]);
    }
    assert forall|k: int| 0 <= k < n + p implies white_space(#[trigger] t[k]) by {
        if k >= n {
            assert(t[k] == v[k - n]);
        }
    }
    if p < q {
        assert(t[n + p] == v[p]);
        lemma_trim_start(t, n + p);
        let r = t.skip(n + p);
        assert forall|k: int| q - p <= k < r.len() implies white_space(#[trigger] r[k]) by {
            assert(r[k] == v[p + k]);
        }
        assert(r[q - p - 1] == v[q - 1]);
        lemma_trim_end(r, q - p);
        assert(r.take(q - p) =~= v.subrange(p, q));
    } else {
        assert forall|k: int| 0 <= k < t.len() implies white_space(#[trigger] t[k]) by {
            if k >= n {
                assert(t[k] == v[k - n]);
            }
        }
        lemma_trim_start(t, t.len() as int);
        assert(t.skip(t.len() as int) =~= Seq::<char>::empty());
        assert(v.subrange(p, q) =~= Seq::<char>::empty());
    }
}

proof fn lemma_spaced_sum(ws: Seq<Seq<char>>, a: int, i: int, j: int)
    requires
        a <= i <= j,
    ensures
        spaced(ws, a, j) == spaced(ws, a, i) + spaced(ws, i, j),
    decreases j - i,
{
    if i < j {
        lemma_spaced_sum(ws, a, i, j - 1);
        assert(spaced(ws, a, j) =~= spaced(ws, a, i) + spaced(ws, i, j));
    } else {
        assert(spaced(ws, a, i) + spaced(ws, i, j) =~= spaced(ws, a, i));
    }
}

/// The segment that begins with the `i`-th word and ends before the `j`-th is
/// rendered, whatever white space stands before it.
proof fn lemma_segment_rendered(
    ws: Seq<Seq<char>>,
    a: int,
    k: int,
    i: int,
    j: int,
    in_list: bool,
    n: nat,
) -> (r: (int, bool, nat))
    requires
        0 <= a <= k <= j <= ws.len(),
        0 <= i < j,
        k <= i || (a <= i && trim(spaced(ws, a, i)).len() == 0),
        begins_segment(ws, i),
        forall|q: int| i < q < j ==> !#[trigger] begins_segment(ws, q),
        j == ws.len() || begins_segment(ws, j),
        trim(spaced(ws, i, j)).len() > 0,
    ensures
        stands_at(
            rendered(segments(ws, k, spaced(ws, a, k)), 0, in_list, n),
            r.0,
            piece(trim(spaced(ws, i, j)), r.1, r.2),
        ),
    decreases ws.len() - k,
{
    let cur = spaced(ws, a, k);
    let segs = segments(ws, k, cur);
    let out = rendered(segs, 0, in_list, n);
    let step = step_text_at(trim(cur)) is Some;
    let m: nat = if step {
        n + 1
    } else {
        n
    };
    if k == j {
        lemma_trim_behind_white(ws, a, i, j);
        let p = piece(trim(cur), in_list, n);
        if j < ws.len() {
            let rest = segments(ws, j + 1, ws[j] + seq![' ']);
            assert(segs == seq![cur] + rest);
            assert(segs[0] == cur);
            let tail = rendered(segs, 1, step, m);
            assert(out =~= p + tail);
            assert(out.subrange(0, p.len() as int) =~= p);
        } else {
            assert(segs =~= seq![cur]);
            let tail = rendered(segs, 1, step, m);
            assert(tail =~= Seq::<char>::empty());
            assert(out =~= p + tail);
            assert(out.subrange(0, p.len() as int) =~= p);
        }
        (0, in_list, n)
    } else if begins_segment(ws, k) && trim(cur).len() > 0 {
        assert(k <= i);
        assert(spaced(ws, k, k) =~= Seq::<char>::empty());
        assert(spaced(ws, k, k + 1) =~= ws[k] + seq![' ']);
        let rest = segments(ws, k + 1, ws[k] + seq![' ']);
        if k == i {
            lemma_trim_nothing();
        }
        let r = lemma_segment_rendered(ws, k, k + 1, i, j, step, m);
        lemma_rendered_tail(cur, rest, 0, step, m);
        assert(segs == seq![cur] + rest);
        assert(segs[0] == cur);
        let tail = rendered(rest, 0, step, m);
        let p = piece(trim(cur), in_list, n);
        assert(out =~= p + tail);
        let w = piece(trim(spaced(ws, i, j)), r.1, r.2);
        lemma_stands_in_sum(p, tail, Seq::empty(), r.0, w);
        assert(p + tail + Seq::<char>::empty() =~= out);
        (p.len() + r.0, r.1, r.2)
    } else {
        assert(spaced(ws, a, k + 1) =~= cur + ws[k] + seq![' ']);
        lemma_segment_rendered(ws, a, k + 1, i, j, in_list, n)
    }
}

proof fn lemma_trim_nothing()
    ensures
        trim(Seq::<char>::empty()).len() == 0,
{
    let (x, y) = law_trim(Seq::<char>::empty());
}

/// A text that begins with a label becomes that label in bold and the rest of
/// the text, trimmed.
pub proof fn law_label_in_bold(label: Seq<char>, rest: Seq<char>, in_list: bool, n: nat)
    requires
        seq![
            "Input"@,
            "Output"@,
            "Setup phase"@,
            "Online phase"@,
            "Setup"@,
            "Online"@,
            "Functionality"@,
            "Requires"@,
            "Ensures"@,
            "Precondition"@,
            "Postcondition"@,
        ].contains(label),
    ensures
        ({
            let before: Seq<char> = if in_list {
                seq!['\n']
            } else {
                Seq::empty()
            };
            &&& trim(rest).len() > 0 ==> piece(label + seq![':'] + rest, in_list, n) == before
                + "**"@ + label + "** "@ + trim(rest) + "\n\n"@
            &&& trim(rest).len() == 0 ==> piece(label + seq![':'] + rest, in_list, n) == before
                + "**"@ + label + "**\n\n"@
        }),
{
    let k = lemma_label_index(label);
    let l = block_labels()[k];
    let t = label + seq![':'] + rest;
    assert(t.subrange(0, l.len() as int) =~= l);
    assert(stands_at(t, 0, l));
    lemma_label_shape(k);
    assert(t[0] == l[0]);
    assert(!ascii_digit(t[0]));
    lemma_run_is(t, 0, 0, digits());
    assert(step_text_at(t) is None);
    lemma_first_label(t, 0, 0);
    let m = first_label(t, 0, 0)->0;
    let o = block_labels()[m];
    lemma_label_shape(m);
    assert(t.subrange(0, o.len() as int)[o.len() - 1] == t[o.len() - 1]);
    if o.len() < l.len() {
        assert(t.subrange(0, l.len() as int)[o.len() - 1] == t[o.len() - 1]);
        assert(l[o.len() - 1] == ':');
    }
    if l.len() < o.len() {
        assert(t.subrange(0, o.len() as int)[l.len() - 1] == t[l.len() - 1]);
        assert(o[l.len() - 1] == ':');
    }
    assert(o =~= l);
    assert(o.drop_last() =~= label);
    assert(t.skip(o.len() as int) =~= rest);
    let before = gap(in_list);
    if trim(rest).len() == 0 {
        assert(before + ("**"@ + label + "**\n\n"@) =~= before + "**"@ + label + "**\n\n"@);
    } else {
        assert(before + ("**"@ + label + "** "@ + trim(rest) + "\n\n"@) =~= before + "**"@ + label
            + "** "@ + trim(rest) + "\n\n"@);
    }
}

/// Each of these names is a label with a colon behind it.
proof fn lemma_label_index(label: Seq<char>) -> (k: int)
    requires
        seq![
            "Input"@,
            "Output"@,
            "Setup phase"@,
            "Online phase"@,
            "Setup"@,
            "Online"@,
            "Functionality"@,
            "Requires"@,
            "Ensures"@,
            "Precondition"@,
            "Postcondition"@,
        ].contains(label),
    ensures
        0 <= k < block_labels().len(),
        block_labels()[k] == label + seq![':'],
{
    let all = seq![
        "Input"@,
        "Output"@,
        "Setup phase"@,
        "Online phase"@,
        "Setup"@,
        "Online"@,
        "Functionality"@,
        "Requires"@,
        "Ensures"@,
        "Precondition"@,
        "Postcondition"@,
    ];
    let k = choose|k: int| 0 <= k < all.len() && all[k] == label;
    reveal_strlit("Input");
    reveal_strlit("Input:");
    reveal_strlit("Output");
    reveal_strlit("Output:");
    reveal_strlit("Setup phase");
    reveal_strlit("Setup phase:");
    reveal_strlit("Online phase");
    reveal_strlit("Online phase:");
    reveal_strlit("Setup");
    reveal_strlit("Setup:");
    reveal_strlit("Online");
    reveal_strlit("Online:");
    reveal_strlit("Functionality");
    reveal_strlit("Functionality:");
    reveal_strlit("Requires");
    reveal_strlit("Requires:");
    reveal_strlit("Ensures");
    reveal_strlit("Ensures:");
    reveal_strlit("Precondition");
    reveal_strlit("Precondition:");
    reveal_strlit("Postcondition");
    reveal_strlit("Postcondition:");
    assert(block_labels()[k] =~= label + seq![':']);
    k
}

/// The text behind a label stays: the label stands in bold in the result, with
/// the words up to the next label or step, or up to the end, behind it.
pub proof fn law_label_text_stays(
    content: Seq<char>,
    label: Seq<char>,
    i: int,
    m: int,
    j: int,
) -> (p: int)
    requires
        seq![
            "Input"@,
            "Output"@,
            "Setup phase"@,
            "Online phase"@,
            "Setup"@,
            "Online"@,
            "Functionality"@,
            "Requires"@,
            "Ensures"@,
            "Precondition"@,
            "Postcondition"@,
        ].contains(label),
        ({
            let ws = words(content.skip(heading_end(content, 0)));
            &&& 0 <= i < m <= j <= ws.len()
            &&& m == i + 1 || m == i + 2
            &&& spaced(ws, i, m) == label + seq![':', ' ']
            &&& forall|q: int| i < q < j ==> !#[trigger] begins_segment(ws, q)
            &&& j == ws.len() || begins_segment(ws, j)
            &&& trim(spaced(ws, m, j)).len() > 0
        }),
    ensures
        stands_at(
            reflowed(content),
            p,
            "**"@ + label + "** "@ + trim(
                spaced(words(content.skip(heading_end(content, 0))), m, j),
            ) + "\n\n"@,
        ),
{
    let e = heading_end(content, 0);
    let ws = words(content.skip(e));
    lemma_words(content.skip(e), 0);
    let k = lemma_label_index(label);
    let l = block_labels()[k];
    lemma_label_shape(k);
    assert(spaced(ws, i, i) =~= Seq::<char>::empty());
    assert(spaced(ws, i, i + 1) =~= ws[i] + seq![' ']);
    let head = spaced(ws, i, m);
    assert(head =~= l + seq![' ']);
    assert(begins_segment(ws, i)) by {
        if m == i + 1 {
            assert(ws[i] =~= head.drop_last());
            assert(l =~= head.drop_last());
            assert(block_labels()[k] == ws[i]);
        } else {
            assert(spaced(ws, i, i + 2) =~= ws[i] + seq![' '] + ws[i + 1] + seq![' ']);
            assert(ws[i] + seq![' '] + ws[i + 1] =~= head.drop_last());
            assert(l =~= head.drop_last());
            assert(block_labels()[k] == ws[i] + seq![' '] + ws[i + 1]);
        }
    }
    let rest = spaced(ws, m, j);
    lemma_spaced_sum(ws, i, m, j);
    let seg = spaced(ws, i, j);
    assert(seg =~= label + seq![':'] + (seq![' '] + rest));
    let body = lemma_trim_behind_label(label, rest);
    let t = label + seq![':'] + body;
    lemma_segment_rendered_first(ws, i, j);
    let r = lemma_segment_rendered(ws, 0, 0, i, j, false, 1);
    law_label_in_bold(label, body, r.1, r.2);
    let piece_out = piece(t, r.1, r.2);
    let want = "**"@ + label + "** "@ + trim(rest) + "\n\n"@;
    let before = gap(r.1);
    assert(piece_out =~= before + want);
    let front = "\n#### "@ + trim(content.take(e)) + "\n\n"@;
    assert(spaced(ws, 0, 0) =~= Seq::<char>::empty());
    let all = rendered(segments(ws, 0, Seq::empty()), 0, false, 1);
    lemma_stands_in_sum(front, all, Seq::empty(), r.0, piece_out);
    assert(front + all + Seq::<char>::empty() =~= reflowed(content));
    let p = front.len() + r.0 + before.len();
    let out = reflowed(content);
    let q = front.len() + r.0;
    assert(out.subrange(q, q + piece_out.len()) == piece_out);
    assert(out.subrange(p, p + want.len()) =~= piece_out.subrange(
        before.len() as int,
        piece_out.len() as int,
    ));
    assert(piece_out.subrange(before.len() as int, piece_out.len() as int) =~= want);
    p
}

/// A segment of at least one word begins somewhere.
proof fn lemma_segment_rendered_first(ws: Seq<Seq<char>>, i: int, j: int)
    requires
        0 <= i < j <= ws.len(),
        spaced(ws, i, j).len() > 0,
        !white_space(spaced(ws, i, j)[0]),
    ensures
        trim(spaced(ws, i, j)).len() > 0,
{
    let (x, y) = law_trim(spaced(ws, i, j));
}

/// A label and what stands behind it, trimmed, is the label and the trimmed rest
/// up to white space between them.
proof fn lemma_trim_behind_label(label: Seq<char>, rest: Seq<char>) -> (body: Seq<char>)
    requires
        label.len() > 0,
        !white_space(label[0]),
        trim(rest).len() > 0,
    ensures
        trim(label + seq![':'] + (seq![' '] + rest)) == label + seq![':'] + body,
        trim(body) == trim(rest),
{
    let t = label + seq![':'] + (seq![' '] + rest);
    let n = label.len() as int;
    let (x, y) = law_trim(rest);
    assert(trim(rest).len() == y - x);
    assert(t[0] == label[0]);
    lemma_trim_start(t, 0);
    assert(t.skip(0) =~= t);
    let e = n + 2 + y;
    assert forall|k: int| e <= k < t.len() implies white_space(#[trigger] t[k]) by {
        assert(t[k] == rest[k - n - 2]);
    }
    assert(t[e - 1] == rest[y - 1]);
    lemma_trim_end(t, e);
    let body = seq![' '] + rest.take(y);
    assert(t.take(e) =~= label + seq![':'] + body);
    assert forall|k: int| 0 <= k < 1 + x implies white_space(#[trigger] body[k]) by {
        if k > 0 {
            assert(body[k] == rest[k - 1]);
        }
    }
    assert(body[1 + x] == rest[x]);
    lemma_trim_start(body, 1 + x);
    let u = body.skip(1 + x);
    assert(u =~= rest.subrange(x, y));
    assert(u[u.len() - 1] == rest[y - 1]);
    lemma_trim_end(u, u.len() as int);
    assert(u.take(u.len() as int) =~= u);
    body
}

// ---------------------------------------------------------------------------
// Steps are numbered in order
// ---------------------------------------------------------------------------

/// A segment is a step: digits that fit a machine word, and a colon or a full
/// stop.
pub open spec fn is_step(seg: Seq<char>) -> bool {
    numbered_word(seg) && number(seg.take(run(seg, 0, digits()))) <= usize::MAX
}

/// How many of the segments from the `i`-th up to the `k`-th are steps.
pub open spec fn steps(segs: Seq<Seq<char>>, i: int, k: int) -> nat
    decreases k - i,
{
    if i >= k {
        0
    } else {
        steps(segs, i + 1, k) + (if is_step(trim(segs[i])) {
            1nat
        } else {
            0nat
        })
    }
}

/// The `k`-th segment is rendered with the number that the steps before it call
/// for.
proof fn lemma_rendered_at(
    segs: Seq<Seq<char>>,
    i: int,
    in_list: bool,
    n: nat,
    k: int,
) -> (r: (int, bool))
    requires
        0 <= i <= k < segs.len(),
        trim(segs[k]).len() > 0,
    ensures
        stands_at(
            rendered(segs, i, in_list, n),
            r.0,
            piece(trim(segs[k]), r.1, n + steps(segs, i, k)),
        ),
    decreases k - i,
{
    let out = rendered(segs, i, in_list, n);
    let seg = trim(segs[i]);
    let p = piece(seg, in_list, n);
    if i == k {
        assert(out.subrange(0, p.len() as int) =~= p);
        (0, in_list)
    } else if seg.len() == 0 {
        assert(!is_step(seg));
        lemma_rendered_at(segs, i + 1, in_list, n, k)
    } else {
        let step = is_step(seg);
        assert(step == (step_text_at(seg) is Some));
        let m: nat = if step {
            n + 1
        } else {
            n
        };
        let r = lemma_rendered_at(segs, i + 1, step, m, k);
        let tail = rendered(segs, i + 1, step, m);
        let w = piece(trim(segs[k]), r.1, n + steps(segs, i, k));
        lemma_stands_in_sum(p, tail, Seq::empty(), r.0, w);
        assert(p + tail + Seq::<char>::empty() =~= out);
        (p.len() + r.0, r.1)
    }
}

/// Steps are numbered one after the other, whatever numbers they had: a step
/// stands in the result behind the number of steps up to it, with its text.
pub proof fn law_steps_are_numbered(segs: Seq<Seq<char>>, k: int, d: Seq<char>, mark: char, rest: Seq<
    char,
>) -> (p: int)
    requires
        0 <= k < segs.len(),
        trim(segs[k]) == d + seq![mark] + rest,
        d.len() > 0,
        all_digits(d),
        mark == ':' || mark == '.',
        number(d) <= usize::MAX,
    ensures
        stands_at(
            rendered(segs, 0, false, 1),
            p,
            decimal(1 + steps(segs, 0, k)) + ". "@ + trim(rest) + seq!['\n'],
        ),
{
    let t = trim(segs[k]);
    let e = d.len() as int;
    assert forall|i: int| 0 <= i < e implies digits()(#[trigger] t[i]) by {
        assert(t[i] == d[i]);
    }
    assert(t[e] == mark);
    lemma_run_is(t, 0, e, digits());
    assert(t.take(e) =~= d);
    assert(t.skip(e + 1) =~= rest);
    let r = lemma_rendered_at(segs, 0, false, 1, k);
    let n = 1 + steps(segs, 0, k);
    let before = gap(!r.1);
    let want = decimal(n) + ". "@ + trim(rest) + seq!['\n'];
    let full = piece(t, r.1, n);
    assert(full =~= before + want);
    let out = rendered(segs, 0, false, 1);
    let p = r.0 + before.len();
    assert(out.subrange(r.0, r.0 + full.len()) == full);
    assert(out.subrange(p, p + want.len()) =~= full.subrange(
        before.len() as int,
        full.len() as int,
    ));
    assert(full.subrange(before.len() as int, full.len() as int) =~= want);
    p
}

// ---------------------------------------------------------------------------
// Which lines are listings
// ---------------------------------------------------------------------------

/// A listing begins with one of these words and then, white space aside, a
/// digit, a colon or an opening parenthesis; nothing else is one.
pub proof fn law_listing_headings(word: Seq<char>, blank: Seq<char>, c: char, rest: Seq<char>)
    requires
        seq![
            "Protocol"@,
            "Functionality"@,
            "Algorithm"@,
            "Definition"@,
            "Theorem"@,
            "Lemma"@,
            "Proposition"@,
            "Corollary"@,
        ].contains(word),
        forall|i: int| 0 <= i < blank.len() ==> white_space(#[trigger] blank[i]),
        !white_space(c),
    ensures
        ascii_digit(c) || c == ':' || c == '(' ==> opens_block(word + blank + seq![c] + rest),
        !ascii_digit(c) && c != ':' && c != '(' && !ascii_letter(c) ==> !opens_block(
            word + blank + seq![c] + rest,
        ),
{
    let all = seq![
            "Protocol"@,
            "Functionality"@,
            "Algorithm"@,
            "Definition"@,
            "Theorem"@,
            "Lemma"@,
            "Proposition"@,
            "Corollary"@,
        ];
    let k = choose|k: int| 0 <= k < all.len() && all[k] == word;
    assert(block_headings()[k] == word);
    let t = word + blank + seq![c] + rest;
    lemma_after_heading(word, blank, c, rest);
    if ascii_digit(c) || c == ':' || c == '(' {
        assert(headed_by(t, block_headings()[k]));
    } else if !ascii_letter(c) && opens_block(t) {
        let m = choose|m: int|
            0 <= m < block_headings().len() && headed_by(t, #[trigger] block_headings()[m]);
        let o = block_headings()[m];
        lemma_heading_letters(m);
        lemma_heading_letters(k);
        assert(t.subrange(0, o.len() as int) == o);
        if o.len() > word.len() {
            assert(t.subrange(0, o.len() as int)[word.len() as int] == t[word.len() as int]);
            assert(ascii_letter(o[word.len() as int]));
            assert(t[word.len() as int] == (if blank.len() > 0 {
                blank[0]
            } else {
                c
            }));
        } else {
            assert forall|i: int| 0 <= i < o.len() implies o[i] == word[i] by {
                assert(t.subrange(0, o.len() as int)[i] == t[i]);
            }
            assert(o =~= word.take(o.len() as int));
            lemma_headings_apart(m, k);
            assert(o == word);
        }
    }
}

proof fn lemma_after_heading(word: Seq<char>, blank: Seq<char>, c: char, rest: Seq<char>)
    requires
        forall|i: int| 0 <= i < blank.len() ==> white_space(#[trigger] blank[i]),
        !white_space(c),
    ensures
        ({
            let t = word + blank + seq![c] + rest;
            &&& stands_at(t, 0, word)
            &&& trim_start(t.skip(word.len() as int)) == seq![c] + rest
        }),
{
    let t = word + blank + seq![c] + rest;
    assert(t.subrange(0, word.len() as int) =~= word);
    let r = t.skip(word.len() as int);
    assert(r =~= blank + seq![c] + rest);
    assert forall|j: int| 0 <= j < blank.len() implies white_space(#[trigger] r[j]) by {
        assert(r[j] == blank[j]);
    }
    lemma_trim_start(r, blank.len() as int);
    assert(r.skip(blank.len() as int) =~= seq![c] + rest);
}

proof fn lemma_heading_letters(k: int)
    requires
        0 <= k < block_headings().len(),
    ensures
        forall|i: int|
            0 <= i < block_headings()[k].len() ==> ascii_letter(#[trigger] block_headings()[k][i]),
{
    reveal_strlit("Protocol");
    reveal_strlit("Functionality");
    reveal_strlit("Algorithm");
    reveal_strlit("Definition");
    reveal_strlit("Theorem");
    reveal_strlit("Lemma");
    reveal_strlit("Proposition");
    reveal_strlit("Corollary");
}

/// No heading word is the front of another.
proof fn lemma_headings_apart(m: int, k: int)
    requires
        0 <= m < block_headings().len(),
        0 <= k < block_headings().len(),
        block_headings()[m].len() <= block_headings()[k].len(),
        block_headings()[m] == block_headings()[k].take(block_headings()[m].len() as int),
    ensures
        m == k,
{
    reveal_strlit("Protocol");
    reveal_strlit("Functionality");
    reveal_strlit("Algorithm");
    reveal_strlit("Definition");
    reveal_strlit("Theorem");
    reveal_strlit("Lemma");
    reveal_strlit("Proposition");
    reveal_strlit("Corollary");
    let o = block_headings()[m];
    let w = block_headings()[k];
    assert(o[0] == w[0] && o[1] == w[1] && o[2] == w[2]);
    assert(o[3] == w[3]);
}

/// A line that is no bullet, or whose bullet does not begin like a listing, stays
/// as it is; a bullet that does is reflowed, whichever mark it has and however
/// far it is set in.
pub proof fn law_only_listings_change(blank: Seq<char>, mark: char, content: Seq<char>, line: Seq<char>)
    requires
        forall|i: int| 0 <= i < blank.len() ==> white_space(#[trigger] blank[i]),
        mark == '-' || mark == '*',
    ensures
        opens_block(content) ==> line_out(blank + seq![mark, ' '] + content) == reflowed(content)
            + seq!['\n'],
        !opens_block(content) ==> line_out(blank + seq![mark, ' '] + content) == blank + seq![
            mark,
            ' ',
        ] + content + seq!['\n'],
        line.len() > 0 && !white_space(line[0]) && line[0] != '-' && line[0] != '*' ==> line_out(line)
            == line + seq!['\n'],
{
    let t = blank + seq![mark, ' '] + content;
    assert forall|j: int| 0 <= j < blank.len() implies white_space(#[trigger] t[j]) by {
        assert(t[j] == blank[j]);
    }
    assert(t[blank.len() as int] == mark);
    lemma_trim_start(t, blank.len() as int);
    let r = t.skip(blank.len() as int);
    assert(r =~= seq![mark, ' '] + content);
    assert(r.subrange(0, 2) =~= seq![mark, ' ']);
    assert(r.skip(2) =~= content);
    if line.len() > 0 && !white_space(line[0]) && line[0] != '-' && line[0] != '*' {
        lemma_trim_start(line, 0);
        assert(line.skip(0) =~= line);
        if line.len() >= 2 {
            assert(line.subrange(0, 2)[0] == line[0]);
            assert(seq!['-', ' '][0] == '-' && seq!['*', ' '][0] == '*');
        }
    }
}

/// Every line has its place in the result, in order: what comes of the first
/// lines, then what comes of the next one, then the rest.
pub proof fn law_lines_in_order(ls: Seq<Seq<char>>, k: int)
    requires
        0 <= k < ls.len(),
    ensures
        lines_out(ls, 0) == lines_out(ls.take(k), 0) + line_out(ls[k]) + lines_out(
            ls.skip(k + 1),
            0,
        ),
{
    lemma_lines_split(ls, 0, k);
    lemma_lines_from(ls, k + 1, 0);
    let a = lines_out(ls.take(k), 0);
    let z = lines_out(ls, k + 1);
    assert(a + (line_out(ls[k]) + z) =~= a + line_out(ls[k]) + z);
}

proof fn lemma_lines_split(ls: Seq<Seq<char>>, i: int, k: int)
    requires
        0 <= i <= k <= ls.len(),
    ensures
        lines_out(ls, i) == lines_out(ls.take(k), i) + lines_out(ls, k),
    decreases k - i,
{
    if i < k {
        lemma_lines_split(ls, i + 1, k);
        assert(ls.take(k)[i] == ls[i]);
        let a = line_out(ls[i]);
        let b = lines_out(ls.take(k), i + 1);
        let c = lines_out(ls, k);
        assert(a + (b + c) =~= a + b + c);
    } else {
        assert(lines_out(ls.take(k), i) + lines_out(ls, k) =~= lines_out(ls, k));
    }
}

proof fn lemma_lines_from(ls: Seq<Seq<char>>, m: int, i: int)
    requires
        0 <= m <= ls.len(),
        0 <= i,
    ensures
        lines_out(ls.skip(m), i) == lines_out(ls, m + i),
    decreases ls.len() - m - i,
{
    if m + i < ls.len() {
        assert(ls.skip(m)[i] == ls[m + i]);
        lemma_lines_from(ls, m, i + 1);
    }
}

/// The heading of a listing ends at its first label or one-digit step, and not
/// before.
pub proof fn law_heading_ends_at_body(t: Seq<char>, i: int)
    requires
        0 < i < t.len(),
    ensures
        0 <= heading_end(t, 0) <= t.len(),
        i < heading_end(t, 0) ==> !(t[i - 1] == ' ' && i + 1 < t.len() && ascii_digit(t[i]) && (
        t[i + 1] == ':' || t[i + 1] == '.')),
        i < heading_end(t, 0) && (ascii_space(t[i - 1]) || t[i - 1] == '.') ==> forall|k: int|
            0 <= k < block_labels().len() ==> !stands_at(t, i, #[trigger] block_labels()[k]),
        i == heading_end(t, 0) ==> label_at(t, i) || step_at(t, i),
{
    lemma_heading_end(t, 0, i);
}

proof fn lemma_heading_end(t: Seq<char>, from: int, i: int)
    requires
        0 <= from <= t.len(),
    ensures
        from <= heading_end(t, from) <= t.len(),
        from <= i < heading_end(t, from) ==> !label_at(t, i) && !step_at(t, i),
        heading_end(t, from) < t.len() ==> label_at(t, heading_end(t, from)) || step_at(
            t,
            heading_end(t, from),
        ),
    decreases t.len() - from,
{
    if from < t.len() && !(label_at(t, from) || step_at(t, from)) {
        lemma_heading_end(t, from + 1, i);
    }
}

} // verus!
