//! Laws of the references to tables: what is read back from a text in which
//! placeholders were replaced by references.

use vstd::prelude::*;

use crate::patterns::{id_char, is_id, Pattern};
use crate::rewrite::lemma_head_bounds;
use crate::tables::{
    distinct, groups, law_marked_has_no_placeholder, lemma_mark_copied, lemma_marks, marked,
    placeholder, plain_id, reference, TableModel,
};
use crate::text::{contains_text, first_at, lemma_run_bounds, replaced, stands_at};

verus! {

broadcast use vstd::string::group_string_axioms;

// ---------------------------------------------------------------------------
// What a text mentions
// ---------------------------------------------------------------------------

/// One of the tables has the id.
pub open spec fn known(tables: Seq<TableModel>, id: Seq<char>) -> bool {
    exists|k: int| 0 <= k < tables.len() && (#[trigger] tables[k]).id == id
}

pub open spec fn plain_ids(tables: Seq<TableModel>) -> bool {
    forall|k: int| 0 <= k < tables.len() ==> plain_id((#[trigger] tables[k]).id)
}

/// The start of a reference.
spec fn ref_open() -> Seq<char> {
    seq!['[', '[', 't', 'a', 'b', 'l', 'e', ':']
}

/// The placeholder of a table stands at the start of `t`.
spec fn begins_mark(t: Seq<char>, tables: Seq<TableModel>, id: Seq<char>) -> bool {
    known(tables, id) && stands_at(t, 0, placeholder(id))
}

/// The table whose placeholder stands at the start of `t`.
spec fn mark_head(t: Seq<char>, tables: Seq<TableModel>) -> Option<Seq<char>> {
    if exists|id: Seq<char>| begins_mark(t, tables, id) {
        Some(choose|id: Seq<char>| begins_mark(t, tables, id))
    } else {
        None
    }
}

/// The ids of the references and of the tables' placeholders, in order.
spec fn mentions(t: Seq<char>, tables: Seq<TableModel>) -> Seq<Seq<char>>
    decreases t.len(),
{
    if t.len() == 0 {
        Seq::empty()
    } else {
        match Pattern::TableRef.head(t) {
            Some(h) => if 0 < h.0 <= t.len() {
                seq![t.subrange(h.1, h.2)] + mentions(t.skip(h.0), tables)
            } else {
                Seq::empty()
            },
            None => match mark_head(t, tables) {
                Some(id) => if 0 < placeholder(id).len() <= t.len() {
                    seq![id] + mentions(t.skip(placeholder(id).len() as int), tables)
                } else {
                    Seq::empty()
                },
                None => mentions(t.skip(1), tables),
            },
        }
    }
}

/// Every start of a reference in `t` begins a whole one.
spec fn tidy(t: Seq<char>) -> bool {
    forall|i: int| #[trigger]
        stands_at(t, i, ref_open()) ==> Pattern::TableRef.head(t.skip(i)) is Some
}

// ---------------------------------------------------------------------------
// Single marks
// ---------------------------------------------------------------------------

proof fn lemma_known_plain(tables: Seq<TableModel>, id: Seq<char>)
    requires
        plain_ids(tables),
        known(tables, id),
    ensures
        plain_id(id),
{
    let k = choose|k: int| 0 <= k < tables.len() && (#[trigger] tables[k]).id == id;
    assert(plain_id(tables[k].id));
}

/// The characters of a placeholder.
proof fn lemma_placeholder(id: Seq<char>)
    requires
        plain_id(id),
    ensures
        placeholder(id).len() == id.len() + 20,
        placeholder(id)[0] == '!',
        forall|k: int| 0 <= k < id.len() ==> #[trigger] placeholder(id)[k + 2] == id[k],
        placeholder(id)[id.len() as int + 2] == ']',
        forall|k: int| 0 < k < placeholder(id).len() ==> #[trigger] placeholder(id)[k] != '!',
{
    reveal_strlit("![");
    reveal_strlit("](edgequake-table)");
    let p = placeholder(id);
    let n = id.len() as int;
    assert forall|k: int| 0 < k < p.len() implies #[trigger] p[k] != '!' by {
        if 2 <= k < 2 + n {
            assert(p[k] == id[k - 2]);
            assert(id_char(id[k - 2]));
        }
    }
}

/// Where something stands, its characters stand.
proof fn lemma_stands(t: Seq<char>, i: int, p: Seq<char>, k: int)
    requires
        stands_at(t, i, p),
        0 <= k < p.len(),
    ensures
        i + k < t.len(),
        t[i + k] == p[k],
{
    assert(t.subrange(i, i + p.len())[k] == t[i + k]);
}

/// Only one placeholder stands at a place.
proof fn lemma_one_mark(t: Seq<char>, a: Seq<char>, b: Seq<char>)
    requires
        plain_id(a),
        plain_id(b),
        stands_at(t, 0, placeholder(a)),
        stands_at(t, 0, placeholder(b)),
    ensures
        a == b,
{
    lemma_placeholder(a);
    lemma_placeholder(b);
    let m = if a.len() < b.len() {
        a.len() as int
    } else {
        b.len() as int
    };
    assert forall|k: int| 0 <= k < m implies a[k] == b[k] by {
        lemma_stands(t, 0, placeholder(a), k + 2);
        lemma_stands(t, 0, placeholder(b), k + 2);
    }
    lemma_stands(t, 0, placeholder(a), m + 2);
    lemma_stands(t, 0, placeholder(b), m + 2);
    if a.len() < b.len() {
        assert(placeholder(b)[m + 2] == b[m]);
        assert(id_char(b[m]));
    }
    if b.len() < a.len() {
        assert(placeholder(a)[m + 2] == a[m]);
        assert(id_char(a[m]));
    }
    assert(a =~= b);
}

proof fn lemma_mark_head(t: Seq<char>, tables: Seq<TableModel>, id: Seq<char>)
    requires
        plain_ids(tables),
        begins_mark(t, tables, id),
    ensures
        mark_head(t, tables) == Some(id),
{
    let other = choose|x: Seq<char>| begins_mark(t, tables, x);
    assert(begins_mark(t, tables, other));
    lemma_known_plain(tables, id);
    lemma_known_plain(tables, other);
    lemma_one_mark(t, id, other);
}

/// A text that starts with another character than a bracket starts with no
/// reference.
proof fn lemma_no_ref(t: Seq<char>)
    requires
        t.len() > 0,
        t[0] != '[',
    ensures
        Pattern::TableRef.head(t) is None,
        !stands_at(t, 0, ref_open()),
{
    reveal(Pattern::head);
    if stands_at(t, 0, ref_open()) {
        lemma_stands(t, 0, ref_open(), 0);
    }
}

/// A reference is a match, whatever follows it.
proof fn lemma_ref_is_match(id: Seq<char>, x: Seq<char>)
    requires
        plain_id(id),
    ensures
        Pattern::TableRef.head(reference(id) + x) == Some(
            (id.len() as int + 10, 8int, id.len() as int + 8),
        ),
        reference(id).len() == id.len() + 10,
        (reference(id) + x).subrange(8, id.len() as int + 8) == id,
        (reference(id) + x).skip(id.len() as int + 10) == x,
        forall|i: int| 0 < i < reference(id).len() ==> !stands_at(reference(id) + x, i, ref_open()),
{
    reveal_strlit("[[table:");
    reveal_strlit("]]");
    let r = reference(id);
    let u = r + x;
    let e = 8 + id.len() as int;
    assert forall|k: int| 8 <= k < e implies is_id()(#[trigger] u[k]) by {
        assert(u[k] == id[k - 8]);
        assert(id_char(id[k - 8]));
    }
    crate::text::lemma_run_is(u, 8, e, is_id());
    assert(Pattern::TableRef.head(u) == Some((e + 2, 8int, e))) by {
        reveal(Pattern::head);
        assert(u.subrange(0, 8) =~= ref_open());
        assert(u.subrange(e, e + 2) =~= seq![']', ']']);
    }
    assert(u.subrange(8, e) =~= id);
    assert(u.skip(e + 2) =~= x);
    assert forall|i: int| 0 < i < r.len() implies !stands_at(u, i, ref_open()) by {
        if stands_at(u, i, ref_open()) {
            lemma_stands(u, i, ref_open(), 0);
            lemma_stands(u, i, ref_open(), 1);
            if 8 <= i < e {
                assert(is_id()(u[i]));
            }
        }
    }
}

/// The match of a reference holds no `!`, and it is a match before anything else.
proof fn lemma_ref_match(t: Seq<char>, x: Seq<char>)
    requires
        Pattern::TableRef.head(t) is Some,
    ensures
        ({
            let h = Pattern::TableRef.head(t).unwrap();
            &&& 8 < h.2 && h.0 == h.2 + 2 && h.1 == 8 && h.0 <= t.len()
            &&& forall|i: int| 0 <= i < h.0 ==> #[trigger] t[i] != '!'
            &&& Pattern::TableRef.head(t.take(h.0) + x) == Some(h)
        }),
{
    reveal(Pattern::head);
    let h = Pattern::TableRef.head(t).unwrap();
    let e = h.2;
    lemma_run_bounds(t, 8, is_id());
    let u = t.take(h.0) + x;
    assert forall|i: int| 0 <= i < h.0 implies #[trigger] t[i] != '!' by {
        if i < 8 {
            lemma_stands(t, 0, ref_open(), i);
        } else if i < e {
            assert(is_id()(t[i]));
        } else {
            lemma_stands(t, e, seq![']', ']'], i - e);
        }
    }
    assert(t[e] == ']') by {
        lemma_stands(t, e, seq![']', ']'], 0);
    }
    assert forall|k: int| 8 <= k < e implies is_id()(#[trigger] u[k]) by {
        assert(is_id()(t[k]));
        assert(u[k] == t[k]);
    }
    assert(u[e] == t[e]);
    crate::text::lemma_run_is(u, 8, e, is_id());
    assert(u.subrange(0, 8) =~= t.subrange(0, 8));
    assert(u.subrange(e, e + 2) =~= t.subrange(e, e + 2));
}

// ---------------------------------------------------------------------------
// Replacing one placeholder
// ---------------------------------------------------------------------------

/// What holds no `!` is passed over.
proof fn lemma_passed_over(a: Seq<char>, x: Seq<char>, p: Seq<char>, q: Seq<char>)
    requires
        p.len() > 0,
        p[0] == '!',
        forall|i: int| 0 <= i < a.len() ==> #[trigger] a[i] != '!',
    ensures
        replaced(a + x, p, q) == a + replaced(x, p, q),
    decreases a.len(),
{
    let t = a + x;
    if a.len() == 0 {
        assert(t =~= x);
        assert(a + replaced(x, p, q) =~= replaced(x, p, q));
    } else {
        if stands_at(t, 0, p) {
            lemma_stands(t, 0, p, 0);
        }
        assert(t[0] == a[0]);
        assert(t.skip(1) =~= a.skip(1) + x);
        lemma_passed_over(a.skip(1), x, p, q);
        assert(seq![a[0]] + (a.skip(1) + replaced(x, p, q)) =~= a + replaced(x, p, q));
    }
}

/// Where the start of a reference stands after a replacement elsewhere, it
/// stood there before.
proof fn lemma_open_copied(t: Seq<char>, p: Seq<char>, q: Seq<char>, k: int)
    requires
        0 <= k <= 8,
        p.len() > 0,
        q.len() > 2,
        q[0] == '[' && q[1] == '[',
        !stands_at(t, 0, p),
        stands_at(replaced(t, p, q), 0, ref_open()),
    ensures
        k <= t.len(),
        t.take(k) == ref_open().take(k),
        replaced(t, p, q).skip(k) == replaced(t.skip(k), p, q),
    decreases k,
{
    let y = replaced(t, p, q);
    if k == 0 {
        assert(t.take(0) =~= ref_open().take(0));
        assert(y.skip(0) =~= y);
        assert(t.skip(0) =~= t);
    } else {
        lemma_open_copied(t, p, q, k - 1);
        let u = t.skip(k - 1);
        let z = y.skip(k - 1);
        lemma_stands(y, 0, ref_open(), k - 1);
        assert(z == replaced(u, p, q));
        assert(z[0] == y[k - 1]);
        assert(u.len() > 0);
        if stands_at(u, 0, p) {
            assert(k - 1 != 0) by {
                assert(t.skip(0) =~= t);
            }
            assert(z == q + replaced(u.skip(p.len() as int), p, q));
            assert(z[0] == '[' && z[1] == '[');
            lemma_stands(y, 0, ref_open(), 2);
            assert(k - 1 == 1);
            assert(z[1] == y[2]);
        }
        assert(z == seq![u[0]] + replaced(u.skip(1), p, q));
        assert(t.take(k) =~= t.take(k - 1).push(t[k - 1]));
        assert(ref_open().take(k) =~= ref_open().take(k - 1).push(ref_open()[k - 1]));
        assert(y.skip(k) =~= z.skip(1));
        assert(z.skip(1) =~= replaced(u.skip(1), p, q));
        assert(u.skip(1) =~= t.skip(k));
    }
}

proof fn lemma_tidy_skip(t: Seq<char>, n: int)
    requires
        tidy(t),
        0 <= n <= t.len(),
    ensures
        tidy(t.skip(n)),
{
    let u = t.skip(n);
    assert forall|i: int| #[trigger] stands_at(u, i, ref_open()) implies Pattern::TableRef.head(
        u.skip(i),
    ) is Some by {
        assert(u.subrange(i, i + 8) =~= t.subrange(i + n, i + n + 8));
        assert(stands_at(t, i + n, ref_open()));
        assert(u.skip(i) =~= t.skip(i + n));
    }
}

/// A text is tidy if its start and its end are.
proof fn lemma_tidy_front(y: Seq<char>, n: int)
    requires
        0 < n <= y.len(),
        tidy(y.skip(n)),
        forall|i: int|
            0 <= i < n && #[trigger] stands_at(y, i, ref_open()) ==> Pattern::TableRef.head(
                y.skip(i),
            ) is Some,
    ensures
        tidy(y),
{
    let z = y.skip(n);
    assert forall|i: int| #[trigger] stands_at(y, i, ref_open()) implies Pattern::TableRef.head(
        y.skip(i),
    ) is Some by {
        if i >= n {
            assert(z.subrange(i - n, i - n + 8) =~= y.subrange(i, i + 8));
            assert(stands_at(z, i - n, ref_open()));
            assert(z.skip(i - n) =~= y.skip(i));
        }
    }
}

/// A replacement leaves a tidy text tidy.
proof fn lemma_replaced_tidy(t: Seq<char>, id: Seq<char>)
    requires
        plain_id(id),
        tidy(t),
    ensures
        tidy(replaced(t, placeholder(id), reference(id))),
    decreases t.len(),
{
    let p = placeholder(id);
    let q = reference(id);
    let y = replaced(t, p, q);
    lemma_placeholder(id);
    lemma_marks(id);
    if t.len() == 0 {
    } else if stands_at(t, 0, p) {
        let n = p.len() as int;
        let z = replaced(t.skip(n), p, q);
        lemma_tidy_skip(t, n);
        lemma_replaced_tidy(t.skip(n), id);
        lemma_ref_is_match(id, z);
        assert(y.skip(0) =~= y);
        lemma_tidy_front(y, q.len() as int);
    } else {
        let z = replaced(t.skip(1), p, q);
        lemma_tidy_skip(t, 1);
        lemma_replaced_tidy(t.skip(1), id);
        assert(y.skip(1) =~= z);
        assert(y.skip(0) =~= y);
        if stands_at(y, 0, ref_open()) {
            lemma_open_copied(t, p, q, 8);
            assert(ref_open().take(8) =~= ref_open());
            assert(t.subrange(0, 8) =~= t.take(8));
            assert(stands_at(t, 0, ref_open()));
            assert(t.skip(0) =~= t);
            let h = Pattern::TableRef.head(t).unwrap();
            lemma_ref_match(t, t);
            let x = replaced(t.skip(h.0), p, q);
            assert(t =~= t.take(h.0) + t.skip(h.0));
            lemma_passed_over(t.take(h.0), t.skip(h.0), p, q);
            lemma_ref_match(t, x);
        }
        lemma_tidy_front(y, 1);
    }
}

/// A replacement leaves what a tidy text mentions.
proof fn lemma_replaced_mentions(t: Seq<char>, tables: Seq<TableModel>, id: Seq<char>)
    requires
        plain_ids(tables),
        known(tables, id),
        tidy(t),
    ensures
        mentions(replaced(t, placeholder(id), reference(id)), tables) == mentions(t, tables),
    decreases t.len(), 1int,
{
    let p = placeholder(id);
    let q = reference(id);
    let y = replaced(t, p, q);
    lemma_known_plain(tables, id);
    lemma_placeholder(id);
    lemma_marks(id);
    if t.len() == 0 {
    } else if stands_at(t, 0, p) {
        let n = p.len() as int;
        let z = replaced(t.skip(n), p, q);
        lemma_tidy_skip(t, n);
        lemma_replaced_mentions(t.skip(n), tables, id);
        lemma_stands(t, 0, p, 0);
        lemma_no_ref(t);
        assert(begins_mark(t, tables, id));
        lemma_mark_head(t, tables, id);
        lemma_ref_is_match(id, z);
        assert(y == q + z);
    } else {
        match Pattern::TableRef.head(t) {
            Some(h) => {
                lemma_ref_match(t, t);
                let x = replaced(t.skip(h.0), p, q);
                assert(t =~= t.take(h.0) + t.skip(h.0));
                lemma_passed_over(t.take(h.0), t.skip(h.0), p, q);
                lemma_ref_match(t, x);
                lemma_tidy_skip(t, h.0);
                lemma_replaced_mentions(t.skip(h.0), tables, id);
                assert(y.skip(h.0) =~= x);
                assert(y.subrange(h.1, h.2) =~= t.subrange(h.1, h.2));
            },
            None => {
                lemma_other_mentions(t, tables, id);
            },
        }
    }
}

/// The case of [`lemma_replaced_mentions`] in which neither the placeholder that
/// is replaced nor a reference stands at the start.
proof fn lemma_other_mentions(t: Seq<char>, tables: Seq<TableModel>, id: Seq<char>)
    requires
        plain_ids(tables),
        known(tables, id),
        tidy(t),
        t.len() > 0,
        !stands_at(t, 0, placeholder(id)),
        Pattern::TableRef.head(t) is None,
    ensures
        mentions(replaced(t, placeholder(id), reference(id)), tables) == mentions(t, tables),
    decreases t.len(), 0int,
{
    let p = placeholder(id);
    let q = reference(id);
    let y = replaced(t, p, q);
    lemma_known_plain(tables, id);
    lemma_placeholder(id);
    lemma_marks(id);
    if let Some(other) = mark_head(t, tables) {
        assert(begins_mark(t, tables, other));
        lemma_known_plain(tables, other);
        lemma_placeholder(other);
        let n = placeholder(other).len() as int;
        let a = t.subrange(1, n);
        let x = replaced(t.skip(n), p, q);
        assert forall|i: int| 0 <= i < a.len() implies #[trigger] a[i] != '!' by {
            lemma_stands(t, 0, placeholder(other), i + 1);
        }
        assert(t.skip(1) =~= a + t.skip(n));
        lemma_passed_over(a, t.skip(n), p, q);
        assert(y =~= t.take(n) + x);
        assert(y.subrange(0, n) =~= t.subrange(0, n));
        assert(begins_mark(y, tables, other));
        lemma_mark_head(y, tables, other);
        lemma_stands(t, 0, placeholder(other), 0);
        lemma_no_ref(y);
        assert(y.skip(n) =~= x);
        lemma_tidy_skip(t, n);
        lemma_replaced_mentions(t.skip(n), tables, id);
    } else {
        assert(y.skip(1) =~= replaced(t.skip(1), p, q));
        assert(Pattern::TableRef.head(y) is None) by {
            if Pattern::TableRef.head(y) is Some {
                assert(stands_at(y, 0, ref_open())) by {
                    reveal(Pattern::head);
                }
                lemma_open_copied(t, p, q, 8);
                assert(ref_open().take(8) =~= ref_open());
                assert(t.subrange(0, 8) =~= t.take(8));
                assert(stands_at(t, 0, ref_open()));
                assert(t.skip(0) =~= t);
            }
        }
        assert forall|x: Seq<char>| !begins_mark(y, tables, x) by {
            if begins_mark(y, tables, x) {
                lemma_known_plain(tables, x);
                lemma_marks(x);
                let m = placeholder(x);
                lemma_mark_copied(t, p, q, m, m.len() as int);
                assert(t.take(m.len() as int) =~= t.subrange(0, m.len() as int));
                assert(m.take(m.len() as int) =~= m);
                assert(begins_mark(t, tables, x));
            }
        }
        lemma_tidy_skip(t, 1);
        lemma_replaced_mentions(t.skip(1), tables, id);
    }
}

// ---------------------------------------------------------------------------
// Replacing all placeholders
// ---------------------------------------------------------------------------

/// Marking leaves what a tidy text mentions.
proof fn lemma_marked_mentions(md: Seq<char>, some: Seq<TableModel>, tables: Seq<TableModel>)
    requires
        plain_ids(tables),
        tidy(md),
        forall|k: int| 0 <= k < some.len() ==> known(tables, (#[trigger] some[k]).id),
    ensures
        tidy(marked(md, some)),
        mentions(marked(md, some), tables) == mentions(md, tables),
    decreases some.len(),
{
    if some.len() > 0 {
        let front = some.drop_last();
        assert forall|k: int| 0 <= k < front.len() implies known(
            tables,
            (#[trigger] front[k]).id,
        ) by {
            assert(front[k] == some[k]);
        }
        lemma_marked_mentions(md, front, tables);
        assert(some.last() == some[some.len() - 1]);
        lemma_known_plain(tables, some.last().id);
        lemma_replaced_tidy(marked(md, front), some.last().id);
        lemma_replaced_mentions(marked(md, front), tables, some.last().id);
    }
}

/// Matches are found at the same places wherever one counts from.
proof fn lemma_hits_shift(p: Pattern, t: Seq<char>, a: int, b: int)
    ensures
        p.hits(t, a).len() == p.hits(t, b).len(),
        forall|i: int|
            0 <= i < p.hits(t, a).len() ==> {
                let x = #[trigger] p.hits(t, a)[i];
                let y = p.hits(t, b)[i];
                x.0 - a == y.0 - b && x.1 - a == y.1 - b && x.2 - a == y.2 - b && x.3 - a == y.3 - b
            },
    decreases t.len(),
{
    lemma_head_bounds(p, t);
    if t.len() > 0 {
        match p.head(t) {
            Some(h) => {
                lemma_hits_shift(p, t.skip(h.0), a + h.0, b + h.0);
                let x = p.hits(t.skip(h.0), a + h.0);
                let y = p.hits(t.skip(h.0), b + h.0);
                assert forall|i: int| 0 <= i < p.hits(t, a).len() implies {
                    let x = #[trigger] p.hits(t, a)[i];
                    let y = p.hits(t, b)[i];
                    x.0 - a == y.0 - b && x.1 - a == y.1 - b && x.2 - a == y.2 - b && x.3 - a == y.3
                        - b
                } by {
                    if i > 0 {
                        assert(p.hits(t, a)[i] == x[i - 1]);
                        assert(p.hits(t, b)[i] == y[i - 1]);
                    }
                }
            },
            None => {
                lemma_hits_shift(p, t.skip(1), a + 1, b + 1);
            },
        }
    }
}

/// The groups in the rest of a text.
proof fn lemma_groups_behind(p: Pattern, t: Seq<char>, n: int)
    requires
        0 <= n <= t.len(),
    ensures
        p.hits(t.skip(n), n).map_values(|h: (int, int, int, int)| t.subrange(h.2, h.3)) == groups(
            p,
            t.skip(n),
        ),
{
    let u = t.skip(n);
    let a = p.hits(u, n);
    let b = p.hits(u, 0);
    let f = |h: (int, int, int, int)| t.subrange(h.2, h.3);
    lemma_hits_shift(p, u, n, 0);
    crate::tables::lemma_hits_bounds(p, u, n);
    assert forall|i: int| 0 <= i < a.len() implies f(#[trigger] a[i]) == groups(p, u)[i] by {
        assert(crate::tables::hit_within(a[i], n, n + u.len()));
        assert(t.subrange(a[i].2, a[i].3) =~= u.subrange(b[i].2, b[i].3));
    }
    assert(a.map_values(f) =~= groups(p, u));
}

/// The groups of a text, from its start.
pub proof fn lemma_groups_step(p: Pattern, t: Seq<char>)
    requires
        t.len() > 0,
    ensures
        groups(p, t) == (match p.head(t) {
            Some(h) => seq![t.subrange(h.1, h.2)] + groups(p, t.skip(h.0)),
            None => groups(p, t.skip(1)),
        }),
{
    lemma_head_bounds(p, t);
    let f = |h: (int, int, int, int)| t.subrange(h.2, h.3);
    match p.head(t) {
        Some(h) => {
            let first = (0int, h.0, h.1, h.2);
            let rest = p.hits(t.skip(h.0), h.0);
            lemma_groups_behind(p, t, h.0);
            assert(p.hits(t, 0) =~= seq![first] + rest);
            assert(groups(p, t) =~= seq![t.subrange(h.1, h.2)] + rest.map_values(f));
        },
        None => {
            lemma_groups_behind(p, t, 1);
            assert(groups(p, t) =~= p.hits(t.skip(1), 1).map_values(f));
        },
    }
}

/// No placeholder of a table stands in `t`.
spec fn unmarked(t: Seq<char>, tables: Seq<TableModel>) -> bool {
    forall|i: int, id: Seq<char>|
        known(tables, id) ==> !#[trigger] stands_at(t, i, placeholder(id))
}

/// A text without placeholders mentions what it refers to.
proof fn lemma_only_references(t: Seq<char>, tables: Seq<TableModel>)
    requires
        unmarked(t, tables),
    ensures
        mentions(t, tables) == groups(Pattern::TableRef, t),
    decreases t.len(),
{
    lemma_head_bounds(Pattern::TableRef, t);
    if t.len() == 0 {
        assert(groups(Pattern::TableRef, t) =~= Seq::<Seq<char>>::empty());
    } else {
        lemma_groups_step(Pattern::TableRef, t);
        let n = match Pattern::TableRef.head(t) {
            Some(h) => h.0,
            None => 1,
        };
        let u = t.skip(n);
        assert forall|i: int, id: Seq<char>| known(tables, id) implies !#[trigger] stands_at(
            u,
            i,
            placeholder(id),
        ) by {
            if stands_at(u, i, placeholder(id)) {
                let m = placeholder(id).len() as int;
                assert(u.subrange(i, i + m) =~= t.subrange(i + n, i + n + m));
                assert(stands_at(t, i + n, placeholder(id)));
            }
        }
        lemma_only_references(u, tables);
        assert forall|id: Seq<char>| !begins_mark(t, tables, id) by {}
    }
}

// ---------------------------------------------------------------------------
// Where the placeholders stand
// ---------------------------------------------------------------------------

/// The start of a reference stands nowhere in `t`.
spec fn without_references(t: Seq<char>) -> bool {
    forall|i: int| !#[trigger] stands_at(t, i, ref_open())
}

proof fn lemma_without_skip(t: Seq<char>, n: int)
    requires
        without_references(t),
        0 <= n <= t.len(),
    ensures
        without_references(t.skip(n)),
        Pattern::TableRef.head(t) is None,
{
    let u = t.skip(n);
    assert forall|i: int| !#[trigger] stands_at(u, i, ref_open()) by {
        if stands_at(u, i, ref_open()) {
            assert(u.subrange(i, i + 8) =~= t.subrange(i + n, i + n + 8));
            assert(stands_at(t, i + n, ref_open()));
        }
    }
    reveal(Pattern::head);
}

/// How far the first step over `t` goes.
spec fn step_over(t: Seq<char>, tables: Seq<TableModel>) -> int {
    match mark_head(t, tables) {
        Some(id) => placeholder(id).len() as int,
        None => 1,
    }
}

/// The first step over a text without references: behind a placeholder or one
/// character, and no other placeholder begins before its end.
proof fn lemma_step(t: Seq<char>, tables: Seq<TableModel>)
    requires
        plain_ids(tables),
        without_references(t),
        t.len() > 0,
    ensures
        0 < step_over(t, tables) <= t.len(),
        mentions(t, tables) == (match mark_head(t, tables) {
            Some(id) => seq![id] + mentions(t.skip(step_over(t, tables)), tables),
            None => mentions(t.skip(1), tables),
        }),
        mark_head(t, tables) matches Some(id) ==> begins_mark(t, tables, id),
        forall|i: int, id: Seq<char>|
            i < step_over(t, tables) && known(tables, id) && #[trigger] stands_at(
                t,
                i,
                placeholder(id),
            ) ==> i == 0 && mark_head(t, tables) == Some(id),
        forall|i: int, id: Seq<char>|
            i >= step_over(t, tables) && #[trigger] stands_at(t, i, placeholder(id)) ==> stands_at(
                t.skip(step_over(t, tables)),
                i - step_over(t, tables),
                placeholder(id),
            ),
{
    lemma_without_skip(t, 0);
    let n = step_over(t, tables);
    if let Some(first) = mark_head(t, tables) {
        assert(begins_mark(t, tables, first));
        lemma_known_plain(tables, first);
        lemma_placeholder(first);
    }
    assert forall|i: int, id: Seq<char>|
        i < n && known(tables, id) && #[trigger] stands_at(t, i, placeholder(id)) implies i == 0
        && mark_head(t, tables) == Some(id) by {
        lemma_known_plain(tables, id);
        lemma_placeholder(id);
        if i == 0 {
            assert(begins_mark(t, tables, id));
            lemma_mark_head(t, tables, id);
        } else {
            lemma_stands(t, i, placeholder(id), 0);
            let first = mark_head(t, tables).unwrap();
            lemma_stands(t, 0, placeholder(first), i);
        }
    }
    assert forall|i: int, id: Seq<char>|
        i >= n && #[trigger] stands_at(t, i, placeholder(id)) implies stands_at(
        t.skip(n),
        i - n,
        placeholder(id),
    ) by {
        let m = placeholder(id).len() as int;
        assert(t.skip(n).subrange(i - n, i - n + m) =~= t.subrange(i, i + m));
    }
}

/// What stands in the text is mentioned.
proof fn lemma_standing_mentioned(t: Seq<char>, tables: Seq<TableModel>, i: int, id: Seq<char>)
    requires
        plain_ids(tables),
        without_references(t),
        known(tables, id),
        stands_at(t, i, placeholder(id)),
    ensures
        mentions(t, tables).contains(id),
    decreases t.len(),
{
    lemma_known_plain(tables, id);
    lemma_placeholder(id);
    lemma_step(t, tables);
    let n = step_over(t, tables);
    let ms = mentions(t, tables);
    if i < n {
        assert(ms[0] == id);
    } else {
        lemma_without_skip(t, n);
        lemma_standing_mentioned(t.skip(n), tables, i - n, id);
        let rest = mentions(t.skip(n), tables);
        let k = choose|k: int| 0 <= k < rest.len() && rest[k] == id;
        if mark_head(t, tables) is Some {
            assert(ms[k + 1] == id);
        } else {
            assert(ms[k] == id);
        }
    }
}

/// Where the `a`-th mention stands: its placeholder is there, and only tables
/// mentioned up to then have theirs there or before.
proof fn lemma_mention_stands(t: Seq<char>, tables: Seq<TableModel>, a: int) -> (k: int)
    requires
        plain_ids(tables),
        without_references(t),
        0 <= a < mentions(t, tables).len(),
    ensures
        known(tables, mentions(t, tables)[a]),
        stands_at(t, k, placeholder(mentions(t, tables)[a])),
        forall|i: int, id: Seq<char>|
            i <= k && known(tables, id) && #[trigger] stands_at(t, i, placeholder(id))
                ==> mentions(t, tables).take(a + 1).contains(id),
    decreases t.len(),
{
    let ms = mentions(t, tables);
    lemma_step(t, tables);
    let n = step_over(t, tables);
    let u = t.skip(n);
    let rest = mentions(u, tables);
    lemma_without_skip(t, n);
    let first = mark_head(t, tables);
    let k: int = if first is Some && a == 0 {
        0
    } else {
        let b = if first is Some {
            a - 1
        } else {
            a
        };
        let j = lemma_mention_stands(u, tables, b);
        let m = placeholder(rest[b]).len() as int;
        assert(u.subrange(j, j + m) =~= t.subrange(j + n, j + n + m));
        assert(ms[a] == rest[b]);
        j + n
    };
    assert forall|i: int, id: Seq<char>|
        i <= k && known(tables, id) && #[trigger] stands_at(t, i, placeholder(id)) implies ms.take(
        a + 1,
    ).contains(id) by {
        if i < n {
            assert(ms.take(a + 1)[0] == id);
        } else {
            let b = if first is Some {
                a - 1
            } else {
                a
            };
            assert(stands_at(u, i - n, placeholder(id)));
            let front = rest.take(b + 1);
            assert(front.contains(id));
            let x = choose|x: int| 0 <= x < front.len() && front[x] == id;
            if first is Some {
                assert(ms.take(a + 1)[x + 1] == id);
            } else {
                assert(ms.take(a + 1)[x] == id);
            }
        }
    }
    k
}

// ---------------------------------------------------------------------------
// What is read back
// ---------------------------------------------------------------------------

/// The distinct items are the items, once each, in the order in which they come
/// first: an item comes before a later one does.
proof fn lemma_distinct(items: Seq<Seq<char>>)
    ensures
        distinct(items).no_duplicates(),
        forall|x: Seq<char>| distinct(items).contains(x) <==> items.contains(x),
        forall|i: int, j: int|
            0 <= i < j < distinct(items).len() ==> comes_before(
                items,
                #[trigger] distinct(items)[i],
                #[trigger] distinct(items)[j],
            ),
    decreases items.len(),
{
    let r = distinct(items);
    if items.len() > 0 {
        let front = items.drop_last();
        let q = distinct(front);
        lemma_distinct(front);
        let last = items.last();
        assert forall|x: Seq<char>| r.contains(x) <==> items.contains(x) by {
            if front.contains(x) {
                let k = choose|k: int| 0 <= k < front.len() && front[k] == x;
                assert(items[k] == x);
                let m = choose|m: int| 0 <= m < q.len() && q[m] == x;
                assert(r[m] == x);
            }
            if items.contains(x) && !front.contains(x) {
                let k = choose|k: int| 0 <= k < items.len() && items[k] == x;
                if k < front.len() {
                    assert(front[k] == x);
                }
                assert(x == last);
                assert(!q.contains(x));
                assert(r[r.len() - 1] == x);
            }
            if r.contains(x) {
                let m = choose|m: int| 0 <= m < r.len() && r[m] == x;
                if m < q.len() {
                    assert(q[m] == x);
                } else {
                    assert(items[items.len() - 1] == x);
                }
            }
        }
        assert forall|i: int, j: int| 0 <= i < j < r.len() implies comes_before(
            items,
            #[trigger] r[i],
            #[trigger] r[j],
        ) by {
            if j < q.len() {
                assert(comes_before(front, q[i], q[j]));
                let a = choose|a: int| #[trigger] before_at(front, a, q[i], q[j]);
                assert(items.take(a + 1) =~= front.take(a + 1));
                assert(before_at(items, a, r[i], r[j]));
            } else {
                assert(q.contains(q[i]));
                assert(front.contains(q[i]));
                let a = choose|a: int| 0 <= a < front.len() && front[a] == q[i];
                assert(!q.contains(last));
                assert(!front.contains(last));
                let start = items.take(a + 1);
                if start.contains(last) {
                    let x = choose|x: int| 0 <= x < start.len() && start[x] == last;
                    assert(front[x] == last);
                }
                assert(before_at(items, a, r[i], r[j]));
            }
        }
    }
}

/// The `a`-th item is `x`, and `y` has not come up to then.
spec fn before_at(items: Seq<Seq<char>>, a: int, x: Seq<char>, y: Seq<char>) -> bool {
    0 <= a < items.len() && items[a] == x && !items.take(a + 1).contains(y)
}

/// `x` comes in `items` before `y` does.
spec fn comes_before(items: Seq<Seq<char>>, x: Seq<char>, y: Seq<char>) -> bool {
    exists|a: int| #[trigger] before_at(items, a, x, y)
}

/// The first place is before every other one.
proof fn lemma_first_is_first(t: Seq<char>, i: int, p: Seq<char>, k: int)
    requires
        0 <= i <= k,
        stands_at(t, k, p),
    ensures
        first_at(t, i, p) is Some,
        i <= first_at(t, i, p).unwrap() <= k,
        stands_at(t, first_at(t, i, p).unwrap(), p),
    decreases k - i,
{
    if !stands_at(t, i, p) {
        lemma_first_is_first(t, i + 1, p, k);
    }
}

/// Marking the placeholders of tables in a text without references, and reading
/// the references back, gives the tables whose placeholders stand in the text:
/// each once, in the order in which they first stand there.
pub proof fn law_marked_tables_read_back(md: Seq<char>, tables: Seq<TableModel>)
    requires
        plain_ids(tables),
        !contains_text(md, "[[table:"@),
    ensures
        ({
            let ids = distinct(groups(Pattern::TableRef, marked(md, tables)));
            &&& ids.no_duplicates()
            &&& forall|id: Seq<char>| #[trigger]
                ids.contains(id) <==> known(tables, id) && contains_text(md, placeholder(id))
            &&& forall|i: int, j: int|
                0 <= i < j < ids.len() ==> stands_first(md, #[trigger] ids[i], #[trigger] ids[j])
        }),
{
    reveal_strlit("[[table:");
    assert("[[table:"@ =~= ref_open());
    assert forall|i: int| !#[trigger] stands_at(md, i, ref_open()) by {}
    let text = marked(md, tables);
    let items = mentions(md, tables);
    assert forall|k: int| 0 <= k < tables.len() implies known(
        tables,
        (#[trigger] tables[k]).id,
    ) by {}
    lemma_marked_mentions(md, tables, tables);
    assert forall|i: int, id: Seq<char>| known(tables, id) implies !#[trigger] stands_at(
        text,
        i,
        placeholder(id),
    ) by {
        let k = choose|k: int| 0 <= k < tables.len() && (#[trigger] tables[k]).id == id;
        law_marked_has_no_placeholder(md, tables, k);
    }
    lemma_only_references(text, tables);
    let ids = distinct(items);
    lemma_distinct(items);
    assert forall|id: Seq<char>| #[trigger]
        ids.contains(id) <==> known(tables, id) && contains_text(md, placeholder(id)) by {
        if ids.contains(id) {
            assert(items.contains(id));
            let a = choose|a: int| 0 <= a < items.len() && items[a] == id;
            let k = lemma_mention_stands(md, tables, a);
            assert(stands_at(md, k, placeholder(id)));
        }
        if known(tables, id) && contains_text(md, placeholder(id)) {
            let i = choose|i: int| #[trigger] stands_at(md, i, placeholder(id));
            lemma_standing_mentioned(md, tables, i, id);
            assert(items.contains(id));
        }
    }
    assert forall|i: int, j: int| 0 <= i < j < ids.len() implies stands_first(
        md,
        #[trigger] ids[i],
        #[trigger] ids[j],
    ) by {
        assert(comes_before(items, ids[i], ids[j]));
        let a = choose|a: int| #[trigger] before_at(items, a, ids[i], ids[j]);
        let k = lemma_mention_stands(md, tables, a);
        assert(ids.contains(ids[j]));
        let m = choose|m: int| #[trigger] stands_at(md, m, placeholder(ids[j]));
        lemma_first_is_first(md, 0, placeholder(ids[i]), k);
        lemma_first_is_first(md, 0, placeholder(ids[j]), m);
    }
}

/// The placeholders of both tables stand in the text, and that of `a` stands
/// there first.
pub open spec fn stands_first(md: Seq<char>, a: Seq<char>, b: Seq<char>) -> bool {
    match (first_at(md, 0, placeholder(a)), first_at(md, 0, placeholder(b))) {
        (Some(x), Some(y)) => x < y,
        _ => false,
    }
}

} // verus!
