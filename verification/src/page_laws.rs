//! Laws of the tables and figures of a page.

use vstd::prelude::*;

use crate::figures::{
    encoding_of, figure_caption, figure_id, figure_placeholder, figures_taken, image_at,
    image_source, signed_decimal, webp_image, RgbCrop,
};
use crate::layout::{caption_found, ElementKind, LayoutElement, PixelBox, Search};
use crate::patterns::{element_head, first_at_any_case, stands_at_any_case, Pattern};
use crate::table_laws::lemma_groups_step;
use crate::tables::{
    body_lines, caption_block, cell_escaped, cell_text, cells_line, column_names, embed_text,
    filled, groups, header_row, inlined, inner_table, longest, padded, patched, placeholder,
    reference, rerank_text, row_labels, row_line, squeezed, table_cells, table_id, table_markdown,
    table_positions, tables_of, width, TableModel,
};
use crate::text::{
    decimal, first_at, join, last_at, law_first_at_is_first, law_last_at_is_last, law_trim,
    lemma_replaced_absent, lower, lowered, replaced, stands_at, trim, trim_end, trim_start,
    white_space,
};

verus! {

broadcast use vstd::string::group_string_axioms;

// ---------------------------------------------------------------------------
// Cells
// ---------------------------------------------------------------------------

/// What is not white space.
pub open spec fn black(t: Seq<char>) -> Seq<char> {
    t.filter(|c: char| !white_space(c))
}

/// White space stands alone, as a blank.
pub open spec fn one_blank_each(t: Seq<char>) -> bool {
    forall|i: int|
        0 <= i < t.len() && white_space(#[trigger] t[i]) ==> t[i] == ' ' && (i > 0
            ==> !white_space(t[i - 1]))
}

proof fn lemma_black_step(t: Seq<char>)
    requires
        t.len() > 0,
    ensures
        white_space(t[0]) ==> black(t) == black(t.skip(1)),
        !white_space(t[0]) ==> black(t) == seq![t[0]] + black(t.skip(1)),
    decreases t.len(),
{
    reveal(Seq::filter);
    let p = |c: char| !white_space(c);
    let u = t.drop_last();
    if t.len() == 1 {
        assert(u =~= Seq::<char>::empty());
        assert(t.skip(1) =~= Seq::<char>::empty());
        reveal_with_fuel(Seq::filter, 2);
        assert(black(t) =~= (if p(t[0]) { seq![t[0]] } else { Seq::<char>::empty() }));
    } else {
        lemma_black_step(u);
        assert(u.skip(1) =~= t.skip(1).drop_last());
        assert(t.skip(1).last() == t.last());
        assert(u[0] == t[0]);
        let a = black(u);
        let b = black(t.skip(1).drop_last());
        if p(t.last()) {
            assert(black(t) == a.push(t.last()));
            assert(black(t.skip(1)) == b.push(t.last()));
            assert((seq![t[0]] + b).push(t.last()) =~= seq![t[0]] + b.push(t.last()));
        }
    }
}

proof fn lemma_black_last(t: Seq<char>)
    requires
        t.len() > 0,
    ensures
        white_space(t.last()) ==> black(t) == black(t.drop_last()),
{
    reveal(Seq::filter);
}

proof fn lemma_squeezed(t: Seq<char>, started: bool, prev_space: bool)
    ensures
        black(squeezed(t, started, prev_space)) == black(t),
        one_blank_each(squeezed(t, started, prev_space)),
        squeezed(t, started, prev_space).len() > 0 && (!started || prev_space) ==> !white_space(
            squeezed(t, started, prev_space)[0],
        ),
    decreases t.len(),
{
    let s = squeezed(t, started, prev_space);
    if t.len() > 0 {
        lemma_black_step(t);
        if white_space(t[0]) {
            lemma_squeezed(t.skip(1), started, true);
            if started && !prev_space {
                lemma_black_step(s);
                assert(s.skip(1) =~= squeezed(t.skip(1), started, true));
                let z = s.skip(1);
                assert forall|i: int| 0 <= i < s.len() && white_space(#[trigger] s[i]) implies s[i]
                    == ' ' && (i > 0 ==> !white_space(s[i - 1])) by {
                    if i > 0 {
                        assert(s[i] == z[i - 1]);
                        if i > 1 {
                            assert(s[i - 1] == z[i - 2]);
                        }
                    }
                }
            }
        } else {
            lemma_squeezed(t.skip(1), true, false);
            lemma_black_step(s);
            assert(s.skip(1) =~= squeezed(t.skip(1), true, false));
            let z = s.skip(1);
            assert forall|i: int| 0 <= i < s.len() && white_space(#[trigger] s[i]) implies s[i]
                == ' ' && (i > 0 ==> !white_space(s[i - 1])) by {
                if i > 0 {
                    assert(s[i] == z[i - 1]);
                    if i > 1 {
                        assert(s[i - 1] == z[i - 2]);
                    }
                }
            }
        }
    }
}

proof fn lemma_trimmed_end(t: Seq<char>)
    ensures
        trim_end(t).len() <= t.len(),
        trim_end(t) == t.take(trim_end(t).len() as int),
        black(trim_end(t)) == black(t),
        trim_end(t).len() > 0 ==> !white_space(trim_end(t).last()),
    decreases t.len(),
{
    if t.len() > 0 && white_space(t.last()) {
        lemma_black_last(t);
        lemma_trimmed_end(t.drop_last());
        let n = trim_end(t).len() as int;
        assert(t.drop_last().take(n) =~= t.take(n));
    } else {
        assert(t.take(t.len() as int) =~= t);
    }
}

proof fn lemma_trimmed_start(t: Seq<char>)
    ensures
        trim_start(t).len() <= t.len(),
        trim_start(t) == t.skip(t.len() - trim_start(t).len()),
        black(trim_start(t)) == black(t),
        trim_start(t).len() > 0 ==> !white_space(trim_start(t)[0]),
    decreases t.len(),
{
    if t.len() > 0 && white_space(t[0]) {
        lemma_black_step(t);
        lemma_trimmed_start(t.skip(1));
        let n = trim_start(t).len() as int;
        assert(t.skip(1).skip(t.len() - 1 - n) =~= t.skip(t.len() - n));
    } else {
        assert(t.skip(0) =~= t);
    }
}

/// Trimming loses nothing but white space.
proof fn lemma_trim_black(t: Seq<char>)
    ensures
        black(trim(t)) == black(t),
{
    lemma_trimmed_start(t);
    lemma_trimmed_end(trim_start(t));
}

/// The text of a cell begins and ends with something other than white space, has
/// single blanks inside, and keeps every other character of the cell once the
/// tags are gone.
pub proof fn law_cell_text(t: Seq<char>)
    ensures
        one_blank_each(cell_text(t)),
        cell_text(t).len() > 0 ==> !white_space(cell_text(t)[0]) && !white_space(
            cell_text(t).last(),
        ),
        !t.contains('<') ==> black(cell_text(t)) == black(t),
{
    let u = crate::tables::breaks_spaced(t);
    let v = crate::rewrite::Rule::DropTag.rewritten(u);
    let s = squeezed(v, false, false);
    lemma_squeezed(v, false, false);
    let (a, b) = law_trim(s);
    lemma_trim_black(s);
    let c = cell_text(t);
    assert forall|i: int| 0 <= i < c.len() && white_space(#[trigger] c[i]) implies c[i] == ' ' && (i
        > 0 ==> !white_space(c[i - 1])) by {
        assert(c[i] == s[a + i]);
        if i > 0 {
            assert(c[i - 1] == s[a + i - 1]);
        }
    }
    if !t.contains('<') {
        lemma_no_angle(t, "<br>"@);
        lemma_no_angle(t, "<br/>"@);
        lemma_no_angle(t, "<br />"@);
        lemma_no_tags(t);
    }
}

proof fn lemma_no_angle(t: Seq<char>, p: Seq<char>)
    requires
        !t.contains('<'),
        p == "<br>"@ || p == "<br/>"@ || p == "<br />"@,
    ensures
        replaced(t, p, seq![' ']) == t,
{
    reveal_strlit("<br>");
    reveal_strlit("<br/>");
    reveal_strlit("<br />");
    assert forall|i: int| !#[trigger] stands_at(t, i, p) by {
        if stands_at(t, i, p) {
            assert(t.subrange(i, i + p.len())[0] == t[i]);
            assert(p[0] == '<');
            assert(t.contains(t[i]));
        }
    }
    lemma_replaced_absent(t, p, seq![' ']);
}

proof fn lemma_no_tags(t: Seq<char>)
    requires
        !t.contains('<'),
    ensures
        crate::rewrite::Rule::DropTag.rewritten(t) == t,
    decreases t.len(),
{
    if t.len() > 0 {
        assert(t.contains(t[0]));
        let u = t.skip(1);
        assert forall|i: int| 0 <= i < u.len() implies u[i] != '<' by {
            assert(t.contains(t[i + 1]));
        }
        assert(crate::rewrite::Rule::DropTag.pattern().head(t) is None) by {
            reveal(Pattern::head);
        }
        lemma_no_tags(u);
        assert(seq![t[0]] + u =~= t);
    }
}

/// An element with a two-letter name at the front of a text.
proof fn lemma_element(
    a: char,
    b: char,
    attrs: Seq<char>,
    x: Seq<char>,
    close: Seq<char>,
    rest: Seq<char>,
)
    requires
        close == seq!['<', '/', a, b, '>'],
        'a' <= a <= 'z',
        'a' <= b <= 'z',
        !attrs.contains('>'),
        forall|i: int|
            0 <= i < x.len() ==> !#[trigger] stands_at_any_case(x + close, i, close),
    ensures
        ({
            let g = 3 + attrs.len() as int;
            let k = g + 1 + x.len() as int;
            element_head(seq!['<', a, b] + attrs + seq!['>'] + x + close + rest, a, b) == Some(
                (k + 5, g + 1, k),
            )
        }),
{
    let t = seq!['<', a, b] + attrs + seq!['>'] + x + close + rest;
    let g = 3 + attrs.len() as int;
    let k = g + 1 + x.len() as int;
    assert(t[0] == '<' && t[1] == a && t[2] == b);
    assert(stands_at_any_case(t, 0, seq!['<', a, b]));
    assert(t.subrange(g, g + 1) =~= seq!['>']);
    law_first_at_is_first(t, 3, seq!['>'], g);
    let m = first_at(t, 3, seq!['>'])->0;
    if m < g {
        assert(t.subrange(m, m + 1)[0] == t[m]);
        assert(seq!['>'][0] == '>');
        assert(t[m] == attrs[m - 3] && attrs.contains(attrs[m - 3]));
    }
    assert(t[k] == '<' && t[k + 1] == '/' && t[k + 2] == a && t[k + 3] == b && t[k + 4] == '>');
    assert(stands_at_any_case(t, k, close));
    assert(t.subrange(g + 1, k + 5) =~= x + close);
    lemma_close_is_first(t, x, close, g + 1, g + 1, k);
}

proof fn lemma_close_is_first(
    t: Seq<char>,
    x: Seq<char>,
    close: Seq<char>,
    from: int,
    i: int,
    k: int,
)
    requires
        0 <= from <= i <= k,
        k == from + x.len(),
        close.len() == 5,
        k + 5 <= t.len(),
        t.subrange(from, k + 5) == x + close,
        stands_at_any_case(t, k, close),
        forall|j: int| 0 <= j < x.len() ==> !#[trigger] stands_at_any_case(x + close, j, close),
    ensures
        first_at_any_case(t, i, close) == Some(k),
    decreases k - i,
{
    if i < k {
        let u = x + close;
        assert(!stands_at_any_case(u, i - from, close));
        if stands_at_any_case(t, i, close) {
            assert forall|m: int|
                #![trigger close[m]]
                0 <= m < close.len() implies crate::text::lower(u[i - from + m]) == close[m] by {
                assert(t.subrange(from, k + 5)[i - from + m] == t[i + m]);
            }
        }
        lemma_close_is_first(t, x, close, from, i + 1, k);
    }
}

/// A row, header cell or data cell at the front of a text gives its content, and
/// the rest is read by itself. A content ends at the first closing tag.
pub proof fn law_elements_read(attrs: Seq<char>, x: Seq<char>, rest: Seq<char>)
    requires
        !attrs.contains('>'),
        !x.contains('/'),
    ensures
        groups(Pattern::DataCell, "<td"@ + attrs + ">"@ + x + "</td>"@ + rest) == seq![x] + groups(
            Pattern::DataCell,
            rest,
        ),
        groups(Pattern::HeaderCell, "<th"@ + attrs + ">"@ + x + "</th>"@ + rest) == seq![x]
            + groups(Pattern::HeaderCell, rest),
        groups(Pattern::TableRow, "<tr"@ + attrs + ">"@ + x + "</tr>"@ + rest) == seq![x] + groups(
            Pattern::TableRow,
            rest,
        ),
{
    lemma_element_read(Pattern::DataCell, 'd', attrs, x, rest);
    lemma_element_read(Pattern::HeaderCell, 'h', attrs, x, rest);
    lemma_element_read(Pattern::TableRow, 'r', attrs, x, rest);
    reveal_strlit("<td");
    reveal_strlit("</td>");
    reveal_strlit("<th");
    reveal_strlit("</th>");
    reveal_strlit("<tr");
    reveal_strlit("</tr>");
    reveal_strlit(">");
    assert("<td"@ =~= seq!['<', 't', 'd'] && "</td>"@ =~= seq!['<', '/', 't', 'd', '>']);
    assert("<th"@ =~= seq!['<', 't', 'h'] && "</th>"@ =~= seq!['<', '/', 't', 'h', '>']);
    assert("<tr"@ =~= seq!['<', 't', 'r'] && "</tr>"@ =~= seq!['<', '/', 't', 'r', '>']);
    assert(">"@ =~= seq!['>']);
}

proof fn lemma_element_read(p: Pattern, b: char, attrs: Seq<char>, x: Seq<char>, rest: Seq<char>)
    requires
        (p == Pattern::DataCell && b == 'd') || (p == Pattern::HeaderCell && b == 'h') || (p
            == Pattern::TableRow && b == 'r'),
        !attrs.contains('>'),
        !x.contains('/'),
    ensures
        groups(
            p,
            seq!['<', 't', b] + attrs + seq!['>'] + x + seq!['<', '/', 't', b, '>'] + rest,
        ) == seq![x] + groups(p, rest),
{
    let close = seq!['<', '/', 't', b, '>'];
    let t = seq!['<', 't', b] + attrs + seq!['>'] + x + close + rest;
    let g = 3 + attrs.len() as int;
    let k = g + 1 + x.len() as int;
    let u = x + close;
    assert forall|i: int| 0 <= i < x.len() implies !#[trigger] stands_at_any_case(u, i, close) by {
        if stands_at_any_case(u, i, close) {
            assert(close[1] == '/');
            assert(crate::text::lower(u[i + 1]) == '/');
            assert(u[i + 1] == '/') by {
                let c = u[i + 1];
                if 'A' <= c <= 'Z' {
                    assert(crate::text::lower(c) as u32 == c as u32 + 32);
                }
            }
            if i + 1 < x.len() {
                assert(u[i + 1] == x[i + 1] && x.contains(x[i + 1]));
            } else {
                assert(u[i + 1] == close[0]);
            }
        }
    }
    lemma_element('t', b, attrs, x, close, rest);
    assert(p.head(t) == Some((k + 5, g + 1, k))) by {
        reveal(Pattern::head);
    }
    lemma_groups_step(p, t);
    assert(t.subrange(g + 1, k) =~= x);
    assert(t.skip(k + 5) =~= rest);
}

/// No row of a table is lost: the rows and, where the table has headers, the row
/// of the headers are the rows of its text.
pub proof fn law_no_row_lost(html: Seq<char>)
    ensures
        table_cells(html).1.len() + (if table_cells(html).0.len() > 0 {
            1int
        } else {
            0int
        }) == groups(Pattern::TableRow, html).len(),
        table_cells(html).0.len() > 0 ==> table_cells(html).0.len() == groups(
            Pattern::HeaderCell,
            groups(Pattern::TableRow, html)[0],
        ).len(),
        table_cells(html).0.len() == 0 && groups(Pattern::TableRow, html).len() > 0 ==> groups(
            Pattern::HeaderCell,
            groups(Pattern::TableRow, html)[0],
        ).len() == 0,
{
}

/// The cells of the `k`-th row, in their order: the text of each data cell, or of
/// each header cell where the row has no data cell.
pub proof fn law_cells_in_order(html: Seq<char>, k: int, j: int)
    requires
        0 <= k < groups(Pattern::TableRow, html).len(),
    ensures
        ({
            let row = groups(Pattern::TableRow, html)[k];
            let data = groups(Pattern::DataCell, row);
            let heads = groups(Pattern::HeaderCell, row);
            let (headers, rows) = table_cells(html);
            let i = if headers.len() > 0 {
                k - 1
            } else {
                k
            };
            &&& i >= 0 && data.len() > 0 ==> rows[i].len() == data.len()
            &&& i >= 0 && 0 <= j < data.len() ==> rows[i][j] == cell_text(data[j])
            &&& i >= 0 && data.len() == 0 ==> rows[i].len() == heads.len()
            &&& i >= 0 && data.len() == 0 && 0 <= j < heads.len() ==> rows[i][j] == cell_text(
                heads[j],
            )
            &&& i < 0 && 0 <= j < heads.len() ==> headers[j] == cell_text(heads[j])
        }),
{
}

// ---------------------------------------------------------------------------
// Markdown of a table
// ---------------------------------------------------------------------------

/// A table without headers is rendered, embedded and ranked like the one that
/// has its first row as headers.
pub proof fn law_first_row_serves_as_header(m: TableModel)
    requires
        m.headers.len() == 0,
        m.rows.len() > 0,
        m.rows[0].len() > 0,
    ensures
        ({
            let n = TableModel { headers: m.rows[0], rows: m.rows.skip(1), ..m };
            &&& table_markdown(m) == table_markdown(n)
            &&& embed_text(m) == embed_text(n)
            &&& rerank_text(m) == rerank_text(n)
        }),
{
    let n = TableModel { headers: m.rows[0], rows: m.rows.skip(1), ..m };
    lemma_longest_split(m.rows, 1);
    assert(m.rows.take(1) =~= seq![m.rows[0]]);
    assert(longest(seq![m.rows[0]]) == m.rows[0].len()) by {
        reveal_with_fuel(longest, 2);
        assert(seq![m.rows[0]].drop_last() =~= Seq::<Seq<Seq<char>>>::empty());
    }
    assert(width(m) == width(n));
    lemma_body_lines_from(m.rows, 1, 0, width(m));
    assert(m.rows.skip(1).skip(0) =~= m.rows.skip(1));
}

proof fn lemma_longest_split(rows: Seq<Seq<Seq<char>>>, k: int)
    requires
        0 <= k <= rows.len(),
    ensures
        longest(rows) >= longest(rows.take(k)),
        longest(rows) >= longest(rows.skip(k)),
        longest(rows) == longest(rows.take(k)) || longest(rows) == longest(rows.skip(k)),
    decreases rows.len(),
{
    if k == rows.len() {
        assert(rows.take(k) =~= rows);
        assert(rows.skip(k) =~= Seq::<Seq<Seq<char>>>::empty());
    } else {
        let u = rows.drop_last();
        lemma_longest_split(u, k);
        assert(u.take(k) =~= rows.take(k));
        assert(rows.skip(k).drop_last() =~= u.skip(k));
        assert(rows.skip(k).last() == rows.last());
    }
}

proof fn lemma_body_lines_from(rows: Seq<Seq<Seq<char>>>, m: int, i: int, w: nat)
    requires
        0 <= m <= rows.len(),
        0 <= i,
    ensures
        body_lines(rows.skip(m), i, w) == body_lines(rows, m + i, w),
    decreases rows.len() - m - i,
{
    if m + i < rows.len() {
        assert(rows.skip(m)[i] == rows[m + i]);
        lemma_body_lines_from(rows, m, i + 1, w);
    }
}

/// The number of columns is the length of the longest of the headers and rows; a
/// table is rendered exactly if there is a column.
pub proof fn law_table_width(m: TableModel, i: int)
    ensures
        m.headers.len() <= width(m),
        0 <= i < m.rows.len() ==> m.rows[i].len() <= width(m),
        width(m) == 0 || width(m) == m.headers.len() || exists|k: int|
            0 <= k < m.rows.len() && width(m) == (#[trigger] m.rows[k]).len(),
        table_markdown(m) is Some <==> m.headers.len() > 0 || exists|k: int|
            0 <= k < m.rows.len() && (#[trigger] m.rows[k]).len() > 0,
{
    lemma_longest_is(m.rows, i);
    if m.rows.len() > 0 {
        lemma_longest_is(m.rows, 0);
        assert(m.rows[0].len() <= longest(m.rows));
    }
    if longest(m.rows) > 0 {
        let k = choose|k: int|
            0 <= k < m.rows.len() && longest(m.rows) == (#[trigger] m.rows[k]).len();
        assert(m.rows[k].len() > 0);
    }
    assert forall|k: int| 0 <= k < m.rows.len() implies (#[trigger] m.rows[k]).len() <= longest(
        m.rows,
    ) by {
        lemma_longest_is(m.rows, k);
    }
}

proof fn lemma_longest_is(rows: Seq<Seq<Seq<char>>>, i: int)
    ensures
        0 <= i < rows.len() ==> rows[i].len() <= longest(rows),
        rows.len() > 0 ==> exists|k: int|
            0 <= k < rows.len() && longest(rows) == (#[trigger] rows[k]).len(),
        rows.len() == 0 ==> longest(rows) == 0,
    decreases rows.len(),
{
    if rows.len() > 0 {
        let u = rows.drop_last();
        lemma_longest_is(u, i);
        assert(rows[rows.len() - 1] == rows.last());
        if u.len() > 0 {
            let k = choose|k: int| 0 <= k < u.len() && longest(u) == (#[trigger] u[k]).len();
            assert(rows[k] == u[k]);
        }
    }
}

/// The parts of a rendered table in their order: the caption and a blank line
/// where there is a caption, the header, a rule with three dashes for each
/// column, and one line for each row.
pub proof fn law_table_layout(m: TableModel)
    requires
        m.headers.len() > 0,
    ensures
        ({
            let w = width(m);
            let table = cells_line(m.headers, w) + row_line(Seq::new(w, |i: int| "---"@))
                + body_lines(m.rows, 0, w);
            &&& trim(m.caption).len() == 0 ==> table_markdown(m) == Some(table)
            &&& trim(m.caption).len() > 0 ==> table_markdown(m) == Some(
                trim(m.caption) + "\n\n"@ + table,
            )
        }),
{
    let w = width(m);
    let a = cells_line(m.headers, w);
    let b = row_line(Seq::new(w, |i: int| "---"@));
    let c = body_lines(m.rows, 0, w);
    let d = caption_block(m.caption);
    assert(d + a + b + c =~= d + (a + b + c));
    if trim(m.caption).len() == 0 {
        assert(d + (a + b + c) =~= a + b + c);
    }
}

/// A line of two or three cells, and what a row that is too short becomes: its
/// cells and then empty ones.
pub proof fn law_row_line(x: Seq<char>, y: Seq<char>, z: Seq<char>)
    ensures
        row_line(seq![x, y]) == "| "@ + x + " | "@ + y + " |\n"@,
        row_line(seq![x, y, z]) == "| "@ + x + " | "@ + y + " | "@ + z + " |\n"@,
        padded(seq![x], 3) == seq![x, Seq::<char>::empty(), Seq::<char>::empty()],
{
    reveal_with_fuel(join, 4);
    let sep = " | "@;
    assert(seq![x, y].drop_last() =~= seq![x]);
    assert(seq![x, y, z].drop_last() =~= seq![x, y]);
    assert(join(seq![x, y], sep) =~= x + sep + y);
    assert(join(seq![x, y, z], sep) =~= x + sep + y + sep + z);
    assert("| "@ + (x + sep + y) + " |\n"@ =~= "| "@ + x + sep + y + " |\n"@);
    assert("| "@ + (x + sep + y + sep + z) + " |\n"@ =~= "| "@ + x + sep + y + sep + z
        + " |\n"@);
    assert(padded(seq![x], 3) =~= seq![x, Seq::<char>::empty(), Seq::<char>::empty()]);
}

/// The rows of a rendered table come in their order, each a line as wide as the
/// table.
pub proof fn law_rows_in_order(rows: Seq<Seq<Seq<char>>>, w: nat, k: int)
    requires
        0 <= k < rows.len(),
    ensures
        body_lines(rows, 0, w) == body_lines(rows.take(k), 0, w) + cells_line(rows[k], w)
            + body_lines(rows.skip(k + 1), 0, w),
{
    lemma_body_split(rows, 0, k, w);
    lemma_body_lines_from(rows, k + 1, 0, w);
    let a = body_lines(rows.take(k), 0, w);
    let z = body_lines(rows, k + 1, w);
    assert(a + (cells_line(rows[k], w) + z) =~= a + cells_line(rows[k], w) + z);
}

proof fn lemma_body_split(rows: Seq<Seq<Seq<char>>>, i: int, k: int, w: nat)
    requires
        0 <= i <= k <= rows.len(),
    ensures
        body_lines(rows, i, w) == body_lines(rows.take(k), i, w) + body_lines(rows, k, w),
    decreases k - i,
{
    if i < k {
        lemma_body_split(rows, i + 1, k, w);
        assert(rows.take(k)[i] == rows[i]);
        let a = cells_line(rows[i], w);
        let b = body_lines(rows.take(k), i + 1, w);
        let c = body_lines(rows, k, w);
        assert(a + (b + c) =~= a + b + c);
    } else {
        assert(body_lines(rows.take(k), i, w) + body_lines(rows, k, w) =~= body_lines(rows, k, w));
    }
}

/// Before every pipe in a rendered cell stands a backslash; a cell without a pipe
/// is only trimmed.
pub proof fn law_pipes_escaped(c: Seq<char>, i: int)
    ensures
        0 <= i < cell_escaped(c).len() && cell_escaped(c)[i] == '|' ==> i > 0 && cell_escaped(
            c,
        )[i - 1] == '\\',
        !c.contains('|') ==> cell_escaped(c) == trim(c),
{
    let p = seq!['|'];
    let q = seq!['\\', '|'];
    let t = replaced(c, p, q);
    lemma_pipes(c);
    let (a, b) = law_trim(t);
    if 0 <= i < cell_escaped(c).len() && cell_escaped(c)[i] == '|' {
        assert(t[a + i] == '|');
        assert(t[a + i - 1] == '\\');
    }
    if !c.contains('|') {
        assert forall|k: int| !#[trigger] stands_at(c, k, p) by {
            if stands_at(c, k, p) {
                assert(c.subrange(k, k + 1)[0] == c[k]);
                assert(p[0] == '|');
                assert(c.contains(c[k]));
            }
        }
        lemma_replaced_absent(c, p, q);
    }
}

/// Before every pipe of an escaped text stands a backslash.
proof fn lemma_pipes(c: Seq<char>)
    ensures
        ({
            let t = replaced(c, seq!['|'], seq!['\\', '|']);
            forall|i: int| 0 <= i < t.len() && #[trigger] t[i] == '|' ==> i > 0 && t[i - 1] == '\\'
        }),
    decreases c.len(),
{
    let p = seq!['|'];
    let q = seq!['\\', '|'];
    let t = replaced(c, p, q);
    if c.len() > 0 {
        lemma_pipes(c.skip(1));
        let z = replaced(c.skip(1), p, q);
        if stands_at(c, 0, p) {
            assert(t =~= q + z);
            assert forall|i: int| 0 <= i < t.len() && #[trigger] t[i] == '|' implies i > 0 && t[i - 1]
                == '\\' by {
                if i >= 2 {
                    assert(t[i] == z[i - 2]);
                    assert(t[i - 1] == z[i - 3]);
                }
            }
        } else {
            assert(c.subrange(0, 1) =~= seq![c[0]]);
            assert(t =~= seq![c[0]] + z);
            assert forall|i: int| 0 <= i < t.len() && #[trigger] t[i] == '|' implies i > 0 && t[i - 1]
                == '\\' by {
                if i >= 1 {
                    assert(t[i] == z[i - 1]);
                    assert(i >= 2);
                    assert(t[i - 1] == z[i - 2]);
                } else {
                    assert(seq![c[0]] =~= p);
                }
            }
        }
    }
}

// ---------------------------------------------------------------------------
// Texts that stand for a table
// ---------------------------------------------------------------------------

/// The column names are the headers, trimmed and without empty ones, in their
/// order.
proof fn lemma_filled(parts: Seq<Seq<char>>, x: Seq<char>)
    ensures
        filled(parts).contains(x) <==> parts.contains(x) && x.len() > 0,
        forall|i: int| 0 <= i < filled(parts).len() ==> (#[trigger] filled(parts)[i]).len() > 0,
        (forall|i: int| 0 <= i < parts.len() ==> (#[trigger] parts[i]).len() > 0) ==> filled(parts)
            == parts,
    decreases parts.len(),
{
    if parts.len() > 0 {
        let u = parts.drop_last();
        let l = parts.last();
        let f = filled(u);
        lemma_filled(u, x);
        assert(parts[parts.len() - 1] == l);
        if parts.contains(x) && x != l {
            let i = choose|i: int| 0 <= i < parts.len() && parts[i] == x;
            assert(u[i] == x);
        }
        if u.contains(x) {
            let i = choose|i: int| 0 <= i < u.len() && u[i] == x;
            assert(parts[i] == x);
        }
        if l.len() > 0 {
            let g = f.push(l);
            assert(g[g.len() - 1] == l);
            if f.contains(x) {
                let i = choose|i: int| 0 <= i < f.len() && f[i] == x;
                assert(g[i] == x);
            }
            if g.contains(x) && x != l {
                let i = choose|i: int| 0 <= i < g.len() && g[i] == x;
                assert(f[i] == x);
            }
        }
        if forall|i: int| 0 <= i < parts.len() ==> (#[trigger] parts[i]).len() > 0 {
            assert forall|i: int| 0 <= i < u.len() implies (#[trigger] u[i]).len() > 0 by {
                assert(u[i] == parts[i]);
            }
            assert(f.push(l) =~= parts);
        }
    } else {
        assert(filled(parts) =~= parts);
    }
}

/// A column is named exactly if some header cell has that text, trimmed, and the
/// text is not empty; a row likewise by its first cell below the header.
pub proof fn law_names_of_a_table(m: TableModel, x: Seq<char>)
    requires
        m.headers.len() > 0,
        x.len() > 0,
    ensures
        column_names(m).contains(x) <==> exists|i: int|
            0 <= i < m.headers.len() && trim(#[trigger] m.headers[i]) == x,
        row_labels(m).contains(x) <==> exists|i: int|
            0 <= i < m.rows.len() && (#[trigger] m.rows[i]).len() > 0 && trim(m.rows[i][0]) == x,
{
    let h = m.headers.map_values(crate::tables::trimming());
    lemma_filled(h, x);
    assert(header_row(m) == m.headers);
    if h.contains(x) {
        let i = choose|i: int| 0 <= i < h.len() && h[i] == x;
        assert(trim(m.headers[i]) == x);
    }
    if exists|i: int| 0 <= i < m.headers.len() && trim(#[trigger] m.headers[i]) == x {
        let i = choose|i: int| 0 <= i < m.headers.len() && trim(#[trigger] m.headers[i]) == x;
        assert(h[i] == x);
    }
    let rows = crate::tables::body_rows(m);
    assert(rows =~= m.rows);
    let f = crate::tables::first_cells(rows);
    lemma_filled(f, x);
    if f.contains(x) {
        let i = choose|i: int| 0 <= i < f.len() && f[i] == x;
        assert(m.rows[i].len() > 0 && trim(m.rows[i][0]) == x);
    }
    if exists|i: int|
        0 <= i < m.rows.len() && (#[trigger] m.rows[i]).len() > 0 && trim(m.rows[i][0]) == x {
        let i = choose|i: int|
            0 <= i < m.rows.len() && (#[trigger] m.rows[i]).len() > 0 && trim(m.rows[i][0]) == x;
        assert(f[i] == x);
    }
}

/// What a table is embedded and ranked by, where it has a caption and names: the
/// caption, the columns on the next line, and for ranking the rows on another.
pub proof fn law_texts_of_a_table(m: TableModel)
    requires
        trim(m.caption).len() > 0,
        column_names(m).len() > 0,
        row_labels(m).len() > 0,
    ensures
        embed_text(m) == Some(trim(m.caption) + "\nColumns: "@ + join(column_names(m), ", "@)),
        rerank_text(m) == Some(
            trim(m.caption) + "\nColumns: "@ + join(column_names(m), ", "@) + "\nRows: "@ + join(
                row_labels(m),
                ", "@,
            ),
        ),
{
    reveal_strlit("\nColumns: ");
    reveal_strlit("Columns: ");
    reveal_strlit("\nRows: ");
    reveal_strlit("Rows: ");
    let c = trim(m.caption);
    let n = join(column_names(m), ", "@);
    let l = join(row_labels(m), ", "@);
    assert("\nColumns: "@ =~= seq!['\n'] + "Columns: "@);
    assert("\nRows: "@ =~= seq!['\n'] + "Rows: "@);
    assert(c + seq!['\n'] + "Columns: "@ + n =~= c + "\nColumns: "@ + n);
    let e = c + "\nColumns: "@ + n;
    assert(e + seq!['\n'] + "Rows: "@ + l =~= e + "\nRows: "@ + l);
}

/// A table without a caption, names and labels has no such texts; one without a
/// caption begins with its columns.
pub proof fn law_texts_without_caption(m: TableModel)
    requires
        trim(m.caption).len() == 0,
    ensures
        column_names(m).len() == 0 ==> embed_text(m) is None,
        column_names(m).len() == 0 && row_labels(m).len() == 0 ==> rerank_text(m) is None,
        column_names(m).len() > 0 ==> embed_text(m) == Some(
            "Columns: "@ + join(column_names(m), ", "@),
        ),
        column_names(m).len() == 0 && row_labels(m).len() > 0 ==> rerank_text(m) == Some(
            "Rows: "@ + join(row_labels(m), ", "@),
        ),
{
}

// ---------------------------------------------------------------------------
// Extraction
// ---------------------------------------------------------------------------

/// The table inside a block: from its first `<table` to its last `</table>`.
#[verifier::rlimit(40)]
#[verifier::spinoff_prover]
pub proof fn law_table_cut_out(a: Seq<char>, x: Seq<char>, b: Seq<char>)
    requires
        !a.contains('<'),
        !b.contains('<'),
    ensures
        inner_table(a + "<table"@ + x + "</table>"@ + b) == "<table"@ + x + "</table>"@,
{
    reveal_strlit("<table");
    reveal_strlit("</table>");
    let open = "<table"@;
    let close = "</table>"@;
    let t = a + open + x + close + b;
    let p = a.len() as int;
    let q = p + 6 + x.len();
    assert(t.subrange(p, p + 6) =~= open);
    law_first_at_is_first(t, 0, open, p);
    let k = first_at(t, 0, open)->0;
    if k < p {
        assert(t.subrange(k, k + 6)[0] == t[k]);
        assert(open[0] == '<');
        assert(t[k] == a[k] && a.contains(a[k]));
    }
    assert(t.subrange(q, q + 8) =~= close);
    law_last_at_is_last(t, t.len() as int, close, q);
    let m = last_at(t, t.len() as int, close)->0;
    if m > q {
        assert(t.subrange(m, m + 8)[0] == t[m]);
        assert(close[0] == '<');
        if m >= q + 8 {
            assert(t[m] == b[m - q - 8] && b.contains(b[m - q - 8]));
        } else {
            assert(t[m] == close[m - q]);
        }
    }
    assert(t.subrange(p, q + 8) =~= open + x + close);
}

/// The positions of the table regions: all of them, in their order, and nothing
/// else.
pub proof fn law_table_positions(elements: Seq<LayoutElement>, i: int)
    requires
        0 <= i,
    ensures
        forall|k: int|
            0 <= k < table_positions(elements, i).len() ==> i <= #[trigger] table_positions(
                elements,
                i,
            )[k] < elements.len() && elements[table_positions(elements, i)[k]].kind
                == ElementKind::Table,
        forall|k: int, l: int|
            0 <= k < l < table_positions(elements, i).len() ==> #[trigger] table_positions(
                elements,
                i,
            )[k] < #[trigger] table_positions(elements, i)[l],
        forall|j: int|
            i <= j < elements.len() && (#[trigger] elements[j]).kind == ElementKind::Table
                ==> table_positions(elements, i).contains(j),
    decreases elements.len() - i,
{
    if i < elements.len() {
        law_table_positions(elements, i + 1);
        let rest = table_positions(elements, i + 1);
        let all = table_positions(elements, i);
        if elements[i].kind == ElementKind::Table {
            assert(all =~= seq![i] + rest);
            assert forall|k: int| 0 <= k < all.len() implies i <= #[trigger] all[k] < elements.len()
                && elements[all[k]].kind == ElementKind::Table by {
                if k > 0 {
                    assert(all[k] == rest[k - 1]);
                }
            }
            assert forall|k: int, l: int| 0 <= k < l < all.len() implies #[trigger] all[k]
                < #[trigger] all[l] by {
                assert(all[l] == rest[l - 1]);
                if k > 0 {
                    assert(all[k] == rest[k - 1]);
                }
            }
            assert forall|j: int|
                i <= j < elements.len() && (#[trigger] elements[j]).kind
                    == ElementKind::Table implies all.contains(j) by {
                if j == i {
                    assert(all[0] == i);
                } else {
                    let k = choose|k: int| 0 <= k < rest.len() && rest[k] == j;
                    assert(all[k + 1] == j);
                }
            }
        }
    }
}

/// The tables of a page: the `k`-th one has the `k`-th block as its text and the
/// `k`-th table region as its place. Its id names the page and that place, and
/// its caption is the one that is found above or below the region.
pub proof fn law_table_fields(md: Seq<char>, elements: Seq<LayoutElement>, page: u32, k: int)
    requires
        0 <= k < tables_of(md, elements, page).len(),
        elements.len() <= u32::MAX,
    ensures
        ({
            let m = tables_of(md, elements, page)[k];
            let at = table_positions(elements, 0)[k];
            let hit = Pattern::TableDiv.hits(md, 0)[k];
            &&& k < table_positions(elements, 0).len()
            &&& k < Pattern::TableDiv.hits(md, 0).len()
            &&& 0 <= at < elements.len()
            &&& elements[at].kind == ElementKind::Table
            &&& m.order_index == at
            &&& m.page == page
            &&& m.id == "tbl_"@ + decimal(page as nat) + "_"@ + decimal(at as nat)
            &&& m.html == inner_table(md.subrange(hit.0, hit.1))
            &&& caption_found(Search::BesideTable, elements[at].bbox, elements) matches Some(c)
                ==> m.caption == c
            &&& caption_found(Search::BesideTable, elements[at].bbox, elements) is None
                ==> m.caption.len() == 0
        }),
{
    law_table_positions(elements, 0);
    let at = table_positions(elements, 0)[k];
    assert(elements[at].kind == ElementKind::Table);
}

/// As many tables are taken out as blocks and regions pair up, and the
/// placeholder of each stands in the page.
pub proof fn law_placeholders_stand(
    md: Seq<char>,
    hits: Seq<(int, int, int, int)>,
    at: Seq<int>,
    page: u32,
    i: int,
    cursor: int,
    k: int,
) -> (p: int)
    requires
        0 <= i <= k < hits.len(),
        k < at.len(),
    ensures
        stands_at(
            patched(md, hits, at, page, i, cursor),
            p,
            "![tbl_"@ + decimal(page as nat) + "_"@ + decimal(at[k] as nat) + "](edgequake-table)"@,
        ),
    decreases k - i,
{
    reveal_strlit("![tbl_");
    reveal_strlit("![");
    reveal_strlit("tbl_");
    let a = md.subrange(cursor, hits[i].0);
    let h = placeholder(table_id(page, at[i]));
    let rest = patched(md, hits, at, page, i + 1, hits[i].1);
    let all = patched(md, hits, at, page, i, cursor);
    let want = "![tbl_"@ + decimal(page as nat) + "_"@ + decimal(at[k] as nat)
        + "](edgequake-table)"@;
    assert(all =~= a + h + rest);
    if i == k {
        assert("![tbl_"@ =~= "!["@ + "tbl_"@);
        assert(h =~= want);
        assert(all.subrange(a.len() as int, (a.len() + h.len()) as int) =~= h);
        a.len() as int
    } else {
        let q = law_placeholders_stand(md, hits, at, page, i + 1, hits[i].1, k);
        let n = a.len() + h.len();
        assert(all.subrange(n + q, n + q + want.len()) =~= rest.subrange(q, q + want.len()));
        n + q
    }
}

// ---------------------------------------------------------------------------
// Placeholders
// ---------------------------------------------------------------------------

/// Replacing goes from the left: up to the first place the text stays, there the
/// replacement stands, and the rest is done by itself.
proof fn lemma_replaced_at(t: Seq<char>, p: Seq<char>, q: Seq<char>, k: int)
    requires
        p.len() > 0,
        stands_at(t, k, p),
        forall|j: int| 0 <= j < k ==> !#[trigger] stands_at(t, j, p),
    ensures
        replaced(t, p, q) == t.take(k) + q + replaced(t.skip(k + p.len()), p, q),
    decreases k,
{
    if k == 0 {
        assert(t.take(0) + q =~= q);
    } else {
        assert(!stands_at(t, 0, p));
        let u = t.skip(1);
        assert(u.subrange(k - 1, k - 1 + p.len()) =~= t.subrange(k, k + p.len()));
        assert forall|j: int| 0 <= j < k - 1 implies !#[trigger] stands_at(u, j, p) by {
            if stands_at(u, j, p) {
                assert(u.subrange(j, j + p.len()) =~= t.subrange(j + 1, j + 1 + p.len()));
                assert(stands_at(t, j + 1, p));
            }
        }
        lemma_replaced_at(u, p, q, k - 1);
        assert(u.skip(k - 1 + p.len()) =~= t.skip(k + p.len()));
        let z = replaced(t.skip(k + p.len()), p, q);
        assert(seq![t[0]] + (u.take(k - 1) + q + z) =~= t.take(k) + q + z);
    }
}

/// In a text that mentions a table once, inlining puts the table's markdown in
/// the place of the placeholder and marking puts a short reference there; the
/// text around it stays.
#[verifier::rlimit(40)]
#[verifier::spinoff_prover]
pub proof fn law_placeholder_replaced(a: Seq<char>, m: TableModel, b: Seq<char>)
    requires
        !a.contains('!'),
        !b.contains('!'),
        !m.id.contains('!'),
    ensures
        crate::tables::marked(a + "!["@ + m.id + "](edgequake-table)"@ + b, seq![m]) == a
            + "[[table:"@ + m.id + "]]"@ + b,
        table_markdown(m) matches Some(t) ==> inlined(
            a + "!["@ + m.id + "](edgequake-table)"@ + b,
            seq![m],
        ) == a + t + b,
        table_markdown(m) is None ==> inlined(
            a + "!["@ + m.id + "](edgequake-table)"@ + b,
            seq![m],
        ) == a + "!["@ + m.id + "](edgequake-table)"@ + b,
{
    reveal_strlit("![");
    reveal_strlit("](edgequake-table)");
    let p = placeholder(m.id);
    let t = a + "!["@ + m.id + "](edgequake-table)"@ + b;
    let k = a.len() as int;
    assert(t =~= a + p + b);
    assert(t.subrange(k, k + p.len()) =~= p);
    assert(p[0] == '!');
    assert forall|j: int| 0 <= j < k implies !#[trigger] stands_at(t, j, p) by {
        if stands_at(t, j, p) {
            assert(t.subrange(j, j + p.len())[0] == t[j]);
            assert(t[j] == a[j] && a.contains(a[j]));
        }
    }
    assert(t.skip(k + p.len()) =~= b);
    assert(t.take(k) =~= a);
    assert forall|j: int| !#[trigger] stands_at(b, j, p) by {
        if stands_at(b, j, p) {
            assert(b.subrange(j, j + p.len())[0] == b[j]);
            assert(b.contains(b[j]));
        }
    }
    let none = Seq::<TableModel>::empty();
    assert(seq![m].drop_last() =~= none);
    assert(seq![m].last() == m);
    reveal_with_fuel(inlined, 2);
    reveal_with_fuel(crate::tables::marked, 2);
    let r = reference(m.id);
    lemma_replaced_at(t, p, r, k);
    lemma_replaced_absent(b, p, r);
    assert(a + r + b =~= a + "[[table:"@ + m.id + "]]"@ + b);
    if let Some(x) = table_markdown(m) {
        lemma_replaced_at(t, p, x, k);
        lemma_replaced_absent(b, p, x);
    }
}

// ---------------------------------------------------------------------------
// Figures
// ---------------------------------------------------------------------------

/// The name of a region's image: charts are called so and everything else an
/// image, and the corners follow in the order left, top, right, bottom.
pub proof fn law_image_names(kind: ElementKind, b: PixelBox)
    requires
        b.x_min >= 0,
        b.y_min >= 0,
        b.x_max >= 0,
        b.y_max >= 0,
    ensures
        ({
            let corners = decimal(b.x_min as nat) + "_"@ + decimal(b.y_min as nat) + "_"@ + decimal(
                b.x_max as nat,
            ) + "_"@ + decimal(b.y_max as nat) + ".jpg"@;
            &&& kind == ElementKind::Chart ==> image_source(kind, b)
                == "imgs/img_in_chart_box_"@ + corners
            &&& kind != ElementKind::Chart ==> image_source(kind, b)
                == "imgs/img_in_image_box_"@ + corners
        }),
{
    reveal_strlit("imgs/img_in_");
    reveal_strlit("chart");
    reveal_strlit("image");
    reveal_strlit("_box_");
    reveal_strlit("imgs/img_in_chart_box_");
    reveal_strlit("imgs/img_in_image_box_");
    let corners = decimal(b.x_min as nat) + "_"@ + decimal(b.y_min as nat) + "_"@ + decimal(
        b.x_max as nat,
    ) + "_"@ + decimal(b.y_max as nat) + ".jpg"@;
    if kind == ElementKind::Chart {
        assert("imgs/img_in_chart_box_"@ =~= "imgs/img_in_"@ + "chart"@ + "_box_"@);
        assert(image_source(kind, b) =~= "imgs/img_in_chart_box_"@ + corners);
    } else {
        assert("imgs/img_in_image_box_"@ =~= "imgs/img_in_"@ + "image"@ + "_box_"@);
        assert(image_source(kind, b) =~= "imgs/img_in_image_box_"@ + corners);
    }
}

/// An image is encoded at quality 80, and only if no side is longer than 16383
/// pixels and something came out.
pub proof fn law_encoding(c: RgbCrop)
    ensures
        c.width > 16383 || c.height > 16383 ==> encoding_of(Some(c)) is None,
        c.width <= 16383 && c.height <= 16383 ==> encoding_of(Some(c)) == (match webp_image(
            c.rgb@,
            c.width,
            c.height,
            80,
        ) {
            Some(b) => if b.len() == 0 {
                None
            } else {
                Some(b)
            },
            None => None,
        }),
        encoding_of(None) is None,
{
}

/// The caption of a figure is what is found below it; where nothing is found it
/// is the figure's own text, trimmed, or nothing.
pub proof fn law_figure_caption(elements: Seq<LayoutElement>, i: int)
    ensures
        caption_found(Search::BelowFigure, elements[i].bbox, elements) matches Some(c)
            ==> figure_caption(elements, i) == c,
        caption_found(Search::BelowFigure, elements[i].bbox, elements) is None ==> (
        elements[i].text matches Some(s) ==> figure_caption(elements, i) == trim(s@)),
        caption_found(Search::BelowFigure, elements[i].bbox, elements) is None
            && elements[i].text is None ==> figure_caption(elements, i).len() == 0,
{
}

/// The figures of a page come in the order of their regions. Each stands for an
/// image, chart or seal that was encoded; its id names the page and the region,
/// and it holds the encoded bytes and the caption of that region.
pub proof fn law_figure_fields(
    md: Seq<char>,
    elements: Seq<LayoutElement>,
    encoded: Seq<Option<Vec<u8>>>,
    page: u32,
    i: int,
    k: int,
) -> (at: int)
    requires
        0 <= i,
        elements.len() <= u32::MAX,
        0 <= k < figures_taken(md, elements, encoded, page, i).1.len(),
    ensures
        i + k <= at < elements.len(),
        ({
            let f = figures_taken(md, elements, encoded, page, i).1[k];
            &&& elements[at].kind == ElementKind::Image || elements[at].kind
                == ElementKind::Chart || elements[at].kind == ElementKind::Seal
            &&& f.id == "fig_"@ + decimal(page as nat) + "_"@ + decimal(at as nat)
            &&& encoded[at] matches Some(v) && f.image_bytes == v@
            &&& f.mime == "image/webp"@
            &&& f.caption == figure_caption(elements, at)
            &&& f.page == page
            &&& f.order_index == at
        }),
        k + 1 < figures_taken(md, elements, encoded, page, i).1.len() ==> at
            < figures_taken(md, elements, encoded, page, i).1[k + 1].order_index,
    decreases elements.len() - i,
{
    let all = figures_taken(md, elements, encoded, page, i);
    let src = image_source(elements[i].kind, elements[i].pixels);
    if elements[i].kind.figure_kind() && image_at(md, src) is Some && encoded[i] is Some {
        let (s, e) = image_at(md, src)->0;
        let next = md.take(s) + figure_placeholder(figure_id(page, i)) + md.skip(e);
        let rest = figures_taken(next, elements, encoded, page, i + 1);
        assert(all.1.len() == 1 + rest.1.len());
        if k == 0 {
            if all.1.len() > 1 {
                let other = law_figure_fields(next, elements, encoded, page, i + 1, 0);
                assert(all.1[1] == rest.1[0]);
            }
            i
        } else {
            assert(all.1[k] == rest.1[k - 1]);
            if k + 1 < all.1.len() {
                assert(all.1[k + 1] == rest.1[k]);
            }
            law_figure_fields(next, elements, encoded, page, i + 1, k - 1)
        }
    } else {
        law_figure_fields(md, elements, encoded, page, i + 1, k)
    }
}

/// Where the image of an encoded figure stands in a page, the placeholder takes
/// its place, and the text before and behind it stays.
pub proof fn law_figure_replaced(
    md: Seq<char>,
    elements: Seq<LayoutElement>,
    encoded: Seq<Option<Vec<u8>>>,
    page: u32,
    i: int,
)
    requires
        i == elements.len() - 1,
        0 <= i,
        elements[i].kind == ElementKind::Image || elements[i].kind == ElementKind::Chart
            || elements[i].kind == ElementKind::Seal,
        encoded[i] is Some,
    ensures
        ({
            let r = figures_taken(md, elements, encoded, page, i);
            match image_at(md, image_source(elements[i].kind, elements[i].pixels)) {
                Some((s, e)) => r.0 == md.take(s) + "![fig_"@ + decimal(page as nat) + "_"@ + decimal(
                    i as nat,
                ) + "](edgequake-figure)"@ + md.skip(e) && r.1.len() == 1,
                None => r.0 == md && r.1.len() == 0,
            }
        }),
{
    reveal_with_fuel(figures_taken, 2);
    reveal_strlit("![fig_");
    reveal_strlit("![");
    reveal_strlit("fig_");
    let src = image_source(elements[i].kind, elements[i].pixels);
    if let Some((s, e)) = image_at(md, src) {
        assert("![fig_"@ =~= "!["@ + "fig_"@);
        assert(figures_taken(md, elements, encoded, page, i).0 =~= md.take(s) + "![fig_"@ + decimal(
            page as nat,
        ) + "_"@ + decimal(i as nat) + "](edgequake-figure)"@ + md.skip(e));
    }
}

// ---------------------------------------------------------------------------
// Whole pages
// ---------------------------------------------------------------------------

/// Text without a `<` holds no block.
proof fn lemma_blocks_pass(p: Pattern, a: Seq<char>, rest: Seq<char>, off: int)
    requires
        p == Pattern::TableDiv || p == Pattern::ImageDiv,
        !a.contains('<'),
    ensures
        p.hits(a + rest, off) == p.hits(rest, off + a.len()),
    decreases a.len(),
{
    reveal_strlit("<div style=\"text-align: center;\"><table border=\"1\">");
    reveal_strlit("<div style=\"text-align: center;\"><img src=\"");
    if a.len() == 0 {
        assert(a + rest =~= rest);
    } else {
        let t = a + rest;
        let u = a.skip(1);
        assert(t[0] == a[0] && a.contains(a[0]));
        assert(p.head(t) is None) by {
            reveal(Pattern::head);
            let x = "<div style=\"text-align: center;\"><table border=\"1\">"@;
            let y = "<div style=\"text-align: center;\"><img src=\""@;
            if stands_at(t, 0, x) {
                assert(t.subrange(0, x.len() as int)[0] == x[0]);
            }
            if stands_at(t, 0, y) {
                assert(t.subrange(0, y.len() as int)[0] == y[0]);
            }
        }
        assert(t.skip(1) =~= u + rest);
        assert forall|i: int| 0 <= i < u.len() implies u[i] != '<' by {
            assert(a.contains(a[i + 1]));
        }
        lemma_blocks_pass(p, u, rest, off + 1);
    }
}

proof fn lemma_no_blocks(p: Pattern, a: Seq<char>, off: int)
    requires
        p == Pattern::TableDiv || p == Pattern::ImageDiv,
        !a.contains('<'),
    ensures
        p.hits(a, off).len() == 0,
{
    let none = Seq::<char>::empty();
    lemma_blocks_pass(p, a, none, off);
    assert(a + none =~= a);
    assert(p.hits(none, off + a.len()).len() == 0);
}

/// A page with one table block and a table region: the block gives way to the
/// placeholder, the text around it stays, and the table holds the HTML of the
/// block.
#[verifier::rlimit(60)]
#[verifier::spinoff_prover]
pub proof fn law_single_table(
    a: Seq<char>,
    x: Seq<char>,
    b: Seq<char>,
    elements: Seq<LayoutElement>,
    page: u32,
    i: int,
)
    requires
        !a.contains('<'),
        !x.contains('<'),
        !b.contains('<'),
        0 <= i < elements.len() <= u32::MAX,
        elements[i].kind == ElementKind::Table,
        forall|k: int| 0 <= k < i ==> (#[trigger] elements[k]).kind != ElementKind::Table,
    ensures
        ({
            let md = a + "<div style=\"text-align: center;\"><table border=\"1\">"@ + x
                + "</table></div>"@ + b;
            let hits = Pattern::TableDiv.hits(md, 0);
            let tables = tables_of(md, elements, page);
            &&& patched(md, hits, table_positions(elements, 0), page, 0, 0) == a + "![tbl_"@
                + decimal(page as nat) + "_"@ + decimal(i as nat) + "](edgequake-table)"@ + b
            &&& tables.len() == 1
            &&& tables[0].html == "<table border=\"1\">"@ + x + "</table>"@
            &&& tables[0].order_index == i
        }),
{
    reveal_strlit("<div style=\"text-align: center;\"><table border=\"1\">");
    reveal_strlit("<div style=\"text-align: center;\">");
    reveal_strlit("<table border=\"1\">");
    reveal_strlit("<table");
    reveal_strlit("</table></div>");
    reveal_strlit("</table>");
    reveal_strlit("![tbl_");
    reveal_strlit("![");
    reveal_strlit("tbl_");
    let open = "<div style=\"text-align: center;\"><table border=\"1\">"@;
    let close = "</table></div>"@;
    let p = Pattern::TableDiv;
    let block = open + x + close;
    let md = a + open + x + close + b;
    let u = block + b;
    assert(md =~= a + u);
    lemma_blocks_pass(p, a, u, 0);
    let n = open.len() as int;
    let k = n + x.len();
    let e = k + close.len();
    let off = a.len() as int;
    assert(u.subrange(0, n) =~= open);
    assert(u.subrange(k, e) =~= close);
    law_first_at_is_first(u, n, close, k);
    let m = first_at(u, n, close)->0;
    if m < k {
        assert(u.subrange(m, m + close.len())[0] == u[m]);
        assert(close[0] == '<');
        assert(u[m] == x[m - n] && x.contains(x[m - n]));
    }
    assert(p.head(u) == Some((e, 0int, e))) by {
        reveal(Pattern::head);
    }
    assert(u.skip(e) =~= b);
    lemma_no_blocks(p, b, off + e);
    let hits = p.hits(md, 0);
    assert(p.hits(b, off + e) =~= Seq::empty());
    assert(hits =~= seq![(off, off + e, off, off + e)]);
    law_table_positions(elements, 0);
    lemma_first_table(elements, 0, i);
    let at = table_positions(elements, 0);
    assert(at[0] == i);
    assert(md.subrange(off, off + e) =~= block);
    assert(md.skip(off + e) =~= b);
    assert(md.subrange(0, off) =~= a);
    reveal_with_fuel(patched, 2);
    assert("![tbl_"@ =~= "!["@ + "tbl_"@);
    assert(patched(md, hits, at, page, 0, 0) =~= a + "![tbl_"@ + decimal(page as nat) + "_"@
        + decimal(i as nat) + "](edgequake-table)"@ + b);
    lemma_inner_of_block(x);
}

/// The first table region is the first place in the list.
proof fn lemma_first_table(elements: Seq<LayoutElement>, j: int, i: int)
    requires
        0 <= j <= i < elements.len(),
        elements[i].kind == ElementKind::Table,
        forall|k: int| j <= k < i ==> (#[trigger] elements[k]).kind != ElementKind::Table,
    ensures
        table_positions(elements, j).len() > 0,
        table_positions(elements, j)[0] == i,
    decreases i - j,
{
    if j < i {
        assert(elements[j].kind != ElementKind::Table);
        lemma_first_table(elements, j + 1, i);
    }
}

/// The table inside a block.
#[verifier::rlimit(40)]
#[verifier::spinoff_prover]
proof fn lemma_inner_of_block(x: Seq<char>)
    requires
        !x.contains('<'),
    ensures
        inner_table(
            "<div style=\"text-align: center;\"><table border=\"1\">"@ + x + "</table></div>"@,
        ) == "<table border=\"1\">"@ + x + "</table>"@,
{
    reveal_strlit("<div style=\"text-align: center;\"><table border=\"1\">");
    reveal_strlit("<table border=\"1\">");
    reveal_strlit("<table");
    reveal_strlit("</table></div>");
    reveal_strlit("</table>");
    let open = "<div style=\"text-align: center;\"><table border=\"1\">"@;
    let close = "</table></div>"@;
    let t = open + x + close;
    let s = "<table"@;
    let c = "</table>"@;
    let f = 33int;
    let k = open.len() as int + x.len();
    assert(t.subrange(f, f + 6) =~= s);
    law_first_at_is_first(t, 0, s, f);
    let m = first_at(t, 0, s)->0;
    if m < f {
        assert(t.subrange(m, m + 6)[0] == t[m]);
        assert(t.subrange(m, m + 6)[1] == t[m + 1]);
        assert(s[0] == '<' && s[1] == 't');
        assert(t[m] == open[m] && t[m + 1] == open[m + 1]);
        if m == 0 {
            assert(open[1] == 'd');
        }
    }
    assert(t.subrange(k, k + 8) =~= c);
    law_last_at_is_last(t, t.len() as int, c, k);
    let l = last_at(t, t.len() as int, c)->0;
    if l > k {
        assert(t.subrange(l, l + 8)[0] == t[l]);
        assert(t.subrange(l, l + 8)[2] == t[l + 2]);
        assert(c[0] == '<' && c[2] == 't');
        assert(t[l] == close[l - k] && t[l + 2] == close[l + 2 - k]);
    }
    assert(t.subrange(f, k + 8) =~= "<table border=\"1\">"@ + x + "</table>"@);
}

/// The image of a region is found by its source, in a page that holds it in a
/// block of its own; the block is found whole.
#[verifier::rlimit(60)]
#[verifier::spinoff_prover]
pub proof fn law_image_found(a: Seq<char>, src: Seq<char>, attrs: Seq<char>, b: Seq<char>)
    requires
        !a.contains('<'),
        !b.contains('<'),
        !src.contains('"'),
        !attrs.contains('>'),
    ensures
        ({
            let block = "<div style=\"text-align: center;\"><img src=\""@ + src + "\""@ + attrs
                + "/></div>"@;
            image_at(a + block + b, src) == Some((a.len() as int, (a.len() + block.len()) as int))
        }),
        image_at(a, src) is None,
{
    reveal_strlit("<div style=\"text-align: center;\"><img src=\"");
    reveal_strlit("\"");
    reveal_strlit("/></div>");
    reveal_strlit("</div>");
    let open = "<div style=\"text-align: center;\"><img src=\""@;
    let block = open + src + "\""@ + attrs + "/></div>"@;
    let p = Pattern::ImageDiv;
    let u = block + b;
    let md = a + block + b;
    assert(md =~= a + u);
    lemma_blocks_pass(p, a, u, 0);
    let n = open.len() as int;
    let q = n + src.len();
    let g = q + 1 + attrs.len() + 1;
    let e = block.len() as int;
    let off = a.len() as int;
    assert(u.subrange(0, n) =~= open);
    assert(u.subrange(n, q) =~= src);
    assert(u[q] == '"');
    let quote = crate::patterns::is_no_quote();
    assert forall|k: int| n <= k < q implies quote(#[trigger] u[k]) by {
        assert(u[k] == src[k - n] && src.contains(src[k - n]));
    }
    crate::text::lemma_run_is(u, n, q, quote);
    assert(u[g] == '>' && u[g - 1] == '/');
    assert(u.subrange(g, g + 1) =~= seq!['>']);
    law_first_at_is_first(u, q + 1, seq!['>'], g);
    let m = first_at(u, q + 1, seq!['>'])->0;
    if m < g {
        assert(u.subrange(m, m + 1)[0] == u[m]);
        assert(seq!['>'][0] == '>');
        if m < g - 1 {
            assert(u[m] == attrs[m - q - 1] && attrs.contains(attrs[m - q - 1]));
        }
    }
    assert(u.subrange(g + 1, g + 7) =~= "</div>"@);
    assert(p.head(u) == Some((e, n, q))) by {
        reveal(Pattern::head);
    }
    let hits = p.hits(md, 0);
    let rest = p.hits(u.skip(e), off + e);
    assert(hits =~= seq![(off, off + e, off + n, off + q)] + rest);
    assert(md.subrange(off + n, off + q) =~= src);
    assert(hits[0] == (off, off + e, off + n, off + q));
    lemma_no_blocks(p, a, 0);
}

/// A number below zero is written as its opposite with a sign before it.
pub proof fn law_signed_numbers(n: nat)
    ensures
        n > 0 ==> signed_decimal(-(n as int)) == seq!['-'] + decimal(n),
        signed_decimal(n as int) == decimal(n),
{
}

/// Rows and cells are found whatever the case in which their tags are written:
/// two texts that differ in case alone have them at the same places.
pub proof fn law_case_of_tags(p: Pattern, t: Seq<char>, u: Seq<char>)
    requires
        p == Pattern::DataCell || p == Pattern::HeaderCell || p == Pattern::TableRow,
        lowered(t) == lowered(u),
    ensures
        p.head(t) == p.head(u),
{
    let b = if p == Pattern::DataCell {
        'd'
    } else if p == Pattern::HeaderCell {
        'h'
    } else {
        'r'
    };
    assert(t.len() == lowered(t).len() && u.len() == lowered(u).len());
    assert forall|i: int| 0 <= i < t.len() implies lower(#[trigger] t[i]) == lower(u[i]) by {
        assert(lowered(t)[i] == lower(t[i]));
        assert(lowered(u)[i] == lower(u[i]));
    }
    lemma_any_case(t, u, 0, seq!['<', 't', b]);
    lemma_first_close(t, u, 3);
    if let Some(g) = first_at(t, 3, seq!['>']) {
        lemma_first_any_case(t, u, g + 1, seq!['<', '/', 't', b, '>']);
    }
    reveal(Pattern::head);
}

proof fn lemma_any_case(t: Seq<char>, u: Seq<char>, i: int, s: Seq<char>)
    requires
        t.len() == u.len(),
        forall|k: int| 0 <= k < t.len() ==> lower(#[trigger] t[k]) == lower(u[k]),
    ensures
        stands_at_any_case(t, i, s) == stands_at_any_case(u, i, s),
{
    if stands_at_any_case(t, i, s) {
        assert forall|k: int| #![trigger s[k]] 0 <= k < s.len() implies lower(u[i + k]) == s[k] by {
            assert(lower(t[i + k]) == s[k]);
        }
    }
    if stands_at_any_case(u, i, s) {
        assert forall|k: int| #![trigger s[k]] 0 <= k < s.len() implies lower(t[i + k]) == s[k] by {
            assert(lower(u[i + k]) == s[k]);
        }
    }
}

proof fn lemma_first_any_case(t: Seq<char>, u: Seq<char>, i: int, s: Seq<char>)
    requires
        t.len() == u.len(),
        forall|k: int| 0 <= k < t.len() ==> lower(#[trigger] t[k]) == lower(u[k]),
    ensures
        first_at_any_case(t, i, s) == first_at_any_case(u, i, s),
    decreases t.len() + 1 - i,
{
    if 0 <= i <= t.len() {
        lemma_any_case(t, u, i, s);
        lemma_first_any_case(t, u, i + 1, s);
    }
}

proof fn lemma_first_close(t: Seq<char>, u: Seq<char>, i: int)
    requires
        0 <= i,
        t.len() == u.len(),
        forall|k: int| 0 <= k < t.len() ==> lower(#[trigger] t[k]) == lower(u[k]),
    ensures
        first_at(t, i, seq!['>']) == first_at(u, i, seq!['>']),
    decreases t.len() + 1 - i,
{
    if i < t.len() {
        let close = seq!['>'];
        assert(lower(t[i]) == lower(u[i]));
        assert(t[i] == '>' <==> u[i] == '>') by {
            lemma_close_has_no_case(t[i]);
            lemma_close_has_no_case(u[i]);
        }
        assert(t.subrange(i, i + 1) =~= seq![t[i]]);
        assert(u.subrange(i, i + 1) =~= seq![u[i]]);
        assert(close[0] == '>');
        if t[i] == '>' {
            assert(stands_at(t, i, close) && stands_at(u, i, close));
        } else {
            if stands_at(t, i, close) {
                assert(seq![t[i]][0] == close[0]);
            }
            if stands_at(u, i, close) {
                assert(seq![u[i]][0] == close[0]);
            }
        }
        lemma_first_close(t, u, i + 1);
    } else if i == t.len() {
        lemma_first_close(t, u, i + 1);
    }
}

proof fn lemma_close_has_no_case(c: char)
    ensures
        lower(c) == '>' <==> c == '>',
{
    if 'A' <= c <= 'Z' {
        assert(lower(c) as u32 == c as u32 + 32);
    }
}

} // verus!
