//! Tables of recognised pages.
//!
//! A recognised page holds its tables as centred HTML blocks. They are taken
//! out of the markdown, parsed into headers and rows, and rendered again as
//! markdown for display or as short texts for embedding and ranking.

use vstd::prelude::*;

use crate::layout::{caption_found, find_caption, ElementKind, LayoutElement, Search};
use crate::patterns::{find_all, id_char, positions, Pattern};
use crate::rewrite::{lemma_head_bounds, Rule};
use crate::text::{
    chars_of, decimal, find_at, first_at, is_white_space, join, join_of, last_at, put_all,
    put_decimal, put_range, put_str, range_of, replace_of, replaced, rfind_of, same_str,
    stands_at, string_of, strs, texts, trim, trim_of, white_space,
};

verus! {

broadcast use vstd::string::group_string_axioms;

/// A table taken out of a page.
#[derive(Clone, Debug)]
pub struct ExtractedTable {
    /// `tbl_{page}_{order_index}`.
    pub id: String,
    /// The recognised HTML, from `<table` to `</table>`.
    pub html: String,
    /// The header row, if there is one.
    pub headers: Vec<String>,
    /// The body rows.
    pub rows: Vec<Vec<String>>,
    /// The caption near the table, or nothing.
    pub caption: String,
    /// The page, counted from one.
    pub page: u32,
    /// The position of the table's region on the page.
    pub order_index: u32,
}

/// What a table is, as a mathematical value.
#[verifier::ext_equal]
pub struct TableModel {
    pub id: Seq<char>,
    pub html: Seq<char>,
    pub headers: Seq<Seq<char>>,
    pub rows: Seq<Seq<Seq<char>>>,
    pub caption: Seq<char>,
    pub page: u32,
    pub order_index: u32,
}

/// The views of a list of rows.
pub open spec fn row_views(rows: Seq<Vec<String>>) -> Seq<Seq<Seq<char>>> {
    rows.map_values(|r: Vec<String>| strs(r@))
}

impl View for ExtractedTable {
    type V = TableModel;

    open spec fn view(&self) -> TableModel {
        TableModel {
            id: self.id@,
            html: self.html@,
            headers: strs(self.headers@),
            rows: row_views(self.rows@),
            caption: self.caption@,
            page: self.page,
            order_index: self.order_index,
        }
    }
}

/// The views of a list of tables.
pub open spec fn table_views(ts: Seq<ExtractedTable>) -> Seq<TableModel> {
    ts.map_values(|t: ExtractedTable| t@)
}

// ---------------------------------------------------------------------------
// Cells
// ---------------------------------------------------------------------------

/// `t` with every stretch of white space made one blank; `started` and
/// `prev_space` say whether something was kept before and whether white space
/// precedes.
pub open spec fn squeezed(t: Seq<char>, started: bool, prev_space: bool) -> Seq<char>
    decreases t.len(),
{
    if t.len() == 0 {
        Seq::empty()
    } else if white_space(t[0]) {
        if started && !prev_space {
            seq![' '] + squeezed(t.skip(1), started, true)
        } else {
            squeezed(t.skip(1), started, true)
        }
    } else {
        seq![t[0]] + squeezed(t.skip(1), true, false)
    }
}

/// A cell with its line breaks made blanks.
pub open spec fn breaks_spaced(t: Seq<char>) -> Seq<char> {
    replaced(
        replaced(replaced(t, "<br>"@, seq![' ']), "<br/>"@, seq![' ']),
        "<br />"@,
        seq![' '],
    )
}

/// The plain text of a cell.
pub open spec fn cell_text(t: Seq<char>) -> Seq<char> {
    trim(squeezed(Rule::DropTag.rewritten(breaks_spaced(t)), false, false))
}

/// Strips tags and collapses white space; a line break counts as white space.
pub fn clean_cell(s: &str) -> (r: String)
    ensures
        r@ == cell_text(s@),
{
    let blank = vec![' '];
    assert(blank@ =~= seq![' ']);
    proof {
        reveal_strlit("<br>");
        reveal_strlit("<br/>");
        reveal_strlit("<br />");
    }
    let a = replace_of(&chars_of(s), &chars_of("<br>"), &blank);
    let b = replace_of(&a, &chars_of("<br/>"), &blank);
    let c = replace_of(&b, &chars_of("<br />"), &blank);
    let bare = Rule::DropTag.apply(string_of(&c).as_str());
    let v = chars_of(bare.as_str());
    let mut out: Vec<char> = Vec::new();
    let mut prev_space = false;
    let mut i: usize = 0;
    assert(v@.skip(0) =~= v@);
    assert(out@ + squeezed(v@, false, false) =~= squeezed(v@, false, false));
    while i < v.len()
        invariant
            i <= v@.len(),
            squeezed(v@, false, false) == out@ + squeezed(
                v@.skip(i as int),
                out@.len() > 0,
                prev_space,
            ),
        decreases v.len() - i,
    {
        let ghost t = v@.skip(i as int);
        let ghost before = out@;
        let ghost started = out@.len() > 0;
        assert(t.skip(1) =~= v@.skip(i + 1));
        if is_white_space(v[i]) {
            if !prev_space && out.len() > 0 {
                out.push(' ');
                proof {
                    let z = squeezed(t.skip(1), started, true);
                    assert(before + (seq![' '] + z) =~= before.push(' ') + z);
                }
            }
            prev_space = true;
        } else {
            out.push(v[i]);
            prev_space = false;
            proof {
                let z = squeezed(t.skip(1), true, false);
                assert(before + (seq![t[0]] + z) =~= before.push(t[0]) + z);
            }
        }
        i = i + 1;
    }
    assert(out@ + Seq::<char>::empty() =~= out@);
    string_of(&trim_of(&out))
}

// ---------------------------------------------------------------------------
// Groups of matches
// ---------------------------------------------------------------------------

/// The groups of the successive matches of `p` in `t`.
pub open spec fn groups(p: Pattern, t: Seq<char>) -> Seq<Seq<char>> {
    p.hits(t, 0).map_values(|h: (int, int, int, int)| t.subrange(h.2, h.3))
}

/// A match between `off` and `end` that holds its group.
pub open spec fn hit_within(h: (int, int, int, int), off: int, end: int) -> bool {
    off <= h.0 < h.1 <= end && h.0 <= h.2 <= h.3 <= h.1
}

/// Matches lie in the text one behind the other, and hold their groups.
pub proof fn lemma_hits_bounds(p: Pattern, t: Seq<char>, off: int)
    ensures
        forall|i: int|
            0 <= i < p.hits(t, off).len() ==> hit_within(
                #[trigger] p.hits(t, off)[i],
                off,
                off + t.len(),
            ),
        forall|i: int, j: int|
            0 <= i < j < p.hits(t, off).len() ==> (#[trigger] p.hits(t, off)[i]).1 <= (
            #[trigger] p.hits(t, off)[j]).0,
    decreases t.len(),
{
    lemma_head_bounds(p, t);
    let hs = p.hits(t, off);
    if t.len() > 0 {
        match p.head(t) {
            Some(h) => {
                let rest = p.hits(t.skip(h.0), off + h.0);
                lemma_hits_bounds(p, t.skip(h.0), off + h.0);
                assert(hs == seq![(off, off + h.0, off + h.1, off + h.2)] + rest);
                assert forall|i: int| 0 <= i < hs.len() implies hit_within(
                    #[trigger] hs[i],
                    off,
                    off + t.len(),
                ) by {
                    if i > 0 {
                        assert(hs[i] == rest[i - 1]);
                    }
                }
                assert forall|i: int, j: int| 0 <= i < j < hs.len() implies (#[trigger] hs[i]).1
                    <= (#[trigger] hs[j]).0 by {
                    assert(hs[j] == rest[j - 1]);
                    if i > 0 {
                        assert(hs[i] == rest[i - 1]);
                    }
                }
            },
            None => {
                lemma_hits_bounds(p, t.skip(1), off + 1);
                let rest = p.hits(t.skip(1), off + 1);
                assert(hs == rest);
                assert forall|i: int| 0 <= i < hs.len() implies hit_within(
                    #[trigger] hs[i],
                    off,
                    off + t.len(),
                ) by {
                    assert(hs[i] == rest[i]);
                }
                assert forall|i: int, j: int| 0 <= i < j < hs.len() implies (#[trigger] hs[i]).1
                    <= (#[trigger] hs[j]).0 by {
                    assert(hs[i] == rest[i] && hs[j] == rest[j]);
                }
            },
        }
    }
}

/// The groups of the matches of `p` in `s`.
pub fn groups_of(p: Pattern, s: &str) -> (r: Vec<String>)
    ensures
        strs(r@) == groups(p, s@),
{
    let found = find_all(p, s);
    let v = chars_of(s);
    let ghost hits = p.hits(s@, 0);
    let mut out: Vec<String> = Vec::new();
    let mut i: usize = 0;
    assert(positions(found@).len() == found@.len());
    proof {
        lemma_hits_bounds(p, s@, 0);
    }
    while i < found.len()
        invariant
            i <= found@.len(),
            v@ == s@,
            hits == p.hits(s@, 0),
            hits == positions(found@),
            hits.len() == found@.len(),
            forall|k: int|
                0 <= k < hits.len() ==> hit_within(#[trigger] hits[k], 0, s@.len() as int),
            strs(out@) == groups(p, s@).take(i as int),
        decreases found.len() - i,
    {
        let f = found[i];
        assert(hits[i as int] == f@);
        let ghost before = strs(out@);
        let g = crate::text::string_of_range(&v, f.group_start, f.group_end);
        let ghost x = g@;
        out.push(g);
        assert(strs(out@) =~= before.push(x));
        assert(groups(p, s@).take(i + 1) =~= groups(p, s@).take(i as int).push(x));
        i = i + 1;
    }
    assert(groups(p, s@).take(i as int) =~= groups(p, s@));
    out
}

// ---------------------------------------------------------------------------
// Parsing
// ---------------------------------------------------------------------------

pub open spec fn clean() -> spec_fn(Seq<char>) -> Seq<char> {
    |c: Seq<char>| cell_text(c)
}

/// The header cells of a row.
pub open spec fn header_cells(row: Seq<char>) -> Seq<Seq<char>> {
    groups(Pattern::HeaderCell, row).map_values(clean())
}

/// The cells of a body row: its data cells, or its header cells where it has no
/// others.
pub open spec fn row_cells(row: Seq<char>) -> Seq<Seq<char>> {
    if groups(Pattern::DataCell, row).len() > 0 {
        groups(Pattern::DataCell, row).map_values(clean())
    } else {
        header_cells(row)
    }
}

pub open spec fn cells() -> spec_fn(Seq<char>) -> Seq<Seq<char>> {
    |r: Seq<char>| row_cells(r)
}

/// The headers and rows of a table: the first row is the header if it has a
/// header cell.
pub open spec fn table_cells(html: Seq<char>) -> (Seq<Seq<char>>, Seq<Seq<Seq<char>>>) {
    let rows = groups(Pattern::TableRow, html);
    if rows.len() > 0 && groups(Pattern::HeaderCell, rows[0]).len() > 0 {
        (header_cells(rows[0]), rows.skip(1).map_values(cells()))
    } else {
        (Seq::empty(), rows.map_values(cells()))
    }
}

fn clean_all(v: &Vec<String>) -> (r: Vec<String>)
    ensures
        strs(r@) == strs(v@).map_values(clean()),
{
    let mut out: Vec<String> = Vec::new();
    let mut i: usize = 0;
    while i < v.len()
        invariant
            i <= v@.len(),
            strs(out@) == strs(v@).take(i as int).map_values(clean()),
        decreases v.len() - i,
    {
        let c = clean_cell(v[i].as_str());
        let ghost before = strs(out@);
        let ghost x = c@;
        out.push(c);
        assert(strs(out@) =~= before.push(x));
        assert(strs(v@).take(i + 1).map_values(clean()) =~= strs(v@).take(i as int).map_values(
            clean(),
        ).push(x));
        i = i + 1;
    }
    assert(strs(v@).take(i as int) =~= strs(v@));
    out
}

fn parse_row(row: &str) -> (r: Vec<String>)
    ensures
        strs(r@) == row_cells(row@),
{
    let data = groups_of(Pattern::DataCell, row);
    assert(strs(data@).len() == data@.len());
    if data.len() > 0 {
        clean_all(&data)
    } else {
        clean_all(&groups_of(Pattern::HeaderCell, row))
    }
}

/// Parses the HTML of a table into headers and rows.
pub fn parse_table_html(table_html: &str) -> (r: (Vec<String>, Vec<Vec<String>>))
    ensures
        (strs(r.0@), row_views(r.1@)) == table_cells(table_html@),
{
    let rows = groups_of(Pattern::TableRow, table_html);
    let ghost all = strs(rows@);
    assert(all.len() == rows@.len());
    let mut headers: Vec<String> = Vec::new();
    assert(strs(headers@) =~= Seq::<Seq<char>>::empty());
    let mut from: usize = 0;
    if rows.len() > 0 {
        let first = groups_of(Pattern::HeaderCell, rows[0].as_str());
        assert(strs(first@).len() == first@.len());
        if first.len() > 0 {
            headers = clean_all(&first);
            from = 1;
        }
    }
    let mut body: Vec<Vec<String>> = Vec::new();
    let mut i: usize = from;
    while i < rows.len()
        invariant
            from <= i <= rows@.len(),
            all == strs(rows@),
            row_views(body@) == all.subrange(from as int, i as int).map_values(cells()),
        decreases rows.len() - i,
    {
        let row = parse_row(rows[i].as_str());
        let ghost before = row_views(body@);
        let ghost x = strs(row@);
        body.push(row);
        assert(row_views(body@) =~= before.push(x));
        assert(all.subrange(from as int, i + 1).map_values(cells()) =~= all.subrange(
            from as int,
            i as int,
        ).map_values(cells()).push(x));
        i = i + 1;
    }
    proof {
        assert(all.subrange(from as int, i as int) =~= all.skip(from as int));
        assert(all.skip(0) =~= all);
    }
    (headers, body)
}

/// The table inside a centred block: from the first `<table` to the last
/// `</table>`, or the whole block where that is nothing.
pub open spec fn inner_table(t: Seq<char>) -> Seq<char> {
    let close = "</table>"@;
    let start = match first_at(t, 0, "<table"@) {
        Some(k) => k,
        None => 0,
    };
    match last_at(t, t.len() as int, close) {
        Some(k) => if k + close.len() > start {
            t.subrange(start, k + close.len())
        } else {
            t
        },
        None => t,
    }
}

/// The HTML of the table inside a centred block.
pub fn inner_table_html(div_block: &Vec<char>) -> (r: Vec<char>)
    ensures
        r@ == inner_table(div_block@),
{
    let close = chars_of("</table>");
    let len = div_block.len();
    let start = match find_at(div_block, 0, &chars_of("<table")) {
        Some(k) => k,
        None => 0,
    };
    match rfind_of(div_block, &close) {
        Some(k) => {
            let end = k + close.len();
            if end > start {
                return range_of(div_block, start, end);
            }
        },
        None => {},
    }
    let r = range_of(div_block, 0, div_block.len());
    assert(r@ =~= div_block@);
    r
}

// ---------------------------------------------------------------------------
// Extraction
// ---------------------------------------------------------------------------

/// The positions from `i` on of the table regions.
pub open spec fn table_positions(elements: Seq<LayoutElement>, i: int) -> Seq<int>
    decreases elements.len() - i,
{
    if i < 0 || i >= elements.len() {
        Seq::empty()
    } else if elements[i].kind == ElementKind::Table {
        seq![i] + table_positions(elements, i + 1)
    } else {
        table_positions(elements, i + 1)
    }
}

/// `tbl_{page}_{index}`.
pub open spec fn table_id(page: u32, index: int) -> Seq<char> {
    "tbl_"@ + decimal(page as nat) + "_"@ + decimal(index as nat)
}

/// The placeholder of a table in markdown.
pub open spec fn placeholder(id: Seq<char>) -> Seq<char> {
    "!["@ + id + "](edgequake-table)"@
}

/// The blocks of `hits` from the `k`-th on replaced by the placeholders of the
/// regions at `at`, pair by pair; what is left over on either side stays.
pub open spec fn patched(
    md: Seq<char>,
    hits: Seq<(int, int, int, int)>,
    at: Seq<int>,
    page: u32,
    k: int,
    cursor: int,
) -> Seq<char>
    decreases hits.len() - k,
{
    if k < 0 || k >= hits.len() || k >= at.len() {
        md.skip(cursor)
    } else {
        md.subrange(cursor, hits[k].0) + placeholder(table_id(page, at[k])) + patched(
            md,
            hits,
            at,
            page,
            k + 1,
            hits[k].1,
        )
    }
}

/// The table that a block and the region at `index` make.
pub open spec fn table_of(
    block: Seq<char>,
    elements: Seq<LayoutElement>,
    page: u32,
    index: int,
) -> TableModel {
    let html = inner_table(block);
    TableModel {
        id: table_id(page, index),
        html,
        headers: table_cells(html).0,
        rows: table_cells(html).1,
        caption: match caption_found(Search::BesideTable, elements[index].bbox, elements) {
            Some(c) => c,
            None => Seq::empty(),
        },
        page,
        order_index: index as u32,
    }
}

/// How many blocks and regions pair up.
pub open spec fn pair_count(hits: Seq<(int, int, int, int)>, at: Seq<int>) -> int {
    if hits.len() < at.len() {
        hits.len() as int
    } else {
        at.len() as int
    }
}

/// The tables of a page: the `k`-th block goes with the `k`-th table region.
pub open spec fn tables_of(md: Seq<char>, elements: Seq<LayoutElement>, page: u32) -> Seq<
    TableModel,
> {
    let hits = Pattern::TableDiv.hits(md, 0);
    let at = table_positions(elements, 0);
    Seq::new(
        pair_count(hits, at) as nat,
        |k: int| table_of(md.subrange(hits[k].0, hits[k].1), elements, page, at[k]),
    )
}

fn table_positions_of(elements: &Vec<LayoutElement>) -> (r: Vec<usize>)
    ensures
        r@.map_values(|i: usize| i as int) == table_positions(elements@, 0),
        forall|k: int| 0 <= k < r@.len() ==> #[trigger] r@[k] < elements@.len(),
{
    let ghost as_int = |i: usize| i as int;
    let mut out: Vec<usize> = Vec::new();
    let mut i: usize = 0;
    assert(out@.map_values(as_int) + table_positions(elements@, 0) =~= table_positions(
        elements@,
        0,
    ));
    while i < elements.len()
        invariant
            i <= elements@.len(),
            as_int == (|i: usize| i as int),
            forall|k: int| 0 <= k < out@.len() ==> #[trigger] out@[k] < elements@.len(),
            table_positions(elements@, 0) == out@.map_values(as_int) + table_positions(
                elements@,
                i as int,
            ),
        decreases elements.len() - i,
    {
        let ghost before = out@.map_values(as_int);
        if elements[i].kind == ElementKind::Table {
            out.push(i);
            proof {
                assert(out@.map_values(as_int) =~= before.push(i as int));
                let z = table_positions(elements@, i + 1);
                assert(before + (seq![i as int] + z) =~= before.push(i as int) + z);
            }
        }
        i = i + 1;
    }
    assert(out@.map_values(as_int) + Seq::<int>::empty() =~= out@.map_values(as_int));
    out
}

fn table_id_of(page: u32, index: usize) -> (r: String)
    ensures
        r@ == table_id(page, index as int),
{
    let mut out: Vec<char> = Vec::new();
    put_str("tbl_", &mut out);
    put_decimal(page as u64, &mut out);
    put_str("_", &mut out);
    put_decimal(index as u64, &mut out);
    assert(out@ =~= table_id(page, index as int));
    string_of(&out)
}

fn placeholder_of(id: &str) -> (r: Vec<char>)
    ensures
        r@ == placeholder(id@),
{
    let mut out: Vec<char> = Vec::new();
    put_str("![", &mut out);
    put_str(id, &mut out);
    put_str("](edgequake-table)", &mut out);
    assert(out@ =~= placeholder(id@));
    out
}

/// Takes the tables out of a page's markdown: each table block that pairs with
/// a table region becomes a placeholder and an [`ExtractedTable`].
pub fn extract_and_patch(elements: &Vec<LayoutElement>, page_num: u32, markdown: &str) -> (r: (
    String,
    Vec<ExtractedTable>,
))
    ensures
        r.0@ == patched(
            markdown@,
            Pattern::TableDiv.hits(markdown@, 0),
            table_positions(elements@, 0),
            page_num,
            0,
            0,
        ),
        table_views(r.1@) == tables_of(markdown@, elements@, page_num),
{
    let at = table_positions_of(elements);
    let found = find_all(Pattern::TableDiv, markdown);
    let v = chars_of(markdown);
    let ghost hits = Pattern::TableDiv.hits(markdown@, 0);
    let ghost idx = table_positions(elements@, 0);
    let ghost all = tables_of(markdown@, elements@, page_num);
    proof {
        assert(positions(found@).len() == found@.len());
        assert(at@.map_values(|i: usize| i as int).len() == at@.len());
        lemma_hits_bounds(Pattern::TableDiv, markdown@, 0);
    }
    let pairs: usize = if found.len() < at.len() {
        found.len()
    } else {
        at.len()
    };
    let mut out: Vec<char> = Vec::new();
    let mut tables: Vec<ExtractedTable> = Vec::new();
    let mut cursor: usize = 0;
    let mut k: usize = 0;
    assert(out@ + patched(markdown@, hits, idx, page_num, 0, 0) =~= patched(
        markdown@,
        hits,
        idx,
        page_num,
        0,
        0,
    ));
    assert(table_views(tables@) =~= all.take(0));
    while k < pairs
        invariant
            k <= pairs,
            pairs <= found@.len(),
            pairs <= at@.len(),
            pairs == pair_count(hits, idx),
            found@.len() == hits.len(),
            at@.len() == idx.len(),
            v@ == markdown@,
            hits == Pattern::TableDiv.hits(markdown@, 0),
            idx == table_positions(elements@, 0),
            all == tables_of(markdown@, elements@, page_num),
            positions(found@) == hits,
            at@.map_values(|i: usize| i as int) == idx,
            forall|j: int| 0 <= j < at@.len() ==> #[trigger] at@[j] < elements@.len(),
            forall|j: int|
                0 <= j < hits.len() ==> hit_within(
                    #[trigger] hits[j],
                    0,
                    markdown@.len() as int,
                ),
            forall|i: int, j: int|
                0 <= i < j < hits.len() ==> (#[trigger] hits[i]).1 <= (#[trigger] hits[j]).0,
            cursor <= v@.len(),
            k > 0 ==> cursor == hits[k - 1].1,
            k == 0 ==> cursor == 0,
            patched(markdown@, hits, idx, page_num, 0, 0) == out@ + patched(
                markdown@,
                hits,
                idx,
                page_num,
                k as int,
                cursor as int,
            ),
            table_views(tables@) == all.take(k as int),
        decreases pairs - k,
    {
        let f = found[k];
        let index = at[k];
        proof {
            assert(hits[k as int] == f@);
            assert(idx[k as int] == index as int);
            if k > 0 {
                assert(hits[k - 1].1 <= hits[k as int].0);
            }
        }
        let id = table_id_of(page_num, index);
        let mark = placeholder_of(id.as_str());
        let ghost before = out@;
        put_range(&v, cursor, f.start, &mut out);
        put_all(&mark, &mut out);
        proof {
            let a = markdown@.subrange(cursor as int, f.start as int);
            let z = patched(markdown@, hits, idx, page_num, k + 1, f.end as int);
            assert(before + (a + mark@ + z) =~= before + a + mark@ + z);
        }
        let block = range_of(&v, f.start, f.end);
        let html = string_of(&inner_table_html(&block));
        let (headers, rows) = parse_table_html(html.as_str());
        let caption = match find_caption(Search::BesideTable, &elements[index].bbox, elements) {
            Some(c) => c,
            None => String::new(),
        };
        let t = ExtractedTable {
            id,
            html,
            headers,
            rows,
            caption,
            page: page_num,
            order_index: index as u32,
        };
        let ghost views = table_views(tables@);
        let ghost x = t@;
        proof {
            assert(x =~= all[k as int]);
        }
        tables.push(t);
        assert(table_views(tables@) =~= views.push(x));
        assert(all.take(k + 1) =~= all.take(k as int).push(x));
        cursor = f.end;
        k = k + 1;
    }
    let ghost before = out@;
    let end = v.len();
    put_range(&v, cursor, end, &mut out);
    assert(markdown@.skip(cursor as int) =~= v@.subrange(cursor as int, end as int));
    assert(all.take(k as int) =~= all);
    (string_of(&out), tables)
}

// ---------------------------------------------------------------------------
// Rendering
// ---------------------------------------------------------------------------

/// A cell in a markdown table: pipes escaped, trimmed.
pub open spec fn cell_escaped(c: Seq<char>) -> Seq<char> {
    trim(replaced(c, seq!['|'], seq!['\\', '|']))
}

pub open spec fn escaping() -> spec_fn(Seq<char>) -> Seq<char> {
    |c: Seq<char>| cell_escaped(c)
}

pub open spec fn trimming() -> spec_fn(Seq<char>) -> Seq<char> {
    |c: Seq<char>| trim(c)
}

/// The header row: the headers, or else the first row.
pub open spec fn header_row(m: TableModel) -> Seq<Seq<char>> {
    if m.headers.len() > 0 {
        m.headers
    } else if m.rows.len() > 0 {
        m.rows[0]
    } else {
        Seq::empty()
    }
}

/// How many rows serve as the header.
pub open spec fn body_from(m: TableModel) -> int {
    if m.headers.len() > 0 || m.rows.len() == 0 {
        0
    } else {
        1
    }
}

/// The rows below the header row.
pub open spec fn body_rows(m: TableModel) -> Seq<Seq<Seq<char>>> {
    m.rows.skip(body_from(m))
}

/// The length of the longest row.
pub open spec fn longest(rows: Seq<Seq<Seq<char>>>) -> nat
    decreases rows.len(),
{
    if rows.len() == 0 {
        0
    } else {
        let m = longest(rows.drop_last());
        if rows.last().len() > m {
            rows.last().len()
        } else {
            m
        }
    }
}

/// The number of columns.
pub open spec fn width(m: TableModel) -> nat {
    if header_row(m).len() > longest(m.rows) {
        header_row(m).len()
    } else {
        longest(m.rows)
    }
}

/// A row with empty cells up to the width `w`.
pub open spec fn padded(row: Seq<Seq<char>>, w: nat) -> Seq<Seq<char>> {
    row + Seq::new((w - row.len()) as nat, |i: int| Seq::<char>::empty())
}

/// A line of a markdown table.
pub open spec fn row_line(row: Seq<Seq<char>>) -> Seq<char> {
    "| "@ + join(row, " | "@) + " |\n"@
}

/// A row of cells as a line of the given width.
pub open spec fn cells_line(row: Seq<Seq<char>>, w: nat) -> Seq<char> {
    row_line(padded(row.map_values(escaping()), w))
}

/// The lines of the rows from the `i`-th on.
pub open spec fn body_lines(rows: Seq<Seq<Seq<char>>>, i: int, w: nat) -> Seq<char>
    decreases rows.len() - i,
{
    if i < 0 || i >= rows.len() {
        Seq::empty()
    } else {
        cells_line(rows[i], w) + body_lines(rows, i + 1, w)
    }
}

/// The caption and a blank line, where there is a caption.
pub open spec fn caption_block(caption: Seq<char>) -> Seq<char> {
    if trim(caption).len() > 0 {
        trim(caption) + "\n\n"@
    } else {
        Seq::empty()
    }
}

/// The markdown of a table: caption, header, rule and body.
pub open spec fn table_markdown(m: TableModel) -> Option<Seq<char>> {
    let w = width(m);
    if w == 0 {
        None
    } else {
        Some(
            caption_block(m.caption) + cells_line(header_row(m), w) + row_line(
                Seq::new(w, |i: int| "---"@),
            ) + body_lines(m.rows, body_from(m), w),
        )
    }
}

fn row_len_max(rows: &Vec<Vec<String>>) -> (n: usize)
    ensures
        n == longest(row_views(rows@)),
{
    let ghost all = row_views(rows@);
    let mut n: usize = 0;
    let mut i: usize = 0;
    assert(all.take(0) =~= Seq::<Seq<Seq<char>>>::empty());
    while i < rows.len()
        invariant
            i <= rows@.len(),
            all == row_views(rows@),
            n == longest(all.take(i as int)),
        decreases rows.len() - i,
    {
        proof {
            let t = all.take(i + 1);
            assert(t.drop_last() =~= all.take(i as int));
            assert(t.last() == strs(rows@[i as int]@));
            assert(t.last().len() == rows@[i as int]@.len());
        }
        if rows[i].len() > n {
            n = rows[i].len();
        }
        i = i + 1;
    }
    assert(all.take(i as int) =~= all);
    n
}

/// Appends the line of a row of joined cells.
fn put_row_line(row: &Vec<Vec<char>>, out: &mut Vec<char>)
    ensures
        final(out)@ == old(out)@ + row_line(texts(row@)),
{
    let ghost before = out@;
    put_str("| ", out);
    put_all(&join_of(row, &chars_of(" | ")), out);
    put_str(" |\n", out);
    assert(out@ =~= before + row_line(texts(row@)));
}

/// Appends a row of cells, escaped and padded.
fn put_cells_line(row: &Vec<String>, w: usize, out: &mut Vec<char>)
    requires
        row@.len() <= w,
    ensures
        final(out)@ == old(out)@ + cells_line(strs(row@), w as nat),
{
    let bar = vec!['|'];
    let escaped_bar = vec!['\\', '|'];
    assert(bar@ =~= seq!['|']);
    assert(escaped_bar@ =~= seq!['\\', '|']);
    let ghost want = padded(strs(row@).map_values(escaping()), w as nat);
    let mut cells: Vec<Vec<char>> = Vec::new();
    let mut i: usize = 0;
    while i < w
        invariant
            i <= w,
            row@.len() <= w,
            bar@ == seq!['|'],
            escaped_bar@ == seq!['\\', '|'],
            want == padded(strs(row@).map_values(escaping()), w as nat),
            texts(cells@) == want.take(i as int),
        decreases w - i,
    {
        let ghost before = texts(cells@);
        let cell: Vec<char> = if i < row.len() {
            trim_of(&replace_of(&chars_of(row[i].as_str()), &bar, &escaped_bar))
        } else {
            Vec::new()
        };
        let ghost x = cell@;
        assert(x =~= want[i as int]);
        cells.push(cell);
        assert(texts(cells@) =~= before.push(x));
        assert(want.take(i + 1) =~= want.take(i as int).push(x));
        i = i + 1;
    }
    assert(want.take(i as int) =~= want);
    put_row_line(&cells, out);
}

/// The table as markdown: its caption, the header, and the rows padded to the
/// table's width. Nothing if there are no cells.
pub fn render_table_markdown(table: &ExtractedTable) -> (r: Option<String>)
    ensures
        match r {
            Some(s) => table_markdown(table@) == Some(s@),
            None => table_markdown(table@) is None,
        },
{
    let ghost m = table@;
    let ghost all = m.rows;
    proof {
        assert(m.headers.len() == table.headers@.len());
        assert(m.rows.len() == table.rows@.len());
        if m.rows.len() > 0 {
            assert(m.rows[0] == strs(table.rows@[0]@));
            assert(m.rows[0].len() == table.rows@[0]@.len());
            lemma_longest(m.rows, 0);
        }
    }
    let rows_max = row_len_max(&table.rows);
    let mut w: usize = rows_max;
    let mut from: usize = 0;
    if table.headers.len() > 0 {
        if table.headers.len() > w {
            w = table.headers.len();
        }
    } else if table.rows.len() > 0 {
        from = 1;
    }
    assert(w == width(m));
    if w == 0 {
        return None;
    }
    let mut out: Vec<char> = Vec::new();
    let caption = trim_of(&chars_of(table.caption.as_str()));
    if caption.len() > 0 {
        put_all(&caption, &mut out);
        put_str("\n\n", &mut out);
    }
    assert(out@ =~= caption_block(m.caption));
    if table.headers.len() > 0 {
        put_cells_line(&table.headers, w, &mut out);
    } else if table.rows.len() > 0 {
        put_cells_line(&table.rows[0], w, &mut out);
    }
    let mut rule: Vec<Vec<char>> = Vec::new();
    let ghost dashes = Seq::new(w as nat, |i: int| "---"@);
    let mut k: usize = 0;
    while k < w
        invariant
            k <= w,
            dashes == Seq::new(w as nat, |i: int| "---"@),
            texts(rule@) == dashes.take(k as int),
        decreases w - k,
    {
        let ghost before = texts(rule@);
        rule.push(chars_of("---"));
        assert(texts(rule@) =~= before.push("---"@));
        assert(dashes.take(k + 1) =~= dashes.take(k as int).push("---"@));
        k = k + 1;
    }
    assert(dashes.take(k as int) =~= dashes);
    put_row_line(&rule, &mut out);
    let ghost head = out@;
    let mut i: usize = from;
    while i < table.rows.len()
        invariant
            from <= i <= table.rows@.len(),
            m == table@,
            w >= longest(m.rows),
            head + body_lines(m.rows, from as int, w as nat) == out@ + body_lines(
                m.rows,
                i as int,
                w as nat,
            ),
        decreases table.rows.len() - i,
    {
        let ghost before = out@;
        proof {
            assert(m.rows[i as int] == strs(table.rows@[i as int]@));
            assert(m.rows[i as int].len() == table.rows@[i as int]@.len());
            lemma_longest(m.rows, i as int);
        }
        put_cells_line(&table.rows[i], w, &mut out);
        proof {
            let a = cells_line(m.rows[i as int], w as nat);
            let z = body_lines(m.rows, i + 1, w as nat);
            assert(before + (a + z) =~= before + a + z);
        }
        i = i + 1;
    }
    assert(out@ + Seq::<char>::empty() =~= out@);
    Some(string_of(&out))
}

proof fn lemma_longest(rows: Seq<Seq<Seq<char>>>, i: int)
    requires
        0 <= i < rows.len(),
    ensures
        rows[i].len() <= longest(rows),
    decreases rows.len(),
{
    if i < rows.len() - 1 {
        lemma_longest(rows.drop_last(), i);
    }
}

/// The parts that are not empty.
pub open spec fn filled(parts: Seq<Seq<char>>) -> Seq<Seq<char>>
    decreases parts.len(),
{
    if parts.len() == 0 {
        Seq::empty()
    } else if parts.last().len() > 0 {
        filled(parts.drop_last()).push(parts.last())
    } else {
        filled(parts.drop_last())
    }
}

/// The column names that are not empty.
pub open spec fn column_names(m: TableModel) -> Seq<Seq<char>> {
    filled(header_row(m).map_values(trimming()))
}

/// The first cells of the rows from the `from`-th on, trimmed; the empty text
/// for a row without cells.
pub open spec fn first_cells(rows: Seq<Seq<Seq<char>>>) -> Seq<Seq<char>> {
    rows.map_values(
        |r: Seq<Seq<char>>|
            if r.len() > 0 {
                trim(r[0])
            } else {
                Seq::<char>::empty()
            },
    )
}

/// The row labels that are not empty.
pub open spec fn row_labels(m: TableModel) -> Seq<Seq<char>> {
    filled(first_cells(body_rows(m)))
}

/// `so_far` and, on a line of its own, a heading and a list of names, where
/// there are any.
pub open spec fn with_names(
    so_far: Seq<char>,
    heading: Seq<char>,
    parts: Seq<Seq<char>>,
) -> Seq<char> {
    if parts.len() == 0 {
        so_far
    } else if so_far.len() == 0 {
        heading + join(parts, ", "@)
    } else {
        so_far + seq!['\n'] + heading + join(parts, ", "@)
    }
}

/// The text that stands for a table when it is embedded.
pub open spec fn embed_text(m: TableModel) -> Option<Seq<char>> {
    let t = with_names(trim(m.caption), "Columns: "@, column_names(m));
    if trim(m.caption).len() == 0 && column_names(m).len() == 0 {
        None
    } else {
        Some(t)
    }
}

/// The text that stands for a table when it is ranked.
pub open spec fn rerank_text(m: TableModel) -> Option<Seq<char>> {
    let t = with_names(
        with_names(trim(m.caption), "Columns: "@, column_names(m)),
        "Rows: "@,
        row_labels(m),
    );
    if trim(m.caption).len() == 0 && column_names(m).len() == 0 && row_labels(m).len() == 0 {
        None
    } else {
        Some(t)
    }
}

/// The trimmed header row and the number of rows that it takes.
pub fn table_header_body(table: &ExtractedTable) -> (r: (Vec<Vec<char>>, usize))
    ensures
        texts(r.0@) == header_row(table@).map_values(trimming()),
        r.1 == body_from(table@),
        r.1 <= table.rows@.len(),
{
    let ghost m = table@;
    proof {
        assert(m.headers.len() == table.headers@.len());
        assert(m.rows.len() == table.rows@.len());
        if m.rows.len() > 0 {
            assert(m.rows[0] == strs(table.rows@[0]@));
        }
    }
    if table.headers.len() > 0 {
        (trim_all(&table.headers), 0)
    } else if table.rows.len() > 0 {
        (trim_all(&table.rows[0]), 1)
    } else {
        let none: Vec<Vec<char>> = Vec::new();
        assert(texts(none@) =~= header_row(m).map_values(trimming()));
        (none, 0)
    }
}

fn trim_all(v: &Vec<String>) -> (r: Vec<Vec<char>>)
    ensures
        texts(r@) == strs(v@).map_values(trimming()),
{
    let mut out: Vec<Vec<char>> = Vec::new();
    let mut i: usize = 0;
    while i < v.len()
        invariant
            i <= v@.len(),
            texts(out@) == strs(v@).take(i as int).map_values(trimming()),
        decreases v.len() - i,
    {
        let c = trim_of(&chars_of(v[i].as_str()));
        let ghost before = texts(out@);
        let ghost x = c@;
        out.push(c);
        assert(texts(out@) =~= before.push(x));
        assert(strs(v@).take(i + 1).map_values(trimming()) =~= strs(v@).take(i as int).map_values(
            trimming(),
        ).push(x));
        i = i + 1;
    }
    assert(strs(v@).take(i as int) =~= strs(v@));
    out
}

fn keep_filled(v: Vec<Vec<char>>) -> (r: Vec<Vec<char>>)
    ensures
        texts(r@) == filled(texts(v@)),
{
    let mut out: Vec<Vec<char>> = Vec::new();
    let ghost all = texts(v@);
    let mut i: usize = 0;
    assert(all.take(0) =~= Seq::<Seq<char>>::empty());
    assert(texts(out@) =~= Seq::<Seq<char>>::empty());
    while i < v.len()
        invariant
            i <= v@.len(),
            all == texts(v@),
            texts(out@) == filled(all.take(i as int)),
        decreases v.len() - i,
    {
        proof {
            let t = all.take(i + 1);
            assert(t.drop_last() =~= all.take(i as int));
            assert(t.last() == v@[i as int]@);
        }
        if v[i].len() > 0 {
            let c = range_of(&v[i], 0, v[i].len());
            let ghost before = texts(out@);
            let ghost x = c@;
            assert(x =~= v@[i as int]@);
            out.push(c);
            assert(texts(out@) =~= before.push(x));
        }
        i = i + 1;
    }
    assert(all.take(i as int) =~= all);
    out
}

fn column_names_of(table: &ExtractedTable) -> (r: Vec<Vec<char>>)
    ensures
        texts(r@) == column_names(table@),
{
    let (header, _from) = table_header_body(table);
    keep_filled(header)
}

fn row_labels_of(table: &ExtractedTable) -> (r: Vec<Vec<char>>)
    ensures
        texts(r@) == row_labels(table@),
{
    let (_header, from) = table_header_body(table);
    let ghost all = first_cells(body_rows(table@));
    let mut out: Vec<Vec<char>> = Vec::new();
    let mut i: usize = from;
    while i < table.rows.len()
        invariant
            from <= i <= table.rows@.len(),
            from == body_from(table@),
            all == first_cells(body_rows(table@)),
            texts(out@) == all.take(i - from),
        decreases table.rows.len() - i,
    {
        let row = &table.rows[i];
        let cell: Vec<char> = if row.len() > 0 {
            trim_of(&chars_of(row[0].as_str()))
        } else {
            Vec::new()
        };
        let ghost before = texts(out@);
        let ghost x = cell@;
        proof {
            assert(body_rows(table@)[i - from] == strs(row@));
            assert(x =~= all[i - from]);
        }
        out.push(cell);
        assert(texts(out@) =~= before.push(x));
        assert(all.take(i - from + 1) =~= all.take(i - from).push(x));
        i = i + 1;
    }
    assert(all.take(i - from) =~= all);
    keep_filled(out)
}

fn put_names(heading: &str, parts: &Vec<Vec<char>>, out: &mut Vec<char>)
    ensures
        final(out)@ == with_names(old(out)@, heading@, texts(parts@)),
{
    let ghost before = out@;
    assert(texts(parts@).len() == parts@.len());
    if parts.len() > 0 {
        if out.len() > 0 {
            out.push('\n');
        }
        put_str(heading, out);
        put_all(&join_of(parts, &chars_of(", ")), out);
        assert(out@ =~= with_names(before, heading@, texts(parts@)));
    }
}

/// The caption and the column names of a table, without its cells: the text to
/// embed. Nothing if there is neither.
pub fn render_table_embed_text(table: &ExtractedTable) -> (r: Option<String>)
    ensures
        match r {
            Some(s) => embed_text(table@) == Some(s@),
            None => embed_text(table@) is None,
        },
{
    let columns = column_names_of(table);
    let mut out = trim_of(&chars_of(table.caption.as_str()));
    assert(texts(columns@).len() == columns@.len());
    if out.len() == 0 && columns.len() == 0 {
        return None;
    }
    put_names("Columns: ", &columns, &mut out);
    Some(string_of(&out))
}

/// The caption, the column names and the row labels of a table, without its
/// other cells: the text to rank. Nothing if there is none of them.
pub fn render_table_rerank_text(table: &ExtractedTable) -> (r: Option<String>)
    ensures
        match r {
            Some(s) => rerank_text(table@) == Some(s@),
            None => rerank_text(table@) is None,
        },
{
    let columns = column_names_of(table);
    let labels = row_labels_of(table);
    let mut out = trim_of(&chars_of(table.caption.as_str()));
    assert(texts(columns@).len() == columns@.len());
    assert(texts(labels@).len() == labels@.len());
    if out.len() == 0 && columns.len() == 0 && labels.len() == 0 {
        return None;
    }
    put_names("Columns: ", &columns, &mut out);
    put_names("Rows: ", &labels, &mut out);
    Some(string_of(&out))
}

// ---------------------------------------------------------------------------
// Placeholders
// ---------------------------------------------------------------------------

/// `md` with the placeholders of the first `n` tables replaced by the tables
/// themselves, one table after the other.
pub open spec fn inlined(md: Seq<char>, tables: Seq<TableModel>) -> Seq<char>
    decreases tables.len(),
{
    if tables.len() == 0 {
        md
    } else {
        let rest = inlined(md, tables.drop_last());
        match table_markdown(tables.last()) {
            Some(t) => replaced(rest, placeholder(tables.last().id), t),
            None => rest,
        }
    }
}

/// The short reference to a table.
pub open spec fn reference(id: Seq<char>) -> Seq<char> {
    "[[table:"@ + id + "]]"@
}

/// `md` with the placeholders of the tables replaced by short references.
pub open spec fn marked(md: Seq<char>, tables: Seq<TableModel>) -> Seq<char>
    decreases tables.len(),
{
    if tables.len() == 0 {
        md
    } else {
        replaced(
            marked(md, tables.drop_last()),
            placeholder(tables.last().id),
            reference(tables.last().id),
        )
    }
}

/// Replaces the placeholder of each table by the table as markdown. The
/// placeholder of a table that renders to nothing stays.
pub fn inline_table_placeholders(markdown: &str, tables: &Vec<ExtractedTable>) -> (r: String)
    ensures
        r@ == inlined(markdown@, table_views(tables@)),
{
    let mut out = chars_of(markdown);
    let ghost all = table_views(tables@);
    let mut i: usize = 0;
    proof {
        reveal_strlit("![");
        assert(all.take(0) =~= Seq::<TableModel>::empty());
    }
    while i < tables.len()
        invariant
            i <= tables@.len(),
            all == table_views(tables@),
            out@ == inlined(markdown@, all.take(i as int)),
            ("!["@).len() == 2,
        decreases tables.len() - i,
    {
        let t = &tables[i];
        proof {
            let s = all.take(i + 1);
            assert(s.drop_last() =~= all.take(i as int));
            assert(s.last() == t@);
        }
        if let Some(md) = render_table_markdown(t) {
            let mark = placeholder_of(t.id.as_str());
            out = replace_of(&out, &mark, &chars_of(md.as_str()));
        }
        i = i + 1;
    }
    assert(all.take(i as int) =~= all);
    string_of(&out)
}

/// Replaces the placeholder of each table by the short reference to it.
pub fn mark_table_placeholders(markdown: &str, tables: &Vec<ExtractedTable>) -> (r: String)
    ensures
        r@ == marked(markdown@, table_views(tables@)),
{
    let mut out = chars_of(markdown);
    let ghost all = table_views(tables@);
    let mut i: usize = 0;
    proof {
        reveal_strlit("![");
        assert(all.take(0) =~= Seq::<TableModel>::empty());
    }
    while i < tables.len()
        invariant
            i <= tables@.len(),
            all == table_views(tables@),
            out@ == marked(markdown@, all.take(i as int)),
            ("!["@).len() == 2,
        decreases tables.len() - i,
    {
        let t = &tables[i];
        proof {
            let s = all.take(i + 1);
            assert(s.drop_last() =~= all.take(i as int));
            assert(s.last() == t@);
        }
        let mark = placeholder_of(t.id.as_str());
        let mut refer: Vec<char> = Vec::new();
        put_str("[[table:", &mut refer);
        put_str(t.id.as_str(), &mut refer);
        put_str("]]", &mut refer);
        assert(refer@ =~= reference(t@.id));
        out = replace_of(&out, &mark, &refer);
        i = i + 1;
    }
    assert(all.take(i as int) =~= all);
    string_of(&out)
}

/// The items in their order, each at its first place only.
pub open spec fn distinct(items: Seq<Seq<char>>) -> Seq<Seq<char>>
    decreases items.len(),
{
    if items.len() == 0 {
        Seq::empty()
    } else {
        let rest = distinct(items.drop_last());
        if rest.contains(items.last()) {
            rest
        } else {
            rest.push(items.last())
        }
    }
}

/// The ids of the tables that a text refers to, in the order in which they
/// first appear.
pub fn table_refs_in(text: &str) -> (r: Vec<String>)
    ensures
        strs(r@) == distinct(groups(Pattern::TableRef, text@)),
        strs(r@).no_duplicates(),
{
    let ids = groups_of(Pattern::TableRef, text);
    let ghost all = strs(ids@);
    let mut out: Vec<String> = Vec::new();
    let mut i: usize = 0;
    assert(all.take(0) =~= Seq::<Seq<char>>::empty());
    assert(strs(out@) =~= Seq::<Seq<char>>::empty());
    while i < ids.len()
        invariant
            i <= ids@.len(),
            all == strs(ids@),
            strs(out@) == distinct(all.take(i as int)),
            strs(out@).no_duplicates(),
        decreases ids.len() - i,
    {
        proof {
            let t = all.take(i + 1);
            assert(t.drop_last() =~= all.take(i as int));
            assert(t.last() == ids@[i as int]@);
        }
        let mut seen = false;
        let mut k: usize = 0;
        while k < out.len() && !seen
            invariant
                k <= out@.len(),
                i < ids@.len(),
                seen ==> strs(out@).contains(ids@[i as int]@),
                !seen ==> forall|j: int| 0 <= j < k ==> strs(out@)[j] != ids@[i as int]@,
            decreases out.len() - k + (if seen { 0int } else { 1int }),
        {
            if same_str(out[k].as_str(), ids[i].as_str()) {
                seen = true;
                assert(strs(out@)[k as int] == ids@[i as int]@);
            } else {
                k = k + 1;
            }
        }
        if !seen {
            let id = ids[i].clone();
            let ghost before = strs(out@);
            out.push(id);
            assert(strs(out@) =~= before.push(ids@[i as int]@));
            assert(!before.contains(ids@[i as int]@));
        }
        i = i + 1;
    }
    assert(all.take(i as int) =~= all);
    out
}

/// A text without the placeholders of the given tables is left alone by both
/// replacements.
pub proof fn law_placeholders_untouched(md: Seq<char>, tables: Seq<TableModel>)
    requires
        forall|i: int|
            0 <= i < tables.len() ==> !crate::text::contains_text(
                md,
                placeholder((#[trigger] tables[i]).id),
            ),
    ensures
        inlined(md, tables) == md,
        marked(md, tables) == md,
    decreases tables.len(),
{
    if tables.len() > 0 {
        let front = tables.drop_last();
        assert forall|i: int| 0 <= i < front.len() implies !crate::text::contains_text(
            md,
            placeholder((#[trigger] front[i]).id),
        ) by {
            assert(front[i] == tables[i]);
        }
        law_placeholders_untouched(md, front);
        let p = placeholder(tables.last().id);
        assert(tables[tables.len() - 1] == tables.last());
        crate::text::lemma_replaced_absent(md, p, reference(tables.last().id));
        if let Some(t) = table_markdown(tables.last()) {
            crate::text::lemma_replaced_absent(md, p, t);
        }
    }
}

// ---------------------------------------------------------------------------
// Laws of placeholders and references
// ---------------------------------------------------------------------------

/// An id of letters, digits and underscores.
pub open spec fn plain_id(id: Seq<char>) -> bool {
    id.len() > 0 && forall|i: int| 0 <= i < id.len() ==> id_char(#[trigger] id[i])
}

/// What stands where in a placeholder and a reference.
pub proof fn lemma_marks(id: Seq<char>)
    requires
        plain_id(id),
    ensures
        placeholder(id).len() > 2,
        placeholder(id)[0] == '!',
        forall|k: int|
            0 <= k && k + 1 < placeholder(id).len() ==> !(#[trigger] placeholder(id)[k] == '['
                && placeholder(id)[k + 1] == '['),
        placeholder(id).last() == ')',
        reference(id).len() > 2,
        reference(id)[0] == '[' && reference(id)[1] == '[',
        forall|k: int| 0 <= k < reference(id).len() ==> #[trigger] reference(id)[k] != '!',
{
    reveal_strlit("![");
    reveal_strlit("](edgequake-table)");
    reveal_strlit("[[table:");
    reveal_strlit("]]");
    let p = placeholder(id);
    let n = id.len() as int;
    assert forall|k: int| 2 <= k < 2 + n implies #[trigger] p[k] == id[k - 2] by {}
    let r = reference(id);
    assert forall|k: int| 8 <= k < 8 + n implies #[trigger] r[k] == id[k - 8] by {}
    assert forall|k: int| 0 <= k && k + 1 < p.len() implies !(#[trigger] p[k] == '[' && p[k + 1]
        == '[') by {
        if 2 <= k < 2 + n {
            assert(id_char(id[k - 2]));
        }
        if k == 1 {
            assert(id_char(id[0]));
            assert(p[2] == id[0]);
        }
    }
    assert forall|k: int| 0 <= k < r.len() implies #[trigger] r[k] != '!' by {
        if 8 <= k < 8 + n {
            assert(id_char(id[k - 8]));
        }
    }
}

/// Where a placeholder stands at the start of a text in which another one was
/// replaced, it stood there before.
pub proof fn lemma_mark_copied(t: Seq<char>, p2: Seq<char>, q2: Seq<char>, p: Seq<char>, k: int)
    requires
        0 <= k <= p.len(),
        p2.len() > 0,
        q2.len() > 2,
        q2[0] == '[' && q2[1] == '[',
        p.len() > 2,
        p.last() == ')',
        forall|j: int| 0 <= j && j + 1 < p.len() ==> !(#[trigger] p[j] == '[' && p[j + 1] == '['),
        stands_at(replaced(t, p2, q2), 0, p),
    ensures
        k <= t.len(),
        t.take(k) == p.take(k),
        replaced(t, p2, q2).skip(k) == replaced(t.skip(k), p2, q2),
    decreases k,
{
    let y = replaced(t, p2, q2);
    if k == 0 {
        assert(t.take(0) =~= p.take(0));
        assert(y.skip(0) =~= y);
        assert(t.skip(0) =~= t);
    } else {
        lemma_mark_copied(t, p2, q2, p, k - 1);
        let u = t.skip(k - 1);
        let z = y.skip(k - 1);
        assert(y.subrange(0, p.len() as int) == p);
        assert(y[k - 1] == p[k - 1]) by {
            assert(y.subrange(0, p.len() as int)[k - 1] == y[k - 1]);
        }
        assert(z[0] == y[k - 1]);
        assert(u.len() > 0);
        if stands_at(u, 0, p2) {
            assert(z == q2 + replaced(u.skip(p2.len() as int), p2, q2));
            assert(z[0] == '[' && z[1] == '[');
            assert(p[k - 1] == '[');
            assert(k - 1 != p.len() - 1);
            assert(y.subrange(0, p.len() as int)[k] == y[k]);
            assert(z[1] == y[k]);
            assert(p[k] == '[');
        }
        assert(z == seq![u[0]] + replaced(u.skip(1), p2, q2));
        assert(t.take(k) =~= t.take(k - 1).push(t[k - 1]));
        assert(p.take(k) =~= p.take(k - 1).push(p[k - 1]));
        assert(y.skip(k) =~= z.skip(1));
        assert(z.skip(1) =~= replaced(u.skip(1), p2, q2));
        assert(u.skip(1) =~= t.skip(k));
    }
}

/// Replacing placeholders by references makes no placeholder.
proof fn lemma_no_new_mark(t: Seq<char>, id2: Seq<char>, id: Seq<char>)
    requires
        plain_id(id2),
        plain_id(id),
        id == id2 || !crate::text::contains_text(t, placeholder(id)),
    ensures
        !crate::text::contains_text(
            replaced(t, placeholder(id2), reference(id2)),
            placeholder(id),
        ),
    decreases t.len(),
{
    let p2 = placeholder(id2);
    let q2 = reference(id2);
    let p = placeholder(id);
    let y = replaced(t, p2, q2);
    lemma_marks(id2);
    lemma_marks(id);
    if t.len() == 0 {
        assert forall|i: int| !#[trigger] stands_at(y, i, p) by {}
    } else if stands_at(t, 0, p2) {
        let n = p2.len() as int;
        let z = replaced(t.skip(n), p2, q2);
        if id != id2 {
            lemma_absent_skip(t, p, n);
        }
        lemma_no_new_mark(t.skip(n), id2, id);
        assert forall|i: int| !#[trigger] stands_at(y, i, p) by {
            if stands_at(y, i, p) {
                assert(y.subrange(i, i + p.len())[0] == y[i]);
                if i < q2.len() {
                    assert(y[i] == q2[i]);
                } else {
                    let j = i - q2.len();
                    assert(y.subrange(i, i + p.len()) =~= z.subrange(j, j + p.len()));
                    assert(stands_at(z, j, p));
                }
            }
        }
    } else {
        let z = replaced(t.skip(1), p2, q2);
        if id != id2 {
            lemma_absent_skip(t, p, 1);
        }
        lemma_no_new_mark(t.skip(1), id2, id);
        assert forall|i: int| !#[trigger] stands_at(y, i, p) by {
            if stands_at(y, i, p) {
                if i == 0 {
                    lemma_mark_copied(t, p2, q2, p, p.len() as int);
                    assert(t.take(p.len() as int) =~= t.subrange(0, p.len() as int));
                    assert(p.take(p.len() as int) =~= p);
                    assert(stands_at(t, 0, p));
                } else {
                    let j = i - 1;
                    assert(y.subrange(i, i + p.len()) =~= z.subrange(j, j + p.len()));
                    assert(stands_at(z, j, p));
                }
            }
        }
    }
}

/// What does not stand in a text does not stand in its end.
proof fn lemma_absent_skip(t: Seq<char>, p: Seq<char>, n: int)
    requires
        0 <= n <= t.len(),
        !crate::text::contains_text(t, p),
    ensures
        !crate::text::contains_text(t.skip(n), p),
{
    let u = t.skip(n);
    assert forall|i: int| !#[trigger] stands_at(u, i, p) by {
        if stands_at(u, i, p) {
            assert(u.subrange(i, i + p.len()) =~= t.subrange(i + n, i + n + p.len()));
            assert(stands_at(t, i + n, p));
        }
    }
}

/// Marking leaves no placeholder of a marked table behind.
pub proof fn law_marked_has_no_placeholder(md: Seq<char>, tables: Seq<TableModel>, k: int)
    requires
        forall|i: int| 0 <= i < tables.len() ==> plain_id((#[trigger] tables[i]).id),
        0 <= k < tables.len(),
    ensures
        !crate::text::contains_text(marked(md, tables), placeholder(tables[k].id)),
    decreases tables.len(),
{
    let front = tables.drop_last();
    let last = tables.last();
    assert(last == tables[tables.len() - 1]);
    assert(plain_id(tables[k].id));
    assert forall|i: int| 0 <= i < front.len() implies plain_id((#[trigger] front[i]).id) by {
        assert(front[i] == tables[i]);
    }
    if k < front.len() {
        law_marked_has_no_placeholder(md, front, k);
        assert(front[k] == tables[k]);
    }
    lemma_no_new_mark(marked(md, front), last.id, tables[k].id);
}

/// Characters that begin no reference are passed over.
proof fn lemma_refs_pass(a: Seq<char>, rest: Seq<char>, off: int)
    requires
        forall|i: int| 0 <= i < a.len() ==> #[trigger] a[i] != '[',
    ensures
        Pattern::TableRef.hits(a + rest, off) == Pattern::TableRef.hits(rest, off + a.len()),
    decreases a.len(),
{
    if a.len() == 0 {
        assert(a + rest =~= rest);
    } else {
        let t = a + rest;
        assert(t[0] == a[0]);
        assert(Pattern::TableRef.head(t) is None) by {
            reveal(Pattern::head);
            let m = seq!['[', '[', 't', 'a', 'b', 'l', 'e', ':'];
            if stands_at(t, 0, m) {
                assert(t.subrange(0, 8)[0] == m[0]);
            }
        }
        assert(t.skip(1) =~= a.skip(1) + rest);
        lemma_refs_pass(a.skip(1), rest, off + 1);
    }
}

/// A reference is read back: between texts without brackets it gives its id.
pub proof fn law_reference_read_back(before: Seq<char>, id: Seq<char>, after: Seq<char>)
    requires
        plain_id(id),
        forall|i: int| 0 <= i < before.len() ==> #[trigger] before[i] != '[',
        forall|i: int| 0 <= i < after.len() ==> #[trigger] after[i] != '[',
    ensures
        distinct(groups(Pattern::TableRef, before + reference(id) + after)) == seq![id],
{
    reveal_strlit("[[table:");
    reveal_strlit("]]");
    let r = reference(id);
    let t = before + r + after;
    let u = r + after;
    let n = before.len() as int;
    let e = 8 + id.len() as int;
    assert(t =~= before + u);
    lemma_refs_pass(before, u, 0);
    let is_id = crate::patterns::is_id();
    assert(u[e] == ']');
    assert forall|k: int| 8 <= k < e implies is_id(#[trigger] u[k]) by {
        assert(u[k] == id[k - 8]);
        assert(id_char(id[k - 8]));
    }
    crate::text::lemma_run_is(u, 8, e, is_id);
    assert(Pattern::TableRef.head(u) == Some((e + 2, 8int, e))) by {
        reveal(Pattern::head);
        assert(u.subrange(0, 8) =~= seq!['[', '[', 't', 'a', 'b', 'l', 'e', ':']);
        assert(u.subrange(e, e + 2) =~= seq![']', ']']);
    }
    assert(u.skip(e + 2) =~= after);
    assert(after + Seq::<char>::empty() =~= after);
    lemma_refs_pass(after, Seq::empty(), n + e + 2);
    let hits = Pattern::TableRef.hits(t, 0);
    assert(Pattern::TableRef.hits(after, n + e + 2) =~= Seq::empty());
    assert(hits =~= seq![(n, n + e + 2, n + 8, n + e)]);
    assert(t.subrange(n + 8, n + e) =~= id);
    let g = groups(Pattern::TableRef, t);
    assert(g =~= seq![id]);
    reveal_with_fuel(distinct, 2);
    assert(g.drop_last() =~= Seq::<Seq<char>>::empty());
    assert(distinct(g) =~= seq![id]);
}

} // verus!
