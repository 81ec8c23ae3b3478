//! Storing the figures and tables of a document.
//!
//! Each figure and table becomes a row of its own, which serves its bytes or
//! cells, and a vector, by which it is found.

use vstd::prelude::*;

use crate::figures::{ExtractedFigure, FigureModel};
use crate::metadata::{
    count_field, field_views, optional_field, optional_text, text_field, Field, MetaModel,
};
use crate::tables::{
    embed_text, render_table_embed_text, render_table_markdown, render_table_rerank_text,
    rerank_text, table_markdown, ExtractedTable, TableModel,
};
use crate::tasks::{cat3, cat4, debug_of, debug_text, parse_uuid, uuid_reading};
use crate::text::{decimal, put_decimal, put_str, string_of};

verus! {

broadcast use vstd::string::group_string_axioms;

// ---------------------------------------------------------------------------
// Rows
// ---------------------------------------------------------------------------

/// What a row holds.
#[derive(Clone, Copy, Debug, PartialEq, Eq, Structural)]
pub enum Medium {
    Figure,
    Table,
}

impl Medium {
    /// Where the rows of a medium begin.
    pub open spec fn base(self) -> int {
        match self {
            Medium::Figure => 1_000_000,
            Medium::Table => 2_000_000,
        }
    }

    pub open spec fn name(self) -> Seq<char> {
        match self {
            Medium::Figure => "figure"@,
            Medium::Table => "table"@,
        }
    }

    pub fn as_str(self) -> (r: &'static str)
        ensures
            r@ == self.name(),
    {
        match self {
            Medium::Figure => "figure",
            Medium::Table => "table",
        }
    }
}

/// The place of a row among the rows of its document: a thousand places for
/// each page.
pub open spec fn row_index(medium: Medium, page: int, order_index: int) -> int {
    medium.base() + page * 1_000 + order_index
}

/// The row has its place among the million places of its medium.
pub open spec fn row_fits(medium: Medium, page: int, order_index: int) -> bool {
    medium.base() <= row_index(medium, page, order_index) < medium.base() + 1_000_000
}

/// The place of a row among the rows of its document, if its medium has one for
/// it.
pub fn media_row_index(medium: Medium, page: u32, order_index: u32) -> (r: Option<i32>)
    ensures
        match r {
            Some(i) => row_fits(medium, page as int, order_index as int) && i == row_index(
                medium,
                page as int,
                order_index as int,
            ),
            None => !row_fits(medium, page as int, order_index as int),
        },
{
    let place: u64 = page as u64 * 1_000 + order_index as u64;
    if place >= 1_000_000 {
        return None;
    }
    let base: i32 = match medium {
        Medium::Figure => 1_000_000,
        Medium::Table => 2_000_000,
    };
    Some(base + place as i32)
}

/// Figures take the second million of places and tables the third; a figure and
/// a table never share a place, and neither do two regions of a medium whose
/// pages have fewer than a thousand.
pub proof fn law_rows_apart(
    a: Medium,
    page_a: int,
    order_a: int,
    b: Medium,
    page_b: int,
    order_b: int,
)
    requires
        0 <= page_a,
        0 <= order_a,
        0 <= page_b,
        0 <= order_b,
        row_fits(a, page_a, order_a),
        row_fits(b, page_b, order_b),
    ensures
        a is Figure ==> 1_000_000 <= row_index(a, page_a, order_a) <= 1_999_999,
        a is Table ==> 2_000_000 <= row_index(a, page_a, order_a) <= 2_999_999,
        row_index(a, page_a, order_a) == row_index(b, page_b, order_b) ==> a == b,
        row_index(a, page_a, order_a) == row_index(b, page_b, order_b) && order_a < 1_000 && order_b
            < 1_000 ==> page_a == page_b && order_a == order_b,
{
}

/// The row of a figure.
#[derive(Clone, Debug)]
pub struct FigureRow {
    pub content: String,
    pub chunk_index: i32,
    pub figure_id: String,
    pub media_bytes: Vec<u8>,
    pub media_mime: String,
    pub metadata: Vec<Field>,
}

/// The row of a table. Its label is given later.
#[derive(Clone, Debug)]
pub struct TableContentRow {
    pub content: String,
    pub chunk_index: i32,
    pub table_id: String,
    pub table_html: String,
    pub headers: Vec<String>,
    pub rows: Vec<Vec<String>>,
    pub metadata: Vec<Field>,
}

/// The metadata of a row.
pub open spec fn row_metadata(
    medium: Medium,
    id_name: Seq<char>,
    id: Seq<char>,
    page: u32,
    order_index: u32,
) -> Seq<(Seq<char>, MetaModel)> {
    seq![
        ("kind"@, MetaModel::Text(medium.name())),
        (id_name, MetaModel::Text(id)),
        ("page"@, MetaModel::Count(page as nat)),
        ("order_index"@, MetaModel::Count(order_index as nat)),
    ]
}

fn row_fields(
    medium: Medium,
    id_name: &'static str,
    id: &str,
    page: u32,
    order_index: u32,
) -> (r: Vec<Field>)
    ensures
        field_views(r@) == row_metadata(medium, id_name@, id@, page, order_index),
{
    let r = vec![
        text_field("kind", medium.as_str()),
        text_field(id_name, id),
        count_field("page", page as u64),
        count_field("order_index", order_index as u64),
    ];
    assert(field_views(r@) =~= row_metadata(medium, id_name@, id@, page, order_index));
    r
}

fn copy_bytes(v: &Vec<u8>) -> (r: Vec<u8>)
    ensures
        r@ == v@,
{
    let mut r: Vec<u8> = Vec::new();
    let mut i: usize = 0;
    while i < v.len()
        invariant
            i <= v@.len(),
            r@ == v@.take(i as int),
        decreases v.len() - i,
    {
        r.push(v[i]);
        assert(v@.take(i + 1) =~= v@.take(i as int).push(v@[i as int]));
        i = i + 1;
    }
    assert(v@.take(i as int) =~= v@);
    r
}

/// What is said of a row without a place.
pub open spec fn no_place(medium: Medium) -> Seq<char> {
    match medium {
        Medium::Figure => "figure row index out of range"@,
        Medium::Table => "table row index out of range"@,
    }
}

/// `row` serves the figure `fig`.
pub open spec fn serves_figure(row: FigureRow, fig: ExtractedFigure) -> bool {
    &&& row.content@ == fig.caption@
    &&& row.chunk_index == row_index(Medium::Figure, fig.page as int, fig.order_index as int)
    &&& row.figure_id@ == fig.id@
    &&& row.media_bytes@ == fig.image_bytes@
    &&& row.media_mime@ == fig.mime@
    &&& field_views(row.metadata@) == row_metadata(
        Medium::Figure,
        "figure_id"@,
        fig.id@,
        fig.page,
        fig.order_index,
    )
}

/// The row that serves a figure, unless it has no place.
pub fn figure_row(fig: &ExtractedFigure) -> (r: Result<FigureRow, String>)
    ensures
        match r {
            Ok(row) => row_fits(Medium::Figure, fig.page as int, fig.order_index as int)
                && serves_figure(row, *fig),
            Err(e) => !row_fits(Medium::Figure, fig.page as int, fig.order_index as int) && e@
                == no_place(Medium::Figure),
        },
{
    let chunk_index = match media_row_index(Medium::Figure, fig.page, fig.order_index) {
        Some(i) => i,
        None => return Err("figure row index out of range".to_string()),
    };
    Ok(FigureRow {
        content: fig.caption.clone(),
        chunk_index,
        figure_id: fig.id.clone(),
        media_bytes: copy_bytes(&fig.image_bytes),
        media_mime: fig.mime.clone(),
        metadata: row_fields(
            Medium::Figure,
            "figure_id",
            fig.id.as_str(),
            fig.page,
            fig.order_index,
        ),
    })
}

fn copy_rows(v: &Vec<Vec<String>>) -> (r: Vec<Vec<String>>)
    ensures
        crate::tables::row_views(r@) == crate::tables::row_views(v@),
{
    let ghost all = crate::tables::row_views(v@);
    let mut r: Vec<Vec<String>> = Vec::new();
    let mut i: usize = 0;
    while i < v.len()
        invariant
            i <= v@.len(),
            all == crate::tables::row_views(v@),
            crate::tables::row_views(r@) == all.take(i as int),
        decreases v.len() - i,
    {
        let ghost before = crate::tables::row_views(r@);
        r.push(crate::metadata::copy_texts(&v[i]));
        assert(crate::tables::row_views(r@) =~= before.push(all[i as int]));
        assert(all.take(i + 1) =~= all.take(i as int).push(all[i as int]));
        i = i + 1;
    }
    assert(all.take(i as int) =~= all);
    r
}

/// `row` serves the table `table`.
pub open spec fn serves_table(row: TableContentRow, table: ExtractedTable) -> bool {
    &&& row.content@ == table.caption@
    &&& row.chunk_index == row_index(Medium::Table, table.page as int, table.order_index as int)
    &&& row.table_id@ == table.id@
    &&& row.table_html@ == table.html@
    &&& crate::text::strs(row.headers@) == table@.headers
    &&& crate::tables::row_views(row.rows@) == table@.rows
    &&& field_views(row.metadata@) == row_metadata(
        Medium::Table,
        "table_id"@,
        table.id@,
        table.page,
        table.order_index,
    )
}

/// The row that serves a table, unless it has no place.
pub fn table_row(table: &ExtractedTable) -> (r: Result<TableContentRow, String>)
    ensures
        match r {
            Ok(row) => row_fits(Medium::Table, table.page as int, table.order_index as int)
                && serves_table(row, *table),
            Err(e) => !row_fits(Medium::Table, table.page as int, table.order_index as int) && e@
                == no_place(Medium::Table),
        },
{
    let chunk_index = match media_row_index(Medium::Table, table.page, table.order_index) {
        Some(i) => i,
        None => return Err("table row index out of range".to_string()),
    };
    Ok(TableContentRow {
        content: table.caption.clone(),
        chunk_index,
        table_id: table.id.clone(),
        table_html: table.html.clone(),
        headers: crate::metadata::copy_texts(&table.headers),
        rows: copy_rows(&table.rows),
        metadata: row_fields(
            Medium::Table,
            "table_id",
            table.id.as_str(),
            table.page,
            table.order_index,
        ),
    })
}

// ---------------------------------------------------------------------------
// The outcome of storing rows
// ---------------------------------------------------------------------------

/// The document that rows belong to, or why the text names none.
pub fn row_document(document_id: &str) -> (r: Result<u128, String>)
    ensures
        match uuid_reading(document_id@) {
            Ok(v) => r == Ok::<u128, String>(v),
            Err(e) => r matches Err(m) && m@ == "invalid early_doc_id "@ + debug_text(
                document_id@,
            ) + ": "@ + e,
        },
{
    match parse_uuid(document_id) {
        Ok(v) => Ok(v),
        Err(e) => Err(
            cat4("invalid early_doc_id ", debug_of(document_id).as_str(), ": ", e.as_str()),
        ),
    }
}

/// How many of the first results are errors.
pub open spec fn failures(results: Seq<Result<(), String>>) -> nat
    decreases results.len(),
{
    if results.len() == 0 {
        0
    } else {
        failures(results.drop_last()) + (if results.last() is Err {
            1nat
        } else {
            0nat
        })
    }
}

/// The first error.
pub open spec fn first_error(results: Seq<Result<(), String>>) -> Option<Seq<char>>
    decreases results.len(),
{
    if results.len() == 0 {
        None
    } else {
        match first_error(results.drop_last()) {
            Some(e) => Some(e),
            None => match results.last() {
                Err(e) => Some(e@),
                Ok(_) => None,
            },
        }
    }
}

proof fn lemma_failures(results: Seq<Result<(), String>>)
    ensures
        failures(results) <= results.len(),
        failures(results) > 0 <==> first_error(results) is Some,
    decreases results.len(),
{
    if results.len() > 0 {
        lemma_failures(results.drop_last());
    }
}

/// What is said where some rows could not be stored.
pub open spec fn backfill_complaint(
    medium: Medium,
    failed: nat,
    total: nat,
    error: Seq<char>,
) -> Seq<char> {
    medium.name() + " backfill: "@ + decimal(failed) + "/"@ + decimal(total)
        + " inserts failed (first error: "@ + error + ")"@
}

/// The outcome of storing the rows of a medium, given what came of each: every
/// row is tried, and one that failed makes the whole fail.
pub fn backfill_outcome(medium: Medium, results: &Vec<Result<(), String>>) -> (r: Result<
    (),
    String,
>)
    ensures
        match first_error(results@) {
            None => r is Ok,
            Some(e) => r matches Err(m) && m@ == backfill_complaint(
                medium,
                failures(results@),
                results@.len(),
                e,
            ),
        },
        r is Ok <==> forall|i: int| 0 <= i < results@.len() ==> #[trigger] results@[i] is Ok,
{
    let mut failed: usize = 0;
    let mut first: Option<String> = None;
    let mut i: usize = 0;
    assert(results@.take(0) =~= Seq::<Result<(), String>>::empty());
    while i < results.len()
        invariant
            i <= results@.len(),
            failed <= i,
            failed == failures(results@.take(i as int)),
            crate::conversion::opt_view(first) == first_error(results@.take(i as int)),
            failed == 0 <==> forall|j: int| 0 <= j < i ==> #[trigger] results@[j] is Ok,
        decreases results.len() - i,
    {
        assert(results@.take(i + 1).drop_last() =~= results@.take(i as int));
        if let Err(e) = &results[i] {
            failed = failed + 1;
            if first.is_none() {
                first = Some(e.clone());
            }
        }
        i = i + 1;
    }
    assert(results@.take(i as int) =~= results@);
    proof {
        lemma_failures(results@);
    }
    match first {
        None => Ok(()),
        Some(e) => {
            let mut out: Vec<char> = Vec::new();
            put_str(medium.as_str(), &mut out);
            put_str(" backfill: ", &mut out);
            put_decimal(failed as u64, &mut out);
            put_str("/", &mut out);
            put_decimal(results.len() as u64, &mut out);
            put_str(" inserts failed (first error: ", &mut out);
            put_str(e.as_str(), &mut out);
            put_str(")", &mut out);
            assert(out@ =~= backfill_complaint(
                medium,
                failures(results@),
                results@.len(),
                e@,
            ));
            Err(string_of(&out))
        },
    }
}

// ---------------------------------------------------------------------------
// Vectors
// ---------------------------------------------------------------------------

/// The id of the vector of a figure or table.
pub open spec fn media_chunk_id(document_id: Seq<char>, medium: Medium, id: Seq<char>) -> Seq<
    char,
> {
    match medium {
        Medium::Figure => document_id + "-figure-"@ + id,
        Medium::Table => document_id + "-table-"@ + id,
    }
}

/// The id of the vector of a figure or table.
pub fn chunk_id_of(document_id: &str, medium: Medium, id: &str) -> (r: String)
    ensures
        r@ == media_chunk_id(document_id@, medium, id@),
{
    match medium {
        Medium::Figure => cat3(document_id, "-figure-", id),
        Medium::Table => cat3(document_id, "-table-", id),
    }
}

/// Where something is stored and which model made its vector.
#[derive(Clone, Debug)]
pub struct Storing {
    pub document_id: String,
    pub tenant_id: String,
    pub workspace_id: String,
    pub embedding_provider: String,
    pub embedding_model: String,
}

/// The metadata of a figure's vector. The caption is all that can be searched in
/// it, so it is its content too.
pub open spec fn figure_metadata(at: Storing, fig: FigureModel) -> Seq<(Seq<char>, MetaModel)> {
    seq![
        ("type"@, MetaModel::Text("chunk"@)),
        ("kind"@, MetaModel::Text("figure"@)),
        ("content"@, MetaModel::Text(fig.caption)),
        ("document_id"@, MetaModel::Text(at.document_id@)),
        ("figure_id"@, MetaModel::Text(fig.id)),
        ("page"@, MetaModel::Count(fig.page as nat)),
        ("order_index"@, MetaModel::Count(fig.order_index as nat)),
        ("caption"@, MetaModel::Text(fig.caption)),
        ("tenant_id"@, MetaModel::Text(at.tenant_id@)),
        ("workspace_id"@, MetaModel::Text(at.workspace_id@)),
        ("media_mime"@, MetaModel::Text(fig.mime)),
        ("embedding_provider"@, MetaModel::Text(at.embedding_provider@)),
        ("embedding_model"@, MetaModel::Text(at.embedding_model@)),
    ]
}

/// The metadata of a figure's vector.
pub fn figure_vector_metadata(at: &Storing, fig: &ExtractedFigure) -> (r: Vec<Field>)
    ensures
        field_views(r@) == figure_metadata(*at, fig@),
{
    let r = vec![
        text_field("type", "chunk"),
        text_field("kind", "figure"),
        text_field("content", fig.caption.as_str()),
        text_field("document_id", at.document_id.as_str()),
        text_field("figure_id", fig.id.as_str()),
        count_field("page", fig.page as u64),
        count_field("order_index", fig.order_index as u64),
        text_field("caption", fig.caption.as_str()),
        text_field("tenant_id", at.tenant_id.as_str()),
        text_field("workspace_id", at.workspace_id.as_str()),
        text_field("media_mime", fig.mime.as_str()),
        text_field("embedding_provider", at.embedding_provider.as_str()),
        text_field("embedding_model", at.embedding_model.as_str()),
    ];
    assert(field_views(r@) =~= figure_metadata(*at, fig@));
    r
}

/// The three texts of a table: what its vector is made from, what is shown, and
/// what it is ranked by.
#[derive(Clone, Debug)]
pub struct TableTexts {
    pub embed_text: String,
    pub content: String,
    pub rerank_text: Option<String>,
}

/// What is shown of a table: its grid, or the text of its vector where there is
/// no grid.
pub open spec fn table_content(table: TableModel, embed: Seq<char>) -> Seq<char> {
    match table_markdown(table) {
        Some(s) => s,
        None => embed,
    }
}

/// The three texts of a table; none if there is nothing to make a vector from.
pub fn table_texts(table: &ExtractedTable) -> (r: Option<TableTexts>)
    ensures
        match embed_text(table@) {
            None => r is None,
            Some(e) => r matches Some(t) && t.embed_text@ == e && t.content@ == table_content(
                table@,
                e,
            ) && crate::conversion::opt_view(t.rerank_text) == rerank_text(table@),
        },
{
    match render_table_embed_text(table) {
        None => None,
        Some(e) => {
            let content = match render_table_markdown(table) {
                Some(s) => s,
                None => e.clone(),
            };
            let rerank = render_table_rerank_text(table);
            Some(TableTexts { embed_text: e, content, rerank_text: rerank })
        },
    }
}

/// The metadata of a table's vector.
pub open spec fn table_metadata(at: Storing, table: TableModel, texts: TableTexts) -> Seq<
    (Seq<char>, MetaModel),
> {
    seq![
        ("type"@, MetaModel::Text("chunk"@)),
        ("kind"@, MetaModel::Text("table"@)),
        ("content"@, MetaModel::Text(texts.content@)),
        ("rerank_text"@, optional_text(crate::conversion::opt_view(texts.rerank_text))),
        ("document_id"@, MetaModel::Text(at.document_id@)),
        ("table_id"@, MetaModel::Text(table.id)),
        ("page"@, MetaModel::Count(table.page as nat)),
        ("order_index"@, MetaModel::Count(table.order_index as nat)),
        ("caption"@, MetaModel::Text(table.caption)),
        ("tenant_id"@, MetaModel::Text(at.tenant_id@)),
        ("workspace_id"@, MetaModel::Text(at.workspace_id@)),
        ("embedding_provider"@, MetaModel::Text(at.embedding_provider@)),
        ("embedding_model"@, MetaModel::Text(at.embedding_model@)),
    ]
}

/// The metadata of a table's vector.
pub fn table_vector_metadata(at: &Storing, table: &ExtractedTable, texts: &TableTexts) -> (r: Vec<
    Field,
>)
    ensures
        field_views(r@) == table_metadata(*at, table@, *texts),
{
    let r = vec![
        text_field("type", "chunk"),
        text_field("kind", "table"),
        text_field("content", texts.content.as_str()),
        optional_field("rerank_text", &texts.rerank_text),
        text_field("document_id", at.document_id.as_str()),
        text_field("table_id", table.id.as_str()),
        count_field("page", table.page as u64),
        count_field("order_index", table.order_index as u64),
        text_field("caption", table.caption.as_str()),
        text_field("tenant_id", at.tenant_id.as_str()),
        text_field("workspace_id", at.workspace_id.as_str()),
        text_field("embedding_provider", at.embedding_provider.as_str()),
        text_field("embedding_model", at.embedding_model.as_str()),
    ];
    assert(field_views(r@) =~= table_metadata(*at, table@, *texts));
    r
}

// ---------------------------------------------------------------------------
// Embedding one item after the other
// ---------------------------------------------------------------------------

/// Where a run stands.
#[derive(Clone, Copy, Debug, PartialEq, Eq, Structural)]
pub enum EmbedPhase {
    NotStarted,
    Embedding,
    Upserting,
    Finished,
}

/// A run that embeds and stores items in order. An item that fails is left out.
#[derive(Clone, Copy, Debug, PartialEq, Eq, Structural)]
pub struct EmbedRun {
    /// The item in hand.
    pub item: usize,
    /// How many vectors were stored.
    pub stored: usize,
    pub phase: EmbedPhase,
}

/// What happened outside.
#[derive(Clone, Copy, Debug, PartialEq, Eq, Structural)]
pub enum EmbedEvent {
    Start,
    /// The vector of the item in hand came, or did not.
    Embedded { ok: bool },
    /// The vector was stored, or was not.
    Upserted { ok: bool },
}

/// What to do next.
#[derive(Clone, Copy, Debug, PartialEq, Eq, Structural)]
pub enum EmbedAction {
    Embed { item: usize },
    Upsert { item: usize },
    Finish { stored: usize },
}

/// The first item from `i` on that is wanted.
pub open spec fn next_wanted(wanted: Seq<bool>, i: int) -> int
    decreases wanted.len() - i,
{
    if 0 <= i < wanted.len() && !wanted[i] {
        next_wanted(wanted, i + 1)
    } else {
        i
    }
}

/// How many items are wanted.
pub open spec fn wanted_count(wanted: Seq<bool>) -> nat
    decreases wanted.len(),
{
    if wanted.len() == 0 {
        0
    } else {
        wanted_count(wanted.drop_last()) + (if wanted.last() {
            1nat
        } else {
            0nat
        })
    }
}

impl EmbedRun {
    /// The run can be in this state.
    pub open spec fn wf(self, wanted: Seq<bool>) -> bool {
        &&& self.stored <= self.item <= wanted.len()
        &&& (self.phase == EmbedPhase::Embedding || self.phase == EmbedPhase::Upserting)
            ==> self.item < wanted.len() && wanted[self.item as int]
        &&& self.phase == EmbedPhase::Finished ==> self.item == wanted.len()
        &&& self.phase == EmbedPhase::NotStarted ==> self.item == 0 && self.stored == 0
    }

    /// The event can happen in this state.
    pub open spec fn expects(self, event: EmbedEvent) -> bool {
        match event {
            EmbedEvent::Start => self.phase == EmbedPhase::NotStarted,
            EmbedEvent::Embedded { .. } => self.phase == EmbedPhase::Embedding,
            EmbedEvent::Upserted { .. } => self.phase == EmbedPhase::Upserting,
        }
    }

    /// The state with the first wanted item from `i` on in hand.
    pub open spec fn moved(self, wanted: Seq<bool>, i: int, stored: int) -> EmbedRun {
        let n = next_wanted(wanted, i);
        EmbedRun {
            item: n as usize,
            stored: stored as usize,
            phase: if n < wanted.len() {
                EmbedPhase::Embedding
            } else {
                EmbedPhase::Finished
            },
        }
    }

    /// The state after an event.
    pub open spec fn after(self, wanted: Seq<bool>, event: EmbedEvent) -> EmbedRun {
        match event {
            EmbedEvent::Start => self.moved(wanted, 0, 0),
            EmbedEvent::Embedded { ok } => if ok {
                EmbedRun { phase: EmbedPhase::Upserting, ..self }
            } else {
                self.moved(wanted, self.item + 1, self.stored as int)
            },
            EmbedEvent::Upserted { ok } => self.moved(
                wanted,
                self.item + 1,
                self.stored + (if ok {
                    1int
                } else {
                    0int
                }),
            ),
        }
    }

    /// What to do in a state.
    pub open spec fn action(self) -> EmbedAction {
        match self.phase {
            EmbedPhase::Upserting => EmbedAction::Upsert { item: self.item },
            EmbedPhase::Finished => EmbedAction::Finish { stored: self.stored },
            _ => EmbedAction::Embed { item: self.item },
        }
    }

    /// A new run.
    pub fn new() -> (r: Self)
        ensures
            r == (EmbedRun { item: 0, stored: 0, phase: EmbedPhase::NotStarted }),
            forall|wanted: Seq<bool>| r.wf(wanted),
    {
        EmbedRun { item: 0, stored: 0, phase: EmbedPhase::NotStarted }
    }

    fn move_to(&mut self, wanted: &Vec<bool>, i: usize, stored: usize)
        requires
            i <= wanted@.len(),
        ensures
            *final(self) == old(self).moved(wanted@, i as int, stored as int),
            final(self).item == next_wanted(wanted@, i as int),
            final(self).stored == stored,
            i <= final(self).item <= wanted@.len(),
            final(self).item < wanted@.len() ==> wanted@[final(self).item as int],
    {
        let mut k: usize = i;
        while k < wanted.len() && !wanted[k]
            invariant
                i <= k <= wanted@.len(),
                next_wanted(wanted@, i as int) == next_wanted(wanted@, k as int),
            decreases wanted.len() - k,
        {
            k = k + 1;
        }
        self.item = k;
        self.stored = stored;
        self.phase = if k < wanted.len() {
            EmbedPhase::Embedding
        } else {
            EmbedPhase::Finished
        };
    }

    /// Takes in what happened and says what to do next. Items that are not
    /// wanted are passed over.
    pub fn step(&mut self, wanted: &Vec<bool>, event: EmbedEvent) -> (action: EmbedAction)
        requires
            old(self).wf(wanted@),
            old(self).expects(event),
        ensures
            final(self).wf(wanted@),
            *final(self) == old(self).after(wanted@, event),
            action == final(self).action(),
            action matches EmbedAction::Embed { item } ==> item < wanted@.len()
                && wanted@[item as int],
            action matches EmbedAction::Finish { stored } ==> stored <= wanted@.len(),
    {
        let len = wanted.len();
        assert(self.item <= len);
        match event {
            EmbedEvent::Start => {
                self.move_to(wanted, 0, 0);
            },
            EmbedEvent::Embedded { ok } => {
                if ok {
                    self.phase = EmbedPhase::Upserting;
                } else {
                    let stored = self.stored;
                    self.move_to(wanted, self.item + 1, stored);
                }
            },
            EmbedEvent::Upserted { ok } => {
                let stored = if ok {
                    self.stored + 1
                } else {
                    self.stored
                };
                self.move_to(wanted, self.item + 1, stored);
            },
        }
        match self.phase {
            EmbedPhase::Upserting => EmbedAction::Upsert { item: self.item },
            EmbedPhase::Finished => EmbedAction::Finish { stored: self.stored },
            _ => EmbedAction::Embed { item: self.item },
        }
    }
}

/// The state after several events.
pub open spec fn embed_run_after(wanted: Seq<bool>, events: Seq<EmbedEvent>) -> EmbedRun
    decreases events.len(),
{
    if events.len() == 0 {
        EmbedRun { item: 0, stored: 0, phase: EmbedPhase::NotStarted }
    } else {
        embed_run_after(wanted, events.drop_last()).after(wanted, events.last())
    }
}

/// Each event can happen when it happens.
pub open spec fn embed_run_possible(wanted: Seq<bool>, events: Seq<EmbedEvent>) -> bool
    decreases events.len(),
{
    events.len() == 0 || (embed_run_possible(wanted, events.drop_last()) && embed_run_after(
        wanted,
        events.drop_last(),
    ).expects(events.last()))
}

/// How many vectors were stored.
pub open spec fn upserts(events: Seq<EmbedEvent>) -> nat
    decreases events.len(),
{
    if events.len() == 0 {
        0
    } else {
        upserts(events.drop_last()) + (if events.last() == (EmbedEvent::Upserted { ok: true }) {
            1nat
        } else {
            0nat
        })
    }
}

/// How many items were tried.
pub open spec fn tries(events: Seq<EmbedEvent>) -> nat
    decreases events.len(),
{
    if events.len() == 0 {
        0
    } else {
        tries(events.drop_last()) + (if events.last() is Embedded {
            1nat
        } else {
            0nat
        })
    }
}

proof fn lemma_next_wanted(wanted: Seq<bool>, i: int)
    requires
        0 <= i <= wanted.len(),
    ensures
        i <= next_wanted(wanted, i) <= wanted.len(),
        next_wanted(wanted, i) < wanted.len() ==> wanted[next_wanted(wanted, i)],
        wanted_count(wanted.take(next_wanted(wanted, i))) == wanted_count(wanted.take(i)),
    decreases wanted.len() - i,
{
    if i < wanted.len() && !wanted[i] {
        lemma_next_wanted(wanted, i + 1);
        assert(wanted.take(i + 1).drop_last() =~= wanted.take(i));
    }
}

/// A run reports exactly the vectors that were stored, and when it ends every
/// wanted item was tried exactly once.
pub proof fn law_every_item_tried(wanted: Seq<bool>, events: Seq<EmbedEvent>)
    requires
        wanted.len() < usize::MAX,
        embed_run_possible(wanted, events),
    ensures
        embed_run_after(wanted, events).wf(wanted),
        embed_run_after(wanted, events).stored == upserts(events),
        tries(events) == wanted_count(wanted.take(embed_run_after(wanted, events).item as int)) + (
        if embed_run_after(wanted, events).phase == EmbedPhase::Upserting {
            1nat
        } else {
            0nat
        }),
        embed_run_after(wanted, events).phase == EmbedPhase::Finished ==> tries(events)
            == wanted_count(wanted),
    decreases events.len(),
{
    if events.len() == 0 {
        assert(wanted.take(0) =~= Seq::<bool>::empty());
    } else {
        law_every_item_tried(wanted, events.drop_last());
        let before = embed_run_after(wanted, events.drop_last());
        match events.last() {
            EmbedEvent::Start => {
                lemma_next_wanted(wanted, 0);
                assert(wanted.take(0) =~= Seq::<bool>::empty());
            },
            _ => {
                lemma_next_wanted(wanted, before.item + 1);
                assert(wanted.take(before.item + 1).drop_last() =~= wanted.take(
                    before.item as int,
                ));
            },
        }
    }
    assert(wanted.take(wanted.len() as int) =~= wanted);
}

} // verus!
