//! What is stored about documents, figures, tables and algorithms.

use vstd::prelude::*;

use crate::algorithm_embedding::{
    algorithm_metadata, algorithm_parts, algorithm_text, embed_percent, StoredAlgorithm,
};
use crate::backfill::{
    failures, figure_metadata, first_error, media_chunk_id, row_index, row_metadata, table_content,
    table_metadata, Medium, Storing, TableTexts,
};
use crate::conversion::opt_view;
use crate::figures::FigureModel;
use crate::graph::{
    table_entities_of, table_entity, table_entity_metadata, table_entity_name, table_node_model,
    Owner, TableEntityModel,
};
use crate::metadata::{optional_int, optional_text, MetaModel};
use crate::pdf_plan::{converting_message, early_metadata_of, insert_metadata_of, PdfInfo, PdfOwner};
use crate::tables::{embed_text, table_markdown, TableModel};
use crate::text::{decimal, join, strs, trim};

verus! {

broadcast use vstd::string::group_string_axioms;

/// The vector of an algorithm carries what the algorithm is and whose it
/// is.
pub proof fn law_algorithm_metadata(a: StoredAlgorithm)
    ensures
        ({
            let m = algorithm_metadata(a);
            &&& m.contains(("type"@, MetaModel::Text("algorithm"@)))
            &&& m.contains(("algorithm_id"@, MetaModel::Text(a.id@)))
            &&& m.contains(("document_id"@, MetaModel::Text(a.document_id@)))
            &&& m.contains(("name"@, MetaModel::Text(a.name@)))
            &&& m.contains(("description"@, optional_text(opt_view(a.description))))
            &&& m.contains(("tags"@, MetaModel::Texts(strs(a.tags@))))
            &&& m.contains(("confidence"@, MetaModel::Float(a.confidence)))
            &&& m.contains(("tenant_id"@, MetaModel::Text(a.tenant_id@)))
            &&& m.contains(("workspace_id"@, MetaModel::Text(a.workspace_id@)))
            &&& m.len() == 9
        }),
{
    let m = algorithm_metadata(a);
    assert(m[0] == ("type"@, MetaModel::Text("algorithm"@)));
    assert(m[1] == ("algorithm_id"@, MetaModel::Text(a.id@)));
    assert(m[2] == ("document_id"@, MetaModel::Text(a.document_id@)));
    assert(m[3] == ("name"@, MetaModel::Text(a.name@)));
    assert(m[4] == ("description"@, optional_text(opt_view(a.description))));
    assert(m[5] == ("tags"@, MetaModel::Texts(strs(a.tags@))));
    assert(m[6] == ("confidence"@, MetaModel::Float(a.confidence)));
    assert(m[7] == ("tenant_id"@, MetaModel::Text(a.tenant_id@)));
    assert(m[8] == ("workspace_id"@, MetaModel::Text(a.workspace_id@)));
}

/// The row of a figure or table names its medium, its id and its place.
pub proof fn law_row_metadata(
    medium: Medium,
    id_name: Seq<char>,
    id: Seq<char>,
    page: u32,
    order_index: u32,
)
    ensures
        ({
            let m = row_metadata(medium, id_name, id, page, order_index);
            &&& m.contains(("kind"@, MetaModel::Text(medium.name())))
            &&& m.contains((id_name, MetaModel::Text(id)))
            &&& m.contains(("page"@, MetaModel::Count(page as nat)))
            &&& m.contains(("order_index"@, MetaModel::Count(order_index as nat)))
            &&& m.len() == 4
        }),
{
    let m = row_metadata(medium, id_name, id, page, order_index);
    assert(m[0] == ("kind"@, MetaModel::Text(medium.name())));
    assert(m[1] == (id_name, MetaModel::Text(id)));
    assert(m[2] == ("page"@, MetaModel::Count(page as nat)));
    assert(m[3] == ("order_index"@, MetaModel::Count(order_index as nat)));
}

/// The vector of a figure carries its caption, its place, its owner and the
/// model that made it.
pub proof fn law_figure_metadata(at: Storing, fig: FigureModel)
    ensures
        ({
            let m = figure_metadata(at, fig);
            &&& m.contains(("type"@, MetaModel::Text("chunk"@)))
            &&& m.contains(("kind"@, MetaModel::Text("figure"@)))
            &&& m.contains(("content"@, MetaModel::Text(fig.caption)))
            &&& m.contains(("document_id"@, MetaModel::Text(at.document_id@)))
            &&& m.contains(("figure_id"@, MetaModel::Text(fig.id)))
            &&& m.contains(("page"@, MetaModel::Count(fig.page as nat)))
            &&& m.contains(("order_index"@, MetaModel::Count(fig.order_index as nat)))
            &&& m.contains(("caption"@, MetaModel::Text(fig.caption)))
            &&& m.contains(("tenant_id"@, MetaModel::Text(at.tenant_id@)))
            &&& m.contains(("workspace_id"@, MetaModel::Text(at.workspace_id@)))
            &&& m.contains(("media_mime"@, MetaModel::Text(fig.mime)))
            &&& m.contains(("embedding_provider"@, MetaModel::Text(at.embedding_provider@)))
            &&& m.contains(("embedding_model"@, MetaModel::Text(at.embedding_model@)))
            &&& m.len() == 13
        }),
{
    let m = figure_metadata(at, fig);
    assert(m[0] == ("type"@, MetaModel::Text("chunk"@)));
    assert(m[1] == ("kind"@, MetaModel::Text("figure"@)));
    assert(m[2] == ("content"@, MetaModel::Text(fig.caption)));
    assert(m[3] == ("document_id"@, MetaModel::Text(at.document_id@)));
    assert(m[4] == ("figure_id"@, MetaModel::Text(fig.id)));
    assert(m[5] == ("page"@, MetaModel::Count(fig.page as nat)));
    assert(m[6] == ("order_index"@, MetaModel::Count(fig.order_index as nat)));
    assert(m[7] == ("caption"@, MetaModel::Text(fig.caption)));
    assert(m[8] == ("tenant_id"@, MetaModel::Text(at.tenant_id@)));
    assert(m[9] == ("workspace_id"@, MetaModel::Text(at.workspace_id@)));
    assert(m[10] == ("media_mime"@, MetaModel::Text(fig.mime)));
    assert(m[11] == ("embedding_provider"@, MetaModel::Text(at.embedding_provider@)));
    assert(m[12] == ("embedding_model"@, MetaModel::Text(at.embedding_model@)));
}

/// The vector of a table carries its texts, its place, its owner and the
/// model that made it.
pub proof fn law_table_metadata(at: Storing, table: TableModel, texts: TableTexts)
    ensures
        ({
            let m = table_metadata(at, table, texts);
            &&& m.contains(("type"@, MetaModel::Text("chunk"@)))
            &&& m.contains(("kind"@, MetaModel::Text("table"@)))
            &&& m.contains(("content"@, MetaModel::Text(texts.content@)))
            &&& m.contains(("rerank_text"@, optional_text(opt_view(texts.rerank_text))))
            &&& m.contains(("document_id"@, MetaModel::Text(at.document_id@)))
            &&& m.contains(("table_id"@, MetaModel::Text(table.id)))
            &&& m.contains(("page"@, MetaModel::Count(table.page as nat)))
            &&& m.contains(("order_index"@, MetaModel::Count(table.order_index as nat)))
            &&& m.contains(("caption"@, MetaModel::Text(table.caption)))
            &&& m.contains(("tenant_id"@, MetaModel::Text(at.tenant_id@)))
            &&& m.contains(("workspace_id"@, MetaModel::Text(at.workspace_id@)))
            &&& m.contains(("embedding_provider"@, MetaModel::Text(at.embedding_provider@)))
            &&& m.contains(("embedding_model"@, MetaModel::Text(at.embedding_model@)))
            &&& m.len() == 13
        }),
{
    let m = table_metadata(at, table, texts);
    assert(m[0] == ("type"@, MetaModel::Text("chunk"@)));
    assert(m[1] == ("kind"@, MetaModel::Text("table"@)));
    assert(m[2] == ("content"@, MetaModel::Text(texts.content@)));
    assert(m[3] == ("rerank_text"@, optional_text(opt_view(texts.rerank_text))));
    assert(m[4] == ("document_id"@, MetaModel::Text(at.document_id@)));
    assert(m[5] == ("table_id"@, MetaModel::Text(table.id)));
    assert(m[6] == ("page"@, MetaModel::Count(table.page as nat)));
    assert(m[7] == ("order_index"@, MetaModel::Count(table.order_index as nat)));
    assert(m[8] == ("caption"@, MetaModel::Text(table.caption)));
    assert(m[9] == ("tenant_id"@, MetaModel::Text(at.tenant_id@)));
    assert(m[10] == ("workspace_id"@, MetaModel::Text(at.workspace_id@)));
    assert(m[11] == ("embedding_provider"@, MetaModel::Text(at.embedding_provider@)));
    assert(m[12] == ("embedding_model"@, MetaModel::Text(at.embedding_model@)));
}

/// A document that is being converted is recorded with its file, its owner
/// and its stage.
pub proof fn law_early_metadata(
    document_id: Seq<char>,
    pdf: PdfInfo,
    owner: PdfOwner,
    created_at: Seq<char>,
    updated_at: Seq<char>,
)
    ensures
        ({
            let m = early_metadata_of(document_id, pdf, owner, created_at, updated_at);
            &&& m.contains(("id"@, MetaModel::Text(document_id)))
            &&& m.contains(("title"@, MetaModel::Text(pdf.filename@)))
            &&& m.contains(("file_name"@, MetaModel::Text(pdf.filename@)))
            &&& m.contains(("source_type"@, MetaModel::Text("pdf"@)))
            &&& m.contains(("document_type"@, MetaModel::Text("pdf"@)))
            &&& m.contains(("status"@, MetaModel::Text("processing"@)))
            &&& m.contains(("current_stage"@, MetaModel::Text("converting"@)))
            &&& m.contains(("stage_message"@, MetaModel::Text(converting_message(pdf.page_count))))
            &&& m.contains(("stage_progress"@, MetaModel::Float(0)))
            &&& m.contains(("pdf_id"@, MetaModel::Text(owner.pdf_id@)))
            &&& m.contains(("file_size_bytes"@, MetaModel::Count(pdf.file_size_bytes as nat)))
            &&& m.contains(("sha256_checksum"@, MetaModel::Text(pdf.sha256_checksum@)))
            &&& m.contains(("page_count"@, optional_int(pdf.page_count)))
            &&& m.contains(("tenant_id"@, MetaModel::Text(owner.tenant_id@)))
            &&& m.contains(("workspace_id"@, MetaModel::Text(owner.workspace_id@)))
            &&& m.contains(("track_id"@, MetaModel::Text(owner.track_id@)))
            &&& m.contains(("created_at"@, MetaModel::Text(created_at)))
            &&& m.contains(("updated_at"@, MetaModel::Text(updated_at)))
            &&& m.len() == 18
        }),
{
    let m = early_metadata_of(document_id, pdf, owner, created_at, updated_at);
    assert(m[0] == ("id"@, MetaModel::Text(document_id)));
    assert(m[1] == ("title"@, MetaModel::Text(pdf.filename@)));
    assert(m[2] == ("file_name"@, MetaModel::Text(pdf.filename@)));
    assert(m[3] == ("source_type"@, MetaModel::Text("pdf"@)));
    assert(m[4] == ("document_type"@, MetaModel::Text("pdf"@)));
    assert(m[5] == ("status"@, MetaModel::Text("processing"@)));
    assert(m[6] == ("current_stage"@, MetaModel::Text("converting"@)));
    assert(m[7] == ("stage_message"@, MetaModel::Text(converting_message(pdf.page_count))));
    assert(m[8] == ("stage_progress"@, MetaModel::Float(0)));
    assert(m[9] == ("pdf_id"@, MetaModel::Text(owner.pdf_id@)));
    assert(m[10] == ("file_size_bytes"@, MetaModel::Count(pdf.file_size_bytes as nat)));
    assert(m[11] == ("sha256_checksum"@, MetaModel::Text(pdf.sha256_checksum@)));
    assert(m[12] == ("page_count"@, optional_int(pdf.page_count)));
    assert(m[13] == ("tenant_id"@, MetaModel::Text(owner.tenant_id@)));
    assert(m[14] == ("workspace_id"@, MetaModel::Text(owner.workspace_id@)));
    assert(m[15] == ("track_id"@, MetaModel::Text(owner.track_id@)));
    assert(m[16] == ("created_at"@, MetaModel::Text(created_at)));
    assert(m[17] == ("updated_at"@, MetaModel::Text(updated_at)));
}

/// The text of a document is stored with its file, its owner and how it was
/// read.
pub proof fn law_insert_metadata(
    document_id: Seq<char>,
    filename: Seq<char>,
    pdf: PdfInfo,
    owner: PdfOwner,
    model: Option<Seq<char>>,
    method: Seq<char>,
    warning: Option<Seq<char>>,
    skip_extraction: bool,
)
    ensures
        ({
            let m = insert_metadata_of(
                    document_id,
                    filename,
                    pdf,
                    owner,
                    model,
                    method,
                    warning,
                    skip_extraction,
                );
            &&& m.contains(("document_id"@, MetaModel::Text(document_id)))
            &&& m.contains(("source"@, MetaModel::Text("pdf_upload"@)))
            &&& m.contains(("source_type"@, MetaModel::Text("pdf"@)))
            &&& m.contains(("document_type"@, MetaModel::Text("pdf"@)))
            &&& m.contains(("pdf_id"@, MetaModel::Text(owner.pdf_id@)))
            &&& m.contains(("filename"@, MetaModel::Text(filename)))
            &&& m.contains(("page_count"@, optional_int(pdf.page_count)))
            &&& m.contains(("file_size_bytes"@, MetaModel::Count(pdf.file_size_bytes as nat)))
            &&& m.contains(("sha256_checksum"@, MetaModel::Text(pdf.sha256_checksum@)))
            &&& m.contains(("tenant_id"@, MetaModel::Text(owner.tenant_id@)))
            &&& m.contains(("workspace_id"@, MetaModel::Text(owner.workspace_id@)))
            &&& m.contains(("pdf_vision_model"@, optional_text(model)))
            &&& m.contains(("pdf_extraction_method"@, MetaModel::Text(method)))
            &&& m.contains(("pdf_extraction_warning"@, optional_text(warning)))
            &&& m.contains(("skip_extraction"@, MetaModel::Flag(skip_extraction)))
            &&& m.len() == 15
        }),
{
    let m = insert_metadata_of(
        document_id,
        filename,
        pdf,
        owner,
        model,
        method,
        warning,
        skip_extraction,
    );
    assert(m[0] == ("document_id"@, MetaModel::Text(document_id)));
    assert(m[1] == ("source"@, MetaModel::Text("pdf_upload"@)));
    assert(m[2] == ("source_type"@, MetaModel::Text("pdf"@)));
    assert(m[3] == ("document_type"@, MetaModel::Text("pdf"@)));
    assert(m[4] == ("pdf_id"@, MetaModel::Text(owner.pdf_id@)));
    assert(m[5] == ("filename"@, MetaModel::Text(filename)));
    assert(m[6] == ("page_count"@, optional_int(pdf.page_count)));
    assert(m[7] == ("file_size_bytes"@, MetaModel::Count(pdf.file_size_bytes as nat)));
    assert(m[8] == ("sha256_checksum"@, MetaModel::Text(pdf.sha256_checksum@)));
    assert(m[9] == ("tenant_id"@, MetaModel::Text(owner.tenant_id@)));
    assert(m[10] == ("workspace_id"@, MetaModel::Text(owner.workspace_id@)));
    assert(m[11] == ("pdf_vision_model"@, optional_text(model)));
    assert(m[12] == ("pdf_extraction_method"@, MetaModel::Text(method)));
    assert(m[13] == ("pdf_extraction_warning"@, optional_text(warning)));
    assert(m[14] == ("skip_extraction"@, MetaModel::Flag(skip_extraction)));
}

/// The node of a table says what it shows, where that is found and whose it
/// is.
pub proof fn law_table_node(at: Owner, e: TableEntityModel)
    ensures
        ({
            let m = table_node_model(at, e).properties;
            &&& m.contains(("entity_type"@, MetaModel::Text("TABLE"@)))
            &&& m.contains(("description"@, MetaModel::Text(e.description)))
            &&& m.contains(("importance"@, MetaModel::Float(0x3FE0_0000_0000_0000)))
            &&& m.contains(("source_ids"@, MetaModel::Texts(seq![at.document_id@])))
            &&& m.contains(("source_chunk_ids"@, MetaModel::Texts(seq![e.chunk_id])))
            &&& m.contains(("tenant_id"@, MetaModel::Text(at.tenant_id@)))
            &&& m.contains(("workspace_id"@, MetaModel::Text(at.workspace_id@)))
            &&& m.len() == 7
        }),
{
    let m = table_node_model(at, e).properties;
    assert(m[0] == ("entity_type"@, MetaModel::Text("TABLE"@)));
    assert(m[1] == ("description"@, MetaModel::Text(e.description)));
    assert(m[2] == ("importance"@, MetaModel::Float(0x3FE0_0000_0000_0000)));
    assert(m[3] == ("source_ids"@, MetaModel::Texts(seq![at.document_id@])));
    assert(m[4] == ("source_chunk_ids"@, MetaModel::Texts(seq![e.chunk_id])));
    assert(m[5] == ("tenant_id"@, MetaModel::Text(at.tenant_id@)));
    assert(m[6] == ("workspace_id"@, MetaModel::Text(at.workspace_id@)));
}

/// The vector of a table's entity says what it is and whose it is.
pub proof fn law_table_entity_metadata(at: Owner, e: TableEntityModel)
    ensures
        ({
            let m = table_entity_metadata(at, e);
            &&& m.contains(("type"@, MetaModel::Text("entity"@)))
            &&& m.contains(("name"@, MetaModel::Text(e.name)))
            &&& m.contains(("entity_type"@, MetaModel::Text("TABLE"@)))
            &&& m.contains(("description"@, MetaModel::Text(e.description)))
            &&& m.contains(("document_id"@, MetaModel::Text(at.document_id@)))
            &&& m.contains(("tenant_id"@, MetaModel::Text(at.tenant_id@)))
            &&& m.contains(("workspace_id"@, MetaModel::Text(at.workspace_id@)))
            &&& m.len() == 7
        }),
{
    let m = table_entity_metadata(at, e);
    assert(m[0] == ("type"@, MetaModel::Text("entity"@)));
    assert(m[1] == ("name"@, MetaModel::Text(e.name)));
    assert(m[2] == ("entity_type"@, MetaModel::Text("TABLE"@)));
    assert(m[3] == ("description"@, MetaModel::Text(e.description)));
    assert(m[4] == ("document_id"@, MetaModel::Text(at.document_id@)));
    assert(m[5] == ("tenant_id"@, MetaModel::Text(at.tenant_id@)));
    assert(m[6] == ("workspace_id"@, MetaModel::Text(at.workspace_id@)));
}

/// An optional value is stored as it is, and as nothing where it is missing.
pub proof fn law_optional_values(t: Seq<char>, n: i32)
    ensures
        optional_text(Some(t)) == MetaModel::Text(t),
        optional_text(None) == MetaModel::Nothing,
        optional_int(Some(n)) == MetaModel::Int(n as int),
        optional_int(None) == MetaModel::Nothing,
{
}

/// The text of an algorithm is its name and, each on a line of its own, its
/// description, its steps in their order and its pseudocode, as far as it has
/// them.
pub proof fn law_algorithm_text(a: StoredAlgorithm, k: int)
    ensures
        ({
            let ps = algorithm_parts(a);
            let d = if a.description is Some {
                1int
            } else {
                0int
            };
            let n = a.steps@.len();
            &&& algorithm_text(a) == join(ps, "\n"@)
            &&& ps[0] == a.name@
            &&& a.description matches Some(t) ==> ps[1] == t@
            &&& 0 <= k < n ==> ps[1 + d + k] == "Step "@ + decimal(a.steps@[k].number as nat)
                + ": "@ + a.steps@[k].action@ + " "@ + a.steps@[k].details@
            &&& a.pseudocode matches Some(t) ==> ps[1 + d + n] == t@ && ps.len() == 2 + d + n
            &&& a.pseudocode is None ==> ps.len() == 1 + d + n
        }),
{
}

/// The progress of embedding goes from ten to ninety percent in even steps.
pub proof fn law_embed_progress(n: int)
    requires
        n > 0,
    ensures
        embed_percent(n - 1, n) == 90,
        embed_percent(-1, n) == 10,
        n % 2 == 0 ==> embed_percent(n / 2 - 1, n) == 50,
{
    assert(n * 80 / n == 80) by (nonlinear_arith)
        requires
            n > 0,
    ;
    assert(0int * 80 / n == 0) by (nonlinear_arith)
        requires
            n > 0,
    ;
    if n % 2 == 0 {
        assert(n / 2 * 80 / n == 40) by (nonlinear_arith)
            requires
                n > 0,
                n % 2 == 0,
        ;
    }
}

/// The places of rows: a thousand for each page, figures from a million on and
/// tables from two.
pub proof fn law_row_places(page: int, order_index: int)
    ensures
        row_index(Medium::Figure, page, order_index) == 1000000 + 1000 * page + order_index,
        row_index(Medium::Table, page, order_index) == 2000000 + 1000 * page + order_index,
{
}

/// The vectors of figures and tables are named after the document, the medium and
/// the item.
pub proof fn law_media_ids(document_id: Seq<char>, id: Seq<char>)
    ensures
        media_chunk_id(document_id, Medium::Figure, id) == document_id + "-figure-"@ + id,
        media_chunk_id(document_id, Medium::Table, id) == document_id + "-table-"@ + id,
{
}

/// What is shown of a table is its grid; where it has none, what its vector is
/// made from.
pub proof fn law_table_content(table: TableModel, embed: Seq<char>)
    ensures
        table_markdown(table) matches Some(s) ==> table_content(table, embed) == s,
        table_markdown(table) is None ==> table_content(table, embed) == embed,
{
}

/// The first error is the one before which nothing failed, and the number of
/// failures counts each of them.
pub proof fn law_first_error(results: Seq<Result<(), String>>, i: int)
    requires
        0 <= i < results.len(),
        results[i] is Err,
        forall|k: int| 0 <= k < i ==> #[trigger] results[k] is Ok,
    ensures
        results[i] matches Err(e) && first_error(results) == Some(e@),
        failures(results) >= 1,
        (forall|k: int| i < k < results.len() ==> #[trigger] results[k] is Ok) ==> failures(results)
            == 1,
        (forall|k: int| i < k < results.len() ==> #[trigger] results[k] is Err) ==> failures(results)
            == results.len() - i,
    decreases results.len(),
{
    let u = results.drop_last();
    if i == results.len() - 1 {
        lemma_no_failures(u);
    } else {
        assert(u[i] == results[i]);
        assert forall|k: int| 0 <= k < i implies #[trigger] u[k] is Ok by {
            assert(results[k] is Ok);
        }
        law_first_error(u, i);
        if forall|k: int| i < k < results.len() ==> #[trigger] results[k] is Ok {
            assert forall|k: int| i < k < u.len() implies #[trigger] u[k] is Ok by {
                assert(results[k] is Ok);
            }
            assert(results[results.len() - 1] is Ok);
        }
        if forall|k: int| i < k < results.len() ==> #[trigger] results[k] is Err {
            assert forall|k: int| i < k < u.len() implies #[trigger] u[k] is Err by {
                assert(results[k] is Err);
            }
            assert(results[results.len() - 1] is Err);
        }
    }
}

proof fn lemma_no_failures(results: Seq<Result<(), String>>)
    requires
        forall|k: int| 0 <= k < results.len() ==> #[trigger] results[k] is Ok,
    ensures
        failures(results) == 0,
        first_error(results) is None,
    decreases results.len(),
{
    if results.len() > 0 {
        let u = results.drop_last();
        assert forall|k: int| 0 <= k < u.len() implies #[trigger] u[k] is Ok by {
            assert(results[k] is Ok);
        }
        lemma_no_failures(u);
        assert(results[results.len() - 1] is Ok);
    }
}

/// A table with a grid becomes an entity that is named after its caption, shows
/// the grid and leads to the table's vector; one without becomes none.
pub proof fn law_table_entity(document_id: Seq<char>, t: TableModel)
    ensures
        table_markdown(t) is None ==> table_entity(document_id, t) is None,
        table_markdown(t) matches Some(grid) ==> (table_entity(document_id, t) matches Some(e)
            && e.description == grid && e.chunk_id == document_id + "-table-"@ + t.id && e.name
            == table_entity_name(t) && (embed_text(t) matches Some(x) ==> e.embed_text == x) && (
        embed_text(t) is None ==> e.embed_text == grid)),
        trim(t.caption).len() == 0 ==> table_entity_name(t) == "Table "@ + decimal(t.page as nat)
            + "."@ + decimal(t.order_index as nat),
        0 < trim(t.caption).len() <= 120 ==> table_entity_name(t) == trim(t.caption),
        trim(t.caption).len() > 120 ==> table_entity_name(t) == trim(t.caption).take(120),
{
}

/// Every table with a grid has its entity, and every entity comes from a table.
pub proof fn law_table_entities(document_id: Seq<char>, ts: Seq<TableModel>, e: TableEntityModel)
    ensures
        table_entities_of(document_id, ts).contains(e) <==> exists|i: int|
            0 <= i < ts.len() && table_entity(document_id, #[trigger] ts[i]) == Some(e),
    decreases ts.len(),
{
    if ts.len() > 0 {
        let u = ts.drop_last();
        let before = table_entities_of(document_id, u);
        let all = table_entities_of(document_id, ts);
        law_table_entities(document_id, u, e);
        assert(ts[ts.len() - 1] == ts.last());
        if exists|i: int|
            0 <= i < ts.len() && table_entity(document_id, #[trigger] ts[i]) == Some(e) {
            let i = choose|i: int|
                0 <= i < ts.len() && table_entity(document_id, #[trigger] ts[i]) == Some(e);
            if i < u.len() {
                assert(u[i] == ts[i]);
                let k = choose|k: int| 0 <= k < before.len() && before[k] == e;
                assert(all[k] == e);
            } else {
                assert(all[all.len() - 1] == e);
            }
        }
        if all.contains(e) {
            let k = choose|k: int| 0 <= k < all.len() && all[k] == e;
            if k < before.len() {
                assert(before[k] == e);
                let i = choose|i: int|
                    0 <= i < u.len() && table_entity(document_id, #[trigger] u[i]) == Some(e);
                assert(ts[i] == u[i]);
            }
        }
    }
}

} // verus!
