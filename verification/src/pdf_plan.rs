//! What is decided before and after a PDF is converted.

use vstd::prelude::*;

use crate::conversion::{opt_view, PdfParserBackend};
use crate::links::{strip_references_section, without_references};
use crate::metadata::{
    count_field, field_views, flag_field, float_field, int_field, optional_field, optional_int,
    optional_text, text_field, Field, MetaModel,
};
use crate::safety_limits::{
    is_local_provider, local_provider, number_setting, outer_timeout, page_seconds, size_of_setting,
    size_setting, text_setting, vision_outer_timeout_secs,
};
use crate::tables::{mark_table_placeholders, marked, table_views, ExtractedTable};
use crate::tasks::{cat, size_of_number, wrapped_size};
use crate::text::{
    byte_count, byte_len, chars_of, chars_within, count_within, decimal, has_at, parse_number,
    parsed, put_decimal, put_str, stands_at, string_of, string_of_range, strs,
};

verus! {

broadcast use vstd::string::group_string_axioms;

// ---------------------------------------------------------------------------
// Text
// ---------------------------------------------------------------------------

/// A text without its NUL characters.
pub open spec fn without_nul(t: Seq<char>) -> Seq<char>
    decreases t.len(),
{
    if t.len() == 0 {
        Seq::empty()
    } else if t.last() == '\0' {
        without_nul(t.drop_last())
    } else {
        without_nul(t.drop_last()).push(t.last())
    }
}

/// A text without its NUL characters, which the database does not take.
pub fn strip_nul_bytes(text: String) -> (r: String)
    ensures
        r@ == without_nul(text@),
{
    let v = chars_of(text.as_str());
    let mut out: Vec<char> = Vec::new();
    let mut i: usize = 0;
    assert(v@.take(0) =~= Seq::<char>::empty());
    while i < v.len()
        invariant
            i <= v@.len(),
            out@ == without_nul(v@.take(i as int)),
        decreases v.len() - i,
    {
        assert(v@.take(i + 1).drop_last() =~= v@.take(i as int));
        if v[i] != '\0' {
            out.push(v[i]);
        }
        i = i + 1;
    }
    assert(v@.take(i as int) =~= v@);
    string_of(&out)
}

/// No NUL is left, and a text that held none stays as it is.
pub proof fn law_no_nul_left(t: Seq<char>)
    ensures
        forall|k: int| 0 <= k < without_nul(t).len() ==> #[trigger] without_nul(t)[k] != '\0',
        (forall|k: int| 0 <= k < t.len() ==> #[trigger] t[k] != '\0') ==> without_nul(t) == t,
    decreases t.len(),
{
    if t.len() > 0 {
        law_no_nul_left(t.drop_last());
        let before = without_nul(t.drop_last());
        let r = without_nul(t);
        assert forall|k: int| 0 <= k < r.len() implies #[trigger] r[k] != '\0' by {
            if k < before.len() {
                assert(r[k] == before[k]);
            }
        }
        if t.last() != '\0' && without_nul(t.drop_last()) == t.drop_last() {
            assert(without_nul(t) =~= t);
        }
        if forall|k: int| 0 <= k < t.len() ==> #[trigger] t[k] != '\0' {
            assert(t[t.len() - 1] != '\0');
            assert forall|k: int| 0 <= k < t.drop_last().len() implies #[trigger] t.drop_last()[k]
                != '\0' by {
                assert(t.drop_last()[k] == t[k]);
            }
        }
    } else {
        assert(without_nul(t) =~= t);
    }
}

/// How many bytes of a document its record holds.
pub const RECORD_LIMIT: usize = 65_536;

/// What the record of a document holds of its text.
pub open spec fn record_content(markdown: Seq<char>) -> Seq<char> {
    markdown.take(chars_within(markdown, RECORD_LIMIT as nat) as int)
}

/// What the record of a document holds of its text: as much as fits, cut between
/// two characters.
pub fn content_for_record(markdown: &str) -> (r: String)
    ensures
        r@ == record_content(markdown@),
        byte_count(r@) <= RECORD_LIMIT,
        byte_count(markdown@) <= RECORD_LIMIT ==> r@ == markdown@,
{
    let v = chars_of(markdown);
    let n = count_within(&v, RECORD_LIMIT);
    assert(v@.subrange(0, n as int) =~= v@.take(n as int));
    assert(v@.take(v@.len() as int) =~= v@);
    string_of_range(&v, 0, n)
}

/// What the chunker gets to see of a document: not its references, and pointers
/// in place of its tables.
pub open spec fn chunker_text(markdown: Seq<char>, tables: Seq<ExtractedTable>) -> Seq<char> {
    if tables.len() == 0 {
        without_references(markdown)
    } else {
        marked(without_references(markdown), table_views(tables))
    }
}

/// What the chunker gets to see of a document.
pub fn chunker_input(markdown: &str, tables: &Vec<ExtractedTable>) -> (r: String)
    ensures
        r@ == chunker_text(markdown@, tables@),
{
    let stripped = strip_references_section(markdown);
    if tables.len() == 0 {
        stripped
    } else {
        mark_table_placeholders(stripped.as_str(), tables)
    }
}

// ---------------------------------------------------------------------------
// Keys
// ---------------------------------------------------------------------------

/// `p` begins `t`.
pub open spec fn begins_with(t: Seq<char>, p: Seq<char>) -> bool {
    stands_at(t, 0, p)
}

/// The keys of the chunks of a document.
pub open spec fn chunk_keys_in(keys: Seq<Seq<char>>, document_id: Seq<char>) -> Seq<Seq<char>>
    decreases keys.len(),
{
    if keys.len() == 0 {
        Seq::empty()
    } else {
        let before = chunk_keys_in(keys.drop_last(), document_id);
        if begins_with(keys.last(), document_id + "-chunk-"@) {
            before.push(keys.last())
        } else {
            before
        }
    }
}

/// The keys of the chunks of a document.
pub fn chunk_keys(keys: &Vec<String>, document_id: &str) -> (r: Vec<String>)
    ensures
        strs(r@) == chunk_keys_in(strs(keys@), document_id@),
{
    let prefix = chars_of(cat(document_id, "-chunk-").as_str());
    let ghost all = strs(keys@);
    let mut r: Vec<String> = Vec::new();
    let mut i: usize = 0;
    assert(all.take(0) =~= Seq::<Seq<char>>::empty());
    assert(strs(r@) =~= Seq::<Seq<char>>::empty());
    while i < keys.len()
        invariant
            i <= keys@.len(),
            all == strs(keys@),
            prefix@ == document_id@ + "-chunk-"@,
            strs(r@) == chunk_keys_in(all.take(i as int), document_id@),
        decreases keys.len() - i,
    {
        assert(all.take(i + 1).drop_last() =~= all.take(i as int));
        assert(all.take(i + 1).last() == keys@[i as int]@);
        if has_at(&chars_of(keys[i].as_str()), 0, &prefix) {
            let ghost before = strs(r@);
            r.push(keys[i].clone());
            assert(strs(r@) =~= before.push(keys@[i as int]@));
        }
        i = i + 1;
    }
    assert(all.take(i as int) =~= all);
    r
}

// ---------------------------------------------------------------------------
// How to convert
// ---------------------------------------------------------------------------

/// The settings of a conversion, as the environment gives them.
#[derive(Clone, Debug)]
pub struct ConversionSettings {
    pub concurrency: Option<String>,
    pub dpi: Option<String>,
    pub checkpoint_dir: Option<String>,
    /// The directory for checkpoints where none is set.
    pub default_checkpoint_dir: String,
    pub vision_timeout_secs: Option<String>,
    pub vision_secs_per_page: Option<String>,
    pub compatible_base_url: Option<String>,
    /// The vision model where none is chosen.
    pub default_vision_model: String,
}

/// What a conversion is asked for.
#[derive(Clone, Debug)]
pub struct ConversionRequest {
    pub backend: PdfParserBackend,
    pub enable_vision: bool,
    pub vision_provider: String,
    pub vision_model: Option<String>,
    pub is_reprocess: bool,
    pub settings: ConversionSettings,
}

/// How a conversion is done.
#[derive(Clone, Debug)]
pub struct ConversionPlan {
    /// The model that reads the pages, if one does.
    pub model: Option<String>,
    pub concurrency: usize,
    pub dpi: u32,
    pub checkpoint_dir: String,
    pub no_resume: bool,
    pub vlm_base_url: Option<String>,
    pub vlm_model: Option<String>,
    pub page_count_hint: Option<usize>,
    /// Whether figures, tables and algorithm blocks are captured.
    pub captures: bool,
    /// How long the conversion may take, if that is limited.
    pub timeout_secs: Option<u64>,
}

/// How many pages a document has, as far as that is known.
pub open spec fn pages_known(page_count: Option<i32>) -> int {
    match page_count {
        Some(n) => wrapped_size(n),
        None => 0,
    }
}

fn known_pages(page_count: Option<i32>) -> (r: usize)
    ensures
        r == pages_known(page_count),
{
    match page_count {
        Some(n) => size_of_number(n),
        None => 0,
    }
}

/// How many pages to convert at a time where nothing is set: few on a machine of
/// one's own, and fewer the longer the document is elsewhere.
pub open spec fn default_concurrency(provider: Seq<char>, pages: int) -> int {
    if local_provider(provider) {
        2
    } else if pages <= 49 {
        10
    } else if pages <= 199 {
        8
    } else if pages <= 499 {
        5
    } else {
        3
    }
}

/// How many pages to convert at a time.
pub fn conversion_concurrency(setting: Option<&str>, provider: &str, pages: usize) -> (r: usize)
    ensures
        r == size_setting(text_setting(setting), default_concurrency(provider@, pages as int)),
{
    let default: usize = if is_local_provider(provider) {
        2
    } else if pages <= 49 {
        10
    } else if pages <= 199 {
        8
    } else if pages <= 499 {
        5
    } else {
        3
    };
    size_of_setting(setting, default)
}

/// A longer document is not converted with more pages at a time.
pub proof fn law_concurrency_falls(provider: Seq<char>, fewer: int, more: int)
    requires
        fewer <= more,
    ensures
        default_concurrency(provider, more) <= default_concurrency(provider, fewer),
        2 <= default_concurrency(provider, more),
        local_provider(provider) ==> default_concurrency(provider, more) == 2,
{
}

/// The resolution where nothing is set: lower the longer the document is.
pub open spec fn default_dpi(pages: int) -> int {
    if pages <= 499 {
        150
    } else if pages <= 999 {
        120
    } else {
        100
    }
}

/// The resolution that a setting holds, or the default.
pub open spec fn dpi_for(setting: Option<Seq<char>>, pages: int) -> int {
    match setting {
        Some(s) => match parsed(s) {
            Some(n) => if n <= u32::MAX {
                n as int
            } else {
                default_dpi(pages)
            },
            None => default_dpi(pages),
        },
        None => default_dpi(pages),
    }
}

/// The resolution of the pages.
pub fn conversion_dpi(setting: Option<&str>, pages: usize) -> (r: u32)
    ensures
        r == dpi_for(text_setting(setting), pages as int),
{
    let default: u32 = if pages <= 499 {
        150
    } else if pages <= 999 {
        120
    } else {
        100
    };
    match setting {
        Some(s) => match parse_number(s) {
            Some(n) => if n <= u32::MAX as u64 {
                n as u32
            } else {
                default
            },
            None => default,
        },
        None => default,
    }
}

/// How long a conversion with a vision model may take: what is set, unless that
/// is nothing, else by provider and pages.
pub open spec fn vision_timeout(request: ConversionRequest, pages: int) -> int {
    let set = number_setting(opt_view(request.settings.vision_timeout_secs), 0);
    if set > 0 {
        set
    } else {
        outer_timeout(
            page_seconds(
                request.vision_provider@,
                opt_view(request.settings.vision_secs_per_page),
            ),
            pages,
        )
    }
}

fn as_setting(s: &Option<String>) -> (r: Option<&str>)
    ensures
        text_setting(r) == opt_view(*s),
{
    match s {
        Some(x) => Some(x.as_str()),
        None => None,
    }
}

fn vision_timeout_of(request: &ConversionRequest, pages: usize) -> (r: u64)
    ensures
        r == vision_timeout(*request, pages as int),
{
    let set = match &request.settings.vision_timeout_secs {
        Some(s) => match parse_number(s.as_str()) {
            Some(n) => n,
            None => 0,
        },
        None => 0,
    };
    if set > 0 {
        set
    } else {
        vision_outer_timeout_secs(
            request.vision_provider.as_str(),
            pages,
            as_setting(&request.settings.vision_secs_per_page),
        )
    }
}

/// A model that was chosen: one with a name.
pub open spec fn chosen(model: Option<String>) -> Option<Seq<char>> {
    match model {
        Some(m) => if m@.len() > 0 {
            Some(m@)
        } else {
            None
        },
        None => None,
    }
}

fn chosen_of(model: &Option<String>) -> (r: Option<String>)
    ensures
        opt_view(r) == chosen(*model),
{
    match model {
        Some(m) => if chars_of(m.as_str()).len() > 0 {
            Some(m.clone())
        } else {
            None
        },
        None => None,
    }
}

/// The vision model that reads the pages: only that backend has one.
pub open spec fn vision_model(request: ConversionRequest) -> Option<Seq<char>> {
    if request.backend == PdfParserBackend::Vision {
        match chosen(request.vision_model) {
            Some(m) => Some(m),
            None => Some(request.settings.default_vision_model@),
        }
    } else {
        None
    }
}

/// The vision model that reads the pages.
pub fn vision_model_of(request: &ConversionRequest) -> (r: Option<String>)
    ensures
        opt_view(r) == vision_model(*request),
{
    if request.backend == PdfParserBackend::Vision {
        match chosen_of(&request.vision_model) {
            Some(m) => Some(m),
            None => Some(request.settings.default_vision_model.clone()),
        }
    } else {
        None
    }
}

/// The plan suits the request and the document.
pub open spec fn is_plan(
    plan: ConversionPlan,
    request: ConversionRequest,
    page_count: Option<i32>,
) -> bool {
    let pages = pages_known(page_count);
    let recognises = request.backend == PdfParserBackend::VlmOcr;
    &&& opt_view(plan.model) == vision_model(request)
    &&& plan.concurrency == size_setting(
        opt_view(request.settings.concurrency),
        default_concurrency(request.vision_provider@, pages),
    )
    &&& plan.dpi == dpi_for(opt_view(request.settings.dpi), pages)
    &&& plan.checkpoint_dir@ == (match request.settings.checkpoint_dir {
        Some(d) => d@,
        None => request.settings.default_checkpoint_dir@,
    })
    &&& plan.no_resume == request.is_reprocess
    &&& opt_view(plan.vlm_base_url) == (if recognises {
        opt_view(request.settings.compatible_base_url)
    } else {
        None
    })
    &&& opt_view(plan.vlm_model) == (if recognises {
        chosen(request.vision_model)
    } else {
        None
    })
    &&& match page_count {
        Some(n) => plan.page_count_hint matches Some(h) && h == wrapped_size(n),
        None => plan.page_count_hint is None,
    }
    &&& plan.captures == recognises
    &&& match plan.timeout_secs {
        Some(t) => request.backend == PdfParserBackend::Vision && t == vision_timeout(
            request,
            pages,
        ),
        None => request.backend != PdfParserBackend::Vision,
    }
}

/// How to convert a document.
pub fn conversion_plan(request: &ConversionRequest, page_count: Option<i32>) -> (r: ConversionPlan)
    ensures
        is_plan(r, *request, page_count),
{
    let pages = known_pages(page_count);
    let recognises = request.backend == PdfParserBackend::VlmOcr;
    ConversionPlan {
        model: vision_model_of(request),
        concurrency: conversion_concurrency(
            as_setting(&request.settings.concurrency),
            request.vision_provider.as_str(),
            pages,
        ),
        dpi: conversion_dpi(as_setting(&request.settings.dpi), pages),
        checkpoint_dir: match &request.settings.checkpoint_dir {
            Some(d) => d.clone(),
            None => request.settings.default_checkpoint_dir.clone(),
        },
        no_resume: request.is_reprocess,
        vlm_base_url: if recognises {
            match &request.settings.compatible_base_url {
                Some(u) => Some(u.clone()),
                None => None,
            }
        } else {
            None
        },
        vlm_model: if recognises {
            chosen_of(&request.vision_model)
        } else {
            None
        },
        page_count_hint: match page_count {
            Some(n) => Some(size_of_number(n)),
            None => None,
        },
        captures: recognises,
        timeout_secs: if request.backend == PdfParserBackend::Vision {
            Some(vision_timeout_of(request, pages))
        } else {
            None
        },
    }
}

// ---------------------------------------------------------------------------
// What came of it
// ---------------------------------------------------------------------------

/// How many bytes a page has on average, where that is suspiciously little.
pub open spec fn low_content(
    backend: PdfParserBackend,
    markdown: Seq<char>,
    page_count: Option<i32>,
) -> Option<int> {
    let pages = pages_known(page_count);
    let average = byte_count(markdown) as int / (if pages > 1 {
        pages
    } else {
        1
    });
    if backend != PdfParserBackend::Vision && average < 50 {
        Some(average)
    } else {
        None
    }
}

/// How many bytes a page has on average, where a document that no vision model
/// read has suspiciously little text.
pub fn low_content_warning(
    backend: PdfParserBackend,
    markdown: &str,
    page_count: Option<i32>,
) -> (r: Option<usize>)
    ensures
        match r {
            Some(n) => low_content(backend, markdown@, page_count) == Some(n as int),
            None => low_content(backend, markdown@, page_count) is None,
        },
{
    if backend == PdfParserBackend::Vision {
        return None;
    }
    let pages = known_pages(page_count);
    let by: usize = if pages > 1 {
        pages
    } else {
        1
    };
    let average = byte_len(markdown) / by;
    if average < 50 {
        Some(average)
    } else {
        None
    }
}

/// What is said of a document with suspiciously little text.
pub open spec fn low_content_text() -> Seq<char> {
    "Low text content detected. This PDF may be image-only. Consider using Vision extraction."@
}

/// What is said of a document with suspiciously little text.
pub fn low_content_message(average: Option<usize>) -> (r: Option<String>)
    ensures
        opt_view(r) == (if average is Some {
            Some(low_content_text())
        } else {
            None
        }),
{
    match average {
        Some(_) => Some(
            "Low text content detected. This PDF may be image-only. Consider using Vision extraction.".to_owned(),
        ),
        None => None,
    }
}

/// The final status of a document: one whose text is complete but whose
/// enrichment failed is a partial failure.
pub open spec fn final_status(text_status: Seq<char>, enrichment_failed: bool) -> Seq<char> {
    if enrichment_failed && text_status == "completed"@ {
        "partial_failure"@
    } else {
        text_status
    }
}

/// The final status of a document.
pub fn final_status_of(text_status: &str, enrichment_failed: bool) -> (r: String)
    ensures
        r@ == final_status(text_status@, enrichment_failed),
{
    if enrichment_failed && crate::text::same_str(text_status, "completed") {
        "partial_failure".to_owned()
    } else {
        text_status.to_owned()
    }
}

/// A document is complete exactly if its text is and nothing in its enrichment
/// failed, and a failure of its text is never passed over.
pub proof fn law_final_status(text_status: Seq<char>, enrichment_failed: bool)
    ensures
        final_status(text_status, enrichment_failed) == "completed"@ <==> text_status
            == "completed"@ && !enrichment_failed,
        text_status != "completed"@ ==> final_status(text_status, enrichment_failed)
            == text_status,
{
    reveal_strlit("completed");
    reveal_strlit("partial_failure");
    assert("completed"@.len() != "partial_failure"@.len());
}

// ---------------------------------------------------------------------------
// Metadata
// ---------------------------------------------------------------------------

/// A stored PDF.
#[derive(Clone, Debug)]
pub struct PdfInfo {
    pub filename: String,
    pub page_count: Option<i32>,
    pub file_size_bytes: u64,
    pub sha256_checksum: String,
}

/// Whom a PDF belongs to.
#[derive(Clone, Debug)]
pub struct PdfOwner {
    pub pdf_id: String,
    pub tenant_id: String,
    pub workspace_id: String,
    pub track_id: String,
}

/// What is said while a PDF is being converted.
pub open spec fn converting_message(page_count: Option<i32>) -> Seq<char> {
    match page_count {
        Some(n) => if n > 0 {
            "Converting PDF to Markdown (0/"@ + decimal(n as nat) + " pages)"@
        } else {
            "Converting PDF to Markdown (detecting pages...)"@
        },
        None => "Converting PDF to Markdown (detecting pages...)"@,
    }
}

fn converting_message_of(page_count: Option<i32>) -> (r: String)
    ensures
        r@ == converting_message(page_count),
{
    if let Some(n) = page_count {
        if n > 0 {
            let mut out = chars_of("Converting PDF to Markdown (0/");
            put_decimal(n as u64, &mut out);
            put_str(" pages)", &mut out);
            return string_of(&out);
        }
    }
    "Converting PDF to Markdown (detecting pages...)".to_owned()
}

/// The metadata that a document has from the start.
pub open spec fn early_metadata_of(
    document_id: Seq<char>,
    pdf: PdfInfo,
    owner: PdfOwner,
    created_at: Seq<char>,
    updated_at: Seq<char>,
) -> Seq<(Seq<char>, MetaModel)> {
    seq![
        ("id"@, MetaModel::Text(document_id)),
        ("title"@, MetaModel::Text(pdf.filename@)),
        ("file_name"@, MetaModel::Text(pdf.filename@)),
        ("source_type"@, MetaModel::Text("pdf"@)),
        ("document_type"@, MetaModel::Text("pdf"@)),
        ("status"@, MetaModel::Text("processing"@)),
        ("current_stage"@, MetaModel::Text("converting"@)),
        ("stage_message"@, MetaModel::Text(converting_message(pdf.page_count))),
        ("stage_progress"@, MetaModel::Float(0)),
        ("pdf_id"@, MetaModel::Text(owner.pdf_id@)),
        ("file_size_bytes"@, MetaModel::Count(pdf.file_size_bytes as nat)),
        ("sha256_checksum"@, MetaModel::Text(pdf.sha256_checksum@)),
        ("page_count"@, optional_int(pdf.page_count)),
        ("tenant_id"@, MetaModel::Text(owner.tenant_id@)),
        ("workspace_id"@, MetaModel::Text(owner.workspace_id@)),
        ("track_id"@, MetaModel::Text(owner.track_id@)),
        ("created_at"@, MetaModel::Text(created_at)),
        ("updated_at"@, MetaModel::Text(updated_at)),
    ]
}

/// The metadata that a document has from the start, so that it is seen while it
/// is being converted.
pub fn early_metadata(
    document_id: &str,
    pdf: &PdfInfo,
    owner: &PdfOwner,
    created_at: &str,
    updated_at: &str,
) -> (r: Vec<Field>)
    ensures
        field_views(r@) == early_metadata_of(document_id@, *pdf, *owner, created_at@, updated_at@),
{
    let message = converting_message_of(pdf.page_count);
    let r = vec![
        text_field("id", document_id),
        text_field("title", pdf.filename.as_str()),
        text_field("file_name", pdf.filename.as_str()),
        text_field("source_type", "pdf"),
        text_field("document_type", "pdf"),
        text_field("status", "processing"),
        text_field("current_stage", "converting"),
        text_field("stage_message", message.as_str()),
        float_field("stage_progress", 0),
        text_field("pdf_id", owner.pdf_id.as_str()),
        count_field("file_size_bytes", pdf.file_size_bytes),
        text_field("sha256_checksum", pdf.sha256_checksum.as_str()),
        int_field("page_count", pdf.page_count),
        text_field("tenant_id", owner.tenant_id.as_str()),
        text_field("workspace_id", owner.workspace_id.as_str()),
        text_field("track_id", owner.track_id.as_str()),
        text_field("created_at", created_at),
        text_field("updated_at", updated_at),
    ];
    assert(field_views(r@) =~= early_metadata_of(
        document_id@,
        *pdf,
        *owner,
        created_at@,
        updated_at@,
    ));
    r
}

/// The metadata that goes with the text of a document.
pub open spec fn insert_metadata_of(
    document_id: Seq<char>,
    filename: Seq<char>,
    pdf: PdfInfo,
    owner: PdfOwner,
    model: Option<Seq<char>>,
    method: Seq<char>,
    warning: Option<Seq<char>>,
    skip_extraction: bool,
) -> Seq<(Seq<char>, MetaModel)> {
    seq![
        ("document_id"@, MetaModel::Text(document_id)),
        ("source"@, MetaModel::Text("pdf_upload"@)),
        ("source_type"@, MetaModel::Text("pdf"@)),
        ("document_type"@, MetaModel::Text("pdf"@)),
        ("pdf_id"@, MetaModel::Text(owner.pdf_id@)),
        ("filename"@, MetaModel::Text(filename)),
        ("page_count"@, optional_int(pdf.page_count)),
        ("file_size_bytes"@, MetaModel::Count(pdf.file_size_bytes as nat)),
        ("sha256_checksum"@, MetaModel::Text(pdf.sha256_checksum@)),
        ("tenant_id"@, MetaModel::Text(owner.tenant_id@)),
        ("workspace_id"@, MetaModel::Text(owner.workspace_id@)),
        ("pdf_vision_model"@, optional_text(model)),
        ("pdf_extraction_method"@, MetaModel::Text(method)),
        ("pdf_extraction_warning"@, optional_text(warning)),
        ("skip_extraction"@, MetaModel::Flag(skip_extraction)),
    ]
}

/// The metadata that goes with the text of a document.
pub fn insert_metadata(
    document_id: &str,
    filename: &str,
    pdf: &PdfInfo,
    owner: &PdfOwner,
    model: &Option<String>,
    method: &str,
    warning: &Option<String>,
    skip_extraction: bool,
) -> (r: Vec<Field>)
    ensures
        field_views(r@) == insert_metadata_of(
            document_id@,
            filename@,
            *pdf,
            *owner,
            opt_view(*model),
            method@,
            opt_view(*warning),
            skip_extraction,
        ),
{
    let r = vec![
        text_field("document_id", document_id),
        text_field("source", "pdf_upload"),
        text_field("source_type", "pdf"),
        text_field("document_type", "pdf"),
        text_field("pdf_id", owner.pdf_id.as_str()),
        text_field("filename", filename),
        int_field("page_count", pdf.page_count),
        count_field("file_size_bytes", pdf.file_size_bytes),
        text_field("sha256_checksum", pdf.sha256_checksum.as_str()),
        text_field("tenant_id", owner.tenant_id.as_str()),
        text_field("workspace_id", owner.workspace_id.as_str()),
        optional_field("pdf_vision_model", model),
        text_field("pdf_extraction_method", method),
        optional_field("pdf_extraction_warning", warning),
        flag_field("skip_extraction", skip_extraction),
    ];
    assert(field_views(r@) =~= insert_metadata_of(
        document_id@,
        filename@,
        *pdf,
        *owner,
        opt_view(*model),
        method@,
        opt_view(*warning),
        skip_extraction,
    ));
    r
}

} // verus!
