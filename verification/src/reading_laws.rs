//! What holds of the reading of a document: which stages it goes through, what
//! is done in each, and how its pages are converted and ordered.

use vstd::prelude::*;

use crate::conversion::{
    block_views, index_keys, opt_view, page_keys, AlgorithmBlock, PageResult, PdfParserBackend,
};
use crate::naming::deserved_name;
use crate::order::{in_order, precedes};
use crate::pdf_plan::{
    chosen, chunker_text, is_plan, record_content, vision_model, vision_timeout, without_nul,
    ConversionPlan, ConversionRequest,
};
use crate::pdf_processing::{
    passes, pdf_rank, progress_between, status_between, timeout_failure, timeout_notice, with_mark,
    ConversionOutcome, PdfEvent, PdfFacts, PdfJob, PdfRun, PdfStage, PdfTodo,
};
use crate::repos::{rank_keys, RepoModel};
use crate::safety_limits::{outer_timeout, page_seconds};
use crate::text::{decimal, law_decimal_read_back};

verus! {

// ---------------------------------------------------------------------------
// Stages
// ---------------------------------------------------------------------------

/// There is something to do in a stage: nothing is removed of a new document,
/// nothing is recorded of one without a record, and what is not in the document
/// or not wanted is not looked at.
pub open spec fn has_work(stage: PdfStage, f: PdfFacts) -> bool {
    match stage {
        PdfStage::SavingId => !f.reprocesses,
        PdfStage::EarlyRecord | PdfStage::Recording | PdfStage::Linking => f.has_record,
        PdfStage::DroppingContent | PdfStage::ListingKeys | PdfStage::PurgingVectors
        | PdfStage::PurgingGraph => f.reprocesses,
        PdfStage::DroppingChunks => f.reprocesses && f.old_chunks,
        PdfStage::PurgingRows => f.reprocesses && f.has_record,
        PdfStage::MakingProvider => f.vision,
        PdfStage::EarlyFigures | PdfStage::Figures | PdfStage::FigureVectors => f.figures,
        PdfStage::EarlyTables | PdfStage::Tables | PdfStage::TableVectors => f.tables,
        PdfStage::Algorithms => f.blocks && !f.skip,
        PdfStage::ReloadingPdf | PdfStage::Repos => !f.skip,
        PdfStage::FigureEntities => f.figures && !f.skip,
        PdfStage::TableEntities => f.tables && !f.skip,
        PdfStage::Classifying => f.tables && !f.skip && f.has_record,
        PdfStage::FlaggingSkipped => f.skip,
        _ => true,
    }
}

/// The stages that depend on what happens, not on the document: what is done
/// when the time is up, and what is done for a new name.
pub open spec fn is_occasional(stage: PdfStage) -> bool {
    stage == PdfStage::ReportingTimeout || stage == PdfStage::UpdatingFilename || stage
        == PdfStage::SyncingTitle
}

/// No stage with something to do is passed over: what lies between a stage and
/// the next one has no work.
pub proof fn law_no_stage_passed_over(
    run: PdfRun,
    job: PdfJob,
    event: PdfEvent,
    next: PdfRun,
    stage: PdfStage,
)
    requires
        run.wf(job),
        run.expects(job, event),
        run.follows(job, event, next),
        pdf_rank(run.stage) < pdf_rank(stage) < pdf_rank(next.stage),
        next.stage != PdfStage::Failed,
        next.stage != PdfStage::Cancelled,
        !is_occasional(stage),
    ensures
        !has_work(stage, next.facts(job)),
{
}

/// No stage is entered without something to do.
pub proof fn law_no_idle_stage(run: PdfRun, job: PdfJob, event: PdfEvent, next: PdfRun)
    requires
        run.wf(job),
        run.expects(job, event),
        run.follows(job, event, next),
        has_work(run.stage, next.facts(job)),
    ensures
        has_work(next.stage, next.facts(job)),
{
}

/// The name is only looked after where the first page gives another one: it is
/// then stored, and what refers to it follows where that succeeded.
pub proof fn law_new_names(run: PdfRun, job: PdfJob, event: PdfEvent, next: PdfRun)
    requires
        run.wf(job),
        run.expects(job, event),
        run.follows(job, event, next),
    ensures
        event matches PdfEvent::FrontMatterRead { front } ==> match deserved_name(
            front,
            opt_view(job.source_url),
        ) {
            Some(n) => if n == run.pdf.filename@ {
                next.stage != PdfStage::UpdatingFilename
            } else {
                next.stage == PdfStage::UpdatingFilename && next.new_name@ == n
            },
            None => next.stage != PdfStage::UpdatingFilename,
        },
        run.stage == PdfStage::UpdatingFilename && event == (PdfEvent::Done { error: None })
            ==> next.stage == PdfStage::SyncingTitle && next.pdf.filename@ == run.new_name@,
        run.stage == PdfStage::UpdatingFilename && (event matches PdfEvent::Done {
            error: Some(_),
        }) ==> next.stage != PdfStage::SyncingTitle && next.pdf == run.pdf,
        next.stage == PdfStage::UpdatingFilename ==> event is FrontMatterRead,
        next.stage == PdfStage::SyncingTitle ==> run.stage == PdfStage::UpdatingFilename,
{
}

/// What a conversion brings: its text without NUL, and figures, tables and
/// algorithm blocks only where the pages are recognised as images.
pub proof fn law_conversion_kept(
    run: PdfRun,
    job: PdfJob,
    event: PdfEvent,
    next: PdfRun,
)
    requires
        run.follows(job, event, next),
    ensures
        event matches PdfEvent::Converted {
            outcome: ConversionOutcome::Done { markdown, figures, tables, blocks },
        } ==> {
            &&& next.markdown@ == without_nul(markdown@)
            &&& next.stage == PdfStage::StoringMarkdown || run.stage != PdfStage::Converting
            &&& job.request.backend == PdfParserBackend::VlmOcr ==> next.figures == figures
                && next.tables == tables && next.blocks == blocks
            &&& job.request.backend != PdfParserBackend::VlmOcr ==> next.figures@.len() == 0
                && next.tables@.len() == 0 && next.blocks == 0
        },
        !(event is Converted) ==> next.markdown == run.markdown && next.figures == run.figures
            && next.tables == run.tables && next.blocks == run.blocks,
        next.document_id@ == run.document_id@,
        event matches PdfEvent::Inserted { result: Ok(Some(s)) } ==> next.text_status@ == s@,
        event matches PdfEvent::Inserted { result: Ok(None) } ==> next.text_status@
            == "completed"@,
{
}

/// What is done with a document: its record and its content have the document's
/// keys, its text goes to the chunker and is recorded as far as it fits, and a
/// failed enrichment makes a completed document a partial one.
pub proof fn law_work_of_stages(run: PdfRun, job: PdfJob, todo: PdfTodo)
    requires
        run.orders(job, todo),
    ensures
        run.stage == PdfStage::WritingMetadata ==> (todo matches PdfTodo::WriteMetadata { key }
            && key@ == run.document_id@ + "-metadata"@),
        run.stage == PdfStage::DroppingContent ==> (todo matches PdfTodo::DeleteContent { key }
            && key@ == run.document_id@ + "-content"@),
        run.stage == PdfStage::EarlyRecord ==> (todo matches PdfTodo::EnsureRecord {
            title,
            content,
            status,
        } && title@ == run.pdf.filename@ && content@.len() == 0 && status@ == "processing"@),
        run.stage == PdfStage::Recording ==> (todo matches PdfTodo::EnsureRecord {
            title,
            content,
            status,
        } && title@ == run.pdf.filename@ && content@ == record_content(run.markdown@) && status@
            == "indexed"@),
        run.stage == PdfStage::Inserting ==> (todo matches PdfTodo::InsertText { text, metadata }
            && text@ == chunker_text(run.markdown@, run.tables@)),
        run.stage == PdfStage::UpdatingFilename ==> (todo matches PdfTodo::UpdateFilename { name }
            && name@ == run.new_name@),
        run.stage == PdfStage::SyncingTitle ==> (todo matches PdfTodo::SyncTitle { name } && name@
            == run.pdf.filename@),
        run.stage == PdfStage::MakingProvider ==> (todo matches PdfTodo::MakeProvider {
            provider,
            model,
        } && provider@ == job.request.vision_provider@ && vision_model(job.request) == Some(
            model@,
        )),
        run.stage == PdfStage::Closing && !run.enrichment_failed ==> (
        todo matches PdfTodo::SetFinalStatus { status } && status@ == run.text_status@),
        run.stage == PdfStage::Closing && run.enrichment_failed && run.text_status@
            == "completed"@ ==> (todo matches PdfTodo::SetFinalStatus { status } && status@
            == "partial_failure"@),
        run.stage == PdfStage::Figures || run.stage == PdfStage::EarlyFigures
            ==> todo is BackfillFigures,
        run.stage == PdfStage::Tables || run.stage == PdfStage::EarlyTables
            ==> todo is BackfillTables,
{
}

/// What is said where the time is up names the seconds, the document and the
/// provider.
pub proof fn law_timeout_texts(seconds: nat, pdf_id: Seq<char>, provider: Seq<char>)
    ensures
        timeout_notice(seconds, provider) == "Vision extraction timed out after "@ + decimal(
            seconds,
        ) + "s. Check that the LLM provider ("@ + provider + ") is reachable."@,
        timeout_failure(seconds, pdf_id, provider) == "Vision extraction timed out after "@
            + decimal(seconds) + "s for PDF "@ + pdf_id + ". Provider '"@ + provider
            + "' may be unresponsive."@,
{
}

/// A mark is in the list where it was added, and what was there stays.
proof fn lemma_mark_added(
    list: Seq<(Seq<char>, u32, u8)>,
    holds: bool,
    stage: Seq<char>,
    step: u32,
    percent: u8,
)
    ensures
        forall|m: (Seq<char>, u32, u8)| #[trigger]
            with_mark(list, holds, stage, step, percent).contains(m) <==> list.contains(m) || (
            holds && m == (stage, step, percent)),
{
    let after = with_mark(list, holds, stage, step, percent);
    assert forall|m: (Seq<char>, u32, u8)| #[trigger] after.contains(m) <==> list.contains(m) || (
    holds && m == (stage, step, percent)) by {
        if holds {
            if list.contains(m) {
                let k = list.index_of(m);
                assert(after[k] == m);
            }
            assert(after[list.len() as int] == (stage, step, percent));
            if after.contains(m) {
                let k = after.index_of(m);
                if k < list.len() {
                    assert(list[k] == m);
                }
            }
        }
    }
}

/// A step reports the mark of every part of the work that it begins, and of no
/// other.
pub proof fn law_marks_of_steps(from: PdfStage, to: PdfStage)
    requires
        pdf_rank(from) < pdf_rank(to),
        to != PdfStage::Failed,
        to != PdfStage::Cancelled,
    ensures
        progress_between(from, to).contains(("pdf_loading"@, 1u32, 5u8)) <==> pdf_rank(from)
            < pdf_rank(PdfStage::SavingId) <= pdf_rank(to),
        progress_between(from, to).contains(("pdf_converting"@, 2u32, 10u8)) <==> pdf_rank(from)
            < pdf_rank(PdfStage::GateConvert) <= pdf_rank(to),
        progress_between(from, to).contains(("storing_markdown"@, 3u32, 45u8)) <==> pdf_rank(from)
            < pdf_rank(PdfStage::StoringMarkdown) <= pdf_rank(to),
        progress_between(from, to).contains(("entity_extraction"@, 5u32, 60u8)) <==> pdf_rank(from)
            < pdf_rank(PdfStage::GateInsert) <= pdf_rank(to),
        progress_between(from, to).contains(("algo_extracting"@, 5u32, 70u8)) <==> to
            == PdfStage::Algorithms,
        progress_between(from, to).contains(("media_enrichment"@, 6u32, 75u8)) <==> pdf_rank(from)
            < pdf_rank(PdfStage::Figures) <= pdf_rank(to),
        progress_between(from, to).contains(("classifying_tables"@, 6u32, 90u8)) <==> to
            == PdfStage::Classifying,
        progress_between(from, to).contains(("linking"@, 5u32, 95u8)) <==> pdf_rank(from)
            < pdf_rank(PdfStage::Recording) <= pdf_rank(to),
        progress_between(from, to).contains(("completed"@, 7u32, 100u8)) <==> pdf_rank(from)
            < pdf_rank(PdfStage::Cleaning) <= pdf_rank(to),
        to == PdfStage::Algorithms ==> status_between(from, to) == Some("algo_extracting"@),
        to == PdfStage::Classifying ==> status_between(from, to) == Some("classifying_tables"@),
        to == PdfStage::Figures && pdf_rank(from) < pdf_rank(PdfStage::Figures)
            ==> status_between(from, to) == Some("media_enrichment"@),
{
    let l0 = Seq::<(Seq<char>, u32, u8)>::empty();
    assert(l0.len() == 0);
    let l1 = with_mark(l0, passes(from, to, 2), "pdf_loading"@, 1, 5);
    lemma_mark_added(l0, passes(from, to, 2), "pdf_loading"@, 1, 5);
    let l2 = with_mark(l1, passes(from, to, 11), "pdf_converting"@, 2, 10);
    lemma_mark_added(l1, passes(from, to, 11), "pdf_converting"@, 2, 10);
    let l3 = with_mark(l2, passes(from, to, 15), "storing_markdown"@, 3, 45);
    lemma_mark_added(l2, passes(from, to, 15), "storing_markdown"@, 3, 45);
    let l4 = with_mark(l3, passes(from, to, 21), "entity_extraction"@, 5, 60);
    lemma_mark_added(l3, passes(from, to, 21), "entity_extraction"@, 5, 60);
    let l5 = with_mark(l4, to == PdfStage::Algorithms, "algo_extracting"@, 5, 70);
    lemma_mark_added(l4, to == PdfStage::Algorithms, "algo_extracting"@, 5, 70);
    let l6 = with_mark(l5, passes(from, to, 27), "media_enrichment"@, 6, 75);
    lemma_mark_added(l5, passes(from, to, 27), "media_enrichment"@, 6, 75);
    let l7 = with_mark(l6, to == PdfStage::Classifying, "classifying_tables"@, 6, 90);
    lemma_mark_added(l6, to == PdfStage::Classifying, "classifying_tables"@, 6, 90);
    let l8 = with_mark(l7, passes(from, to, 34), "linking"@, 5, 95);
    lemma_mark_added(l7, passes(from, to, 34), "linking"@, 5, 95);
    let l9 = with_mark(l8, passes(from, to, 38), "completed"@, 7, 100);
    lemma_mark_added(l8, passes(from, to, 38), "completed"@, 7, 100);
}

// ---------------------------------------------------------------------------
// Plans
// ---------------------------------------------------------------------------

/// A plan follows the request: the pages are read by a vision model only where
/// one is asked for, which then has a limited time; they are recognised as images
/// only where that is asked for, and only then is anything captured; and a
/// document that is read again does not resume.
pub proof fn law_plan_follows_request(
    plan: ConversionPlan,
    request: ConversionRequest,
    page_count: Option<i32>,
)
    requires
        is_plan(plan, request, page_count),
    ensures
        plan.model is Some <==> request.backend == PdfParserBackend::Vision,
        plan.timeout_secs is Some <==> request.backend == PdfParserBackend::Vision,
        plan.captures <==> request.backend == PdfParserBackend::VlmOcr,
        request.backend != PdfParserBackend::VlmOcr ==> plan.vlm_base_url is None
            && plan.vlm_model is None,
        request.backend == PdfParserBackend::VlmOcr ==> opt_view(plan.vlm_base_url) == opt_view(
            request.settings.compatible_base_url,
        ) && opt_view(plan.vlm_model) == chosen(request.vision_model),
        plan.no_resume <==> request.is_reprocess,
        request.settings.checkpoint_dir matches Some(d) ==> plan.checkpoint_dir@ == d@,
        request.settings.checkpoint_dir is None ==> plan.checkpoint_dir@
            == request.settings.default_checkpoint_dir@,
        page_count is None ==> plan.page_count_hint is None,
        page_count matches Some(n) ==> (n >= 0 ==> plan.page_count_hint == Some(n as usize)),
{
}

/// The model that reads the pages is the one that was chosen, or the default
/// where none with a name was.
pub proof fn law_model_chosen(request: ConversionRequest)
    requires
        request.backend == PdfParserBackend::Vision,
    ensures
        request.vision_model matches Some(m) ==> (m@.len() > 0 ==> vision_model(request) == Some(
            m@,
        )),
        request.vision_model matches Some(m) ==> (m@.len() == 0 ==> vision_model(request) == Some(
            request.settings.default_vision_model@,
        )),
        request.vision_model is None ==> vision_model(request) == Some(
            request.settings.default_vision_model@,
        ),
{
}

// ---------------------------------------------------------------------------
// Orders
// ---------------------------------------------------------------------------

/// An order lists every place exactly once: what is put in order loses nothing
/// and gains nothing.
pub proof fn law_order_loses_nothing(keys: Seq<(u64, i64)>, order: Seq<usize>, i: int) -> (a: int)
    requires
        in_order(keys, order),
        0 <= i < keys.len(),
    ensures
        0 <= a < order.len(),
        order[a] == i,
        forall|b: int| 0 <= b < order.len() && b != a ==> #[trigger] order[b] != i,
{
    let n = keys.len();
    let places = order.map_values(|u: usize| u as int);
    let all = Set::<int>::new(|k: int| 0 <= k < n);
    lemma_range(n);
    assert(places.no_duplicates()) by {
        assert forall|x: int, y: int|
            0 <= x < places.len() && 0 <= y < places.len() && x != y implies places[x]
            != places[y] by {
            if x < y {
                assert(precedes(keys, order[x] as int, order[y] as int));
            } else {
                assert(precedes(keys, order[y] as int, order[x] as int));
            }
        }
    }
    places.unique_seq_to_set();
    assert(places.to_set().subset_of(all)) by {
        assert forall|k: int| places.to_set().contains(k) implies all.contains(k) by {
            let x = choose|x: int| 0 <= x < places.len() && places[x] == k;
            assert(order[x] < keys.len());
        }
    }
    vstd::set_lib::lemma_subset_equality(places.to_set(), all);
    assert(places.to_set().contains(i));
    let a = choose|a: int| 0 <= a < places.len() && places[a] == i;
    assert forall|b: int| 0 <= b < order.len() && b != a implies #[trigger] order[b] != i by {
        assert(places[a] != places[b]);
    }
    a
}

proof fn lemma_range(n: nat)
    ensures
        Set::<int>::new(|k: int| 0 <= k < n).finite(),
        Set::<int>::new(|k: int| 0 <= k < n).len() == n,
{
    assert(Set::<int>::new(|k: int| 0 <= k < n) =~= vstd::set_lib::set_int_range(0, n as int));
    vstd::set_lib::lemma_int_range(0, n as int);
}

/// Pages come in the order of their numbers, whatever order they arrive in; of
/// two with one number the earlier comes first.
pub proof fn law_pages_by_number(
    pages: Seq<PageResult>,
    order: Seq<usize>,
    a: int,
    b: int,
)
    requires
        in_order(index_keys(pages), order),
        0 <= a < b < order.len(),
    ensures
        pages[order[a] as int].index <= pages[order[b] as int].index,
        pages[order[a] as int].index == pages[order[b] as int].index ==> order[a] < order[b],
{
    let keys = index_keys(pages);
    let i = order[a] as int;
    let j = order[b] as int;
    assert(precedes(keys, i, j));
    assert(keys[i].0 == pages[i].index as u64 && keys[j].0 == pages[j].index as u64);
    assert(keys[i].1 == 0 && keys[j].1 == 0);
}

/// Blocks come in the order of their pages; those of one page stay in their
/// order.
pub proof fn law_blocks_by_page(
    blocks: Seq<AlgorithmBlock>,
    order: Seq<usize>,
    a: int,
    b: int,
)
    requires
        in_order(page_keys(block_views(blocks)), order),
        0 <= a < b < order.len(),
    ensures
        blocks[order[a] as int].page <= blocks[order[b] as int].page,
        blocks[order[a] as int].page == blocks[order[b] as int].page ==> order[a] < order[b],
{
    let keys = page_keys(block_views(blocks));
    let i = order[a] as int;
    let j = order[b] as int;
    assert(precedes(keys, i, j));
    assert(keys[i].0 == blocks[i].page as u64 && keys[j].0 == blocks[j].page as u64);
    assert(keys[i].1 == 0 && keys[j].1 == 0);
}

/// Repositories come in reading order.
pub proof fn law_repositories_in_reading_order(
    list: Seq<RepoModel>,
    order: Seq<usize>,
    a: int,
    b: int,
)
    requires
        in_order(rank_keys(list), order),
        0 <= a < b < order.len(),
    ensures
        list[order[a] as int].page_index <= list[order[b] as int].page_index,
        list[order[a] as int].page_index == list[order[b] as int].page_index
            ==> list[order[a] as int].y_top >= list[order[b] as int].y_top,
{
    let keys = rank_keys(list);
    let i = order[a] as int;
    let j = order[b] as int;
    assert(precedes(keys, i, j));
    assert(keys[i] == (list[i].page_index as u64, (-1 - list[i].y_top) as i64));
    assert(keys[j] == (list[j].page_index as u64, (-1 - list[j].y_top) as i64));
}

/// How long a conversion by a vision model may take: the seconds that are set,
/// unless that is nothing or no number; else what suits the provider and the
/// pages.
pub proof fn law_vision_time(request: ConversionRequest, pages: int, n: nat)
    requires
        0 < n <= u64::MAX,
    ensures
        request.settings.vision_timeout_secs matches Some(s) ==> (s@ == decimal(n)
            ==> vision_timeout(request, pages) == n),
        request.settings.vision_timeout_secs matches Some(s) ==> (s@ == decimal(0)
            ==> vision_timeout(request, pages) == outer_timeout(
            page_seconds(
                request.vision_provider@,
                opt_view(request.settings.vision_secs_per_page),
            ),
            pages,
        )),
        request.settings.vision_timeout_secs is None ==> vision_timeout(request, pages)
            == outer_timeout(
            page_seconds(
                request.vision_provider@,
                opt_view(request.settings.vision_secs_per_page),
            ),
            pages,
        ),
{
    law_decimal_read_back(n);
    law_decimal_read_back(0);
}

} // verus!
