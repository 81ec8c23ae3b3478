//! Laws of the long-running tasks: what stops them, and what they pass on.

use vstd::prelude::*;

use crate::algorithm_extraction::{
    found_in, is_model_for, layout_candidate, pairs_of, partner, Flagged, PassKind,
};
use crate::backfill::{next_wanted, EmbedEvent, EmbedPhase, EmbedRun};
use crate::chunk::{chunk_id, figure_seed, md5_hex};
use crate::code_reference::{
    artifact_of, asks, closing_status, row_of, AnalyzerReply, AnalyzerRequest, AnalyzerSettings,
    ApprovedAlgorithm, CodeRefEvent, CodeRefJob, CodeRefRun, CodeRefStage, Finding, MatchConfidence,
    RepoRow, RunStatus,
};
use crate::conversion::{opt_view, PdfParserBackend};
use crate::figures::ExtractedFigure;
use crate::graph::{Extraction, Owner, ReadEvent, ReadPhase, ReadRun};
use crate::latex_repair::repaired;
use crate::page_runs::{
    files_missing, model_dir, model_files, pages_at_a_time, without_alpha, ConvertRun,
    PageConverter,
};
use crate::pdf_processing::{ConversionOutcome, PdfEvent, PdfJob, PdfRun, PdfStage};
use crate::reference_codebase::{
    approved_places, counts, indexed, ArtifactRow, CodebaseIndexMode, IndexEvent, IndexJob,
    IndexRun, IndexStage,
};
use crate::repo_detection::{
    keeps, layer_count, DetectEvent, DetectRun, DetectStage, DetectionLayer, RepoCandidate,
    VerificationVerdict,
};
use crate::tasks::{
    embedding_address, hyphenated, known_address, scoped, with_v1, wrapped_size, Hosts, ModelChoice,
    ProviderConfig, WorkspaceModels,
};
use crate::text::{decimal, ends_with, law_decimal_read_back, lowered, trim, without_trailing};

verus! {

broadcast use vstd::string::group_string_axioms;

// ---------------------------------------------------------------------------
// Indexing a codebase
// ---------------------------------------------------------------------------

/// The pieces of code that count: those of the repository that are approved, all
/// of them, by their places in order.
pub proof fn law_approved_places(rows: Seq<ArtifactRow>, repo: u128, k: int)
    requires
        rows.len() <= usize::MAX,
        0 <= k < rows.len(),
    ensures
        approved_places(rows, repo).contains(k as usize) <==> rows[k].document_repo_id == repo
            && rows[k].status@ == "approved"@,
        forall|i: int|
            0 <= i < approved_places(rows, repo).len() ==> #[trigger] approved_places(rows, repo)[i]
                < rows.len(),
        forall|i: int, j: int|
            0 <= i < j < approved_places(rows, repo).len() ==> #[trigger] approved_places(
                rows,
                repo,
            )[i] < #[trigger] approved_places(rows, repo)[j],
    decreases rows.len(),
{
    let u = rows.drop_last();
    let n = rows.len() - 1;
    let before = approved_places(u, repo);
    let all = approved_places(rows, repo);
    if u.len() > 0 {
        law_approved_places(u, repo, if k < n { k } else { 0 });
    }
    if k < n {
        assert(u[k] == rows[k]);
        if before.contains(k as usize) {
            let i = choose|i: int| 0 <= i < before.len() && before[i] == k as usize;
            assert(all[i] == k as usize);
        }
        if all.contains(k as usize) {
            let i = choose|i: int| 0 <= i < all.len() && all[i] == k as usize;
            if i < before.len() {
                assert(before[i] == k as usize);
            }
        }
    } else {
        if counts(rows.last(), repo) {
            assert(all[all.len() - 1] == k as usize);
        } else if all.contains(k as usize) {
            let i = choose|i: int| 0 <= i < all.len() && all[i] == k as usize;
            assert(before[i] < u.len());
        }
    }
}

/// Only an approved repository is indexed: the task goes on if and only if the
/// repository is among those of the document and its first row says so.
pub proof fn law_only_approved_repositories(
    run: IndexRun,
    job: IndexJob,
    v: Vec<RepoRow>,
    k: int,
)
    requires
        0 <= k < v@.len(),
        v@[k].id == job.repo_id,
        forall|i: int| 0 <= i < k ==> (#[trigger] v@[i]).id != job.repo_id,
    ensures
        v@[k].status@ == "approved"@ ==> run.stage_after(
            job,
            (IndexEvent::ReposLoaded { rows: Ok(v) }),
        ) == IndexStage::LoadingArtifacts,
        v@[k].status@ != "approved"@ ==> run.stage_after(
            job,
            (IndexEvent::ReposLoaded { rows: Ok(v) }),
        ) == IndexStage::Failed,
{
    lemma_row_of(v@, job.repo_id, 0, k);
}

proof fn lemma_row_of(rows: Seq<RepoRow>, id: u128, i: int, k: int)
    requires
        0 <= i <= k < rows.len(),
        rows[k].id == id,
        forall|j: int| i <= j < k ==> (#[trigger] rows[j]).id != id,
    ensures
        row_of(rows, id, i) == Some(k),
    decreases k - i,
{
    if i < k {
        assert(rows[i].id != id);
        lemma_row_of(rows, id, i + 1, k);
    }
}

proof fn lemma_no_row(rows: Seq<RepoRow>, id: u128, i: int)
    requires
        0 <= i,
        forall|j: int| i <= j < rows.len() ==> (#[trigger] rows[j]).id != id,
    ensures
        row_of(rows, id, i) is None,
    decreases rows.len() - i,
{
    if i < rows.len() {
        assert(rows[i].id != id);
        lemma_no_row(rows, id, i + 1);
    }
}

/// A repository that is not among those of the document ends both tasks that work
/// on one.
pub proof fn law_unknown_repository(
    run: IndexRun,
    job: IndexJob,
    other: CodeRefRun,
    order: CodeRefJob,
    v: Vec<RepoRow>,
)
    requires
        forall|i: int| 0 <= i < v@.len() ==> (#[trigger] v@[i]).id != job.repo_id,
        order.repo_id == job.repo_id,
    ensures
        run.stage_after(job, (IndexEvent::ReposLoaded { rows: Ok(v) })) == IndexStage::Failed,
        other.stage_after(order, (CodeRefEvent::ReposLoaded { rows: Ok(v) }))
            == CodeRefStage::Failed,
{
    lemma_no_row(v@, job.repo_id, 0);
}

/// An index that is focused on algorithms needs approved code of the repository;
/// a full one does not.
pub proof fn law_focus_needs_code(run: IndexRun, job: IndexJob, v: Vec<ArtifactRow>)
    requires
        v@.len() <= usize::MAX,
    ensures
        job.mode == CodebaseIndexMode::Full ==> run.stage_after(
            job,
            (IndexEvent::ArtifactsLoaded { rows: Ok(v) }),
        ) == IndexStage::EnteringSnapshot,
        job.mode == CodebaseIndexMode::AlgorithmFocused && (exists|k: int|
            0 <= k < v@.len() && (#[trigger] v@[k]).document_repo_id == job.repo_id
                && v@[k].status@ == "approved"@) ==> run.stage_after(
            job,
            (IndexEvent::ArtifactsLoaded { rows: Ok(v) }),
        ) == IndexStage::EnteringSnapshot,
        job.mode == CodebaseIndexMode::AlgorithmFocused && !(exists|k: int|
            0 <= k < v@.len() && (#[trigger] v@[k]).document_repo_id == job.repo_id
                && v@[k].status@ == "approved"@) ==> run.stage_after(
            job,
            (IndexEvent::ArtifactsLoaded { rows: Ok(v) }),
        ) == IndexStage::Failed,
{
    let places = approved_places(v@, job.repo_id);
    if exists|k: int|
        0 <= k < v@.len() && (#[trigger] v@[k]).document_repo_id == job.repo_id && v@[k].status@
            == "approved"@ {
        let k = choose|k: int|
            0 <= k < v@.len() && (#[trigger] v@[k]).document_repo_id == job.repo_id && v@[k].status@
                == "approved"@;
        law_approved_places(v@, job.repo_id, k);
        assert(places.len() > 0);
    } else if places.len() > 0 {
        law_approved_places(v@, job.repo_id, 0);
        let k = places[0] as int;
        law_approved_places(v@, job.repo_id, k);
        assert(places.contains(places[0]));
        assert(v@[k].document_repo_id == job.repo_id);
    }
}

/// Every error ends the indexing of a codebase: at once, or once it was recorded.
pub proof fn law_index_errors_end(run: IndexRun, job: IndexJob, e: String, event: IndexEvent)
    requires
        event matches IndexEvent::Connected { error: Some(_) } || event
            matches IndexEvent::ReposLoaded { rows: Err(_) } || event
            matches IndexEvent::ArtifactsLoaded { rows: Err(_) } || event
            matches IndexEvent::SnapshotTaken { path: Err(_) } || event
            matches IndexEvent::PathSeen { is_dir: false, .. } || event
            matches IndexEvent::IndexStarted { error: Some(_) } || event
            matches IndexEvent::Persisted { error: Some(_) } || event
            matches IndexEvent::Embedded { error: Some(_) } || event
            matches IndexEvent::Inserted { error: Some(_) } || event
            matches IndexEvent::Completed { error: Some(_) } || event is FailureRecorded,
    ensures
        run.stage_after(job, event) == IndexStage::Failed,
{
}

/// The chunks of a codebase are embedded and inserted one by one; only when the
/// last one was inserted is the index complete.
pub proof fn law_index_chunks(run: IndexRun, job: IndexJob)
    requires
        job.settings.embedding_url is Some,
    ensures
        run.stage_after(job, (IndexEvent::Embedded { error: None })) == IndexStage::Inserting,
        run.chunk + 1 < run.chunks ==> run.stage_after(
            job,
            (IndexEvent::Inserted { error: None }),
        ) == IndexStage::EnteringChunk,
        run.chunk + 1 >= run.chunks ==> run.stage_after(
            job,
            (IndexEvent::Inserted { error: None }),
        ) == IndexStage::Completing,
        run.chunks > 0 ==> run.stage_after(job, (IndexEvent::Persisted { error: None }))
            == IndexStage::EnteringChunk,
        run.chunks == 0 ==> run.stage_after(job, (IndexEvent::Persisted { error: None }))
            == IndexStage::Completing,
        run.stage_after(job, (IndexEvent::Completed { error: None })) == IndexStage::Finished,
        run.stage_after(job, (IndexEvent::Gate { cancelled: true })) == IndexStage::Cancelled,
{
}

/// The files that were indexed are those that were not skipped.
pub proof fn law_indexed_files(skipped: Seq<bool>, more: bool)
    ensures
        indexed(skipped.push(more)) == indexed(skipped) + (if more {
            0int
        } else {
            1int
        }),
        indexed(Seq::<bool>::empty()) == 0,
{
    assert(skipped.push(more).drop_last() =~= skipped);
}

// ---------------------------------------------------------------------------
// Referring to code
// ---------------------------------------------------------------------------

/// A piece of code keeps the place that was found: the file, the first and the
/// last line, the reason, and how sure the analyzer is, or medium where it does
/// not say.
pub proof fn law_finding_kept(
    repo: u128,
    reply: AnalyzerReply,
    f: Finding,
    algorithm: u128,
    language: Seq<char>,
    snippet: Seq<char>,
)
    ensures
        ({
            let a = artifact_of(repo, reply, f, algorithm, language, snippet);
            &&& a.algorithm_id == algorithm
            &&& a.document_repo_id == repo
            &&& a.repo_commit == reply.repo_commit@
            &&& a.repo_license == opt_view(reply.repo_license)
            &&& a.language == language
            &&& a.snippet == snippet
            &&& a.file_path == f.file@
            &&& a.start_line == f.start_line
            &&& a.end_line == f.end_line
            &&& a.match_rationale == f.rationale@
            &&& f.confidence matches Some(c) ==> a.match_confidence == c
            &&& f.confidence is None ==> a.match_confidence == MatchConfidence::Medium
        }),
{
}

/// The analyzer is asked about the given repository and about each algorithm by
/// its id, name and text, within 500 megabytes and ten minutes where nothing else
/// is set.
pub proof fn law_analyzer_asked(
    r: AnalyzerRequest,
    url: Seq<char>,
    algorithms: Seq<ApprovedAlgorithm>,
    settings: AnalyzerSettings,
    i: int,
)
    requires
        asks(r, url, algorithms, settings),
    ensures
        r.repo_url@ == url,
        r.repo_commit@ == "HEAD"@,
        r.algorithms@.len() == algorithms.len(),
        0 <= i < algorithms.len() ==> r.algorithms@[i].id@ == hyphenated(algorithms[i].id)
            && r.algorithms@[i].name@ == algorithms[i].name@ && opt_view(
            r.algorithms@[i].pseudocode,
        ) == opt_view(algorithms[i].pseudocode),
        0 <= i < algorithms.len() ==> (algorithms[i].description matches Some(d)
            ==> r.algorithms@[i].description@ == d@) && (algorithms[i].description is None
            ==> r.algorithms@[i].description@.len() == 0),
        settings.max_repo_mb is None ==> r.size_cap_mb == 500,
        settings.timeout_s is None ==> r.timeout_s == 600,
        opt_view(r.model) == opt_view(settings.model),
{
    if 0 <= i < algorithms.len() {
        assert(crate::code_reference::tells_of(r.algorithms@[i], algorithms[i]));
    }
}

/// A run without findings is complete; one with findings awaits review.
pub proof fn law_closing_status(n: nat)
    ensures
        n == 0 ==> closing_status(n) == RunStatus::Complete,
        n > 0 ==> closing_status(n) == RunStatus::AwaitingReview,
{
}

/// Referring to code: without algorithms there is nothing to analyze, an analyzer
/// that fails ends the task once that was recorded, and every other error ends it
/// at once.
pub proof fn law_code_reference_course(
    run: CodeRefRun,
    job: CodeRefJob,
    none: Vec<ApprovedAlgorithm>,
    event: CodeRefEvent,
)
    requires
        none@.len() == 0,
    ensures
        run.stage_after(job, (CodeRefEvent::AlgorithmsLoaded { algorithms: Ok(none) }))
            == CodeRefStage::ClosingEmpty,
        event matches CodeRefEvent::AlgorithmsLoaded { algorithms: Ok(v) } ==> (v@.len() > 0
            ==> run.stage_after(job, event) == CodeRefStage::Analyzing),
        event matches CodeRefEvent::Analyzed { reply: Err(_) } ==> run.stage_after(job, event)
            == CodeRefStage::RecordingFailure,
        event matches CodeRefEvent::Analyzed { reply: Ok(r) } ==> (r.findings@.len() == 0
            ==> run.stage_after(job, event) == CodeRefStage::Persisting),
        event is FailureRecorded ==> run.stage_after(job, event) == CodeRefStage::Failed,
        event matches CodeRefEvent::StoresOpened { fault: Some(_) } ==> run.stage_after(job, event)
            == CodeRefStage::Failed,
        event matches CodeRefEvent::ReposLoaded { rows: Err(_) } ==> run.stage_after(job, event)
            == CodeRefStage::Failed,
        event matches CodeRefEvent::AlgorithmsLoaded { algorithms: Err(_) } ==> run.stage_after(
            job,
            event,
        ) == CodeRefStage::Failed,
        event matches CodeRefEvent::Persisted { fault: Some(_) } ==> run.stage_after(job, event)
            == CodeRefStage::Failed,
        event matches CodeRefEvent::Closed { fault: Some(_) } ==> run.stage_after(job, event)
            == CodeRefStage::Failed,
        event matches CodeRefEvent::Persisted { fault: None } ==> run.stage_after(job, event)
            == CodeRefStage::Closing,
        event matches CodeRefEvent::Closed { fault: None } ==> run.stage_after(job, event)
            == CodeRefStage::Finished,
        event matches CodeRefEvent::Gate { cancelled: true } ==> run.stage_after(job, event)
            == CodeRefStage::Cancelled,
{
}

// ---------------------------------------------------------------------------
// Detecting repositories
// ---------------------------------------------------------------------------

/// A candidate is dropped exactly if it is known to be a third party's or
/// unrelated and such candidates are not accepted. One that could not be judged
/// stays.
pub proof fn law_candidates_kept(c: RepoCandidate)
    ensures
        keeps(c, true),
        c.verdict == Some(VerificationVerdict::ThirdParty) ==> !keeps(c, false),
        c.verdict == Some(VerificationVerdict::Unrelated) ==> !keeps(c, false),
        c.verdict == Some(VerificationVerdict::Official) ==> keeps(c, false),
        c.verdict == Some(VerificationVerdict::Inconclusive) ==> keeps(c, false),
        c.verdict is None ==> keeps(c, false),
{
}

/// The candidates of a layer are counted one by one.
pub proof fn law_layer_count(
    all: Seq<RepoCandidate>,
    kept: Seq<usize>,
    k: usize,
    layer: DetectionLayer,
)
    ensures
        layer_count(all, kept.push(k), layer) == layer_count(all, kept, layer) + (if all[k as int].layer
            == layer {
            1int
        } else {
            0int
        }),
        layer_count(all, Seq::<usize>::empty(), layer) == 0,
{
    assert(kept.push(k).drop_last() =~= kept);
}

/// Detecting repositories: what could not be loaded or opened ends the task, what
/// could not be detected or stored is recorded first, and a cancelled task stops.
pub proof fn law_detection_course(run: DetectRun, pdf_id: Option<Seq<char>>, event: DetectEvent)
    ensures
        event matches DetectEvent::Gate { cancelled: true } ==> run.stage_after(pdf_id, event)
            == DetectStage::Cancelled,
        event matches DetectEvent::StorageOpened { error: Some(_) } ==> run.stage_after(
            pdf_id,
            event,
        ) == DetectStage::Failed,
        event matches DetectEvent::StorageOpened { error: None } ==> run.stage_after(pdf_id, event)
            == DetectStage::MarkingRunning,
        event matches DetectEvent::Detected { candidates: Err(_), .. } ==> run.stage_after(
            pdf_id,
            event,
        ) == DetectStage::RecordingFailure,
        event matches DetectEvent::Detected { candidates: Ok(_), .. } ==> run.stage_after(
            pdf_id,
            event,
        ) == DetectStage::Persisting,
        event matches DetectEvent::Persisted { error: Some(_) } ==> run.stage_after(pdf_id, event)
            == DetectStage::RecordingFailure,
        event matches DetectEvent::Persisted { error: None } ==> run.stage_after(pdf_id, event)
            == DetectStage::MarkingComplete,
        event is FailureRecorded ==> run.stage_after(pdf_id, event) == DetectStage::Failed,
        event is CompleteMarked ==> run.stage_after(pdf_id, event) == DetectStage::Finished,
{
}

// ---------------------------------------------------------------------------
// Reading a document
// ---------------------------------------------------------------------------

/// Reading a document: a cancelled one stops, and one that is missing, cannot be
/// loaded, cannot be converted or cannot be stored fails.
pub proof fn law_reading_stops(run: PdfRun, job: PdfJob, event: PdfEvent, next: PdfRun)
    requires
        run.follows(job, event, next),
    ensures
        event matches PdfEvent::Gate { cancelled: true } ==> next.stage == PdfStage::Cancelled,
        event matches PdfEvent::Loaded { pdf: Err(_) } ==> next.stage == PdfStage::Failed,
        event matches PdfEvent::Loaded { pdf: Ok(None) } ==> next.stage == PdfStage::Failed,
        event matches PdfEvent::Converted { outcome: ConversionOutcome::Failed { .. } }
            ==> next.stage == PdfStage::Failed,
        event matches PdfEvent::Converted { outcome: ConversionOutcome::TimedOut } ==> next.stage
            == PdfStage::ReportingTimeout,
        event matches PdfEvent::Inserted { result: Err(_) } ==> next.stage == PdfStage::Failed,
        event matches PdfEvent::Done { error: Some(_) } && (run.stage
            == PdfStage::MarkingProcessing || run.stage == PdfStage::WritingMetadata || run.stage
            == PdfStage::StoringMarkdown || run.stage == PdfStage::EarlyRecord || run.stage
            == PdfStage::MakingProvider) ==> next.stage == PdfStage::Failed,
        event is Done && run.stage == PdfStage::ReportingTimeout ==> next.stage
            == PdfStage::Failed,
        event matches PdfEvent::Gate { cancelled: false } && run.stage == PdfStage::GateConvert
            && job.request.backend == PdfParserBackend::Vision && !job.request.enable_vision
            ==> next.stage == PdfStage::Failed,
{
}

/// An enrichment that fails does not stop the reading of a document, but is
/// remembered, and stays so.
pub proof fn law_enrichment_remembered(run: PdfRun, job: PdfJob, event: PdfEvent, next: PdfRun)
    requires
        run.follows(job, event, next),
    ensures
        run.enrichment_failed ==> next.enrichment_failed,
        event matches PdfEvent::Done { error: Some(_) } && (run.stage == PdfStage::Repos
            || run.stage == PdfStage::Figures || run.stage == PdfStage::Tables)
            ==> next.enrichment_failed && next.stage != PdfStage::Failed,
        event matches PdfEvent::AlgorithmsExtracted { failures: None } ==> next.enrichment_failed,
        event matches PdfEvent::AlgorithmsExtracted { failures: Some(n) } ==> (n > 0
            ==> next.enrichment_failed) && (n == 0 ==> next.enrichment_failed
            == run.enrichment_failed),
        event matches PdfEvent::Done { error: None } ==> next.enrichment_failed
            == run.enrichment_failed,
{
}

// ---------------------------------------------------------------------------
// Algorithms
// ---------------------------------------------------------------------------

/// Each pass uses the model that the workspace names for it. Without one it uses
/// the workspace's own where the server insists on those, else the server's.
pub proof fn law_models_of_passes(
    choice: ModelChoice,
    w: WorkspaceModels,
    strict: bool,
)
    ensures
        w.algorithm_analysis_llm_provider matches Some(p) ==> (w.algorithm_analysis_llm_model
            matches Some(m) ==> (is_model_for(choice, PassKind::Analysis, w, strict)
            <==> choice.names(p@, m@))),
        w.algorithm_extraction_llm_provider matches Some(p) ==> (w.algorithm_extraction_llm_model
            matches Some(m) ==> (is_model_for(choice, PassKind::Extraction, w, strict)
            <==> choice.names(p@, m@))),
        w.algorithm_analysis_llm_provider is None || w.algorithm_analysis_llm_model is None ==> (
        is_model_for(choice, PassKind::Analysis, w, true) <==> choice.names(
            w.llm_provider@,
            w.llm_model@,
        )) && (is_model_for(choice, PassKind::Analysis, w, false) <==> choice is ServerDefault),
        w.algorithm_extraction_llm_provider is None || w.algorithm_extraction_llm_model is None
            ==> (is_model_for(choice, PassKind::Extraction, w, true) <==> choice.names(
            w.llm_provider@,
            w.llm_model@,
        )) && (is_model_for(choice, PassKind::Extraction, w, false) <==> choice is ServerDefault),
{
}

/// Blocks that the layout shows are numbered from one, named after their page and
/// scanned alone.
pub proof fn law_layout_blocks(i: int, page: usize, chunks: int)
    requires
        i >= 0,
    ensures
        layout_candidate(i, page).id == "A"@ + decimal((i + 1) as nat),
        layout_candidate(i, page).name == "Algorithm block (page "@ + decimal(page as nat) + ")"@,
        layout_candidate(i, page).location == "Page "@ + decimal(page as nat),
        partner(i, chunks, true) is None,
{
}

/// A text of one chunk is one pair, one of more chunks has a pair for every two
/// neighbours, and the last chunk has no partner.
pub proof fn law_pairs(chunks: nat)
    ensures
        pairs_of(0) == 0,
        pairs_of(1) == 1,
        chunks > 1 ==> pairs_of(chunks) == chunks - 1,
        chunks > 0 ==> partner(chunks - 1, chunks as int, false) is None,
{
}

/// The algorithms that were found add up over the pairs.
pub proof fn law_found_adds_up(list: Seq<Flagged>, f: Flagged)
    ensures
        found_in(list.push(f)) == found_in(list) + f.found,
        found_in(Seq::<Flagged>::empty()) == 0,
{
    assert(list.push(f).drop_last() =~= list);
}

// ---------------------------------------------------------------------------
// Addresses and ids
// ---------------------------------------------------------------------------

/// The address of a service ends in its version, with or without slashes and with
/// or without the version before.
pub proof fn law_versioned_address(base: Seq<char>)
    requires
        base.len() > 0,
        base.last() != '/',
        !ends_with(base, "/v1"@),
    ensures
        with_v1(base) == base + "/v1"@,
        with_v1(base + "/"@) == base + "/v1"@,
        with_v1(base + "/v1"@) == base + "/v1"@,
        with_v1(base + "/v1/"@) == base + "/v1"@,
{
    reveal_strlit("/");
    reveal_strlit("/v1");
    reveal_strlit("/v1/");
    reveal_with_fuel(without_trailing, 2);
    let v = base + "/v1"@;
    assert((base + "/"@).drop_last() =~= base);
    assert((base + "/v1/"@).drop_last() =~= v);
    assert(v.last() == '1');
    assert(v.subrange(v.len() - 3, v.len() as int) =~= "/v1"@);
}

/// The address of a provider: the configured one as it stands, else the one of
/// the environment with its version, else the well-known one.
pub proof fn law_addresses_in_turn(config: ProviderConfig, provider: Seq<char>, hosts: Hosts)
    ensures
        config.base_url matches Some(u) ==> embedding_address(config, provider, hosts) == Some(u@),
        config.base_url is None ==> (config.base_url_env matches Some(u) ==> embedding_address(
            config,
            provider,
            hosts,
        ) == Some(with_v1(u@))),
        config.base_url is None && config.base_url_env is None ==> embedding_address(
            config,
            provider,
            hosts,
        ) == known_address(provider, hosts),
{
}

/// The well-known addresses, whatever the case of the provider's name.
pub proof fn law_known_addresses(provider: Seq<char>, hosts: Hosts)
    ensures
        lowered(provider) == "lmstudio"@ || lowered(provider) == "lm-studio"@ || lowered(provider)
            == "lm_studio"@ ==> (hosts.lmstudio matches Some(u) ==> known_address(provider, hosts)
            == Some(with_v1(u@))) && (hosts.lmstudio is None ==> known_address(provider, hosts)
            is None),
        lowered(provider) == "ollama"@ ==> (hosts.ollama matches Some(u) ==> known_address(
            provider,
            hosts,
        ) == Some(with_v1(u@))) && (hosts.ollama is None ==> known_address(provider, hosts)
            is None),
        lowered(provider) == "openai"@ ==> known_address(provider, hosts) == Some(
            "https://api.openai.com/v1"@,
        ),
{
    reveal_strlit("lmstudio");
    reveal_strlit("lm-studio");
    reveal_strlit("lm_studio");
    reveal_strlit("ollama");
    reveal_strlit("openai");
    assert("ollama"@[0] == 'o' && "openai"@[0] == 'o' && "lmstudio"@[0] == 'l');
    assert("lm-studio"@[0] == 'l' && "lm_studio"@[0] == 'l');
    assert("ollama"@[1] == 'l' && "openai"@[1] == 'p');
}

/// A workspace is looked up unless its id is empty or the default one.
pub proof fn law_scoped_workspaces(id: Seq<char>)
    ensures
        !scoped(Seq::<char>::empty()),
        !scoped("default"@),
        id.len() > 0 && id != "default"@ ==> scoped(id),
{
}

/// A count from the database keeps its value if it is not negative; a negative
/// one is larger than every such count.
pub proof fn law_wrapped_sizes(n: i32, m: i32)
    ensures
        n >= 0 ==> wrapped_size(n) == n,
        n < 0 && m >= 0 ==> wrapped_size(n) > wrapped_size(m),
        0 <= wrapped_size(n) <= usize::MAX,
{
}

/// The id of a chunk is made from its text, that of a figure's chunk from the
/// figure and its caption.
pub proof fn law_chunk_ids(text: Seq<char>, figure: Seq<char>, caption: Seq<char>)
    ensures
        chunk_id(text) == "chunk-"@ + md5_hex(text),
        figure_seed(figure, caption) == "figure:"@ + figure + ":"@ + caption,
{
}

// ---------------------------------------------------------------------------
// Reading figures
// ---------------------------------------------------------------------------

/// What was read is stored completely: while figures are left the next one is
/// read, whether or not the last one could be; then the nodes, the edges and the
/// links are stored, each if there are any, and only then is the run done.
pub proof fn law_figures_read_then_stored(
    run: ReadRun,
    at: Owner,
    figures: Seq<ExtractedFigure>,
    event: ReadEvent,
)
    ensures
        ({
            let g = run.graph_after(at, figures, event);
            let p = run.phase_after(at, figures, event);
            let reads = event is Start || event is Read || event is ReadFailed;
            let next = run.figure_after(event);
            &&& event is Read || event is ReadFailed ==> next == run.figure + 1
            &&& event is Start ==> next == run.figure
            &&& reads && next < figures.len() ==> p == ReadPhase::Reading
            &&& reads && next >= figures.len() && g.nodes.len() > 0 ==> p
                == ReadPhase::StoringNodes
            &&& event matches ReadEvent::NodesStored { error: None } ==> (g.edges.len() > 0 ==> p
                == ReadPhase::StoringEdges) && (g.edges.len() == 0 && g.links.len() > 0 ==> p
                == ReadPhase::Linking)
            &&& event matches ReadEvent::EdgesStored { error: None } ==> (g.links.len() > 0 ==> p
                == ReadPhase::Linking) && (g.links.len() == 0 ==> p == ReadPhase::Finished)
            &&& event matches ReadEvent::NodesStored { error: Some(_) } ==> p == ReadPhase::Failed
            &&& event matches ReadEvent::EdgesStored { error: Some(_) } ==> p == ReadPhase::Failed
            &&& event is Linked ==> p == ReadPhase::Finished
            &&& !(event is Read) ==> g == run.graph@
        }),
{
}

/// What is read from a figure is stored under that figure's own vector.
pub proof fn law_reading_goes_to_its_figure(
    run: ReadRun,
    at: Owner,
    figures: Seq<ExtractedFigure>,
    x: Extraction,
    k: int,
)
    requires
        0 <= k < x.entities@.len(),
        run.figure < figures.len(),
    ensures
        run.graph_after(at, figures, (ReadEvent::Read { extraction: x })).links[run.graph@.links.len()
            + k] == (
            "entity:"@ + x.entities@[k].name@,
            at.document_id@ + "-figure-"@ + figures[run.figure as int].id@,
        ),
{
}

/// An item that is embedded is stored next; one that could not be embedded or was
/// stored is left for the next wanted one; only what was stored counts.
pub proof fn law_items_embedded_then_stored(run: EmbedRun, wanted: Seq<bool>)
    requires
        run.item < wanted.len() <= usize::MAX,
        run.stored < usize::MAX,
    ensures
        run.after(wanted, EmbedEvent::Embedded { ok: true }).phase == EmbedPhase::Upserting,
        run.after(wanted, EmbedEvent::Embedded { ok: true }).item == run.item,
        run.after(wanted, EmbedEvent::Embedded { ok: true }).stored == run.stored,
        run.after(wanted, EmbedEvent::Embedded { ok: false }).item > run.item,
        run.after(wanted, EmbedEvent::Embedded { ok: false }).stored == run.stored,
        run.after(wanted, EmbedEvent::Upserted { ok: true }).item > run.item,
        run.after(wanted, EmbedEvent::Upserted { ok: true }).stored == run.stored + 1,
        run.after(wanted, EmbedEvent::Upserted { ok: false }).item > run.item,
        run.after(wanted, EmbedEvent::Upserted { ok: false }).stored == run.stored,
{
    law_next_wanted(wanted, run.item + 1);
}

/// The next wanted item is the first from the given place on, or the end.
pub proof fn law_next_wanted(wanted: Seq<bool>, i: int)
    requires
        0 <= i <= wanted.len(),
    ensures
        i <= next_wanted(wanted, i) <= wanted.len(),
        next_wanted(wanted, i) < wanted.len() ==> wanted[next_wanted(wanted, i)],
        forall|k: int| i <= k < next_wanted(wanted, i) ==> !#[trigger] wanted[k],
    decreases wanted.len() - i,
{
    if i < wanted.len() && !wanted[i] {
        law_next_wanted(wanted, i + 1);
    }
}

// ---------------------------------------------------------------------------
// Reading pages
// ---------------------------------------------------------------------------

/// Every pixel keeps its red, green and blue, in the order of the pixels; its
/// opacity goes.
pub proof fn law_pixels_keep_colours(rgba: Seq<u8>, p: int)
    requires
        0 <= p,
        4 * p + 3 <= rgba.len(),
    ensures
        without_alpha(rgba).len() == (rgba.len() + 1) / 4 * 3,
        without_alpha(rgba)[3 * p] == rgba[4 * p],
        without_alpha(rgba)[3 * p + 1] == rgba[4 * p + 1],
        without_alpha(rgba)[3 * p + 2] == rgba[4 * p + 2],
{
}

/// The converter that recognises pages repairs what it keeps of a page and drops
/// a page without text; the others keep a page as it is. A page that failed is
/// kept by none.
pub proof fn law_page_kept(run: ConvertRun, md: String, e: String)
    ensures
        run.kept(Err(e)) is None,
        run.converter != PageConverter::VlmOcr ==> run.kept(Ok(md)) == Some(md@),
        run.converter == PageConverter::VlmOcr && trim(repaired(md@)).len() > 0 ==> run.kept(Ok(md))
            == Some(repaired(md@)),
        run.converter == PageConverter::VlmOcr && trim(repaired(md@)).len() == 0 ==> run.kept(
            Ok(md),
        ) is None,
{
}

/// How many pages are read at a time: what is configured, else what is set, else
/// four.
pub proof fn law_pages_at_a_time(n: usize, m: nat)
    requires
        m <= usize::MAX,
        m <= u64::MAX,
    ensures
        pages_at_a_time(Some(n), Some(decimal(m))) == n,
        pages_at_a_time(None, Some(decimal(m))) == m,
        pages_at_a_time(None, None) == 4,
{
    law_decimal_read_back(m);
}

/// Models are kept in the directory that is set, else below the home directory
/// with one slash between, else in the directory for all.
pub proof fn law_model_directories(
    d: Seq<char>,
    h: Seq<char>,
    below_home: Seq<char>,
    fallback: Seq<char>,
)
    ensures
        d.len() > 0 ==> model_dir(Some(d), Some(h), below_home, fallback) == d,
        h.len() > 0 && h.last() != '/' ==> model_dir(None, Some(h), below_home, fallback) == h
            + "/"@ + below_home,
        model_dir(None, Some(h + "/"@), below_home, fallback) == h + "/"@ + below_home,
        model_dir(None, None, below_home, fallback) == fallback,
        model_dir(Some(Seq::empty()), Some(h), below_home, fallback) == model_dir(
            None,
            Some(h),
            below_home,
            fallback,
        ),
{
    reveal_strlit("/");
    if h.len() > 0 && h.last() != '/' {
        if ends_with(h, "/"@) {
            assert(h.subrange(h.len() - 1, h.len() as int)[0] == h.last());
            assert("/"@[0] == '/');
        }
    }
    let t = h + "/"@;
    assert(t.subrange(t.len() - 1, t.len() as int) =~= "/"@);
}

/// A file is fetched exactly if it is not there, from the place of its release.
pub proof fn law_missing_files(present: Seq<bool>, n: int, k: int)
    requires
        0 <= k < n <= model_files().len(),
    ensures
        files_missing(present, n).contains(
            (
                model_files()[k],
                "https://github.com/GreatV/oar-ocr/releases/download/v0.3.0/"@ + model_files()[k],
            ),
        ) || present[k],
        files_missing(present, n).len() <= n,
        (forall|i: int| 0 <= i < n ==> present[i]) ==> files_missing(present, n).len() == 0,
    decreases n,
{
    let before = files_missing(present, n - 1);
    let all = files_missing(present, n);
    let f = (
        model_files()[k],
        "https://github.com/GreatV/oar-ocr/releases/download/v0.3.0/"@ + model_files()[k],
    );
    if n > 1 {
        law_missing_files(present, n - 1, if k < n - 1 { k } else { 0 });
    }
    if k == n - 1 {
        if !present[k] {
            assert(all[all.len() - 1] == f);
        }
    } else if before.contains(f) {
        let i = choose|i: int| 0 <= i < before.len() && before[i] == f;
        assert(all[i] == f);
    }
}

} // verus!
