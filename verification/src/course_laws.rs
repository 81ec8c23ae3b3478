//! What holds of the courses of tasks: which step follows which, what each step
//! does, and what is reported.

use vstd::prelude::*;

use crate::algorithm_embedding::{
    algorithm_text, embed_percent, AlgoEmbedDirective, AlgoEmbedEvent, AlgoEmbedPhase, AlgoEmbedRun,
    AlgoEmbedTodo, VectorOutcome,
};
use crate::algorithm_extraction::{with_flag, DetectionError, Flagged, StoreError};
use crate::backfill::{EmbedAction, EmbedEvent};
use crate::algorithm_runs::{
    ExtractEvent, ExtractReport, ExtractRun, ExtractStage, ExtractTodo, Pass23Event, Pass23Run,
    Pass23Stage, Pass23Todo,
};
use crate::code_reference::{
    CodeRefDirective, CodeRefEvent, CodeRefJob, CodeRefRun, CodeRefStage, CodeRefTodo, RunStatus,
    StoreFault,
};
use crate::conversion::opt_view;
use crate::figures::ExtractedFigure;
use crate::graph::{
    vector_action, LinkAction, LinkEvent, LinkPhase, LinkRun, Owner, ReadAction, ReadEvent,
    ReadPhase, ReadRun,
};
use crate::reference_codebase::{
    is_embedder, CodeEmbedder, CodebaseIndexStatus, IndexEvent, IndexJob, IndexRun, IndexSettings,
    IndexStage, IndexTodo,
};
use crate::repo_detection::{DetectEvent, DetectRun, DetectStage, DetectTodo, PdfLoad};
use crate::safety_limits::number_setting;
use crate::tasks::{hyphenated, progress_views, uuid_reading, FailureKind};
use crate::text::strs;

verus! {

// ---------------------------------------------------------------------------
// Extracting algorithms
// ---------------------------------------------------------------------------

/// Algorithms are looked for where the layout shows them or in all chunks, then
/// extracted, verified and stored; approved ones get their vectors. A document
/// in which nothing is found is done with, one without chunks fails.
pub proof fn law_extraction_course(run: ExtractRun, event: ExtractEvent)
    requires
        run.wf(),
        run.expects(event),
        !ExtractRun::cancels(event),
    ensures
        event is Gate && run.stage == ExtractStage::Entering && run.from_layout
            ==> run.stage_after(event) == ExtractStage::Detecting,
        event is Gate && run.stage == ExtractStage::Entering && !run.from_layout && run.chunks > 0
            ==> run.stage_after(event) == ExtractStage::Scanning,
        event is Gate && run.stage == ExtractStage::Entering && !run.from_layout && run.chunks == 0
            ==> run.stage_after(event) == ExtractStage::Failed,
        event is Gate && run.stage == ExtractStage::EnteringExtraction ==> run.stage_after(event)
            == ExtractStage::Extracting,
        event is Gate && run.stage == ExtractStage::EnteringVerification ==> run.stage_after(event)
            == ExtractStage::Verifying,
        event matches ExtractEvent::Detected { blocks } ==> (blocks == 0 ==> run.stage_after(event)
            == ExtractStage::Finished) && (blocks > 0 ==> run.stage_after(event)
            == ExtractStage::EnteringExtraction),
        event is DetectionFailed ==> run.stage_after(event) == ExtractStage::Failed,
        event is Scanned && run.completed + 1 < run.pairs() ==> run.stage_after(event)
            == ExtractStage::Scanning,
        event is Scanned && run.completed + 1 >= run.pairs() ==> (run.flagged_after(event).len()
            == 0 ==> run.stage_after(event) == ExtractStage::Finished) && (run.flagged_after(
            event,
        ).len() > 0 ==> run.stage_after(event) == ExtractStage::EnteringExtraction),
        event is Extracted && run.completed + 1 < run.flagged@.len() ==> run.stage_after(event)
            == ExtractStage::Extracting,
        event is Extracted && run.completed + 1 >= run.flagged@.len() ==> run.stage_after(event)
            == ExtractStage::EnteringVerification,
        event is Verified ==> run.stage_after(event) == ExtractStage::Storing,
        event matches ExtractEvent::Stored { error: Some(_) } ==> run.stage_after(event)
            == ExtractStage::Failed,
        event matches ExtractEvent::Stored { error: None } ==> (run.approved && run.kept@.len() > 0
            ==> run.stage_after(event) == ExtractStage::Embedding) && (!(run.approved
            && run.kept@.len() > 0) ==> run.stage_after(event) == ExtractStage::Finished),
        event is Embedded ==> run.stage_after(event) == ExtractStage::Finished,
{
}

/// What is found is kept: a pair in which algorithms were found is flagged, one
/// in which none were, or that could not be read, is not; the names of what is
/// extracted come behind those before them.
pub proof fn law_findings_gathered(run: ExtractRun, event: ExtractEvent, next: ExtractRun)
    requires
        run.follows(event, next),
        !ExtractRun::cancels(event),
    ensures
        event matches ExtractEvent::Scanned { pair, found: Some(n), .. } ==> (n > 0
            ==> next.flagged@ == with_flag(run.flagged@, Flagged { pair, found: n })) && (n == 0
            ==> next.flagged@ == run.flagged@),
        event matches ExtractEvent::Scanned { found: None, .. } ==> next.flagged@ == run.flagged@,
        event matches ExtractEvent::Detected { blocks } ==> next.flagged@.len() == blocks
            && forall|i: int|
            0 <= i < blocks ==> (#[trigger] next.flagged@[i]).pair == i && next.flagged@[i].found
                == 1,
        event matches ExtractEvent::Extracted { names: Some(v), .. } ==> strs(next.names@) == strs(
            run.names@,
        ) + strs(v@),
        event matches ExtractEvent::Extracted { names: None, .. } ==> strs(next.names@) == strs(
            run.names@,
        ),
        event is Scanned || event is Extracted ==> next.completed == run.completed + 1,
        event is Gate ==> next.completed == 0,
        event matches ExtractEvent::Verified { auto_approve } ==> next.approved == auto_approve,
        !(event is Verified) ==> next.approved == run.approved,
{
}

/// What a document is said to be at while its algorithms are extracted.
pub proof fn law_extraction_statuses(run: ExtractRun, event: ExtractEvent)
    requires
        run.wf(),
        run.expects(event),
        !ExtractRun::cancels(event),
    ensures
        event is Gate && run.stage == ExtractStage::Entering ==> run.status_after(event) == Some(
            "algo_identifying"@,
        ),
        event is Gate && run.stage == ExtractStage::EnteringExtraction ==> run.status_after(event)
            == Some("algo_extracting"@),
        event is Gate && run.stage == ExtractStage::EnteringVerification ==> run.status_after(
            event,
        ) == Some("algo_verifying"@),
        run.stage_after(event) == ExtractStage::Embedding ==> run.status_after(event) == Some(
            "algo_embedding"@,
        ),
        run.stage_after(event) == ExtractStage::Finished && !(event is Embedded)
            ==> run.status_after(event) == Some("completed"@) && run.progress_after(event).last()
            == ("completed"@, 3u32, 100u8),
        run.stage_after(event) == ExtractStage::Failed && !(event is Gate) ==> run.status_after(
            event,
        ) is None,
        event is Verified ==> run.progress_after(event) == seq![("storing"@, 3u32, 90u8)],
        event is Gate && run.stage == ExtractStage::Entering ==> run.progress_after(event) == seq![
            ("algo_identifying"@, 3u32, 15u8),
        ],
        event is Gate && run.stage == ExtractStage::EnteringExtraction ==> run.progress_after(event)
            == seq![("algo_extracting"@, 3u32, 40u8)],
        event is Gate && run.stage == ExtractStage::EnteringVerification ==> run.progress_after(
            event,
        ) == seq![("algo_verifying"@, 3u32, 70u8)],
        run.stage_after(event) == ExtractStage::Embedding ==> run.progress_after(event) == seq![
            ("algo_embedding"@, 4u32, 92u8),
        ],
{
}

/// What the extraction came to: nothing where nothing was found, else as many
/// algorithms as were kept, and whether they were approved and embedded.
pub proof fn law_extraction_reports(run: ExtractRun, event: ExtractEvent, todo: ExtractTodo)
    requires
        run.orders(event, todo),
        run.stage_after(event) == ExtractStage::Finished,
    ensures
        event is Detected ==> todo == (ExtractTodo::Finish { report: ExtractReport::NoBlocks }),
        event is Scanned ==> (todo matches ExtractTodo::Finish { report: r }
            && r is NoAlgorithms),
        event is Stored || event is Embedded ==> (todo matches ExtractTodo::Finish {
            report: ExtractReport::Stored { algorithm_count, auto_approved, embedded, .. },
        } && algorithm_count == run.kept@.len() && auto_approved == run.approved && embedded == (
        event is Embedded)),
{
}

/// The second and third pass: every block has its turn, a block that could not be
/// read is counted, nothing is verified where nothing was kept, and only approved
/// algorithms are embedded.
pub proof fn law_passes_course(run: Pass23Run, event: Pass23Event, next: Pass23Run)
    requires
        run.follows(event, next),
    ensures
        event matches Pass23Event::Extracted { names: None } ==> next.failures == run.failures + 1
            && strs(next.names@) == strs(run.names@),
        event matches Pass23Event::Extracted { names: Some(v) } ==> next.failures == run.failures
            && strs(next.names@) == strs(run.names@) + strs(v@),
        event is Extracted ==> next.completed == run.completed + 1,
        (event is Extracted || event is Start) && next.completed < run.blocks ==> next.stage
            == Pass23Stage::Extracting,
        (event is Extracted || event is Start) && next.completed >= run.blocks ==> (
        next.kept@.len() == 0 ==> next.stage == Pass23Stage::Finished) && (next.kept@.len() > 0
            ==> next.stage == Pass23Stage::Verifying),
        event matches Pass23Event::Verified { auto_approve } ==> next.stage == Pass23Stage::Storing
            && next.approved == auto_approve,
        event matches Pass23Event::Stored { error: Some(_) } ==> next.stage == Pass23Stage::Failed,
        event matches Pass23Event::Stored { error: None } ==> (run.approved ==> next.stage
            == Pass23Stage::Embedding) && (!run.approved ==> next.stage == Pass23Stage::Finished),
        event is Embedded ==> next.stage == Pass23Stage::Finished,
{
}

/// The passes end with the number of algorithms that were stored and of blocks
/// that could not be read.
pub proof fn law_passes_counted(run: Pass23Run, event: Pass23Event, todo: Pass23Todo)
    requires
        run.orders(event, todo),
        run.stage_after(event) == Pass23Stage::Finished,
    ensures
        event is Stored || event is Embedded ==> todo == (Pass23Todo::Finish {
            count: run.kept@.len() as usize,
            failures: run.failures,
        }),
        event matches Pass23Event::Extracted { names: None } ==> (
        todo matches Pass23Todo::Finish { count, failures } && count == 0 && failures
            == run.failures + 1),
        event matches Pass23Event::Extracted { names: Some(_) } ==> (
        todo matches Pass23Todo::Finish { count, failures } && count == 0 && failures
            == run.failures),
{
}

// ---------------------------------------------------------------------------
// Embedding algorithms
// ---------------------------------------------------------------------------

/// Algorithms are embedded one after the other: one that is gone, or that has no
/// vector, is passed over; a failure ends the task.
pub proof fn law_embedding_course(run: AlgoEmbedRun, ids: Seq<String>, event: AlgoEmbedEvent)
    requires
        run.wf(ids),
        run.expects(event),
    ensures
        event matches AlgoEmbedEvent::Gate { cancelled: true } ==> run.phase_after(ids, event)
            == AlgoEmbedPhase::Cancelled,
        event matches AlgoEmbedEvent::Gate { cancelled: false } ==> (run.phase
            == AlgoEmbedPhase::Entering ==> run.phase_after(ids, event)
            == AlgoEmbedPhase::SettingUp) && (run.phase == AlgoEmbedPhase::Gate ==> (run.phase_after(
            ids,
            event,
        ) == AlgoEmbedPhase::Fetching <==> uuid_reading(ids[run.index as int]@) is Ok)),
        event matches AlgoEmbedEvent::SetUp { error: Some(_) } ==> run.phase_after(ids, event)
            == AlgoEmbedPhase::Failed,
        event matches AlgoEmbedEvent::SetUp { error: None } ==> (ids.len() > 0 ==> run.phase_after(
            ids,
            event,
        ) == AlgoEmbedPhase::Gate) && (ids.len() == 0 ==> run.phase_after(ids, event)
            == AlgoEmbedPhase::Finished),
        event matches AlgoEmbedEvent::Fetched { algorithm: Some(_) } ==> run.phase_after(ids, event)
            == AlgoEmbedPhase::Embedding && run.index_after(event) == run.index,
        event matches AlgoEmbedEvent::Fetched { algorithm: None } ==> run.index_after(event)
            == run.index + 1 && run.embedded_after(event) == run.embedded,
        event matches AlgoEmbedEvent::Embedded { outcome: VectorOutcome::Failed { .. } }
            ==> run.phase_after(ids, event) == AlgoEmbedPhase::Failed,
        event matches AlgoEmbedEvent::Embedded { outcome } ==> (outcome is Vector
            ==> run.phase_after(ids, event) == AlgoEmbedPhase::Upserting) && (outcome is Nothing
            ==> run.index_after(event) == run.index + 1 && run.embedded_after(event)
            == run.embedded),
        event matches AlgoEmbedEvent::Upserted { error: Some(_) } ==> run.phase_after(ids, event)
            == AlgoEmbedPhase::Failed,
        event matches AlgoEmbedEvent::Upserted { error: None } ==> run.index_after(event)
            == run.index + 1 && run.embedded_after(event) == run.embedded + 1 && (run.index + 1
            < ids.len() ==> run.phase_after(ids, event) == AlgoEmbedPhase::Gate) && (run.index + 1
            >= ids.len() ==> run.phase_after(ids, event) == AlgoEmbedPhase::Finished),
{
}

/// What is done with an algorithm: its text is embedded, and its vector is stored
/// under its id.
pub proof fn law_embedding_work(
    run: AlgoEmbedRun,
    ids: Seq<String>,
    event: AlgoEmbedEvent,
    todo: AlgoEmbedTodo,
)
    requires
        run.orders(ids, event, todo),
    ensures
        event matches AlgoEmbedEvent::Fetched { algorithm: Some(a) } ==> (
        todo matches AlgoEmbedTodo::Embed { text } && text@ == algorithm_text(a)),
        run.phase_after(ids, event) == AlgoEmbedPhase::Upserting ==> (run.current matches Some(a)
            && (todo matches AlgoEmbedTodo::Upsert { vector_id, metadata } && vector_id@
            == "algorithm:"@ + a.id@)),
        run.phase_after(ids, event) == AlgoEmbedPhase::Fetching ==> (
        todo matches AlgoEmbedTodo::Fetch { id } && uuid_reading(ids[run.index as int]@) == Ok::<
            u128,
            Seq<char>,
        >(id)),
        run.phase_after(ids, event) == AlgoEmbedPhase::Finished ==> (
        todo matches AlgoEmbedTodo::Finish { algorithms_embedded } && algorithms_embedded
            == ids.len()),
{
}

/// Only a task of its own says that the document is completed.
pub proof fn law_embedding_completes_own_task(
    run: AlgoEmbedRun,
    ids: Seq<String>,
    event: AlgoEmbedEvent,
    d: AlgoEmbedDirective,
)
    requires
        run.reports(ids, event, d),
    ensures
        run.phase_after(ids, event) == AlgoEmbedPhase::Finished && run.own_task
            ==> (d.status matches Some(s) && s@ == "completed"@) && d.progress@.last().is(
            "completed"@,
            1,
            100,
        ),
        run.phase_after(ids, event) == AlgoEmbedPhase::Finished && !run.own_task
            ==> d.status is None,
        run.phase_after(ids, event) == AlgoEmbedPhase::SettingUp ==> (d.status matches Some(s)
            && s@ == "algo_embedding"@) && d.progress@[0].is("algo_embedding"@, 1, 10),
        event matches AlgoEmbedEvent::Upserted { error: None } ==> d.progress@[0].is(
            "algo_embedding"@,
            1,
            embed_percent(run.index as int, ids.len() as int),
        ),
        event matches AlgoEmbedEvent::Upserted { error: Some(_) } ==> d.progress@.len() == 0,
{
}

// ---------------------------------------------------------------------------
// Detecting repositories
// ---------------------------------------------------------------------------

/// Detection looks at the document's PDF where it is asked to and that is there,
/// and then at its text; why it fails is said.
pub proof fn law_detection_of_documents(
    run: DetectRun,
    id: Seq<char>,
    load: PdfLoad,
)
    ensures
        run.stage_after(None, DetectEvent::Gate { cancelled: false })
            == DetectStage::OpeningStorage,
        uuid_reading(id) is Ok ==> run.stage_after(Some(id), DetectEvent::Gate { cancelled: false })
            == DetectStage::LoadingPdf,
        uuid_reading(id) matches Err(e) ==> run.stage_after(
            Some(id),
            DetectEvent::Gate { cancelled: false },
        ) == DetectStage::Failed && run.fault(Some(id), DetectEvent::Gate { cancelled: false })
            == Some((FailureKind::Process, "Invalid pdf_id: "@ + e)),
        load is Loaded ==> run.stage_after(Some(id), DetectEvent::PdfLoaded { load })
            == DetectStage::OpeningStorage,
        !(load is Loaded) ==> run.stage_after(Some(id), DetectEvent::PdfLoaded { load })
            == DetectStage::Failed,
        load is Missing ==> run.fault(Some(id), DetectEvent::PdfLoaded { load }) == Some(
            (FailureKind::NotFound, "PDF not found: "@ + id),
        ),
        load matches PdfLoad::Failed { error } ==> run.fault(
            Some(id),
            DetectEvent::PdfLoaded { load },
        ) == Some((FailureKind::Process, "Failed to fetch PDF: "@ + error@)),
        load is NoStorage ==> run.fault(Some(id), DetectEvent::PdfLoaded { load }) == Some(
            (FailureKind::Process, "PDF storage not available"@),
        ),
        run.stage_after(Some(id), DetectEvent::RunningMarked) == DetectStage::Detecting,
{
}

/// A failed detection is recorded with its error before the task fails with it.
pub proof fn law_detection_failures(
    run: DetectRun,
    pdf_id: Option<Seq<char>>,
    event: DetectEvent,
    next: DetectRun,
    todo: DetectTodo,
)
    requires
        run.follows(pdf_id, event, next),
        run.orders(pdf_id, event, todo),
    ensures
        event matches DetectEvent::Detected { candidates: Err(e), .. } ==> next.complaint@
            == "repo detection failed: "@ + e@ && next.kind == FailureKind::Process && (
        todo matches DetectTodo::RecordFailure { error } && error@ == e@),
        event matches DetectEvent::Persisted { error: Some(e) } ==> next.complaint@
            == "persist candidates: "@ + e@ && next.kind == FailureKind::Storage && (
        todo matches DetectTodo::RecordFailure { error } && error@ == e@),
        event is FailureRecorded ==> (todo matches DetectTodo::Fail { failure }
            && failure.message@ == run.complaint@ && failure.kind == run.kind),
        event is CompleteMarked ==> (todo matches DetectTodo::Finish { total, links, web_search }
            && total == run.kept@.len() && links == run.links() && web_search
            == run.web_search()),
        event matches DetectEvent::Persisted { error: None } ==> (
        todo matches DetectTodo::MarkComplete { links, web_search } && links == run.links()
            && web_search == run.web_search()),
{
}

/// Only a detection that is a task of its own reports its end.
pub proof fn law_detection_progress(run: DetectRun)
    ensures
        run.progress_after(DetectEvent::Gate { cancelled: false }) == seq![
            ("repo_detecting"@, 1u32, 10u8),
        ],
        run.progress_after(DetectEvent::Gate { cancelled: true }).len() == 0,
        run.own_task ==> run.progress_after(DetectEvent::CompleteMarked) == seq![
            ("completed"@, 1u32, 100u8),
        ],
        !run.own_task ==> run.progress_after(DetectEvent::CompleteMarked).len() == 0,
{
}

// ---------------------------------------------------------------------------
// Indexing a codebase
// ---------------------------------------------------------------------------

/// The steps of indexing follow each other; what is not cancelled and does not
/// fail goes on.
pub proof fn law_indexing_course(run: IndexRun, job: IndexJob, event: IndexEvent)
    requires
        run.expects(event),
        run.fault(job, event) is None,
    ensures
        event matches IndexEvent::Gate { cancelled: false } ==> match run.stage {
            IndexStage::Entering => run.stage_after(job, event) == IndexStage::Connecting,
            IndexStage::EnteringSnapshot => run.stage_after(job, event)
                == IndexStage::TakingSnapshot,
            IndexStage::EnteringScan => run.stage_after(job, event) == IndexStage::ReadingCap,
            IndexStage::EnteringPersist => run.stage_after(job, event) == IndexStage::Persisting,
            _ => run.stage_after(job, event) == IndexStage::Embedding,
        },
        event is Connected ==> run.stage_after(job, event) == IndexStage::LoadingRepos,
        event is ReposLoaded ==> run.stage_after(job, event) == IndexStage::LoadingArtifacts,
        event is ArtifactsLoaded ==> run.stage_after(job, event) == IndexStage::EnteringSnapshot,
        event is SnapshotTaken ==> run.stage_after(job, event) == IndexStage::LookingAtPath,
        event is PathSeen ==> run.stage_after(job, event) == IndexStage::StartingIndex,
        event is IndexStarted ==> run.stage_after(job, event) == IndexStage::EnteringScan,
        event is CapRead ==> run.stage_after(job, event) == IndexStage::Building,
        event matches IndexEvent::Built { counts: Ok(_) } ==> run.stage_after(job, event)
            == IndexStage::EnteringPersist,
        event matches IndexEvent::Built { counts: Err(_) } ==> run.stage_after(job, event)
            == IndexStage::RecordingFailure,
        event is Embedded ==> run.stage_after(job, event) == IndexStage::Inserting,
{
}

/// What each step of indexing does: the snapshot is taken of the repository as it
/// stands, within the limits that are set; chunks are embedded and inserted in
/// turn; and no more files are read than the job and the repository allow.
pub proof fn law_indexing_work(
    run: IndexRun,
    job: IndexJob,
    event: IndexEvent,
    next: IndexRun,
    todo: IndexTodo,
)
    requires
        run.orders(job, event, next, todo),
    ensures
        next.stage == IndexStage::TakingSnapshot ==> (todo matches IndexTodo::TakeSnapshot {
            request,
        } && request.repo_url@ == run.repo_url@ && request.repo_commit@ == "HEAD"@
            && request.size_cap_mb == number_setting(opt_view(job.settings.max_repo_mb), 500)
            && request.timeout_s == number_setting(
            opt_view(job.settings.snapshot_timeout_s),
            300,
        )),
        next.stage == IndexStage::Building && event == (IndexEvent::CapRead { cap: None }) ==> todo
            == (IndexTodo::Build { max_files: job.file_limit }),
        next.stage == IndexStage::Building ==> (todo matches IndexTodo::Build { max_files }
            && max_files <= job.file_limit),
        next.stage == IndexStage::Building ==> (event matches IndexEvent::CapRead { cap: Some(c) }
            ==> (0 <= c <= job.file_limit ==> todo == (IndexTodo::Build {
            max_files: c as usize,
        }))),
        next.stage == IndexStage::Embedding ==> todo == (IndexTodo::Embed { chunk: run.chunk }),
        next.stage == IndexStage::Inserting ==> todo == (IndexTodo::Insert { chunk: run.chunk }),
        next.stage == IndexStage::Finished ==> todo == (IndexTodo::Finish {
            embedded: run.chunks,
        }),
        next.stage == IndexStage::RecordingFailure ==> (todo matches IndexTodo::RecordFailure {
            message,
        } && message@ == next.complaint@),
        next.stage == IndexStage::Failed ==> (todo matches IndexTodo::Fail { failure } && (
        run.fault(job, event) matches Some((kind, message)) ==> failure.kind == kind
            && failure.message@ == message)),
{
}

/// What is said where indexing fails, and what is recorded of its course.
pub proof fn law_indexing_texts(run: IndexRun, job: IndexJob, e: String, event: IndexEvent)
    ensures
        run.fault(job, IndexEvent::ReposLoaded { rows: Err(e) }) == Some(
            (FailureKind::Storage, "load document_repos: "@ + e@),
        ),
        run.fault(job, IndexEvent::ArtifactsLoaded { rows: Err(e) }) == Some(
            (FailureKind::Storage, "load code_artifacts: "@ + e@),
        ),
        run.fault(job, IndexEvent::SnapshotTaken { path: Err(e) }) == Some(
            (FailureKind::Process, "code-analyzer snapshot failed: "@ + e@),
        ),
        run.fault(job, IndexEvent::PathSeen { path: e, is_dir: false }) == Some(
            (FailureKind::Process, "code-analyzer returned missing repo path: "@ + e@),
        ),
        run.fault(job, IndexEvent::PathSeen { path: e, is_dir: true }) is None,
        run.fault(job, IndexEvent::Embedded { error: Some(e) }) == Some(
            (FailureKind::Process, "embed codebase chunk: "@ + e@),
        ),
        run.fault(job, IndexEvent::Inserted { error: Some(e) }) == Some(
            (FailureKind::Storage, "insert codebase embedding: "@ + e@),
        ),
        run.fault(job, IndexEvent::FailureRecorded) == Some(
            (FailureKind::Process, run.complaint@),
        ),
        job.settings.embedding_url is None ==> run.fault(
            job,
            IndexEvent::Persisted { error: None },
        ) == Some((FailureKind::Process, "EDGEQUAKE_CODE_EMBEDDING_URL not set"@)),
        run.status_after(job, IndexEvent::IndexStarted { error: None }) == Some(
            CodebaseIndexStatus::Scanning,
        ),
        run.status_after(job, IndexEvent::Persisted { error: None }) == Some(
            CodebaseIndexStatus::Embedding,
        ),
        event matches IndexEvent::Built { counts: Ok(_) } ==> run.status_after(job, event) == Some(
            CodebaseIndexStatus::Chunking,
        ),
        run.progress_after(job, IndexEvent::Persisted { error: None }) == seq![
            ("reference_codebase_embedding"@, 5u32, 70u8),
        ],
        run.progress_after(job, IndexEvent::Completed { error: None }) == seq![
            ("completed"@, 5u32, 100u8),
        ],
{
}

/// What is learnt while a codebase is indexed: the address of the repository, how
/// many chunks there are, and which one is in hand.
pub proof fn law_indexing_learns(run: IndexRun, job: IndexJob, event: IndexEvent, next: IndexRun)
    requires
        run.follows(job, event, next),
    ensures
        event matches IndexEvent::Built { counts: Ok(c) } ==> next.chunks == c.chunks && next.chunk
            == 0,
        event matches IndexEvent::Built { counts: Err(e) } ==> next.complaint@ == e@,
        event matches IndexEvent::Inserted { error: None } ==> next.chunk == run.chunk + 1
            && next.chunks == run.chunks,
        event is Embedded ==> next.chunk == run.chunk && next.chunks == run.chunks,
        !(event is ReposLoaded) ==> next.repo_url@ == run.repo_url@,
        !(event is ArtifactsLoaded) ==> next.artifacts@ == run.artifacts@,
{
}

// ---------------------------------------------------------------------------
// Finding code for algorithms
// ---------------------------------------------------------------------------

/// What the search for code records and reports.
pub proof fn law_code_reference_reports(
    run: CodeRefRun,
    job: CodeRefJob,
    event: CodeRefEvent,
    d: CodeRefDirective,
)
    requires
        run.reports(job, event, d),
    ensures
        run.stage_after(job, event) == CodeRefStage::Analyzing ==> d.statuses@ == seq![
            RunStatus::Cloning,
            RunStatus::Analyzing,
        ] && progress_views(d.progress@) == seq![
            ("code_ref_cloning"@, 4u32, 10u8),
            ("code_ref_analyzing"@, 4u32, 30u8),
        ],
        event matches CodeRefEvent::Analyzed { reply: Ok(_) } ==> (run.stage_after(job, event)
            != CodeRefStage::Analyzing ==> d.statuses@ == seq![RunStatus::Embedding]
            && progress_views(d.progress@) == seq![("code_ref_extracting"@, 4u32, 60u8)]),
        event matches CodeRefEvent::Closed { fault: None } ==> (run.stage_after(job, event)
            != CodeRefStage::Analyzing ==> progress_views(d.progress@) == seq![
            ("completed"@, 4u32, 100u8),
        ]),
        event matches CodeRefEvent::Analyzed { reply: Err(_) } ==> d.statuses@.len() == 0
            && d.progress@.len() == 0,
{
}

/// What the search for code comes to: as many algorithms as were asked about, as
/// many findings as were kept, and as many as were dropped.
pub proof fn law_code_reference_counts(
    run: CodeRefRun,
    job: CodeRefJob,
    event: CodeRefEvent,
    next: CodeRefRun,
    todo: CodeRefTodo,
)
    requires
        run.orders(job, event, next, todo),
    ensures
        next.stage == CodeRefStage::Finished && event is EmptyClosed ==> todo is FinishSkipped,
        next.stage == CodeRefStage::Finished && !(event is EmptyClosed) ==> todo == (
        CodeRefTodo::Finish {
            algorithms: run.algorithm_count,
            findings: run.snippets.artifacts.len(),
            dropped: run.snippets.dropped,
        }),
        next.stage == CodeRefStage::Closing ==> (todo matches CodeRefTodo::Close {
            algorithms,
            findings,
            ..
        } && algorithms == run.algorithm_count && findings == run.snippets.artifacts@.len()),
        next.stage == CodeRefStage::Extracting ==> todo == (CodeRefTodo::ReadSnippet {
            finding: next.snippets.finding,
        }),
        next.stage == CodeRefStage::RecordingFailure ==> (todo matches CodeRefTodo::RecordFailure {
            message,
        } && message@ == next.complaint@),
        event matches CodeRefEvent::ReposLoaded { rows: Ok(_) } ==> (next.stage
            == CodeRefStage::Failed ==> (todo matches CodeRefTodo::Fail { failure } && failure.kind
            == FailureKind::NotFound && failure.message@ == "document_repos row "@ + hyphenated(
            job.repo_id,
        ) + " not found for doc "@ + job.document_id@)),
        event is FailureRecorded && next.stage == CodeRefStage::Failed ==> (
        todo matches CodeRefTodo::Fail { failure } && failure.kind == FailureKind::Process
            && failure.message@ == run.complaint@),
{
}

/// What is said of a store that fails.
pub proof fn law_store_faults(what: StoreFault, e: Seq<char>)
    ensures
        what == StoreFault::CodeStorage ==> what.message(e) == "code storage: "@ + e,
        what == StoreFault::RepoStorage ==> what.message(e) == "repo storage: "@ + e,
        what == StoreFault::LoadRepos ==> what.message(e) == "load document_repos: "@ + e,
        what == StoreFault::NoDatabaseUrl ==> what.message(e) == "DATABASE_URL not set"@,
        what == StoreFault::Connect ==> what.message(e) == "connect postgres: "@ + e,
        what == StoreFault::ListAlgorithms ==> what.message(e) == "list algorithms: "@ + e,
        what == StoreFault::Persist ==> what.message(e) == "persist code_artifacts: "@ + e,
        what == StoreFault::Close ==> what.message(e) == "close run: "@ + e,
        what.kind() == FailureKind::Process <==> what == StoreFault::CodeStorage || what
            == StoreFault::RepoStorage || what == StoreFault::NoDatabaseUrl,
        what.kind() == FailureKind::Process || what.kind() == FailureKind::Storage,
{
}

// ---------------------------------------------------------------------------
// Details
// ---------------------------------------------------------------------------

/// While chunks are scanned and algorithms extracted, each result is counted,
/// with itself, out of all there are.
pub proof fn law_extraction_details(run: ExtractRun, event: ExtractEvent)
    requires
        !ExtractRun::cancels(event),
    ensures
        event is Scanned ==> (run.detail_after(event) matches Some(d) && d.done == run.completed + 1
            && d.total == run.pairs() && d.stage == "algo_identifying"@),
        event is Extracted ==> (run.detail_after(event) matches Some(d) && d.done == run.completed
            + 1 && d.total == run.flagged@.len() && d.stage == "algo_extracting"@),
        event is Gate && run.stage == ExtractStage::Entering && run.from_layout ==> (
        run.detail_after(event) matches Some(d) && d.message
            == "Detecting algorithm blocks via layout detection + VLM"@),
        event is Gate && !(run.stage == ExtractStage::Entering && run.from_layout)
            ==> run.detail_after(event) is None,
        event is Stored || event is Verified || event is Embedded ==> run.detail_after(event)
            is None,
{
}

/// What is said where algorithms cannot be found or stored names what failed and
/// why.
pub proof fn law_extraction_complaints(e: String)
    ensures
        (DetectionError::InvalidPdfId { error: e }).message() == "Invalid pdf_id: "@ + e@,
        (DetectionError::Fetch { error: e }).message() == "Failed to fetch PDF: "@ + e@,
        (DetectionError::Panicked { error: e }).message() == "Layout detection task panicked: "@
            + e@,
        (DetectionError::Failed { error: e }).message() == "Algorithm block detection failed: "@
            + e@,
        DetectionError::NoPdfStorage.message() == "PDF storage not available"@,
        DetectionError::PdfMissing.message() == "PDF not found"@,
        (StoreError::Connect { error: e }).message() == "Failed to connect to database: "@ + e@,
        (StoreError::Failed { error: e }).message() == "Failed to store algorithms: "@ + e@,
        StoreError::NoDatabaseUrl.message() == "DATABASE_URL not set for algorithm storage"@,
{
}

/// Code is embedded at the address that is set, and not without one, by the model
/// and with the dimension that are set or by default.
pub proof fn law_embedder_of_code(r: Option<CodeEmbedder>, settings: IndexSettings)
    requires
        is_embedder(r, settings),
    ensures
        r is Some <==> settings.embedding_url is Some,
        r matches Some(e) ==> {
            &&& Some(e.url@) == opt_view(settings.embedding_url)
            &&& settings.embedding_model matches Some(m) ==> e.model@ == m@
            &&& settings.embedding_model is None ==> e.model@ == "jina-code-embeddings"@
            &&& settings.embedding_dimension is None ==> e.dimension == 896
        },
{
}

/// What is done with what was read from figures: each phase does its own work,
/// and the end counts what was stored.
pub proof fn law_work_on_figures(
    run: ReadRun,
    at: Owner,
    figures: Seq<ExtractedFigure>,
    event: ReadEvent,
    action: ReadAction,
)
    requires
        run.acts(at, figures, event, action),
    ensures
        run.phase == ReadPhase::Reading ==> (action matches ReadAction::Read { figure, chunk_id }
            && figure == run.figure && chunk_id@ == at.document_id@ + "-figure-"@
            + figures[run.figure as int].id@),
        run.phase == ReadPhase::StoringNodes ==> action is StoreNodes,
        run.phase == ReadPhase::StoringEdges ==> action is StoreEdges,
        run.phase == ReadPhase::Linking ==> action is Link,
        run.phase == ReadPhase::Finished ==> (action matches ReadAction::Finish {
            entities,
            relationships,
        } && entities == run.graph.nodes@.len() && relationships == run.graph.edges@.len()),
        event matches ReadEvent::NodesStored { error: Some(e) } ==> (run.phase == ReadPhase::Failed
            ==> (action matches ReadAction::Fail { message } && message@ == "upsert_nodes_batch: "@
            + e@)),
        event matches ReadEvent::EdgesStored { error: Some(e) } ==> (run.phase == ReadPhase::Failed
            ==> (action matches ReadAction::Fail { message } && message@ == "upsert_edges_batch: "@
            + e@)),
{
}

/// Tables become entities in this order: their nodes are stored, then each gets
/// its vector; without tables, or where the nodes cannot be stored, nothing is
/// embedded.
pub proof fn law_tables_linked(run: LinkRun, event: LinkEvent, item: usize, stored: usize)
    ensures
        event is Start && run.wanted@.len() == 0 ==> run.phase_after(event) == LinkPhase::Ended,
        event is Start && run.wanted@.len() > 0 ==> run.phase_after(event)
            == LinkPhase::StoringNodes && run.vectors_after(event) == run.vectors,
        event matches LinkEvent::NodesStored { error: Some(_) } ==> run.phase_after(event)
            == LinkPhase::Ended && run.vectors_after(event) == run.vectors,
        event matches LinkEvent::NodesStored { error: None } ==> run.vectors_after(event)
            == run.vectors.after(run.wanted@, EmbedEvent::Start),
        event matches LinkEvent::Embedded { ok } ==> run.vectors_after(event) == run.vectors.after(
            run.wanted@,
            EmbedEvent::Embedded { ok },
        ),
        event matches LinkEvent::Upserted { ok } ==> run.vectors_after(event) == run.vectors.after(
            run.wanted@,
            EmbedEvent::Upserted { ok },
        ),
        vector_action(EmbedAction::Embed { item }) == (LinkAction::Embed { item }),
        vector_action(EmbedAction::Upsert { item }) == (LinkAction::Upsert { item }),
        vector_action(EmbedAction::Finish { stored }) == (LinkAction::Finish { stored }),
{
}

} // verus!
