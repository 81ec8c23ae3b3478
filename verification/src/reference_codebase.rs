//! Indexing the source code that a document refers to.
//!
//! A snapshot of an approved repository is scanned, stored and embedded chunk by
//! chunk. Any failure ends the task.

use vstd::prelude::*;

use crate::code_reference::{find_repo, row_of, RepoRow};
use crate::conversion::opt_view;
use crate::safety_limits::number_setting;
use crate::tasks::{
    cat, cat3, cat4, hyphenated, mark, progress_views, size_of_number, uuid_text, wrapped_size,
    FailureKind, Progress, TaskFailure,
};
use crate::text::{parse_number, same_str};

verus! {

broadcast use vstd::string::group_string_axioms;

// ---------------------------------------------------------------------------
// What to index
// ---------------------------------------------------------------------------

/// How much of a repository is indexed.
#[derive(Clone, Copy, Debug, PartialEq, Eq, Structural)]
pub enum CodebaseIndexMode {
    /// What approved pieces of code need.
    AlgorithmFocused,
    Full,
}

impl CodebaseIndexMode {
    pub open spec fn name(self) -> Seq<char> {
        match self {
            CodebaseIndexMode::AlgorithmFocused => "algorithm_focused"@,
            CodebaseIndexMode::Full => "full"@,
        }
    }

    pub fn as_str(self) -> (r: &'static str)
        ensures
            r@ == self.name(),
    {
        match self {
            CodebaseIndexMode::AlgorithmFocused => "algorithm_focused",
            CodebaseIndexMode::Full => "full",
        }
    }

    /// The mode that a text names, or the failure that an unknown name causes.
    pub fn parse(text: &str) -> (r: Result<Self, TaskFailure>)
        ensures
            match r {
                Ok(m) => text@ == m.name(),
                Err(f) => text@ != CodebaseIndexMode::AlgorithmFocused.name() && text@
                    != CodebaseIndexMode::Full.name() && f.says(
                    FailureKind::InvalidPayload,
                    "reference codebase mode must be 'algorithm_focused' or 'full', got "@ + text@,
                ),
            },
    {
        if same_str(text, "algorithm_focused") {
            Ok(CodebaseIndexMode::AlgorithmFocused)
        } else if same_str(text, "full") {
            Ok(CodebaseIndexMode::Full)
        } else {
            Err(
                TaskFailure::new(
                    FailureKind::InvalidPayload,
                    cat(
                        "reference codebase mode must be 'algorithm_focused' or 'full', got ",
                        text,
                    ),
                ),
            )
        }
    }
}

/// A piece of code that was found before.
#[derive(Clone, Debug)]
pub struct ArtifactRow {
    pub document_repo_id: u128,
    pub status: String,
}

/// A piece of code counts: it is of this repository and approved.
pub open spec fn counts(a: ArtifactRow, repo: u128) -> bool {
    a.document_repo_id == repo && a.status@ == "approved"@
}

/// The places of the pieces that count.
pub open spec fn approved_places(rows: Seq<ArtifactRow>, repo: u128) -> Seq<usize>
    decreases rows.len(),
{
    if rows.len() == 0 {
        Seq::empty()
    } else {
        let before = approved_places(rows.drop_last(), repo);
        if counts(rows.last(), repo) {
            before.push((rows.len() - 1) as usize)
        } else {
            before
        }
    }
}

/// The places of the approved pieces of code of a repository.
pub fn approved_artifacts(rows: &Vec<ArtifactRow>, repo: u128) -> (r: Vec<usize>)
    ensures
        r@ == approved_places(rows@, repo),
{
    let mut r: Vec<usize> = Vec::new();
    let mut i: usize = 0;
    assert(rows@.take(0) =~= Seq::<ArtifactRow>::empty());
    while i < rows.len()
        invariant
            i <= rows@.len(),
            r@ == approved_places(rows@.take(i as int), repo),
        decreases rows.len() - i,
    {
        assert(rows@.take(i + 1).drop_last() =~= rows@.take(i as int));
        assert(rows@.take(i + 1).last() == rows@[i as int]);
        if rows[i].document_repo_id == repo && same_str(rows[i].status.as_str(), "approved") {
            r.push(i);
        }
        i = i + 1;
    }
    assert(rows@.take(i as int) =~= rows@);
    r
}

/// How many files may be indexed: the limit, or the cap of this index where that
/// is smaller.
pub fn max_files(limit: usize, cap: Option<i32>) -> (r: usize)
    ensures
        r == (match cap {
            Some(c) => if wrapped_size(c) < limit {
                wrapped_size(c)
            } else {
                limit as int
            },
            None => limit as int,
        }),
{
    match cap {
        None => limit,
        Some(c) => {
            let size = size_of_number(c);
            if size < limit {
                size
            } else {
                limit
            }
        },
    }
}

/// The cap only ever lowers the limit.
pub proof fn law_cap_lowers(limit: usize, cap: i32)
    ensures
        ({
            let r = if wrapped_size(cap) < limit {
                wrapped_size(cap)
            } else {
                limit as int
            };
            0 <= r <= limit
        }),
{
}

/// How many files were indexed: those that were not skipped.
pub open spec fn indexed(skipped: Seq<bool>) -> nat
    decreases skipped.len(),
{
    if skipped.len() == 0 {
        0
    } else {
        indexed(skipped.drop_last()) + (if skipped.last() {
            0nat
        } else {
            1nat
        })
    }
}

/// How many files were indexed.
pub fn indexed_files(skipped: &Vec<bool>) -> (r: usize)
    ensures
        r == indexed(skipped@),
        r <= skipped@.len(),
{
    let mut r: usize = 0;
    let mut i: usize = 0;
    assert(skipped@.take(0) =~= Seq::<bool>::empty());
    while i < skipped.len()
        invariant
            i <= skipped@.len(),
            r <= i,
            r == indexed(skipped@.take(i as int)),
        decreases skipped.len() - i,
    {
        assert(skipped@.take(i + 1).drop_last() =~= skipped@.take(i as int));
        if !skipped[i] {
            r = r + 1;
        }
        i = i + 1;
    }
    assert(skipped@.take(i as int) =~= skipped@);
    r
}

/// What a snapshot is asked for.
#[derive(Clone, Debug)]
pub struct SnapshotRequest {
    pub repo_url: String,
    pub repo_commit: String,
    pub size_cap_mb: u64,
    pub timeout_s: u64,
}

/// The settings of the task, as the environment gives them.
#[derive(Clone, Debug)]
pub struct IndexSettings {
    pub max_repo_mb: Option<String>,
    pub snapshot_timeout_s: Option<String>,
    pub embedding_url: Option<String>,
    pub embedding_model: Option<String>,
    pub embedding_dimension: Option<String>,
}

/// The model that embeds code.
#[derive(Clone, Debug)]
pub struct CodeEmbedder {
    pub url: String,
    pub model: String,
    pub dimension: u64,
}

fn setting_or(setting: &Option<String>, default: u64) -> (r: u64)
    ensures
        r == number_setting(opt_view(*setting), default as int),
{
    match setting {
        Some(s) => match parse_number(s.as_str()) {
            Some(n) => n,
            None => default,
        },
        None => default,
    }
}

/// The snapshot that the task asks for.
pub fn snapshot_request(url: &str, settings: &IndexSettings) -> (r: SnapshotRequest)
    ensures
        r.repo_url@ == url@,
        r.repo_commit@ == "HEAD"@,
        r.size_cap_mb == number_setting(opt_view(settings.max_repo_mb), 500),
        r.timeout_s == number_setting(opt_view(settings.snapshot_timeout_s), 300),
{
    SnapshotRequest {
        repo_url: url.to_owned(),
        repo_commit: "HEAD".to_owned(),
        size_cap_mb: setting_or(&settings.max_repo_mb, 500),
        timeout_s: setting_or(&settings.snapshot_timeout_s, 300),
    }
}

/// The model that embeds code, if its address is known.
pub open spec fn is_embedder(r: Option<CodeEmbedder>, settings: IndexSettings) -> bool {
    match settings.embedding_url {
        None => r is None,
        Some(u) => r matches Some(e) && e.url@ == u@ && e.model@ == (
        match settings.embedding_model {
            Some(m) => m@,
            None => "jina-code-embeddings"@,
        }) && e.dimension == number_setting(opt_view(settings.embedding_dimension), 896),
    }
}

/// The model that embeds code.
pub fn code_embedder(settings: &IndexSettings) -> (r: Option<CodeEmbedder>)
    ensures
        is_embedder(r, *settings),
{
    match &settings.embedding_url {
        None => None,
        Some(u) => Some(
            CodeEmbedder {
                url: u.clone(),
                model: match &settings.embedding_model {
                    Some(m) => m.clone(),
                    None => "jina-code-embeddings".to_owned(),
                },
                dimension: setting_or(&settings.embedding_dimension, 896),
            },
        ),
    }
}

// ---------------------------------------------------------------------------
// The task
// ---------------------------------------------------------------------------

/// Where the task stands.
#[derive(Clone, Copy, Debug, PartialEq, Eq, Structural)]
pub enum IndexStage {
    Entering,
    Connecting,
    LoadingRepos,
    LoadingArtifacts,
    EnteringSnapshot,
    TakingSnapshot,
    LookingAtPath,
    StartingIndex,
    EnteringScan,
    ReadingCap,
    Building,
    RecordingFailure,
    EnteringPersist,
    Persisting,
    /// Before the chunk in hand.
    EnteringChunk,
    Embedding,
    Inserting,
    Completing,
    Finished,
    Failed,
    Cancelled,
}

/// What the record of the index says.
#[derive(Clone, Copy, Debug, PartialEq, Eq, Structural)]
pub enum CodebaseIndexStatus {
    Scanning,
    Chunking,
    Embedding,
}

/// What the task is about.
#[derive(Clone, Debug)]
pub struct IndexJob {
    pub repo_id: u128,
    pub mode: CodebaseIndexMode,
    pub settings: IndexSettings,
    /// How many files may be indexed.
    pub file_limit: usize,
}

/// Why the database could not be reached.
#[derive(Clone, Debug)]
pub enum ConnectError {
    NoDatabaseUrl,
    Connect { error: String },
}

/// What a scan found.
#[derive(Clone, Debug)]
pub struct BuildCounts {
    /// For each file whether it was skipped.
    pub skipped: Vec<bool>,
    pub symbols: usize,
    pub edges: usize,
    pub chunks: usize,
}

/// The task of indexing a repository.
#[derive(Clone, Debug)]
pub struct IndexRun {
    pub stage: IndexStage,
    pub repo_url: String,
    /// The places of the approved pieces of code.
    pub artifacts: Vec<usize>,
    /// What is said where the scan failed.
    pub complaint: String,
    pub chunks: usize,
    /// The chunk in hand; all before it were embedded.
    pub chunk: usize,
}

/// What happened outside.
#[derive(Debug)]
pub enum IndexEvent {
    Gate { cancelled: bool },
    Connected { error: Option<ConnectError> },
    ReposLoaded { rows: Result<Vec<RepoRow>, String> },
    ArtifactsLoaded { rows: Result<Vec<ArtifactRow>, String> },
    /// The path of the snapshot.
    SnapshotTaken { path: Result<String, String> },
    /// Whether the path is a directory.
    PathSeen { path: String, is_dir: bool },
    IndexStarted { error: Option<String> },
    /// The cap of this index, if there is one and it could be read.
    CapRead { cap: Option<i32> },
    Built { counts: Result<BuildCounts, String> },
    /// The failure was recorded, or could not be.
    FailureRecorded,
    Persisted { error: Option<String> },
    Embedded { error: Option<String> },
    Inserted { error: Option<String> },
    Completed { error: Option<String> },
}

/// What to do next.
#[derive(Clone, Debug)]
pub enum IndexTodo {
    CheckCancelled { stage: &'static str },
    Connect,
    LoadRepos,
    LoadArtifacts,
    TakeSnapshot { request: SnapshotRequest },
    LookAtPath { path: String },
    StartIndex,
    ReadCap,
    Build { max_files: usize },
    RecordFailure { message: String },
    Persist,
    Embed { chunk: usize },
    Insert { chunk: usize },
    Complete,
    Finish { embedded: usize },
    Fail { failure: TaskFailure },
    Cancel,
}

/// What to record and report, and what to do next.
#[derive(Clone, Debug)]
pub struct IndexDirective {
    pub status: Option<CodebaseIndexStatus>,
    pub progress: Vec<Progress>,
    pub todo: IndexTodo,
}

/// What is said where the repository is not approved.
pub open spec fn not_approved(repo: u128, status: Seq<char>) -> Seq<char> {
    "reference codebase indexing requires an approved repo; repo "@ + hyphenated(repo) + " is "@
        + status
}

/// What is said where there is nothing to focus on.
pub open spec fn nothing_approved() -> Seq<char> {
    "algorithm_focused reference codebase indexing requires at least one approved code artifact"@
}

/// Where the task stands when the chunk in hand is the `i`-th of `n`.
pub open spec fn stage_at_chunk(i: int, n: int) -> IndexStage {
    if i < n {
        IndexStage::EnteringChunk
    } else {
        IndexStage::Completing
    }
}

impl IndexRun {
    /// The task can be in this state.
    pub open spec fn wf(self) -> bool {
        &&& self.chunk <= self.chunks
        &&& (self.stage == IndexStage::EnteringChunk || self.stage == IndexStage::Embedding
            || self.stage == IndexStage::Inserting) ==> self.chunk < self.chunks
        &&& (self.stage == IndexStage::Completing || self.stage == IndexStage::Finished)
            ==> self.chunk == self.chunks
        &&& self.stage == IndexStage::Persisting ==> self.chunk == 0
        &&& self.stage == IndexStage::EnteringPersist ==> self.chunk == 0
    }

    /// The event can happen in this state.
    pub open spec fn expects(self, event: IndexEvent) -> bool {
        match event {
            IndexEvent::Gate { .. } => self.stage == IndexStage::Entering || self.stage
                == IndexStage::EnteringSnapshot || self.stage == IndexStage::EnteringScan
                || self.stage == IndexStage::EnteringPersist || self.stage
                == IndexStage::EnteringChunk,
            IndexEvent::Connected { .. } => self.stage == IndexStage::Connecting,
            IndexEvent::ReposLoaded { .. } => self.stage == IndexStage::LoadingRepos,
            IndexEvent::ArtifactsLoaded { .. } => self.stage == IndexStage::LoadingArtifacts,
            IndexEvent::SnapshotTaken { .. } => self.stage == IndexStage::TakingSnapshot,
            IndexEvent::PathSeen { .. } => self.stage == IndexStage::LookingAtPath,
            IndexEvent::IndexStarted { .. } => self.stage == IndexStage::StartingIndex,
            IndexEvent::CapRead { .. } => self.stage == IndexStage::ReadingCap,
            IndexEvent::Built { .. } => self.stage == IndexStage::Building,
            IndexEvent::FailureRecorded => self.stage == IndexStage::RecordingFailure,
            IndexEvent::Persisted { .. } => self.stage == IndexStage::Persisting,
            IndexEvent::Embedded { .. } => self.stage == IndexStage::Embedding,
            IndexEvent::Inserted { .. } => self.stage == IndexStage::Inserting,
            IndexEvent::Completed { .. } => self.stage == IndexStage::Completing,
        }
    }

    /// The failure that an event causes: its sort and what it says.
    pub open spec fn fault(self, job: IndexJob, event: IndexEvent) -> Option<
        (FailureKind, Seq<char>),
    > {
        match event {
            IndexEvent::Connected { error: Some(e) } => match e {
                ConnectError::NoDatabaseUrl => Some(
                    (FailureKind::Process, "DATABASE_URL not set"@),
                ),
                ConnectError::Connect { error } => Some(
                    (FailureKind::Storage, "connect postgres: "@ + error@),
                ),
            },
            IndexEvent::ReposLoaded { rows: Err(e) } => Some(
                (FailureKind::Storage, "load document_repos: "@ + e@),
            ),
            IndexEvent::ReposLoaded { rows: Ok(v) } => match row_of(v@, job.repo_id, 0) {
                None => Some(
                    (
                        FailureKind::NotFound,
                        "document_repos row "@ + hyphenated(job.repo_id) + " not found"@,
                    ),
                ),
                Some(k) => if v@[k].status@ != "approved"@ {
                    Some((FailureKind::Process, not_approved(job.repo_id, v@[k].status@)))
                } else {
                    None
                },
            },
            IndexEvent::ArtifactsLoaded { rows: Err(e) } => Some(
                (FailureKind::Storage, "load code_artifacts: "@ + e@),
            ),
            IndexEvent::ArtifactsLoaded { rows: Ok(v) } => if job.mode
                == CodebaseIndexMode::AlgorithmFocused && approved_places(v@, job.repo_id).len()
                == 0 {
                Some((FailureKind::Process, nothing_approved()))
            } else {
                None
            },
            IndexEvent::SnapshotTaken { path: Err(e) } => Some(
                (FailureKind::Process, "code-analyzer snapshot failed: "@ + e@),
            ),
            IndexEvent::PathSeen { path, is_dir } => if !is_dir {
                Some(
                    (FailureKind::Process, "code-analyzer returned missing repo path: "@ + path@),
                )
            } else {
                None
            },
            IndexEvent::IndexStarted { error: Some(e) } => Some(
                (FailureKind::Storage, "start reference codebase index: "@ + e@),
            ),
            IndexEvent::FailureRecorded => Some((FailureKind::Process, self.complaint@)),
            IndexEvent::Persisted { error: Some(e) } => Some(
                (FailureKind::Storage, "persist reference codebase index: "@ + e@),
            ),
            IndexEvent::Persisted { error: None } => if job.settings.embedding_url is None {
                Some((FailureKind::Process, "EDGEQUAKE_CODE_EMBEDDING_URL not set"@))
            } else {
                None
            },
            IndexEvent::Embedded { error: Some(e) } => Some(
                (FailureKind::Process, "embed codebase chunk: "@ + e@),
            ),
            IndexEvent::Inserted { error: Some(e) } => Some(
                (FailureKind::Storage, "insert codebase embedding: "@ + e@),
            ),
            IndexEvent::Completed { error: Some(e) } => Some(
                (FailureKind::Storage, "complete reference codebase index: "@ + e@),
            ),
            _ => None,
        }
    }

    /// Where the task stands after an event.
    pub open spec fn stage_after(self, job: IndexJob, event: IndexEvent) -> IndexStage {
        if self.fault(job, event) is Some {
            IndexStage::Failed
        } else {
            match event {
                IndexEvent::Gate { cancelled } => if cancelled {
                    IndexStage::Cancelled
                } else {
                    match self.stage {
                        IndexStage::Entering => IndexStage::Connecting,
                        IndexStage::EnteringSnapshot => IndexStage::TakingSnapshot,
                        IndexStage::EnteringScan => IndexStage::ReadingCap,
                        IndexStage::EnteringPersist => IndexStage::Persisting,
                        _ => IndexStage::Embedding,
                    }
                },
                IndexEvent::Connected { .. } => IndexStage::LoadingRepos,
                IndexEvent::ReposLoaded { .. } => IndexStage::LoadingArtifacts,
                IndexEvent::ArtifactsLoaded { .. } => IndexStage::EnteringSnapshot,
                IndexEvent::SnapshotTaken { .. } => IndexStage::LookingAtPath,
                IndexEvent::PathSeen { .. } => IndexStage::StartingIndex,
                IndexEvent::IndexStarted { .. } => IndexStage::EnteringScan,
                IndexEvent::CapRead { .. } => IndexStage::Building,
                IndexEvent::Built { counts } => if counts is Ok {
                    IndexStage::EnteringPersist
                } else {
                    IndexStage::RecordingFailure
                },
                IndexEvent::FailureRecorded => IndexStage::Failed,
                IndexEvent::Persisted { .. } => stage_at_chunk(0, self.chunks as int),
                IndexEvent::Embedded { .. } => IndexStage::Inserting,
                IndexEvent::Inserted { .. } => stage_at_chunk(
                    self.chunk + 1,
                    self.chunks as int,
                ),
                IndexEvent::Completed { .. } => IndexStage::Finished,
            }
        }
    }

    /// What the task knows after an event.
    pub open spec fn follows(self, job: IndexJob, event: IndexEvent, next: IndexRun) -> bool {
        &&& next.stage == self.stage_after(job, event)
        &&& next.repo_url@ == (match event {
            IndexEvent::ReposLoaded { rows: Ok(v) } => match row_of(v@, job.repo_id, 0) {
                Some(k) => v@[k].url@,
                None => self.repo_url@,
            },
            _ => self.repo_url@,
        })
        &&& next.artifacts@ == (match event {
            IndexEvent::ArtifactsLoaded { rows: Ok(v) } => approved_places(v@, job.repo_id),
            _ => self.artifacts@,
        })
        &&& next.complaint@ == (match event {
            IndexEvent::Built { counts: Err(e) } => e@,
            _ => self.complaint@,
        })
        &&& next.chunks == (match event {
            IndexEvent::Built { counts: Ok(c) } => c.chunks,
            _ => self.chunks,
        })
        &&& next.chunk == (match event {
            IndexEvent::Built { counts: Ok(_) } => 0,
            IndexEvent::Inserted { error: None } => self.chunk + 1,
            _ => self.chunk as int,
        })
    }

    /// The name under which a stage asks whether the task was cancelled.
    pub open spec fn gate_name(stage: IndexStage) -> Seq<char> {
        match stage {
            IndexStage::EnteringSnapshot => "reference_codebase_snapshot"@,
            IndexStage::EnteringScan => "reference_codebase_scanning"@,
            IndexStage::EnteringPersist => "reference_codebase_persisting"@,
            _ => "reference_codebase_embedding"@,
        }
    }

    /// What to do after an event.
    pub open spec fn orders(
        self,
        job: IndexJob,
        event: IndexEvent,
        next: IndexRun,
        todo: IndexTodo,
    ) -> bool {
        match next.stage {
            IndexStage::Entering => false,
            IndexStage::Connecting => todo is Connect,
            IndexStage::LoadingRepos => todo is LoadRepos,
            IndexStage::LoadingArtifacts => todo is LoadArtifacts,
            IndexStage::EnteringSnapshot | IndexStage::EnteringScan
            | IndexStage::EnteringPersist | IndexStage::EnteringChunk => todo
                matches IndexTodo::CheckCancelled { stage } && stage@ == Self::gate_name(
                next.stage,
            ),
            IndexStage::TakingSnapshot => todo matches IndexTodo::TakeSnapshot { request }
                && request.repo_url@ == self.repo_url@ && request.repo_commit@ == "HEAD"@
                && request.size_cap_mb == number_setting(opt_view(job.settings.max_repo_mb), 500)
                && request.timeout_s == number_setting(
                opt_view(job.settings.snapshot_timeout_s),
                300,
            ),
            IndexStage::LookingAtPath => event matches IndexEvent::SnapshotTaken { path: Ok(p) }
                && todo matches IndexTodo::LookAtPath { path } && path@ == p@,
            IndexStage::StartingIndex => todo is StartIndex,
            IndexStage::ReadingCap => todo is ReadCap,
            IndexStage::Building => event matches IndexEvent::CapRead { cap } && todo
                matches IndexTodo::Build { max_files } && max_files == (match cap {
                Some(c) => if wrapped_size(c) < job.file_limit {
                    wrapped_size(c)
                } else {
                    job.file_limit as int
                },
                None => job.file_limit as int,
            }),
            IndexStage::RecordingFailure => todo matches IndexTodo::RecordFailure { message }
                && message@ == next.complaint@,
            IndexStage::Persisting => todo is Persist,
            IndexStage::Embedding => todo == (IndexTodo::Embed { chunk: self.chunk }),
            IndexStage::Inserting => todo == (IndexTodo::Insert { chunk: self.chunk }),
            IndexStage::Completing => todo is Complete,
            IndexStage::Finished => todo == (IndexTodo::Finish { embedded: self.chunks }),
            IndexStage::Failed => todo matches IndexTodo::Fail { failure } && self.fault(
                job,
                event,
            ) matches Some((kind, message)) && failure.says(kind, message),
            IndexStage::Cancelled => todo is Cancel,
        }
    }

    /// What the record of the index says after an event.
    pub open spec fn status_after(self, job: IndexJob, event: IndexEvent) -> Option<
        CodebaseIndexStatus,
    > {
        match event {
            IndexEvent::IndexStarted { error: None } => Some(CodebaseIndexStatus::Scanning),
            IndexEvent::Built { counts: Ok(_) } => Some(CodebaseIndexStatus::Chunking),
            IndexEvent::Persisted { error: None } => Some(CodebaseIndexStatus::Embedding),
            _ => None,
        }
    }

    /// The progress that is reported after an event.
    pub open spec fn progress_after(self, job: IndexJob, event: IndexEvent) -> Seq<
        (Seq<char>, u32, u8),
    > {
        match event {
            IndexEvent::Gate { cancelled: false } => match self.stage {
                IndexStage::Entering => seq![("reference_codebase_start"@, 5u32, 5u8)],
                IndexStage::EnteringSnapshot => seq![("reference_codebase_snapshot"@, 5u32, 15u8)],
                IndexStage::EnteringScan => seq![("reference_codebase_scanning"@, 5u32, 30u8)],
                IndexStage::EnteringPersist => seq![
                    ("reference_codebase_persisting"@, 5u32, 55u8),
                ],
                _ => Seq::empty(),
            },
            IndexEvent::Persisted { error: None } => seq![
                ("reference_codebase_embedding"@, 5u32, 70u8),
            ],
            IndexEvent::Completed { error: None } => seq![("completed"@, 5u32, 100u8)],
            _ => Seq::empty(),
        }
    }

    /// A new task. The first thing to do is to ask whether it was cancelled.
    pub fn new() -> (r: Self)
        ensures
            r.wf(),
            r.stage == IndexStage::Entering,
            r.repo_url@.len() == 0,
            r.artifacts@.len() == 0,
            r.complaint@.len() == 0,
            r.chunks == 0,
            r.chunk == 0,
    {
        IndexRun {
            stage: IndexStage::Entering,
            repo_url: String::new(),
            artifacts: Vec::new(),
            complaint: String::new(),
            chunks: 0,
            chunk: 0,
        }
    }

    fn fail(&mut self, kind: FailureKind, message: String) -> (todo: IndexTodo)
        ensures
            *final(self) == (IndexRun { stage: IndexStage::Failed, ..*old(self) }),
            todo matches IndexTodo::Fail { failure } && failure.says(kind, message@),
    {
        self.stage = IndexStage::Failed;
        IndexTodo::Fail { failure: TaskFailure::new(kind, message) }
    }

    fn gate(&mut self, job: &IndexJob) -> (r: (Vec<Progress>, IndexTodo))
        requires
            old(self).wf(),
            old(self).expects(IndexEvent::Gate { cancelled: false }),
        ensures
            final(self).wf(),
            old(self).follows(*job, IndexEvent::Gate { cancelled: false }, *final(self)),
            old(self).orders(*job, IndexEvent::Gate { cancelled: false }, *final(self), r.1),
            progress_views(r.0@) == old(self).progress_after(
                *job,
                IndexEvent::Gate { cancelled: false },
            ),
    {
        match self.stage {
            IndexStage::Entering => {
                self.stage = IndexStage::Connecting;
                (mark("reference_codebase_start", 5, 5), IndexTodo::Connect)
            },
            IndexStage::EnteringSnapshot => {
                self.stage = IndexStage::TakingSnapshot;
                let request = snapshot_request(self.repo_url.as_str(), &job.settings);
                (mark("reference_codebase_snapshot", 5, 15), IndexTodo::TakeSnapshot { request })
            },
            IndexStage::EnteringScan => {
                self.stage = IndexStage::ReadingCap;
                (mark("reference_codebase_scanning", 5, 30), IndexTodo::ReadCap)
            },
            IndexStage::EnteringPersist => {
                self.stage = IndexStage::Persisting;
                (mark("reference_codebase_persisting", 5, 55), IndexTodo::Persist)
            },
            _ => {
                self.stage = IndexStage::Embedding;
                let nothing: Vec<Progress> = Vec::new();
                assert(progress_views(nothing@) =~= Seq::<(Seq<char>, u32, u8)>::empty());
                (nothing, IndexTodo::Embed { chunk: self.chunk })
            },
        }
    }

    fn repos_loaded(&mut self, job: &IndexJob, rows: Result<Vec<RepoRow>, String>) -> (todo:
        IndexTodo)
        requires
            old(self).wf(),
            old(self).expects(IndexEvent::ReposLoaded { rows }),
        ensures
            final(self).wf(),
            old(self).follows(*job, IndexEvent::ReposLoaded { rows }, *final(self)),
            old(self).orders(*job, IndexEvent::ReposLoaded { rows }, *final(self), todo),
    {
        match &rows {
            Err(e) => self.fail(FailureKind::Storage, cat("load document_repos: ", e.as_str())),
            Ok(v) => match find_repo(v, job.repo_id) {
                None => self.fail(
                    FailureKind::NotFound,
                    cat3("document_repos row ", uuid_text(job.repo_id).as_str(), " not found"),
                ),
                Some(k) => {
                    self.repo_url = v[k].url.clone();
                    if !same_str(v[k].status.as_str(), "approved") {
                        let message = cat4(
                            "reference codebase indexing requires an approved repo; repo ",
                            uuid_text(job.repo_id).as_str(),
                            " is ",
                            v[k].status.as_str(),
                        );
                        return self.fail(FailureKind::Process, message);
                    }
                    self.stage = IndexStage::LoadingArtifacts;
                    IndexTodo::LoadArtifacts
                },
            },
        }
    }

    fn artifacts_loaded(&mut self, job: &IndexJob, rows: Result<Vec<ArtifactRow>, String>) -> (todo:
        IndexTodo)
        requires
            old(self).wf(),
            old(self).expects(IndexEvent::ArtifactsLoaded { rows }),
        ensures
            final(self).wf(),
            old(self).follows(*job, IndexEvent::ArtifactsLoaded { rows }, *final(self)),
            old(self).orders(*job, IndexEvent::ArtifactsLoaded { rows }, *final(self), todo),
    {
        match &rows {
            Err(e) => self.fail(FailureKind::Storage, cat("load code_artifacts: ", e.as_str())),
            Ok(v) => {
                self.artifacts = approved_artifacts(v, job.repo_id);
                if job.mode == CodebaseIndexMode::AlgorithmFocused && self.artifacts.len() == 0 {
                    return self.fail(
                        FailureKind::Process,
                        "algorithm_focused reference codebase indexing requires at least one approved code artifact".to_owned(),
                    );
                }
                self.stage = IndexStage::EnteringSnapshot;
                IndexTodo::CheckCancelled { stage: "reference_codebase_snapshot" }
            },
        }
    }

    /// Turns to the chunk in hand, or completes the index.
    fn at_chunk(&mut self) -> (todo: IndexTodo)
        requires
            old(self).chunk <= old(self).chunks,
        ensures
            *final(self) == (IndexRun {
                stage: stage_at_chunk(old(self).chunk as int, old(self).chunks as int),
                ..*old(self)
            }),
            old(self).chunk < old(self).chunks ==> (todo
                matches IndexTodo::CheckCancelled { stage } && stage@
                == "reference_codebase_embedding"@),
            old(self).chunk >= old(self).chunks ==> todo is Complete,
    {
        if self.chunk < self.chunks {
            self.stage = IndexStage::EnteringChunk;
            IndexTodo::CheckCancelled { stage: "reference_codebase_embedding" }
        } else {
            self.stage = IndexStage::Completing;
            IndexTodo::Complete
        }
    }

    fn embedding_step(&mut self, job: &IndexJob, event: IndexEvent) -> (todo: IndexTodo)
        requires
            old(self).wf(),
            old(self).expects(event),
            event is Persisted || event is Embedded || event is Inserted || event is Completed,
        ensures
            final(self).wf(),
            old(self).follows(*job, event, *final(self)),
            old(self).orders(*job, event, *final(self), todo),
    {
        match &event {
            IndexEvent::Persisted { error } => match error {
                Some(e) => self.fail(
                    FailureKind::Storage,
                    cat("persist reference codebase index: ", e.as_str()),
                ),
                None => {
                    if job.settings.embedding_url.is_none() {
                        return self.fail(
                            FailureKind::Process,
                            "EDGEQUAKE_CODE_EMBEDDING_URL not set".to_owned(),
                        );
                    }
                    self.at_chunk()
                },
            },
            IndexEvent::Embedded { error } => match error {
                Some(e) => self.fail(
                    FailureKind::Process,
                    cat("embed codebase chunk: ", e.as_str()),
                ),
                None => {
                    self.stage = IndexStage::Inserting;
                    IndexTodo::Insert { chunk: self.chunk }
                },
            },
            IndexEvent::Inserted { error } => match error {
                Some(e) => self.fail(
                    FailureKind::Storage,
                    cat("insert codebase embedding: ", e.as_str()),
                ),
                None => {
                    self.chunk = self.chunk + 1;
                    self.at_chunk()
                },
            },
            IndexEvent::Completed { error: Some(e) } => self.fail(
                FailureKind::Storage,
                cat("complete reference codebase index: ", e.as_str()),
            ),
            _ => {
                self.stage = IndexStage::Finished;
                IndexTodo::Finish { embedded: self.chunks }
            },
        }
    }

    fn preparing_step(&mut self, job: &IndexJob, event: IndexEvent) -> (todo: IndexTodo)
        requires
            old(self).wf(),
            old(self).expects(event),
            event is Connected || event is SnapshotTaken || event is PathSeen || event
                is IndexStarted || event is CapRead || event is Built || event is FailureRecorded,
        ensures
            final(self).wf(),
            old(self).follows(*job, event, *final(self)),
            old(self).orders(*job, event, *final(self), todo),
    {
        match &event {
            IndexEvent::Connected { error } => match error {
                Some(ConnectError::NoDatabaseUrl) => self.fail(
                    FailureKind::Process,
                    "DATABASE_URL not set".to_owned(),
                ),
                Some(ConnectError::Connect { error }) => self.fail(
                    FailureKind::Storage,
                    cat("connect postgres: ", error.as_str()),
                ),
                None => {
                    self.stage = IndexStage::LoadingRepos;
                    IndexTodo::LoadRepos
                },
            },
            IndexEvent::SnapshotTaken { path } => match path {
                Err(e) => self.fail(
                    FailureKind::Process,
                    cat("code-analyzer snapshot failed: ", e.as_str()),
                ),
                Ok(p) => {
                    self.stage = IndexStage::LookingAtPath;
                    IndexTodo::LookAtPath { path: p.clone() }
                },
            },
            IndexEvent::PathSeen { path, is_dir } => {
                if !*is_dir {
                    return self.fail(
                        FailureKind::Process,
                        cat("code-analyzer returned missing repo path: ", path.as_str()),
                    );
                }
                self.stage = IndexStage::StartingIndex;
                IndexTodo::StartIndex
            },
            IndexEvent::IndexStarted { error } => match error {
                Some(e) => self.fail(
                    FailureKind::Storage,
                    cat("start reference codebase index: ", e.as_str()),
                ),
                None => {
                    self.stage = IndexStage::EnteringScan;
                    IndexTodo::CheckCancelled { stage: "reference_codebase_scanning" }
                },
            },
            IndexEvent::CapRead { cap } => {
                self.stage = IndexStage::Building;
                IndexTodo::Build { max_files: max_files(job.file_limit, *cap) }
            },
            IndexEvent::Built { counts } => match counts {
                Ok(c) => {
                    self.chunks = c.chunks;
                    self.chunk = 0;
                    self.stage = IndexStage::EnteringPersist;
                    IndexTodo::CheckCancelled { stage: "reference_codebase_persisting" }
                },
                Err(e) => {
                    self.complaint = e.clone();
                    self.stage = IndexStage::RecordingFailure;
                    IndexTodo::RecordFailure { message: e.clone() }
                },
            },
            _ => {
                let message = self.complaint.clone();
                self.fail(FailureKind::Process, message)
            },
        }
    }

    /// Takes in what happened and says what to record, to report and to do next.
    pub fn step(&mut self, job: &IndexJob, event: IndexEvent) -> (d: IndexDirective)
        requires
            old(self).wf(),
            old(self).expects(event),
        ensures
            final(self).wf(),
            old(self).follows(*job, event, *final(self)),
            old(self).orders(*job, event, *final(self), d.todo),
            d.status == old(self).status_after(*job, event),
            progress_views(d.progress@) == old(self).progress_after(*job, event),
    {
        let nothing: Vec<Progress> = Vec::new();
        assert(progress_views(nothing@) =~= Seq::<(Seq<char>, u32, u8)>::empty());
        match event {
            IndexEvent::Gate { cancelled } => {
                if cancelled {
                    self.stage = IndexStage::Cancelled;
                    return IndexDirective {
                        status: None,
                        progress: nothing,
                        todo: IndexTodo::Cancel,
                    };
                }
                let (progress, todo) = self.gate(job);
                IndexDirective { status: None, progress, todo }
            },
            IndexEvent::ReposLoaded { rows } => {
                let todo = self.repos_loaded(job, rows);
                IndexDirective { status: None, progress: nothing, todo }
            },
            IndexEvent::ArtifactsLoaded { rows } => {
                let todo = self.artifacts_loaded(job, rows);
                IndexDirective { status: None, progress: nothing, todo }
            },
            IndexEvent::IndexStarted { error } => {
                let status = if error.is_none() {
                    Some(CodebaseIndexStatus::Scanning)
                } else {
                    None
                };
                let todo = self.preparing_step(job, IndexEvent::IndexStarted { error });
                IndexDirective { status, progress: nothing, todo }
            },
            IndexEvent::Built { counts } => {
                let status = if counts.is_ok() {
                    Some(CodebaseIndexStatus::Chunking)
                } else {
                    None
                };
                let todo = self.preparing_step(job, IndexEvent::Built { counts });
                IndexDirective { status, progress: nothing, todo }
            },
            IndexEvent::Persisted { error } => {
                let fine = error.is_none();
                let todo = self.embedding_step(job, IndexEvent::Persisted { error });
                if fine {
                    IndexDirective {
                        status: Some(CodebaseIndexStatus::Embedding),
                        progress: mark("reference_codebase_embedding", 5, 70),
                        todo,
                    }
                } else {
                    IndexDirective { status: None, progress: nothing, todo }
                }
            },
            IndexEvent::Completed { error } => {
                let fine = error.is_none();
                let todo = self.embedding_step(job, IndexEvent::Completed { error });
                if fine {
                    IndexDirective { status: None, progress: mark("completed", 5, 100), todo }
                } else {
                    IndexDirective { status: None, progress: nothing, todo }
                }
            },
            IndexEvent::Embedded { error } => {
                let todo = self.embedding_step(job, IndexEvent::Embedded { error });
                IndexDirective { status: None, progress: nothing, todo }
            },
            IndexEvent::Inserted { error } => {
                let todo = self.embedding_step(job, IndexEvent::Inserted { error });
                IndexDirective { status: None, progress: nothing, todo }
            },
            other => {
                let todo = self.preparing_step(job, other);
                IndexDirective { status: None, progress: nothing, todo }
            },
        }
    }
}

/// How far a stage is along the task.
pub open spec fn index_rank(stage: IndexStage) -> int {
    match stage {
        IndexStage::Entering => 0,
        IndexStage::Connecting => 1,
        IndexStage::LoadingRepos => 2,
        IndexStage::LoadingArtifacts => 3,
        IndexStage::EnteringSnapshot => 4,
        IndexStage::TakingSnapshot => 5,
        IndexStage::LookingAtPath => 6,
        IndexStage::StartingIndex => 7,
        IndexStage::EnteringScan => 8,
        IndexStage::ReadingCap => 9,
        IndexStage::Building => 10,
        IndexStage::RecordingFailure => 11,
        IndexStage::EnteringPersist => 11,
        IndexStage::Persisting => 12,
        IndexStage::EnteringChunk => 13,
        IndexStage::Embedding => 14,
        IndexStage::Inserting => 15,
        IndexStage::Completing => 16,
        _ => 17,
    }
}

/// Every event takes the task to a later stage, or to the next chunk; so the task
/// ends, and when it ends well every chunk was embedded.
pub proof fn law_indexing_advances(run: IndexRun, job: IndexJob, event: IndexEvent, next: IndexRun)
    requires
        run.wf(),
        run.expects(event),
        next.wf(),
        run.follows(job, event, next),
    ensures
        index_rank(next.stage) > index_rank(run.stage) || (event is Inserted && next.stage
            == IndexStage::EnteringChunk && next.chunk == run.chunk + 1 && next.chunk
            < next.chunks),
        next.stage == IndexStage::Finished ==> next.chunk == next.chunks,
{
}

/// The highest per cent that was reported when a stage is reached.
pub open spec fn index_floor(stage: IndexStage) -> int {
    let r = index_rank(stage);
    if stage == IndexStage::Finished {
        100
    } else if r >= 13 {
        70
    } else if r >= 12 {
        55
    } else if r >= 9 {
        30
    } else if r >= 5 {
        15
    } else if r >= 1 {
        5
    } else {
        0
    }
}

/// The reported progress never goes back.
pub proof fn law_indexing_progress(run: IndexRun, job: IndexJob, event: IndexEvent, next: IndexRun)
    requires
        run.wf(),
        run.expects(event),
        next.wf(),
        run.follows(job, event, next),
        next.stage != IndexStage::Failed,
        next.stage != IndexStage::Cancelled,
    ensures
        index_floor(run.stage) <= index_floor(next.stage),
        forall|k: int|
            0 <= k < run.progress_after(job, event).len() ==> index_floor(run.stage) < (
            #[trigger] run.progress_after(job, event)[k]).2 == index_floor(next.stage),
{
}

} // verus!
