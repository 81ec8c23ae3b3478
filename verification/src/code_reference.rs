//! Finding algorithms in the source code that a document refers to.
//!
//! An analyzer is given an approved repository and the approved algorithms of
//! the document. Each of its findings is checked and cut out of the code; what
//! cannot be cut out is dropped.

use vstd::prelude::*;

use crate::conversion::opt_view;
use crate::safety_limits::number_setting;
use crate::tasks::{
    and_mark, cat, cat4, hyphenated, mark, parse_uuid, progress_views, uuid_reading, uuid_text,
    FailureKind, Progress, TaskFailure,
};
use crate::text::{decimal, parse_number, put_decimal, put_str, string_of};

verus! {

broadcast use vstd::string::group_string_axioms;

// ---------------------------------------------------------------------------
// Repositories
// ---------------------------------------------------------------------------

/// A repository that a document refers to.
#[derive(Clone, Debug)]
pub struct RepoRow {
    pub id: u128,
    pub url: String,
    pub status: String,
}

/// The place of the first row with an id.
pub open spec fn row_of(rows: Seq<RepoRow>, id: u128, i: int) -> Option<int>
    decreases rows.len() - i,
{
    if i < 0 || i >= rows.len() {
        None
    } else if rows[i].id == id {
        Some(i)
    } else {
        row_of(rows, id, i + 1)
    }
}

/// The place of the first row with an id.
pub fn find_repo(rows: &Vec<RepoRow>, id: u128) -> (r: Option<usize>)
    ensures
        match r {
            Some(k) => row_of(rows@, id, 0) == Some(k as int) && k < rows@.len() && rows@[k as int].id
                == id,
            None => row_of(rows@, id, 0) is None,
        },
{
    let mut i: usize = 0;
    while i < rows.len()
        invariant
            i <= rows@.len(),
            row_of(rows@, id, 0) == row_of(rows@, id, i as int),
        decreases rows.len() - i,
    {
        if rows[i].id == id {
            return Some(i);
        }
        i = i + 1;
    }
    None
}

/// A row is found exactly if there is one with the id, and it is the first.
pub proof fn law_first_row_is_found(rows: Seq<RepoRow>, id: u128, i: int)
    requires
        0 <= i <= rows.len(),
    ensures
        match row_of(rows, id, i) {
            Some(k) => i <= k < rows.len() && rows[k].id == id && forall|j: int|
                i <= j < k ==> (#[trigger] rows[j]).id != id,
            None => forall|j: int| i <= j < rows.len() ==> (#[trigger] rows[j]).id != id,
        },
    decreases rows.len() - i,
{
    if i < rows.len() && rows[i].id != id {
        law_first_row_is_found(rows, id, i + 1);
    }
}

// ---------------------------------------------------------------------------
// The request
// ---------------------------------------------------------------------------

/// An approved algorithm of the document.
#[derive(Clone, Debug)]
pub struct ApprovedAlgorithm {
    pub id: u128,
    pub name: String,
    pub description: Option<String>,
    pub pseudocode: Option<String>,
}

/// An algorithm as the analyzer is told of it.
#[derive(Clone, Debug)]
pub struct AnalyzerAlgorithm {
    pub id: String,
    pub name: String,
    pub description: String,
    pub pseudocode: Option<String>,
}

/// The analyzer is told of this algorithm, by an id that reads back as its number.
pub open spec fn tells_of(told: AnalyzerAlgorithm, a: ApprovedAlgorithm) -> bool {
    &&& told.id@ == hyphenated(a.id)
    &&& uuid_reading(told.id@) == Ok::<u128, Seq<char>>(a.id)
    &&& told.name@ == a.name@
    &&& told.description@ == (match a.description {
        Some(d) => d@,
        None => Seq::empty(),
    })
    &&& opt_view(told.pseudocode) == opt_view(a.pseudocode)
}

fn told_of(a: &ApprovedAlgorithm) -> (r: AnalyzerAlgorithm)
    ensures
        tells_of(r, *a),
{
    AnalyzerAlgorithm {
        id: uuid_text(a.id),
        name: a.name.clone(),
        description: match &a.description {
            Some(d) => d.clone(),
            None => String::new(),
        },
        pseudocode: match &a.pseudocode {
            Some(p) => Some(p.clone()),
            None => None,
        },
    }
}

/// What the analyzer is asked.
#[derive(Clone, Debug)]
pub struct AnalyzerRequest {
    pub repo_url: String,
    pub repo_commit: String,
    pub algorithms: Vec<AnalyzerAlgorithm>,
    pub size_cap_mb: u64,
    pub timeout_s: u64,
    pub model: Option<String>,
}

/// The settings of the request, as the environment gives them.
#[derive(Clone, Debug)]
pub struct AnalyzerSettings {
    pub max_repo_mb: Option<String>,
    pub timeout_s: Option<String>,
    pub model: Option<String>,
}

fn setting_or(setting: &Option<String>, default: u64) -> (r: u64)
    ensures
        r == number_setting(opt_view(*setting), default as int),
{
    match setting {
        Some(s) => match parse_number(s.as_str()) {
            Some(n) => n,
            None => default,
        },
        None => default,
    }
}

/// The request is about these algorithms in this repository.
pub open spec fn asks(
    r: AnalyzerRequest,
    url: Seq<char>,
    algorithms: Seq<ApprovedAlgorithm>,
    settings: AnalyzerSettings,
) -> bool {
    &&& r.repo_url@ == url
    &&& r.repo_commit@ == "HEAD"@
    &&& r.algorithms@.len() == algorithms.len()
    &&& forall|i: int|
        0 <= i < algorithms.len() ==> tells_of(#[trigger] r.algorithms@[i], algorithms[i])
    &&& r.size_cap_mb == number_setting(opt_view(settings.max_repo_mb), 500)
    &&& r.timeout_s == number_setting(opt_view(settings.timeout_s), 600)
    &&& opt_view(r.model) == opt_view(settings.model)
}

/// What to ask the analyzer.
pub fn analyzer_request(
    url: &str,
    algorithms: &Vec<ApprovedAlgorithm>,
    settings: &AnalyzerSettings,
) -> (r: AnalyzerRequest)
    ensures
        asks(r, url@, algorithms@, *settings),
{
    let mut told: Vec<AnalyzerAlgorithm> = Vec::new();
    let mut i: usize = 0;
    while i < algorithms.len()
        invariant
            i <= algorithms@.len(),
            told@.len() == i,
            forall|k: int| 0 <= k < i ==> tells_of(#[trigger] told@[k], algorithms@[k]),
        decreases algorithms.len() - i,
    {
        told.push(told_of(&algorithms[i]));
        i = i + 1;
    }
    AnalyzerRequest {
        repo_url: url.to_owned(),
        repo_commit: "HEAD".to_owned(),
        algorithms: told,
        size_cap_mb: setting_or(&settings.max_repo_mb, 500),
        timeout_s: setting_or(&settings.timeout_s, 600),
        model: match &settings.model {
            Some(m) => Some(m.clone()),
            None => None,
        },
    }
}

/// Why the analyzer did not answer.
#[derive(Clone, Debug)]
pub enum AnalyzerError {
    Status { status: u16, body: String },
    Other { error: String },
}

impl AnalyzerError {
    pub open spec fn message(self) -> Seq<char> {
        match self {
            AnalyzerError::Status { status, body } => "code-analyzer returned "@ + decimal(
                status as nat,
            ) + ": "@ + body@,
            AnalyzerError::Other { error } => "code-analyzer error: "@ + error@,
        }
    }

    pub fn text(&self) -> (r: String)
        ensures
            r@ == self.message(),
    {
        match self {
            AnalyzerError::Status { status, body } => {
                let mut out = crate::text::chars_of("code-analyzer returned ");
                put_decimal(*status as u64, &mut out);
                put_str(": ", &mut out);
                put_str(body.as_str(), &mut out);
                string_of(&out)
            },
            AnalyzerError::Other { error } => cat("code-analyzer error: ", error.as_str()),
        }
    }
}

// ---------------------------------------------------------------------------
// Findings
// ---------------------------------------------------------------------------

/// How sure the analyzer is.
#[derive(Clone, Copy, Debug, PartialEq, Eq, Structural)]
pub enum MatchConfidence {
    High,
    Medium,
    Low,
}

/// Where the analyzer found an algorithm.
#[derive(Clone, Debug)]
pub struct Finding {
    pub algorithm_id: String,
    pub file: String,
    pub start_line: u64,
    pub end_line: u64,
    /// Nothing if the analyzer did not say how sure it is in a known word.
    pub confidence: Option<MatchConfidence>,
    pub rationale: String,
}

/// What the analyzer answered.
#[derive(Clone, Debug)]
pub struct AnalyzerReply {
    pub repo_commit: String,
    pub repo_license: Option<String>,
    pub findings: Vec<Finding>,
}

/// A piece of code that implements an algorithm.
#[derive(Clone, Debug)]
pub struct CodeArtifact {
    pub algorithm_id: u128,
    pub document_repo_id: u128,
    pub repo_commit: String,
    pub repo_license: Option<String>,
    pub language: String,
    pub file_path: String,
    pub start_line: u64,
    pub end_line: u64,
    pub snippet: String,
    pub match_rationale: String,
    pub match_confidence: MatchConfidence,
}

/// What a piece of code is, as a mathematical value.
#[verifier::ext_equal]
pub struct ArtifactModel {
    pub algorithm_id: u128,
    pub document_repo_id: u128,
    pub repo_commit: Seq<char>,
    pub repo_license: Option<Seq<char>>,
    pub language: Seq<char>,
    pub file_path: Seq<char>,
    pub start_line: u64,
    pub end_line: u64,
    pub snippet: Seq<char>,
    pub match_rationale: Seq<char>,
    pub match_confidence: MatchConfidence,
}

impl View for CodeArtifact {
    type V = ArtifactModel;

    open spec fn view(&self) -> ArtifactModel {
        ArtifactModel {
            algorithm_id: self.algorithm_id,
            document_repo_id: self.document_repo_id,
            repo_commit: self.repo_commit@,
            repo_license: opt_view(self.repo_license),
            language: self.language@,
            file_path: self.file_path@,
            start_line: self.start_line,
            end_line: self.end_line,
            snippet: self.snippet@,
            match_rationale: self.match_rationale@,
            match_confidence: self.match_confidence,
        }
    }
}

/// The views of a list of pieces.
pub open spec fn artifact_views(v: Seq<CodeArtifact>) -> Seq<ArtifactModel> {
    v.map_values(|a: CodeArtifact| a@)
}

/// The piece of code of a finding.
pub open spec fn artifact_of(
    repo: u128,
    reply: AnalyzerReply,
    f: Finding,
    algorithm: u128,
    language: Seq<char>,
    snippet: Seq<char>,
) -> ArtifactModel {
    ArtifactModel {
        algorithm_id: algorithm,
        document_repo_id: repo,
        repo_commit: reply.repo_commit@,
        repo_license: opt_view(reply.repo_license),
        language,
        file_path: f.file@,
        start_line: f.start_line,
        end_line: f.end_line,
        snippet,
        match_rationale: f.rationale@,
        match_confidence: match f.confidence {
            Some(c) => c,
            None => MatchConfidence::Medium,
        },
    }
}

/// A finding names an algorithm.
pub open spec fn named(f: Finding) -> bool {
    uuid_reading(f.algorithm_id@) is Ok
}

/// The first finding from `i` on that names an algorithm.
pub open spec fn next_named(findings: Seq<Finding>, i: int) -> int
    decreases findings.len() - i,
{
    if 0 <= i < findings.len() && !named(findings[i]) {
        next_named(findings, i + 1)
    } else {
        i
    }
}

/// Cutting the findings of a reply out of the code.
#[derive(Clone, Debug)]
pub struct SnippetRun {
    /// The finding in hand.
    pub finding: usize,
    pub dropped: usize,
    pub artifacts: Vec<CodeArtifact>,
}

impl SnippetRun {
    /// Every finding so far was either kept or dropped.
    pub open spec fn wf(self, findings: Seq<Finding>) -> bool {
        &&& self.finding <= findings.len()
        &&& self.dropped + self.artifacts@.len() == self.finding
        &&& self.finding < findings.len() ==> named(findings[self.finding as int])
    }

    fn seek(&mut self, findings: &Vec<Finding>)
        requires
            old(self).finding <= findings@.len(),
            old(self).dropped + old(self).artifacts@.len() == old(self).finding,
        ensures
            final(self).wf(findings@),
            final(self).finding == next_named(findings@, old(self).finding as int),
            final(self).artifacts == old(self).artifacts,
    {
        let ghost from = self.finding as int;
        let ghost kept = self.artifacts;
        while self.finding < findings.len() && parse_uuid(
            findings[self.finding].algorithm_id.as_str(),
        ).is_err()
            invariant
                self.finding <= findings@.len(),
                self.dropped + self.artifacts@.len() == self.finding,
                self.artifacts == kept,
                next_named(findings@, from) == next_named(findings@, self.finding as int),
            decreases findings.len() - self.finding,
        {
            self.finding = self.finding + 1;
            self.dropped = self.dropped + 1;
        }
    }

    /// Starts with the first finding that names an algorithm.
    pub fn start(findings: &Vec<Finding>) -> (r: Self)
        ensures
            r.wf(findings@),
            r.finding == next_named(findings@, 0),
            r.artifacts@.len() == 0,
    {
        let mut r = SnippetRun { finding: 0, dropped: 0, artifacts: Vec::new() };
        r.seek(findings);
        r
    }

    /// Takes in the code of the finding in hand, in which language it is, or that
    /// it could not be read, and turns to the next finding that names an
    /// algorithm.
    pub fn step(
        &mut self,
        repo: u128,
        reply: &AnalyzerReply,
        snippet: Option<String>,
        language: &str,
    )
        requires
            old(self).wf(reply.findings@),
            old(self).finding < reply.findings@.len(),
        ensures
            final(self).wf(reply.findings@),
            final(self).finding == next_named(reply.findings@, old(self).finding + 1),
            match snippet {
                None => artifact_views(final(self).artifacts@) == artifact_views(
                    old(self).artifacts@,
                ),
                Some(s) => uuid_reading(
                    reply.findings@[old(self).finding as int].algorithm_id@,
                ) matches Ok(v) && artifact_views(final(self).artifacts@) == artifact_views(
                    old(self).artifacts@,
                ).push(
                    artifact_of(
                        repo,
                        *reply,
                        reply.findings@[old(self).finding as int],
                        v,
                        language@,
                        s@,
                    ),
                ),
            },
    {
        let ghost before = artifact_views(self.artifacts@);
        let len = reply.findings.len();
        assert(self.finding < len);
        let f = &reply.findings[self.finding];
        let mut kept = false;
        if let Some(s) = snippet {
            if let Ok(v) = parse_uuid(f.algorithm_id.as_str()) {
                let a = CodeArtifact {
                    algorithm_id: v,
                    document_repo_id: repo,
                    repo_commit: reply.repo_commit.clone(),
                    repo_license: match &reply.repo_license {
                        Some(l) => Some(l.clone()),
                        None => None,
                    },
                    language: language.to_owned(),
                    file_path: f.file.clone(),
                    start_line: f.start_line,
                    end_line: f.end_line,
                    snippet: s,
                    match_rationale: f.rationale.clone(),
                    match_confidence: match f.confidence {
                        Some(c) => c,
                        None => MatchConfidence::Medium,
                    },
                };
                let ghost m = a@;
                self.artifacts.push(a);
                assert(artifact_views(self.artifacts@) =~= before.push(m));
                kept = true;
            }
        }
        if !kept {
            self.dropped = self.dropped + 1;
        }
        self.finding = self.finding + 1;
        self.seek(&reply.findings);
    }
}

/// A finding that gives back the id of an algorithm which the analyzer was asked
/// about names that algorithm.
pub proof fn law_ids_come_back(
    request: AnalyzerRequest,
    url: Seq<char>,
    algorithms: Seq<ApprovedAlgorithm>,
    settings: AnalyzerSettings,
    i: int,
    f: Finding,
)
    requires
        asks(request, url, algorithms, settings),
        0 <= i < algorithms.len(),
        f.algorithm_id@ == request.algorithms@[i].id@,
    ensures
        named(f),
        uuid_reading(f.algorithm_id@) == Ok::<u128, Seq<char>>(algorithms[i].id),
{
    assert(tells_of(request.algorithms@[i], algorithms[i]));
}

/// When every finding had its turn, each was either kept or dropped.
pub proof fn law_findings_kept_or_dropped(run: SnippetRun, findings: Seq<Finding>)
    requires
        run.wf(findings),
        run.finding == findings.len(),
    ensures
        run.artifacts@.len() + run.dropped == findings.len(),
{
}

// ---------------------------------------------------------------------------
// The task
// ---------------------------------------------------------------------------

/// Where the task stands.
#[derive(Clone, Copy, Debug, PartialEq, Eq, Structural)]
pub enum CodeRefStage {
    Entering,
    OpeningStores,
    LoadingRepos,
    LoadingAlgorithms,
    /// There is nothing to look for.
    ClosingEmpty,
    Analyzing,
    RecordingFailure,
    Extracting,
    Persisting,
    Closing,
    Finished,
    Failed,
    Cancelled,
}

/// What the record of the run says.
#[derive(Clone, Copy, Debug, PartialEq, Eq, Structural)]
pub enum RunStatus {
    Cloning,
    Analyzing,
    Embedding,
    AwaitingReview,
    Complete,
}

/// Which store could not be opened or read.
#[derive(Clone, Copy, Debug, PartialEq, Eq, Structural)]
pub enum StoreFault {
    CodeStorage,
    RepoStorage,
    LoadRepos,
    NoDatabaseUrl,
    Connect,
    ListAlgorithms,
    Persist,
    Close,
}

impl StoreFault {
    pub open spec fn kind(self) -> FailureKind {
        match self {
            StoreFault::CodeStorage => FailureKind::Process,
            StoreFault::RepoStorage => FailureKind::Process,
            StoreFault::NoDatabaseUrl => FailureKind::Process,
            _ => FailureKind::Storage,
        }
    }

    pub open spec fn message(self, error: Seq<char>) -> Seq<char> {
        match self {
            StoreFault::CodeStorage => "code storage: "@ + error,
            StoreFault::RepoStorage => "repo storage: "@ + error,
            StoreFault::LoadRepos => "load document_repos: "@ + error,
            StoreFault::NoDatabaseUrl => "DATABASE_URL not set"@,
            StoreFault::Connect => "connect postgres: "@ + error,
            StoreFault::ListAlgorithms => "list algorithms: "@ + error,
            StoreFault::Persist => "persist code_artifacts: "@ + error,
            StoreFault::Close => "close run: "@ + error,
        }
    }

    /// The failure of the task that a fault causes.
    pub fn failure(self, error: &str) -> (r: TaskFailure)
        ensures
            r.says(self.kind(), self.message(error@)),
    {
        match self {
            StoreFault::CodeStorage => TaskFailure::new(
                FailureKind::Process,
                cat("code storage: ", error),
            ),
            StoreFault::RepoStorage => TaskFailure::new(
                FailureKind::Process,
                cat("repo storage: ", error),
            ),
            StoreFault::LoadRepos => TaskFailure::new(
                FailureKind::Storage,
                cat("load document_repos: ", error),
            ),
            StoreFault::NoDatabaseUrl => TaskFailure::new(
                FailureKind::Process,
                "DATABASE_URL not set".to_owned(),
            ),
            StoreFault::Connect => TaskFailure::new(
                FailureKind::Storage,
                cat("connect postgres: ", error),
            ),
            StoreFault::ListAlgorithms => TaskFailure::new(
                FailureKind::Storage,
                cat("list algorithms: ", error),
            ),
            StoreFault::Persist => TaskFailure::new(
                FailureKind::Storage,
                cat("persist code_artifacts: ", error),
            ),
            StoreFault::Close => TaskFailure::new(
                FailureKind::Storage,
                cat("close run: ", error),
            ),
        }
    }
}

/// A fault, with what the store said.
#[derive(Clone, Debug)]
pub struct Fault {
    pub what: StoreFault,
    pub error: String,
}

/// What the task is about.
#[derive(Clone, Debug)]
pub struct CodeRefJob {
    pub document_id: String,
    pub repo_id: u128,
    pub settings: AnalyzerSettings,
}

/// The task of finding the algorithms of a document in a repository.
#[derive(Clone, Debug)]
pub struct CodeRefRun {
    pub stage: CodeRefStage,
    pub repo_url: String,
    pub algorithm_count: usize,
    /// What is said where the analyzer failed.
    pub complaint: String,
    pub reply: Option<AnalyzerReply>,
    pub snippets: SnippetRun,
}

/// What happened outside.
#[derive(Debug)]
pub enum CodeRefEvent {
    Gate { cancelled: bool },
    StoresOpened { fault: Option<Fault> },
    ReposLoaded { rows: Result<Vec<RepoRow>, Fault> },
    AlgorithmsLoaded { algorithms: Result<Vec<ApprovedAlgorithm>, Fault> },
    /// The empty run was closed, or could not be.
    EmptyClosed,
    Analyzed { reply: Result<AnalyzerReply, AnalyzerError> },
    /// The failure was recorded, or could not be.
    FailureRecorded,
    /// The code of the finding in hand, if it could be read, and its language.
    SnippetRead { snippet: Option<String>, language: String },
    Persisted { fault: Option<Fault> },
    Closed { fault: Option<Fault> },
}

/// What to do next.
#[derive(Clone, Debug)]
pub enum CodeRefTodo {
    OpenStores,
    LoadRepos,
    LoadAlgorithms,
    CloseEmpty,
    Analyze { request: AnalyzerRequest },
    RecordFailure { message: String },
    ReadSnippet { finding: usize },
    Persist,
    Close { algorithms: usize, findings: usize, status: RunStatus },
    FinishSkipped,
    Finish { algorithms: usize, findings: usize, dropped: usize },
    Fail { failure: TaskFailure },
    Cancel,
}

/// What to record and report, and what to do next.
#[derive(Clone, Debug)]
pub struct CodeRefDirective {
    /// What the record of the run should say, one after the other.
    pub statuses: Vec<RunStatus>,
    pub progress: Vec<Progress>,
    pub todo: CodeRefTodo,
}

/// The record of a run that found something awaits review.
pub open spec fn closing_status(findings: nat) -> RunStatus {
    if findings == 0 {
        RunStatus::Complete
    } else {
        RunStatus::AwaitingReview
    }
}

/// What is said where the repository is not among those of the document.
pub open spec fn missing_repo(job: CodeRefJob) -> Seq<char> {
    "document_repos row "@ + hyphenated(job.repo_id) + " not found for doc "@ + job.document_id@
}

impl CodeRefRun {
    /// The task can be in this state.
    pub open spec fn wf(self) -> bool {
        match self.stage {
            CodeRefStage::LoadingAlgorithms => true,
            CodeRefStage::Extracting => self.reply matches Some(r) && self.snippets.wf(r.findings@)
                && self.snippets.finding < r.findings@.len(),
            CodeRefStage::Persisting => self.reply matches Some(r) && self.snippets.wf(
                r.findings@,
            ) && self.snippets.finding == r.findings@.len(),
            CodeRefStage::Closing => self.reply matches Some(r) && self.snippets.wf(r.findings@)
                && self.snippets.finding == r.findings@.len(),
            _ => true,
        }
    }

    /// The event can happen in this state.
    pub open spec fn expects(self, event: CodeRefEvent) -> bool {
        match event {
            CodeRefEvent::Gate { .. } => self.stage == CodeRefStage::Entering,
            CodeRefEvent::StoresOpened { .. } => self.stage == CodeRefStage::OpeningStores,
            CodeRefEvent::ReposLoaded { .. } => self.stage == CodeRefStage::LoadingRepos,
            CodeRefEvent::AlgorithmsLoaded { .. } => self.stage == CodeRefStage::LoadingAlgorithms,
            CodeRefEvent::EmptyClosed => self.stage == CodeRefStage::ClosingEmpty,
            CodeRefEvent::Analyzed { .. } => self.stage == CodeRefStage::Analyzing,
            CodeRefEvent::FailureRecorded => self.stage == CodeRefStage::RecordingFailure,
            CodeRefEvent::SnippetRead { .. } => self.stage == CodeRefStage::Extracting,
            CodeRefEvent::Persisted { .. } => self.stage == CodeRefStage::Persisting,
            CodeRefEvent::Closed { .. } => self.stage == CodeRefStage::Closing,
        }
    }

    /// Where the task stands when a finding is in hand, or none is left.
    pub open spec fn stage_at(findings: Seq<Finding>, i: int) -> CodeRefStage {
        if i < findings.len() {
            CodeRefStage::Extracting
        } else {
            CodeRefStage::Persisting
        }
    }

    /// Where the task stands after an event.
    pub open spec fn stage_after(self, job: CodeRefJob, event: CodeRefEvent) -> CodeRefStage {
        match event {
            CodeRefEvent::Gate { cancelled } => if cancelled {
                CodeRefStage::Cancelled
            } else {
                CodeRefStage::OpeningStores
            },
            CodeRefEvent::StoresOpened { fault } => if fault is Some {
                CodeRefStage::Failed
            } else {
                CodeRefStage::LoadingRepos
            },
            CodeRefEvent::ReposLoaded { rows } => match rows {
                Ok(v) => if row_of(v@, job.repo_id, 0) is Some {
                    CodeRefStage::LoadingAlgorithms
                } else {
                    CodeRefStage::Failed
                },
                Err(_) => CodeRefStage::Failed,
            },
            CodeRefEvent::AlgorithmsLoaded { algorithms } => match algorithms {
                Ok(v) => if v@.len() == 0 {
                    CodeRefStage::ClosingEmpty
                } else {
                    CodeRefStage::Analyzing
                },
                Err(_) => CodeRefStage::Failed,
            },
            CodeRefEvent::EmptyClosed => CodeRefStage::Finished,
            CodeRefEvent::Analyzed { reply } => match reply {
                Ok(r) => Self::stage_at(r.findings@, next_named(r.findings@, 0)),
                Err(_) => CodeRefStage::RecordingFailure,
            },
            CodeRefEvent::FailureRecorded => CodeRefStage::Failed,
            CodeRefEvent::SnippetRead { .. } => match self.reply {
                Some(r) => Self::stage_at(
                    r.findings@,
                    next_named(r.findings@, self.snippets.finding + 1),
                ),
                None => CodeRefStage::Failed,
            },
            CodeRefEvent::Persisted { fault } => if fault is Some {
                CodeRefStage::Failed
            } else {
                CodeRefStage::Closing
            },
            CodeRefEvent::Closed { fault } => if fault is Some {
                CodeRefStage::Failed
            } else {
                CodeRefStage::Finished
            },
        }
    }

    /// The failure says this.
    pub open spec fn fails_with(
        self,
        job: CodeRefJob,
        event: CodeRefEvent,
        failure: TaskFailure,
    ) -> bool {
        match event {
            CodeRefEvent::StoresOpened { fault: Some(f) } => failure.says(
                f.what.kind(),
                f.what.message(f.error@),
            ),
            CodeRefEvent::ReposLoaded { rows: Err(f) } => failure.says(
                f.what.kind(),
                f.what.message(f.error@),
            ),
            CodeRefEvent::ReposLoaded { rows: Ok(_) } => failure.says(
                FailureKind::NotFound,
                missing_repo(job),
            ),
            CodeRefEvent::AlgorithmsLoaded { algorithms: Err(f) } => failure.says(
                f.what.kind(),
                f.what.message(f.error@),
            ),
            CodeRefEvent::FailureRecorded => failure.says(FailureKind::Process, self.complaint@),
            CodeRefEvent::Persisted { fault: Some(f) } => failure.says(
                f.what.kind(),
                f.what.message(f.error@),
            ),
            CodeRefEvent::Closed { fault: Some(f) } => failure.says(
                f.what.kind(),
                f.what.message(f.error@),
            ),
            _ => false,
        }
    }

    /// What to do after an event.
    pub open spec fn orders(
        self,
        job: CodeRefJob,
        event: CodeRefEvent,
        next: CodeRefRun,
        todo: CodeRefTodo,
    ) -> bool {
        match next.stage {
            CodeRefStage::Entering => false,
            CodeRefStage::OpeningStores => todo is OpenStores,
            CodeRefStage::LoadingRepos => todo is LoadRepos,
            CodeRefStage::LoadingAlgorithms => todo is LoadAlgorithms,
            CodeRefStage::ClosingEmpty => todo is CloseEmpty,
            CodeRefStage::Analyzing => event matches CodeRefEvent::AlgorithmsLoaded {
                algorithms: Ok(v),
            } && todo matches CodeRefTodo::Analyze { request } && asks(
                request,
                self.repo_url@,
                v@,
                job.settings,
            ),
            CodeRefStage::RecordingFailure => todo matches CodeRefTodo::RecordFailure { message }
                && message@ == next.complaint@,
            CodeRefStage::Extracting => todo == (CodeRefTodo::ReadSnippet {
                finding: next.snippets.finding,
            }),
            CodeRefStage::Persisting => todo is Persist,
            CodeRefStage::Closing => todo == (CodeRefTodo::Close {
                algorithms: self.algorithm_count,
                findings: self.snippets.artifacts.len(),
                status: closing_status(self.snippets.artifacts@.len()),
            }),
            CodeRefStage::Finished => if event is EmptyClosed {
                todo is FinishSkipped
            } else {
                todo == (CodeRefTodo::Finish {
                    algorithms: self.algorithm_count,
                    findings: self.snippets.artifacts.len(),
                    dropped: self.snippets.dropped,
                })
            },
            CodeRefStage::Failed => todo matches CodeRefTodo::Fail { failure } && self.fails_with(
                job,
                event,
                failure,
            ),
            CodeRefStage::Cancelled => todo is Cancel,
        }
    }

    /// What is recorded and reported after an event.
    pub open spec fn reports(self, job: CodeRefJob, event: CodeRefEvent, d: CodeRefDirective) -> bool {
        let stage = self.stage_after(job, event);
        if stage == CodeRefStage::Analyzing {
            &&& d.statuses@ == seq![RunStatus::Cloning, RunStatus::Analyzing]
            &&& progress_views(d.progress@) == seq![
                ("code_ref_cloning"@, 4u32, 10u8),
                ("code_ref_analyzing"@, 4u32, 30u8),
            ]
        } else if event matches CodeRefEvent::Analyzed { reply: Ok(_) } {
            &&& d.statuses@ == seq![RunStatus::Embedding]
            &&& progress_views(d.progress@) == seq![("code_ref_extracting"@, 4u32, 60u8)]
        } else if event matches CodeRefEvent::Closed { fault: None } {
            &&& d.statuses@.len() == 0
            &&& progress_views(d.progress@) == seq![("completed"@, 4u32, 100u8)]
        } else {
            d.statuses@.len() == 0 && d.progress@.len() == 0
        }
    }

    /// What the task knows after an event.
    pub open spec fn follows(self, job: CodeRefJob, event: CodeRefEvent, next: CodeRefRun) -> bool {
        &&& next.stage == self.stage_after(job, event)
        &&& next.repo_url@ == (match event {
            CodeRefEvent::ReposLoaded { rows: Ok(v) } => match row_of(v@, job.repo_id, 0) {
                Some(k) => v@[k].url@,
                None => self.repo_url@,
            },
            _ => self.repo_url@,
        })
        &&& next.algorithm_count == (match event {
            CodeRefEvent::AlgorithmsLoaded { algorithms: Ok(v) } => v@.len(),
            _ => self.algorithm_count as nat,
        })
        &&& next.complaint@ == (match event {
            CodeRefEvent::Analyzed { reply: Err(e) } => e.message(),
            _ => self.complaint@,
        })
        &&& next.reply == (match event {
            CodeRefEvent::Analyzed { reply: Ok(r) } => Some(r),
            _ => self.reply,
        })
        &&& match event {
            CodeRefEvent::Analyzed { reply: Ok(r) } => next.snippets.finding == next_named(
                r.findings@,
                0,
            ) && next.snippets.artifacts@.len() == 0,
            CodeRefEvent::SnippetRead { snippet, language } => (self.reply matches Some(r)
                && next.snippets.finding == next_named(r.findings@, self.snippets.finding + 1))
                && match snippet {
                None => artifact_views(next.snippets.artifacts@) == artifact_views(
                    self.snippets.artifacts@,
                ),
                Some(s) => self.reply matches Some(r) && uuid_reading(
                    r.findings@[self.snippets.finding as int].algorithm_id@,
                ) matches Ok(v) && artifact_views(next.snippets.artifacts@) == artifact_views(
                    self.snippets.artifacts@,
                ).push(
                    artifact_of(
                        job.repo_id,
                        r,
                        r.findings@[self.snippets.finding as int],
                        v,
                        language@,
                        s@,
                    ),
                ),
            },
            _ => next.snippets == self.snippets,
        }
    }

    /// A new task. The first thing to do is to ask whether it was cancelled.
    pub fn new() -> (r: Self)
        ensures
            r.wf(),
            r.stage == CodeRefStage::Entering,
            r.repo_url@.len() == 0,
            r.algorithm_count == 0,
            r.complaint@.len() == 0,
            r.reply is None,
            r.snippets.finding == 0,
            r.snippets.dropped == 0,
            r.snippets.artifacts@.len() == 0,
    {
        CodeRefRun {
            stage: CodeRefStage::Entering,
            repo_url: String::new(),
            algorithm_count: 0,
            complaint: String::new(),
            reply: None,
            snippets: SnippetRun { finding: 0, dropped: 0, artifacts: Vec::new() },
        }
    }

    fn quiet(&mut self, stage: CodeRefStage, todo: CodeRefTodo) -> (d: CodeRefDirective)
        ensures
            *final(self) == (CodeRefRun { stage, ..*old(self) }),
            d.statuses@.len() == 0,
            d.progress@.len() == 0,
            d.todo == todo,
    {
        self.stage = stage;
        CodeRefDirective { statuses: Vec::new(), progress: Vec::new(), todo }
    }

    /// The stage for the finding in hand, and what to do there.
    fn at_finding(&mut self, count: usize) -> (todo: CodeRefTodo)
        ensures
            *final(self) == (CodeRefRun {
                stage: if old(self).snippets.finding < count {
                    CodeRefStage::Extracting
                } else {
                    CodeRefStage::Persisting
                },
                ..*old(self)
            }),
            old(self).snippets.finding < count ==> todo == (CodeRefTodo::ReadSnippet {
                finding: old(self).snippets.finding,
            }),
            old(self).snippets.finding >= count ==> todo is Persist,
    {
        if self.snippets.finding < count {
            self.stage = CodeRefStage::Extracting;
            CodeRefTodo::ReadSnippet { finding: self.snippets.finding }
        } else {
            self.stage = CodeRefStage::Persisting;
            CodeRefTodo::Persist
        }
    }

    fn repos_loaded(&mut self, job: &CodeRefJob, rows: Result<Vec<RepoRow>, Fault>) -> (d:
        CodeRefDirective)
        requires
            old(self).wf(),
            old(self).expects(CodeRefEvent::ReposLoaded { rows }),
        ensures
            final(self).wf(),
            old(self).follows(*job, CodeRefEvent::ReposLoaded { rows }, *final(self)),
            old(self).orders(*job, CodeRefEvent::ReposLoaded { rows }, *final(self), d.todo),
            d.statuses@.len() == 0,
            d.progress@.len() == 0,
    {
        match &rows {
            Err(f) => {
                let failure = f.what.failure(f.error.as_str());
                self.quiet(CodeRefStage::Failed, CodeRefTodo::Fail { failure })
            },
            Ok(v) => match find_repo(v, job.repo_id) {
                Some(k) => {
                    self.repo_url = v[k].url.clone();
                    self.quiet(CodeRefStage::LoadingAlgorithms, CodeRefTodo::LoadAlgorithms)
                },
                None => {
                    let message = cat4(
                        "document_repos row ",
                        uuid_text(job.repo_id).as_str(),
                        " not found for doc ",
                        job.document_id.as_str(),
                    );
                    let failure = TaskFailure::new(FailureKind::NotFound, message);
                    self.quiet(CodeRefStage::Failed, CodeRefTodo::Fail { failure })
                },
            },
        }
    }

    fn algorithms_loaded(
        &mut self,
        job: &CodeRefJob,
        algorithms: Result<Vec<ApprovedAlgorithm>, Fault>,
    ) -> (d: CodeRefDirective)
        requires
            old(self).wf(),
            old(self).expects(CodeRefEvent::AlgorithmsLoaded { algorithms }),
        ensures
            final(self).wf(),
            old(self).follows(*job, CodeRefEvent::AlgorithmsLoaded { algorithms }, *final(self)),
            old(self).orders(
                *job,
                CodeRefEvent::AlgorithmsLoaded { algorithms },
                *final(self),
                d.todo,
            ),
            old(self).reports(*job, CodeRefEvent::AlgorithmsLoaded { algorithms }, d),
    {
        match &algorithms {
            Err(f) => {
                let failure = f.what.failure(f.error.as_str());
                self.quiet(CodeRefStage::Failed, CodeRefTodo::Fail { failure })
            },
            Ok(v) => {
                self.algorithm_count = v.len();
                if v.len() == 0 {
                    return self.quiet(CodeRefStage::ClosingEmpty, CodeRefTodo::CloseEmpty);
                }
                let request = analyzer_request(self.repo_url.as_str(), v, &job.settings);
                self.stage = CodeRefStage::Analyzing;
                let first = mark("code_ref_cloning", 4, 10);
                let progress = and_mark(first, "code_ref_analyzing", 4, 30);
                assert(progress_views(progress@) =~= seq![
                    ("code_ref_cloning"@, 4u32, 10u8),
                    ("code_ref_analyzing"@, 4u32, 30u8),
                ]);
                CodeRefDirective {
                    statuses: vec![RunStatus::Cloning, RunStatus::Analyzing],
                    progress,
                    todo: CodeRefTodo::Analyze { request },
                }
            },
        }
    }

    fn analyzed(&mut self, job: &CodeRefJob, reply: Result<AnalyzerReply, AnalyzerError>) -> (d:
        CodeRefDirective)
        requires
            old(self).wf(),
            old(self).expects(CodeRefEvent::Analyzed { reply }),
        ensures
            final(self).wf(),
            old(self).follows(*job, CodeRefEvent::Analyzed { reply }, *final(self)),
            old(self).orders(*job, CodeRefEvent::Analyzed { reply }, *final(self), d.todo),
            old(self).reports(*job, CodeRefEvent::Analyzed { reply }, d),
    {
        match reply {
            Err(e) => {
                let message = e.text();
                self.complaint = e.text();
                self.quiet(CodeRefStage::RecordingFailure, CodeRefTodo::RecordFailure { message })
            },
            Ok(r) => {
                self.snippets = SnippetRun::start(&r.findings);
                let count = r.findings.len();
                self.reply = Some(r);
                let todo = self.at_finding(count);
                let statuses = vec![RunStatus::Embedding];
                assert(statuses@ =~= seq![RunStatus::Embedding]);
                CodeRefDirective {
                    statuses,
                    progress: mark("code_ref_extracting", 4, 60),
                    todo,
                }
            },
        }
    }

    fn snippet_read(&mut self, job: &CodeRefJob, snippet: Option<String>, language: String) -> (d:
        CodeRefDirective)
        requires
            old(self).wf(),
            old(self).expects(CodeRefEvent::SnippetRead { snippet, language }),
        ensures
            final(self).wf(),
            old(self).follows(*job, CodeRefEvent::SnippetRead { snippet, language }, *final(self)),
            old(self).orders(
                *job,
                CodeRefEvent::SnippetRead { snippet, language },
                *final(self),
                d.todo,
            ),
            d.statuses@.len() == 0,
            d.progress@.len() == 0,
    {
        let mut count: usize = 0;
        if let Some(r) = &self.reply {
            count = r.findings.len();
            self.snippets.step(job.repo_id, r, snippet, language.as_str());
        }
        let todo = self.at_finding(count);
        CodeRefDirective { statuses: Vec::new(), progress: Vec::new(), todo }
    }

    /// Takes in what happened and says what to record, to report and to do next.
    pub fn step(&mut self, job: &CodeRefJob, event: CodeRefEvent) -> (d: CodeRefDirective)
        requires
            old(self).wf(),
            old(self).expects(event),
        ensures
            final(self).wf(),
            old(self).follows(*job, event, *final(self)),
            old(self).orders(*job, event, *final(self), d.todo),
            old(self).reports(*job, event, d),
    {
        match event {
            CodeRefEvent::Gate { cancelled } => {
                if cancelled {
                    self.quiet(CodeRefStage::Cancelled, CodeRefTodo::Cancel)
                } else {
                    self.quiet(CodeRefStage::OpeningStores, CodeRefTodo::OpenStores)
                }
            },
            CodeRefEvent::StoresOpened { fault } => match &fault {
                Some(f) => {
                    let failure = f.what.failure(f.error.as_str());
                    self.quiet(CodeRefStage::Failed, CodeRefTodo::Fail { failure })
                },
                None => self.quiet(CodeRefStage::LoadingRepos, CodeRefTodo::LoadRepos),
            },
            CodeRefEvent::ReposLoaded { rows } => self.repos_loaded(job, rows),
            CodeRefEvent::AlgorithmsLoaded { algorithms } => self.algorithms_loaded(
                job,
                algorithms,
            ),
            CodeRefEvent::EmptyClosed => self.quiet(
                CodeRefStage::Finished,
                CodeRefTodo::FinishSkipped,
            ),
            CodeRefEvent::Analyzed { reply } => self.analyzed(job, reply),
            CodeRefEvent::FailureRecorded => {
                let failure = TaskFailure::new(FailureKind::Process, self.complaint.clone());
                self.quiet(CodeRefStage::Failed, CodeRefTodo::Fail { failure })
            },
            CodeRefEvent::SnippetRead { snippet, language } => self.snippet_read(
                job,
                snippet,
                language,
            ),
            CodeRefEvent::Persisted { fault } => match &fault {
                Some(f) => {
                    let failure = f.what.failure(f.error.as_str());
                    self.quiet(CodeRefStage::Failed, CodeRefTodo::Fail { failure })
                },
                None => {
                    let findings = self.snippets.artifacts.len();
                    let status = if findings == 0 {
                        RunStatus::Complete
                    } else {
                        RunStatus::AwaitingReview
                    };
                    let algorithms = self.algorithm_count;
                    self.quiet(
                        CodeRefStage::Closing,
                        CodeRefTodo::Close { algorithms, findings, status },
                    )
                },
            },
            CodeRefEvent::Closed { fault } => match &fault {
                Some(f) => {
                    let failure = f.what.failure(f.error.as_str());
                    self.quiet(CodeRefStage::Failed, CodeRefTodo::Fail { failure })
                },
                None => {
                    self.stage = CodeRefStage::Finished;
                    CodeRefDirective {
                        statuses: Vec::new(),
                        progress: mark("completed", 4, 100),
                        todo: CodeRefTodo::Finish {
                            algorithms: self.algorithm_count,
                            findings: self.snippets.artifacts.len(),
                            dropped: self.snippets.dropped,
                        },
                    }
                },
            },
        }
    }
}

/// How far a stage is along the task.
pub open spec fn code_ref_rank(stage: CodeRefStage) -> int {
    match stage {
        CodeRefStage::Entering => 0,
        CodeRefStage::OpeningStores => 1,
        CodeRefStage::LoadingRepos => 2,
        CodeRefStage::LoadingAlgorithms => 3,
        CodeRefStage::ClosingEmpty => 4,
        CodeRefStage::Analyzing => 4,
        CodeRefStage::RecordingFailure => 5,
        CodeRefStage::Extracting => 5,
        CodeRefStage::Persisting => 6,
        CodeRefStage::Closing => 7,
        _ => 8,
    }
}

proof fn lemma_next_named(findings: Seq<Finding>, i: int)
    requires
        0 <= i <= findings.len(),
    ensures
        i <= next_named(findings, i) <= findings.len(),
    decreases findings.len() - i,
{
    if i < findings.len() && !named(findings[i]) {
        lemma_next_named(findings, i + 1);
    }
}

/// Every event takes the task to a later stage or to a later finding, so the
/// task ends.
pub proof fn law_code_reference_advances(
    run: CodeRefRun,
    job: CodeRefJob,
    event: CodeRefEvent,
    next: CodeRefRun,
)
    requires
        run.wf(),
        run.expects(event),
        next.wf(),
        run.follows(job, event, next),
    ensures
        code_ref_rank(next.stage) > code_ref_rank(run.stage) || (run.stage
            == CodeRefStage::Extracting && next.stage == CodeRefStage::Extracting && event
            is SnippetRead && next_named(
            run.reply->0.findings@,
            run.snippets.finding + 1,
        ) > run.snippets.finding),
{
    if let CodeRefEvent::SnippetRead { .. } = event {
        lemma_next_named(run.reply->0.findings@, run.snippets.finding + 1);
    }
}

} // verus!
