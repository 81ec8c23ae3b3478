use edgequake::code_reference::{
    analyzer_request, find_repo, AnalyzerError, AnalyzerReply, AnalyzerSettings,
    ApprovedAlgorithm, CodeRefEvent, CodeRefJob, CodeRefRun, CodeRefTodo, Fault, Finding,
    MatchConfidence, RepoRow, RunStatus, SnippetRun, StoreFault,
};
use edgequake::reference_codebase::{
    approved_artifacts, code_embedder, indexed_files, max_files, snapshot_request, ArtifactRow,
    BuildCounts, CodebaseIndexMode, CodebaseIndexStatus, ConnectError, IndexEvent, IndexJob,
    IndexRun, IndexSettings, IndexTodo,
};
use edgequake::repo_detection::{
    retained_candidates, service_url, DetectEvent, DetectRun, DetectTodo, DetectionLayer, PdfLoad,
    RepoCandidate, VerificationVerdict,
};
use edgequake::tasks::FailureKind;

const ID: &str = "3f2504e0-4f89-11d3-9a0c-0305e82c3301";

fn row(id: u128, status: &str) -> RepoRow {
    RepoRow {
        id,
        url: format!("https://github.com/o/r{id}"),
        status: status.to_string(),
    }
}

fn settings() -> AnalyzerSettings {
    AnalyzerSettings { max_repo_mb: None, timeout_s: None, model: None }
}

fn job() -> CodeRefJob {
    CodeRefJob { document_id: "doc-1".to_string(), repo_id: 7, settings: settings() }
}

fn finding(id: &str, confidence: Option<MatchConfidence>) -> Finding {
    Finding {
        algorithm_id: id.to_string(),
        file: "src/a.rs".to_string(),
        start_line: 3,
        end_line: 9,
        confidence,
        rationale: "looks like it".to_string(),
    }
}

fn reply(findings: Vec<Finding>) -> AnalyzerReply {
    AnalyzerReply {
        repo_commit: "abc".to_string(),
        repo_license: Some("MIT".to_string()),
        findings,
    }
}

fn approved() -> Vec<ApprovedAlgorithm> {
    vec![ApprovedAlgorithm {
        id: 0x3f2504e0_4f89_11d3_9a0c_0305e82c3301,
        name: "Sort".to_string(),
        description: None,
        pseudocode: Some("p".to_string()),
    }]
}

#[test]
fn the_first_row_with_the_id_is_found() {
    let rows = vec![row(1, "approved"), row(7, "approved"), row(7, "rejected")];
    assert_eq!(find_repo(&rows, 7), Some(1));
    assert_eq!(find_repo(&rows, 8), None);
}

#[test]
fn analyzer_requests_name_algorithms_and_limits() {
    let r = analyzer_request("https://github.com/o/r", &approved(), &settings());
    assert_eq!(r.repo_url, "https://github.com/o/r");
    assert_eq!(r.repo_commit, "HEAD");
    assert_eq!((r.size_cap_mb, r.timeout_s), (500, 600));
    assert_eq!(r.model, None);
    assert_eq!(r.algorithms[0].id, ID);
    assert_eq!(r.algorithms[0].description, "");
    assert_eq!(r.algorithms[0].pseudocode.as_deref(), Some("p"));
    let s = AnalyzerSettings {
        max_repo_mb: Some("20".to_string()),
        timeout_s: Some("soon".to_string()),
        model: Some("m".to_string()),
    };
    let r = analyzer_request("u", &approved(), &s);
    assert_eq!((r.size_cap_mb, r.timeout_s), (20, 600));
    assert_eq!(r.model.as_deref(), Some("m"));
}

#[test]
fn ids_that_the_analyzer_gives_back_name_their_algorithms() {
    let algorithms = approved();
    let request = analyzer_request("u", &algorithms, &settings());
    let r = reply(vec![finding(&request.algorithms[0].id, None)]);
    let mut run = SnippetRun::start(&r.findings);
    run.step(7, &r, Some("x".to_string()), "rust");
    assert_eq!(run.artifacts[0].algorithm_id, algorithms[0].id);
}

#[test]
fn analyzer_errors_say_what_happened() {
    let e = AnalyzerError::Status { status: 503, body: "busy".to_string() };
    assert_eq!(e.text(), "code-analyzer returned 503: busy");
    let e = AnalyzerError::Other { error: "refused".to_string() };
    assert_eq!(e.text(), "code-analyzer error: refused");
}

#[test]
fn findings_are_kept_or_dropped() {
    let r = reply(vec![
        finding(ID, Some(MatchConfidence::High)),
        finding("no id", None),
        finding(ID, None),
        finding(ID, None),
    ]);
    let mut run = SnippetRun::start(&r.findings);
    run.step(7, &r, Some("let x = 1;".to_string()), "rust");
    run.step(7, &r, None, "rust");
    run.step(7, &r, Some("fn f() {}".to_string()), "rust");
    assert_eq!(run.finding, 4);
    assert_eq!(run.dropped, 2);
    assert_eq!(run.artifacts.len(), 2);
    let a = &run.artifacts[0];
    assert_eq!(a.document_repo_id, 7);
    assert_eq!(a.repo_commit, "abc");
    assert_eq!(a.repo_license.as_deref(), Some("MIT"));
    assert_eq!((a.language.as_str(), a.file_path.as_str()), ("rust", "src/a.rs"));
    assert_eq!((a.start_line, a.end_line), (3, 9));
    assert_eq!(a.snippet, "let x = 1;");
    assert_eq!(a.match_rationale, "looks like it");
    assert_eq!(a.match_confidence, MatchConfidence::High);
    assert_eq!(run.artifacts[1].match_confidence, MatchConfidence::Medium);
}

#[test]
fn code_references_are_looked_for_step_by_step() {
    let job = job();
    let mut run = CodeRefRun::new();
    let d = run.step(&job, CodeRefEvent::Gate { cancelled: false });
    assert!(matches!(d.todo, CodeRefTodo::OpenStores));
    let d = run.step(&job, CodeRefEvent::StoresOpened { fault: None });
    assert!(matches!(d.todo, CodeRefTodo::LoadRepos));
    let d = run.step(&job, CodeRefEvent::ReposLoaded { rows: Ok(vec![row(7, "approved")]) });
    assert!(matches!(d.todo, CodeRefTodo::LoadAlgorithms));
    let d = run.step(&job, CodeRefEvent::AlgorithmsLoaded { algorithms: Ok(approved()) });
    assert_eq!(d.statuses, [RunStatus::Cloning, RunStatus::Analyzing]);
    let marks: Vec<(&str, u32, u8)> =
        d.progress.iter().map(|p| (p.stage, p.step, p.percent)).collect();
    assert_eq!(marks, [("code_ref_cloning", 4, 10), ("code_ref_analyzing", 4, 30)]);
    assert!(matches!(
        d.todo,
        CodeRefTodo::Analyze { request } if request.repo_url == "https://github.com/o/r7"
    ));
    let findings = vec![finding("no id", None), finding(ID, None)];
    let d = run.step(&job, CodeRefEvent::Analyzed { reply: Ok(reply(findings)) });
    assert_eq!(d.statuses, [RunStatus::Embedding]);
    assert_eq!(d.progress[0].percent, 60);
    assert!(matches!(d.todo, CodeRefTodo::ReadSnippet { finding: 1 }));
    let d = run.step(
        &job,
        CodeRefEvent::SnippetRead {
            snippet: Some("x".to_string()),
            language: "rust".to_string(),
        },
    );
    assert!(matches!(d.todo, CodeRefTodo::Persist));
    let d = run.step(&job, CodeRefEvent::Persisted { fault: None });
    assert!(matches!(
        d.todo,
        CodeRefTodo::Close { algorithms: 1, findings: 1, status: RunStatus::AwaitingReview }
    ));
    let d = run.step(&job, CodeRefEvent::Closed { fault: None });
    assert_eq!(d.progress[0].percent, 100);
    assert!(matches!(
        d.todo,
        CodeRefTodo::Finish { algorithms: 1, findings: 1, dropped: 1 }
    ));
}

#[test]
fn code_reference_analysis_fails_with_a_reason() {
    let job = job();
    let at_repos = || {
        let mut run = CodeRefRun::new();
        let _ = run.step(&job, CodeRefEvent::Gate { cancelled: false });
        let _ = run.step(&job, CodeRefEvent::StoresOpened { fault: None });
        run
    };
    let mut run = at_repos();
    let d = run.step(&job, CodeRefEvent::ReposLoaded { rows: Ok(vec![row(1, "approved")]) });
    match d.todo {
        CodeRefTodo::Fail { failure } => {
            assert_eq!(failure.kind, FailureKind::NotFound);
            assert_eq!(
                failure.message,
                "document_repos row 00000000-0000-0000-0000-000000000007 not found for doc doc-1"
            );
        }
        other => panic!("{other:?}"),
    }
    let mut run = at_repos();
    let _ = run.step(&job, CodeRefEvent::ReposLoaded { rows: Ok(vec![row(7, "approved")]) });
    let d = run.step(&job, CodeRefEvent::AlgorithmsLoaded { algorithms: Ok(vec![]) });
    assert!(matches!(d.todo, CodeRefTodo::CloseEmpty));
    let d = run.step(&job, CodeRefEvent::EmptyClosed);
    assert!(matches!(d.todo, CodeRefTodo::FinishSkipped));
    let mut run = at_repos();
    let _ = run.step(&job, CodeRefEvent::ReposLoaded { rows: Ok(vec![row(7, "approved")]) });
    let _ = run.step(&job, CodeRefEvent::AlgorithmsLoaded { algorithms: Ok(approved()) });
    let error = AnalyzerError::Status { status: 500, body: "no".to_string() };
    let d = run.step(&job, CodeRefEvent::Analyzed { reply: Err(error) });
    assert!(matches!(
        d.todo,
        CodeRefTodo::RecordFailure { message } if message == "code-analyzer returned 500: no"
    ));
    let d = run.step(&job, CodeRefEvent::FailureRecorded);
    assert!(matches!(
        d.todo,
        CodeRefTodo::Fail { failure }
            if failure.kind == FailureKind::Process
                && failure.message == "code-analyzer returned 500: no"
    ));
    let mut run = CodeRefRun::new();
    let d = run.step(&job, CodeRefEvent::Gate { cancelled: true });
    assert!(matches!(d.todo, CodeRefTodo::Cancel));
    let mut run = CodeRefRun::new();
    let _ = run.step(&job, CodeRefEvent::Gate { cancelled: false });
    let fault = Fault { what: StoreFault::RepoStorage, error: "x".to_string() };
    let d = run.step(&job, CodeRefEvent::StoresOpened { fault: Some(fault) });
    assert!(matches!(
        d.todo,
        CodeRefTodo::Fail { failure } if failure.message == "repo storage: x"
    ));
}

#[test]
fn store_faults_have_kinds_and_messages() {
    let says = |f: StoreFault, kind: FailureKind, message: &str| {
        let failure = f.failure("x");
        assert_eq!(failure.kind, kind, "{f:?}");
        assert_eq!(failure.message, message);
    };
    says(StoreFault::CodeStorage, FailureKind::Process, "code storage: x");
    says(StoreFault::RepoStorage, FailureKind::Process, "repo storage: x");
    says(StoreFault::LoadRepos, FailureKind::Storage, "load document_repos: x");
    says(StoreFault::NoDatabaseUrl, FailureKind::Process, "DATABASE_URL not set");
    says(StoreFault::Connect, FailureKind::Storage, "connect postgres: x");
    says(StoreFault::ListAlgorithms, FailureKind::Storage, "list algorithms: x");
    says(StoreFault::Persist, FailureKind::Storage, "persist code_artifacts: x");
    says(StoreFault::Close, FailureKind::Storage, "close run: x");
}

fn index_settings() -> IndexSettings {
    IndexSettings {
        max_repo_mb: None,
        snapshot_timeout_s: None,
        embedding_url: Some("http://jina".to_string()),
        embedding_model: None,
        embedding_dimension: None,
    }
}

fn index_job(mode: CodebaseIndexMode) -> IndexJob {
    IndexJob { repo_id: 7, mode, settings: index_settings(), file_limit: 20_000 }
}

#[test]
fn index_modes_have_names() {
    assert_eq!(CodebaseIndexMode::Full.as_str(), "full");
    assert_eq!(CodebaseIndexMode::AlgorithmFocused.as_str(), "algorithm_focused");
    assert!(matches!(CodebaseIndexMode::parse("full"), Ok(CodebaseIndexMode::Full)));
    let e = CodebaseIndexMode::parse("half").unwrap_err();
    assert_eq!(e.kind, FailureKind::InvalidPayload);
    assert_eq!(
        e.message,
        "reference codebase mode must be 'algorithm_focused' or 'full', got half"
    );
}

#[test]
fn only_approved_artifacts_of_the_repository_count() {
    let a = |repo: u128, status: &str| ArtifactRow {
        document_repo_id: repo,
        status: status.to_string(),
    };
    let rows = vec![a(7, "approved"), a(7, "pending"), a(8, "approved"), a(7, "approved")];
    assert_eq!(approved_artifacts(&rows, 7), [0, 3]);
}

#[test]
fn file_caps_only_lower_the_limit() {
    assert_eq!(max_files(100, None), 100);
    assert_eq!(max_files(100, Some(5)), 5);
    assert_eq!(max_files(100, Some(500)), 100);
    assert_eq!(max_files(100, Some(-1)), 100);
    assert_eq!(indexed_files(&vec![false, true, false]), 2);
}

#[test]
fn index_settings_have_defaults() {
    let r = snapshot_request("u", &index_settings());
    assert_eq!((r.repo_url.as_str(), r.repo_commit.as_str()), ("u", "HEAD"));
    assert_eq!((r.size_cap_mb, r.timeout_s), (500, 300));
    let e = code_embedder(&index_settings()).unwrap();
    assert_eq!(e.url, "http://jina");
    assert_eq!(e.model, "jina-code-embeddings");
    assert_eq!(e.dimension, 896);
    let mut s = index_settings();
    s.embedding_url = None;
    assert!(code_embedder(&s).is_none());
}

#[test]
fn a_codebase_is_indexed_chunk_by_chunk() {
    let job = index_job(CodebaseIndexMode::Full);
    let mut run = IndexRun::new();
    let d = run.step(&job, IndexEvent::Gate { cancelled: false });
    assert_eq!((d.progress[0].stage, d.progress[0].percent), ("reference_codebase_start", 5));
    assert!(matches!(d.todo, IndexTodo::Connect));
    let _ = run.step(&job, IndexEvent::Connected { error: None });
    let _ = run.step(&job, IndexEvent::ReposLoaded { rows: Ok(vec![row(7, "approved")]) });
    let d = run.step(&job, IndexEvent::ArtifactsLoaded { rows: Ok(vec![]) });
    assert!(matches!(
        d.todo,
        IndexTodo::CheckCancelled { stage: "reference_codebase_snapshot" }
    ));
    let d = run.step(&job, IndexEvent::Gate { cancelled: false });
    assert_eq!(d.progress[0].percent, 15);
    assert!(matches!(d.todo, IndexTodo::TakeSnapshot { .. }));
    let d = run.step(&job, IndexEvent::SnapshotTaken { path: Ok("/repo".to_string()) });
    assert!(matches!(d.todo, IndexTodo::LookAtPath { path } if path == "/repo"));
    let d = run.step(&job, IndexEvent::PathSeen { path: "/repo".to_string(), is_dir: true });
    assert!(matches!(d.todo, IndexTodo::StartIndex));
    let d = run.step(&job, IndexEvent::IndexStarted { error: None });
    assert!(matches!(d.status, Some(CodebaseIndexStatus::Scanning)));
    let d = run.step(&job, IndexEvent::Gate { cancelled: false });
    assert_eq!(d.progress[0].percent, 30);
    assert!(matches!(d.todo, IndexTodo::ReadCap));
    let d = run.step(&job, IndexEvent::CapRead { cap: Some(5000) });
    assert!(matches!(d.todo, IndexTodo::Build { max_files: 5000 }));
    let counts = BuildCounts { skipped: vec![false], symbols: 1, edges: 0, chunks: 2 };
    let d = run.step(&job, IndexEvent::Built { counts: Ok(counts) });
    assert!(matches!(d.status, Some(CodebaseIndexStatus::Chunking)));
    let d = run.step(&job, IndexEvent::Gate { cancelled: false });
    assert_eq!(d.progress[0].percent, 55);
    let d = run.step(&job, IndexEvent::Persisted { error: None });
    assert!(matches!(d.status, Some(CodebaseIndexStatus::Embedding)));
    assert_eq!(d.progress[0].percent, 70);
    for chunk in 0..2 {
        let d = run.step(&job, IndexEvent::Gate { cancelled: false });
        assert!(matches!(d.todo, IndexTodo::Embed { chunk: c } if c == chunk));
        let d = run.step(&job, IndexEvent::Embedded { error: None });
        assert!(matches!(d.todo, IndexTodo::Insert { chunk: c } if c == chunk));
        let d = run.step(&job, IndexEvent::Inserted { error: None });
        if chunk == 1 {
            assert!(matches!(d.todo, IndexTodo::Complete));
        }
    }
    let d = run.step(&job, IndexEvent::Completed { error: None });
    assert_eq!(d.progress[0].percent, 100);
    assert!(matches!(d.todo, IndexTodo::Finish { embedded: 2 }));
}

#[test]
fn indexing_fails_with_a_reason() {
    let fails = |todo: IndexTodo| match todo {
        IndexTodo::Fail { failure } => (failure.kind, failure.message),
        other => panic!("{other:?}"),
    };
    let focused = index_job(CodebaseIndexMode::AlgorithmFocused);
    let connected = || {
        let mut run = IndexRun::new();
        let _ = run.step(&focused, IndexEvent::Gate { cancelled: false });
        run
    };
    let mut run = connected();
    let error = Some(ConnectError::NoDatabaseUrl);
    assert_eq!(
        fails(run.step(&focused, IndexEvent::Connected { error }).todo),
        (FailureKind::Process, "DATABASE_URL not set".to_string())
    );
    let mut run = connected();
    let _ = run.step(&focused, IndexEvent::Connected { error: None });
    assert_eq!(
        fails(run.step(&focused, IndexEvent::ReposLoaded { rows: Ok(vec![]) }).todo),
        (
            FailureKind::NotFound,
            "document_repos row 00000000-0000-0000-0000-000000000007 not found".to_string()
        )
    );
    let mut run = connected();
    let _ = run.step(&focused, IndexEvent::Connected { error: None });
    assert_eq!(
        fails(run.step(&focused, IndexEvent::ReposLoaded { rows: Ok(vec![row(7, "pending")]) }).todo),
        (
            FailureKind::Process,
            "reference codebase indexing requires an approved repo; repo 00000000-0000-0000-0000-000000000007 is pending".to_string()
        )
    );
    let mut run = connected();
    let _ = run.step(&focused, IndexEvent::Connected { error: None });
    let _ = run.step(&focused, IndexEvent::ReposLoaded { rows: Ok(vec![row(7, "approved")]) });
    assert_eq!(
        fails(run.step(&focused, IndexEvent::ArtifactsLoaded { rows: Ok(vec![]) }).todo),
        (
            FailureKind::Process,
            "algorithm_focused reference codebase indexing requires at least one approved code artifact".to_string()
        )
    );
}

fn candidate(layer: DetectionLayer, verdict: Option<VerificationVerdict>) -> RepoCandidate {
    RepoCandidate { layer, verdict }
}

fn candidates() -> Vec<RepoCandidate> {
    vec![
        candidate(DetectionLayer::Links, None),
        candidate(DetectionLayer::Links, Some(VerificationVerdict::ThirdParty)),
        candidate(DetectionLayer::WebSearch, Some(VerificationVerdict::Official)),
        candidate(DetectionLayer::WebSearch, Some(VerificationVerdict::Unrelated)),
        candidate(DetectionLayer::WebSearch, Some(VerificationVerdict::Inconclusive)),
    ]
}

#[test]
fn unofficial_candidates_are_dropped() {
    assert_eq!(retained_candidates(&candidates(), false), [0, 2, 4]);
    assert_eq!(retained_candidates(&candidates(), true), [0, 1, 2, 3, 4]);
}

#[test]
fn missing_services_get_a_placeholder() {
    assert_eq!(service_url(Some("http://crawl")), "http://crawl");
    assert_eq!(service_url(Some("")), "http://localhost:0");
    assert_eq!(service_url(None), "http://localhost:0");
}

#[test]
fn repositories_are_detected_and_kept() {
    let mut run = DetectRun::new(true);
    let d = run.step(Some(ID), DetectEvent::Gate { cancelled: false });
    assert_eq!(d.progress[0].percent, 10);
    assert!(matches!(
        d.todo,
        DetectTodo::LoadPdf { id: 0x3f2504e0_4f89_11d3_9a0c_0305e82c3301 }
    ));
    let _ = run.step(Some(ID), DetectEvent::PdfLoaded { load: PdfLoad::Loaded });
    let _ = run.step(Some(ID), DetectEvent::StorageOpened { error: None });
    let d = run.step(Some(ID), DetectEvent::RunningMarked);
    assert!(matches!(d.todo, DetectTodo::Detect));
    let d = run.step(
        Some(ID),
        DetectEvent::Detected { candidates: Ok(candidates()), accept_unofficial: false },
    );
    assert!(matches!(d.todo, DetectTodo::Persist));
    assert_eq!(run.kept, [0, 2, 4]);
    let d = run.step(Some(ID), DetectEvent::Persisted { error: None });
    assert!(matches!(d.todo, DetectTodo::MarkComplete { links: 1, web_search: 2 }));
    let d = run.step(Some(ID), DetectEvent::CompleteMarked);
    assert_eq!(d.progress[0].percent, 100);
    assert!(matches!(
        d.todo,
        DetectTodo::Finish { total: 3, links: 1, web_search: 2 }
    ));
}

#[test]
fn detection_fails_with_a_reason() {
    let fails = |todo: DetectTodo| match todo {
        DetectTodo::Fail { failure } => (failure.kind, failure.message),
        other => panic!("{other:?}"),
    };
    let mut run = DetectRun::new(true);
    let (kind, m) = fails(run.step(Some("x"), DetectEvent::Gate { cancelled: false }).todo);
    assert_eq!(kind, FailureKind::Process);
    assert!(m.starts_with("Invalid pdf_id: "), "{m}");
    let load = |load| {
        let mut run = DetectRun::new(true);
        let _ = run.step(Some(ID), DetectEvent::Gate { cancelled: false });
        fails(run.step(Some(ID), DetectEvent::PdfLoaded { load }).todo)
    };
    assert_eq!(
        load(PdfLoad::NoStorage),
        (FailureKind::Process, "PDF storage not available".to_string())
    );
    assert_eq!(
        load(PdfLoad::Failed { error: "x".to_string() }),
        (FailureKind::Process, "Failed to fetch PDF: x".to_string())
    );
    assert_eq!(
        load(PdfLoad::Missing),
        (FailureKind::NotFound, format!("PDF not found: {ID}"))
    );
    let mut run = DetectRun::new(true);
    let d = run.step(None, DetectEvent::Gate { cancelled: false });
    assert!(matches!(d.todo, DetectTodo::OpenStorage));
    let _ = run.step(None, DetectEvent::StorageOpened { error: None });
    let _ = run.step(None, DetectEvent::RunningMarked);
    let d = run.step(
        None,
        DetectEvent::Detected { candidates: Err("boom".to_string()), accept_unofficial: false },
    );
    assert!(matches!(d.todo, DetectTodo::RecordFailure { error } if error == "boom"));
    let d = run.step(None, DetectEvent::FailureRecorded);
    assert_eq!(
        fails(d.todo),
        (FailureKind::Process, "repo detection failed: boom".to_string())
    );
}
