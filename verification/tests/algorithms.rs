use edgequake::algorithm_embedding::{
    algorithm_vector, embedding_text, AlgoEmbedEvent, AlgoEmbedRun, AlgoEmbedTodo, AlgorithmStep,
    SetupError, StoredAlgorithm, VectorOutcome,
};
use edgequake::algorithm_extraction::{
    algorithm_key, algorithm_workspace, detection_pdf, distinct_algorithms, found_workspace,
    layout_inventory, pair_count, provider_failure, resolve_algorithm_llm_providers,
    resolve_algorithm_review_mode, second_chunk, stored_description, DetectionError, PassKind,
    StoreError,
};
use edgequake::algorithm_runs::{
    ExtractEvent, ExtractReport, ExtractRun, ExtractTodo, Pass23Event, Pass23Run, Pass23Todo,
};
use edgequake::conversion::AlgorithmBlock;
use edgequake::metadata::MetaValue;
use edgequake::tasks::{FailureKind, ModelChoice, WorkspaceModels};

const ID: &str = "3f2504e0-4f89-11d3-9a0c-0305e82c3301";

fn algorithm() -> StoredAlgorithm {
    StoredAlgorithm {
        id: ID.to_string(),
        document_id: "doc-1".to_string(),
        name: "Sort".to_string(),
        description: Some("Sorts things.".to_string()),
        steps: vec![
            AlgorithmStep {
                number: 1,
                action: "Compare".to_string(),
                details: "neighbours".to_string(),
            },
            AlgorithmStep {
                number: 12,
                action: "Swap".to_string(),
                details: String::new(),
            },
        ],
        pseudocode: Some("swap(a, b)".to_string()),
        tags: vec!["sorting".to_string()],
        confidence: 0x3FE8_0000_0000_0000,
        tenant_id: "t".to_string(),
        workspace_id: "w".to_string(),
    }
}

fn workspace() -> WorkspaceModels {
    WorkspaceModels {
        llm_provider: "ollama".to_string(),
        llm_model: "gemma3:12b".to_string(),
        embedding_provider: "openai".to_string(),
        embedding_model: "e".to_string(),
        algorithm_analysis_llm_provider: Some("gemini".to_string()),
        algorithm_analysis_llm_model: Some("flash".to_string()),
        algorithm_extraction_llm_provider: Some("xai".to_string()),
        algorithm_extraction_llm_model: None,
        algorithm_review_mode: None,
        accept_unofficial_implementations: None,
    }
}

fn names(choice: &ModelChoice) -> Option<(&str, &str)> {
    match choice {
        ModelChoice::Named { provider, model } => Some((provider, model)),
        ModelChoice::ServerDefault => None,
    }
}

#[test]
fn algorithms_are_embedded_as_text() {
    assert_eq!(
        embedding_text(&algorithm()),
        "Sort\nSorts things.\nStep 1: Compare neighbours\nStep 12: Swap \nswap(a, b)"
    );
    let mut bare = algorithm();
    bare.description = None;
    bare.steps.clear();
    bare.pseudocode = None;
    assert_eq!(embedding_text(&bare), "Sort");
}

#[test]
fn vectors_of_algorithms_carry_metadata() {
    let (id, fields) = algorithm_vector(&algorithm());
    assert_eq!(id, format!("algorithm:{ID}"));
    let order: Vec<&str> = fields.iter().map(|f| f.name).collect();
    assert_eq!(
        order,
        [
            "type",
            "algorithm_id",
            "document_id",
            "name",
            "description",
            "tags",
            "confidence",
            "tenant_id",
            "workspace_id"
        ]
    );
    assert!(matches!(&fields[0].value, MetaValue::Text(t) if t == "algorithm"));
    assert!(matches!(&fields[5].value, MetaValue::Texts(v) if v == &["sorting"]));
    assert!(matches!(fields[6].value, MetaValue::Float(b) if f64::from_bits(b) == 0.75));
    let mut bare = algorithm();
    bare.description = None;
    assert!(matches!(algorithm_vector(&bare).1[4].value, MetaValue::Nothing));
}

#[test]
fn every_algorithm_is_embedded_in_turn() {
    let ids = vec![ID.to_string(), ID.to_string(), ID.to_string()];
    let mut run = AlgoEmbedRun::new();
    let d = run.step(&ids, AlgoEmbedEvent::Gate { cancelled: false });
    assert_eq!(d.status, Some("algo_embedding"));
    assert_eq!(d.progress[0].percent, 10);
    assert!(matches!(d.todo, AlgoEmbedTodo::SetUp));
    let d = run.step(&ids, AlgoEmbedEvent::SetUp { error: None });
    assert!(matches!(d.todo, AlgoEmbedTodo::CheckCancelled));
    let d = run.step(&ids, AlgoEmbedEvent::Gate { cancelled: false });
    assert!(matches!(
        d.todo,
        AlgoEmbedTodo::Fetch { id: 0x3f2504e0_4f89_11d3_9a0c_0305e82c3301 }
    ));
    let d = run.step(&ids, AlgoEmbedEvent::Fetched { algorithm: Some(algorithm()) });
    assert!(matches!(d.todo, AlgoEmbedTodo::Embed { text } if text.starts_with("Sort\n")));
    let d = run.step(&ids, AlgoEmbedEvent::Embedded { outcome: VectorOutcome::Vector });
    assert!(matches!(d.todo, AlgoEmbedTodo::Upsert { metadata, .. } if metadata.len() == 9));
    let d = run.step(&ids, AlgoEmbedEvent::Upserted { error: None });
    assert_eq!(d.progress[0].percent, 10 + 80 / 3);
    assert_eq!(run.embedded, 1);
    assert!(matches!(d.todo, AlgoEmbedTodo::CheckCancelled));
    let _ = run.step(&ids, AlgoEmbedEvent::Gate { cancelled: false });
    let d = run.step(&ids, AlgoEmbedEvent::Fetched { algorithm: None });
    assert!(d.progress.is_empty());
    let _ = run.step(&ids, AlgoEmbedEvent::Gate { cancelled: false });
    let _ = run.step(&ids, AlgoEmbedEvent::Fetched { algorithm: Some(algorithm()) });
    let d = run.step(&ids, AlgoEmbedEvent::Embedded { outcome: VectorOutcome::Nothing });
    assert_eq!(d.status, Some("completed"));
    assert!(matches!(d.todo, AlgoEmbedTodo::Finish { algorithms_embedded: 3 }));
    assert_eq!(run.embedded, 1);
}

#[test]
fn only_a_task_of_its_own_completes_the_document() {
    let finish = |mut run: AlgoEmbedRun| {
        let ids = vec![ID.to_string()];
        let d = run.step(&ids, AlgoEmbedEvent::Gate { cancelled: false });
        assert_eq!(d.status, Some("algo_embedding"));
        let _ = run.step(&ids, AlgoEmbedEvent::SetUp { error: None });
        let _ = run.step(&ids, AlgoEmbedEvent::Gate { cancelled: false });
        let _ = run.step(&ids, AlgoEmbedEvent::Fetched { algorithm: Some(algorithm()) });
        let _ = run.step(&ids, AlgoEmbedEvent::Embedded { outcome: VectorOutcome::Vector });
        let d = run.step(&ids, AlgoEmbedEvent::Upserted { error: None });
        assert!(matches!(d.todo, AlgoEmbedTodo::Finish { algorithms_embedded: 1 }));
        let stages: Vec<&str> = d.progress.iter().map(|p| p.stage).collect();
        (d.status, stages)
    };
    assert_eq!(
        finish(AlgoEmbedRun::new()),
        (Some("completed"), vec!["algo_embedding", "completed"])
    );
    assert_eq!(finish(AlgoEmbedRun::part()), (None, vec!["algo_embedding"]));
    let mut run = AlgoEmbedRun::part();
    let _ = run.step(&vec![], AlgoEmbedEvent::Gate { cancelled: false });
    let d = run.step(&vec![], AlgoEmbedEvent::SetUp { error: None });
    assert_eq!(d.status, None);
    assert!(d.progress.is_empty());
}

#[test]
fn the_pdf_of_an_extraction_is_named_by_its_id() {
    assert!(matches!(detection_pdf(ID), Ok(0x3f2504e0_4f89_11d3_9a0c_0305e82c3301)));
    match detection_pdf("no id") {
        Err(DetectionError::InvalidPdfId { error }) => assert!(!error.is_empty()),
        other => panic!("{other:?}"),
    }
}

#[test]
fn embedding_stops_at_the_first_failure() {
    let fails = |run: &mut AlgoEmbedRun, ids: &Vec<String>, event| {
        match run.step(ids, event).todo {
            AlgoEmbedTodo::Fail { failure } => {
                assert_eq!(failure.kind, FailureKind::Process);
                failure.message
            }
            other => panic!("{other:?}"),
        }
    };
    let ids = vec!["no id".to_string()];
    let setup = |error| {
        let mut run = AlgoEmbedRun::new();
        let _ = run.step(&ids, AlgoEmbedEvent::Gate { cancelled: false });
        fails(&mut run, &ids, AlgoEmbedEvent::SetUp { error: Some(error) })
    };
    let x = || "x".to_string();
    assert_eq!(setup(SetupError::NoDatabaseUrl), "DATABASE_URL not set");
    assert_eq!(setup(SetupError::Connect { error: x() }), "Failed to connect to database: x");
    assert_eq!(setup(SetupError::NoWorkspaceService), "No workspace service");
    assert_eq!(setup(SetupError::Workspace { error: x() }), "Failed to get workspace: x");
    assert_eq!(setup(SetupError::WorkspaceMissing), "Workspace not found");
    assert_eq!(
        setup(SetupError::Provider { error: x() }),
        "Failed to create embedding provider: x"
    );
    assert_eq!(
        setup(SetupError::VectorStorage { error: x() }),
        "Failed to get vector storage: x"
    );
    let mut run = AlgoEmbedRun::new();
    let _ = run.step(&ids, AlgoEmbedEvent::Gate { cancelled: false });
    let _ = run.step(&ids, AlgoEmbedEvent::SetUp { error: None });
    let m = fails(&mut run, &ids, AlgoEmbedEvent::Gate { cancelled: false });
    assert!(m.starts_with("Invalid algorithm ID no id: "), "{m}");
    let ids = vec![ID.to_string()];
    let mut run = AlgoEmbedRun::new();
    let _ = run.step(&ids, AlgoEmbedEvent::Gate { cancelled: false });
    let _ = run.step(&ids, AlgoEmbedEvent::SetUp { error: None });
    let _ = run.step(&ids, AlgoEmbedEvent::Gate { cancelled: false });
    let _ = run.step(&ids, AlgoEmbedEvent::Fetched { algorithm: Some(algorithm()) });
    let mut other = run.clone();
    assert_eq!(
        fails(
            &mut run,
            &ids,
            AlgoEmbedEvent::Embedded { outcome: VectorOutcome::Failed { error: x() } }
        ),
        "Embedding generation failed: x"
    );
    let _ = other.step(&ids, AlgoEmbedEvent::Embedded { outcome: VectorOutcome::Vector });
    assert_eq!(
        fails(&mut other, &ids, AlgoEmbedEvent::Upserted { error: Some(x()) }),
        "Failed to store embedding: x"
    );
    let mut run = AlgoEmbedRun::new();
    let d = run.step(&ids, AlgoEmbedEvent::Gate { cancelled: true });
    assert!(matches!(d.todo, AlgoEmbedTodo::Cancel));
}

#[test]
fn passes_ask_the_models_named_for_them() {
    let w = workspace();
    let (a, e) = resolve_algorithm_llm_providers(&w, true);
    assert_eq!(names(&a), Some(("gemini", "flash")));
    assert_eq!(names(&e), Some(("ollama", "gemma3:12b")));
    let (a, e) = resolve_algorithm_llm_providers(&w, false);
    assert_eq!(names(&a), Some(("gemini", "flash")));
    assert_eq!(names(&e), None);
    assert_eq!(
        provider_failure(PassKind::Analysis, &w, "x").message,
        "LLM provider error: Failed to create analysis LLM provider: x"
    );
    assert_eq!(
        provider_failure(PassKind::Extraction, &w, "x").message,
        "LLM provider error: Failed to create workspace LLM provider: x"
    );
    let mut own = workspace();
    own.algorithm_extraction_llm_model = Some("grok".to_string());
    assert_eq!(
        provider_failure(PassKind::Extraction, &own, "x").message,
        "LLM provider error: Failed to create extraction LLM provider: x"
    );
}

#[test]
fn only_auto_mode_skips_review() {
    let mut w = workspace();
    assert!(!resolve_algorithm_review_mode(&w));
    w.algorithm_review_mode = Some("manual".to_string());
    assert!(!resolve_algorithm_review_mode(&w));
    w.algorithm_review_mode = Some("auto".to_string());
    assert!(resolve_algorithm_review_mode(&w));
}

#[test]
fn algorithm_workspaces_are_looked_up() {
    assert_eq!(algorithm_workspace("default", true), Ok(None));
    assert_eq!(algorithm_workspace(ID, false), Ok(None));
    assert_eq!(
        algorithm_workspace(ID, true),
        Ok(Some(0x3f2504e0_4f89_11d3_9a0c_0305e82c3301))
    );
    assert!(algorithm_workspace("w", true).unwrap_err().starts_with("Invalid workspace ID: "));
    assert_eq!(
        found_workspace("w", Ok(None)).unwrap_err(),
        "Workspace not found: w"
    );
    assert_eq!(
        found_workspace("w", Err("x".to_string())).unwrap_err(),
        "Failed to get workspace: x"
    );
    assert_eq!(found_workspace("w", Ok(Some(workspace()))).unwrap().llm_provider, "ollama");
}

#[test]
fn blocks_become_candidates() {
    let blocks = vec![
        AlgorithmBlock { page: 2, markdown: "a".to_string() },
        AlgorithmBlock { page: 11, markdown: "b".to_string() },
    ];
    let c = layout_inventory(&blocks);
    assert_eq!(c.len(), 2);
    assert_eq!(c[1].id, "A2");
    assert_eq!(c[1].name, "Algorithm block (page 11)");
    assert_eq!(c[1].description, "Detected by layout analysis");
    assert_eq!(c[1].location, "Page 11");
    assert_eq!(c[1].algorithm_type, "Algorithm");
}

#[test]
fn neighbouring_chunks_are_scanned_together() {
    assert_eq!(pair_count(0), 0);
    assert_eq!(pair_count(1), 1);
    assert_eq!(pair_count(5), 4);
    assert_eq!(second_chunk(0, 1, false), None);
    assert_eq!(second_chunk(3, 5, false), Some(4));
    assert_eq!(second_chunk(4, 5, false), None);
    assert_eq!(second_chunk(0, 5, true), None);
    assert_eq!(second_chunk(usize::MAX, 5, false), None);
}

#[test]
fn algorithms_with_one_name_are_one() {
    let s = |t: &str| t.to_string();
    let list = vec![s("Quick  Sort"), s(" quick sort "), s("Merge Sort"), s("QUICK\tSORT")];
    assert_eq!(distinct_algorithms(&list), [0, 2]);
    let key: String = algorithm_key("  Quick \n Sort ").into_iter().collect();
    assert_eq!(key, "quick sort");
    assert_eq!(stored_description(String::new()), None);
    assert_eq!(stored_description(s("d")), Some(s("d")));
}

#[test]
fn detection_and_storage_errors_say_why() {
    let x = || "x".to_string();
    assert_eq!(DetectionError::InvalidPdfId { error: x() }.text(), "Invalid pdf_id: x");
    assert_eq!(DetectionError::NoPdfStorage.text(), "PDF storage not available");
    assert_eq!(DetectionError::Fetch { error: x() }.text(), "Failed to fetch PDF: x");
    assert_eq!(DetectionError::PdfMissing.text(), "PDF not found");
    assert_eq!(
        DetectionError::Panicked { error: x() }.text(),
        "Layout detection task panicked: x"
    );
    assert_eq!(
        DetectionError::Failed { error: x() }.text(),
        "Algorithm block detection failed: x"
    );
    assert_eq!(
        StoreError::NoDatabaseUrl.text(),
        "DATABASE_URL not set for algorithm storage"
    );
    assert_eq!(StoreError::Connect { error: x() }.text(), "Failed to connect to database: x");
    assert_eq!(StoreError::Failed { error: x() }.text(), "Failed to store algorithms: x");
}

#[test]
fn text_is_scanned_then_extracted_then_verified() {
    let mut run = ExtractRun::new(false, 3);
    let d = run.step(ExtractEvent::Gate { cancelled: false });
    assert_eq!(d.status, Some("algo_identifying"));
    assert_eq!(d.progress[0].percent, 15);
    assert!(matches!(d.todo, ExtractTodo::Scan { pairs: 2 }));
    let d = run.step(ExtractEvent::Scanned { cancelled: false, pair: 1, found: Some(2) });
    assert_eq!(d.progress[0].percent, 25);
    let detail = d.detail.unwrap();
    assert_eq!(detail.message, "Identifying algorithms: chunks 1/2");
    assert!(matches!(d.todo, ExtractTodo::Await));
    let d = run.step(ExtractEvent::Scanned { cancelled: false, pair: 0, found: Some(1) });
    assert_eq!(d.progress[0].percent, 40);
    assert!(matches!(d.todo, ExtractTodo::CheckCancelled));
    let order: Vec<usize> = run.flagged.iter().map(|f| f.pair).collect();
    assert_eq!(order, [0, 1]);
    let d = run.step(ExtractEvent::Gate { cancelled: false });
    assert_eq!(d.status, Some("algo_extracting"));
    assert!(matches!(d.todo, ExtractTodo::Extract));
    let names = Some(vec!["Sort".to_string(), "sort".to_string()]);
    let d = run.step(ExtractEvent::Extracted { cancelled: false, names });
    assert_eq!(d.progress[0].percent, 55);
    assert_eq!(d.detail.unwrap().message, "Extracting algorithms: 1/2");
    let d = run.step(ExtractEvent::Extracted { cancelled: false, names: None });
    assert!(matches!(d.todo, ExtractTodo::CheckCancelled));
    assert_eq!(run.kept, [0]);
    let d = run.step(ExtractEvent::Gate { cancelled: false });
    assert_eq!(d.status, Some("algo_verifying"));
    assert!(matches!(d.todo, ExtractTodo::Verify));
    let d = run.step(ExtractEvent::Verified { auto_approve: true });
    assert!(matches!(d.todo, ExtractTodo::Store { approved: true }));
    let d = run.step(ExtractEvent::Stored { error: None });
    assert_eq!(d.status, Some("algo_embedding"));
    assert!(matches!(d.todo, ExtractTodo::Embed));
    let d = run.step(ExtractEvent::Embedded);
    assert!(matches!(
        d.todo,
        ExtractTodo::Finish {
            report: ExtractReport::Stored {
                algorithm_count: 1,
                identified: 3,
                auto_approved: true,
                embedded: true,
            }
        }
    ));
}

#[test]
fn extraction_ends_early_without_algorithms() {
    let mut run = ExtractRun::new(false, 1);
    let _ = run.step(ExtractEvent::Gate { cancelled: false });
    let d = run.step(ExtractEvent::Scanned { cancelled: false, pair: 0, found: None });
    assert_eq!(d.status, Some("completed"));
    assert_eq!(d.progress.last().unwrap().percent, 100);
    assert!(matches!(
        d.todo,
        ExtractTodo::Finish { report: ExtractReport::NoAlgorithms { pairs_scanned: 1 } }
    ));
    let mut run = ExtractRun::new(true, 0);
    let d = run.step(ExtractEvent::Gate { cancelled: false });
    assert!(matches!(d.todo, ExtractTodo::Detect));
    let d = run.step(ExtractEvent::Detected { blocks: 0 });
    assert!(matches!(d.todo, ExtractTodo::Finish { report: ExtractReport::NoBlocks }));
    let mut run = ExtractRun::new(true, 0);
    let _ = run.step(ExtractEvent::Gate { cancelled: false });
    let d = run.step(ExtractEvent::DetectionFailed { error: DetectionError::PdfMissing });
    assert!(matches!(d.todo, ExtractTodo::Fail { failure } if failure.message == "PDF not found"));
    let mut run = ExtractRun::new(false, 0);
    let d = run.step(ExtractEvent::Gate { cancelled: false });
    assert!(
        matches!(d.todo, ExtractTodo::Fail { failure } if failure.message == "No chunks provided")
    );
}

#[test]
fn extraction_is_cancelled_wherever_it_stands() {
    let mut run = ExtractRun::new(false, 3);
    assert!(matches!(
        run.step(ExtractEvent::Gate { cancelled: true }).todo,
        ExtractTodo::Cancel
    ));
    let mut run = ExtractRun::new(false, 3);
    let _ = run.step(ExtractEvent::Gate { cancelled: false });
    let d = run.step(ExtractEvent::Scanned { cancelled: true, pair: 0, found: Some(1) });
    assert!(d.status.is_none() && d.progress.is_empty());
    assert!(matches!(d.todo, ExtractTodo::Cancel));
}

#[test]
fn detected_blocks_are_extracted_one_by_one() {
    let mut run = Pass23Run::new(2);
    let d = run.step(Pass23Event::Start);
    assert!(matches!(d.todo, Pass23Todo::Extract));
    let d = run.step(Pass23Event::Extracted { names: None });
    assert_eq!(d.detail.unwrap().message, "Extracting algorithms: 1/2");
    assert!(matches!(d.todo, Pass23Todo::Await));
    let d = run.step(Pass23Event::Extracted { names: Some(vec!["A".to_string()]) });
    assert_eq!(d.status, Some("algo_verifying"));
    assert_eq!((d.progress[0].step, d.progress[0].percent), (6, 85));
    assert!(matches!(d.todo, Pass23Todo::Verify));
    let d = run.step(Pass23Event::Verified { auto_approve: false });
    assert!(matches!(d.todo, Pass23Todo::Store { approved: false }));
    let d = run.step(Pass23Event::Stored { error: None });
    assert!(matches!(d.todo, Pass23Todo::Finish { count: 1, failures: 1 }));
    let mut run = Pass23Run::new(1);
    let _ = run.step(Pass23Event::Start);
    let d = run.step(Pass23Event::Extracted { names: None });
    assert!(matches!(d.todo, Pass23Todo::Finish { count: 0, failures: 1 }));
}
