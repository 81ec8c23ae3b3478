use edgequake::conversion::PdfParserBackend;
use edgequake::figures::ExtractedFigure;
use edgequake::metadata::{Field, MetaValue};
use edgequake::naming::FrontMatter;
use edgequake::pdf_plan::{
    chunk_keys, chunker_input, content_for_record, conversion_concurrency, conversion_dpi,
    conversion_plan, early_metadata, final_status_of, low_content_message, low_content_warning,
    strip_nul_bytes, vision_model_of, ConversionRequest, ConversionSettings, PdfInfo, PdfOwner,
};
use edgequake::pdf_processing::{
    ConversionOutcome, PdfEvent, PdfJob, PdfRun, PdfStage, PdfTodo,
};
use edgequake::tables::ExtractedTable;
use edgequake::tasks::{FailureKind, TaskFailure};

const DOC: &str = "3f2504e0-4f89-11d3-9a0c-0305e82c3301";

fn settings() -> ConversionSettings {
    ConversionSettings {
        concurrency: None,
        dpi: None,
        checkpoint_dir: None,
        default_checkpoint_dir: "/tmp/edgequake-checkpoints".to_string(),
        vision_timeout_secs: None,
        vision_secs_per_page: None,
        compatible_base_url: Some("http://aperture".to_string()),
        default_vision_model: "see-1".to_string(),
    }
}

fn request(backend: PdfParserBackend) -> ConversionRequest {
    ConversionRequest {
        backend,
        enable_vision: true,
        vision_provider: "openai".to_string(),
        vision_model: None,
        is_reprocess: false,
        settings: settings(),
    }
}

fn owner() -> PdfOwner {
    PdfOwner {
        pdf_id: "pdf-1".to_string(),
        tenant_id: "t".to_string(),
        workspace_id: "w".to_string(),
        track_id: "track".to_string(),
    }
}

fn info(pages: Option<i32>) -> PdfInfo {
    PdfInfo {
        filename: "upload.pdf".to_string(),
        page_count: pages,
        file_size_bytes: 1234,
        sha256_checksum: "cafe".to_string(),
    }
}

fn job(backend: PdfParserBackend) -> PdfJob {
    PdfJob {
        owner: owner(),
        existing_document_id: None,
        request: request(backend),
        source_url: None,
        skip_extraction: false,
        method: "vlm_ocr".to_string(),
    }
}

fn figure() -> ExtractedFigure {
    ExtractedFigure {
        id: "fig_1_0".to_string(),
        image_bytes: vec![1],
        mime: "image/webp".to_string(),
        caption: "A figure.".to_string(),
        page: 1,
        order_index: 0,
    }
}

fn table() -> ExtractedTable {
    ExtractedTable {
        id: "tbl_1_1".to_string(),
        html: "<table></table>".to_string(),
        headers: vec![],
        rows: vec![],
        caption: String::new(),
        page: 1,
        order_index: 1,
    }
}

fn text_of<'a>(fields: &'a [Field], name: &str) -> &'a str {
    match &fields.iter().find(|f| f.name == name).unwrap().value {
        MetaValue::Text(t) => t,
        other => panic!("{other:?}"),
    }
}

/// Steps through events that report success.
fn done(run: &mut PdfRun, job: &PdfJob) -> PdfTodo {
    run.step(job, PdfEvent::Done { error: None }).todo
}

#[test]
fn nul_bytes_go() {
    assert_eq!(strip_nul_bytes("a\0b\0".to_string()), "ab");
    assert_eq!(strip_nul_bytes("plain".to_string()), "plain");
}

#[test]
fn records_hold_what_fits() {
    assert_eq!(content_for_record("short"), "short");
    let long = "é".repeat(40_000);
    assert_eq!(content_for_record(&long).len(), 65_536);
    let odd = format!("a{}", "é".repeat(40_000));
    assert_eq!(content_for_record(&odd).len(), 65_535);
}

#[test]
fn the_chunker_sees_pointers_and_no_references() {
    let md = "Body ![tbl_1_1](edgequake-table).\n\n## References\n\n[1] X.\n";
    assert_eq!(
        chunker_input(md, &vec![]),
        "Body ![tbl_1_1](edgequake-table).\n\n"
    );
    assert_eq!(chunker_input(md, &vec![table()]), "Body [[table:tbl_1_1]].\n\n");
}

#[test]
fn chunk_keys_belong_to_one_document() {
    let keys: Vec<String> = ["d-chunk-0", "d-metadata", "dd-chunk-0", "d-chunk-1"]
        .iter()
        .map(|s| s.to_string())
        .collect();
    assert_eq!(chunk_keys(&keys, "d"), ["d-chunk-0", "d-chunk-1"]);
}

#[test]
fn longer_documents_are_converted_with_care() {
    assert_eq!(conversion_concurrency(None, "openai", 49), 10);
    assert_eq!(conversion_concurrency(None, "openai", 50), 8);
    assert_eq!(conversion_concurrency(None, "openai", 200), 5);
    assert_eq!(conversion_concurrency(None, "openai", 500), 3);
    assert_eq!(conversion_concurrency(None, "ollama", 1), 2);
    assert_eq!(conversion_concurrency(Some("7"), "ollama", 1), 7);
    assert_eq!(conversion_dpi(None, 499), 150);
    assert_eq!(conversion_dpi(None, 500), 120);
    assert_eq!(conversion_dpi(None, 1000), 100);
    assert_eq!(conversion_dpi(Some("300"), 1000), 300);
    assert_eq!(conversion_dpi(Some("4294967296"), 1), 150);
}

#[test]
fn plans_follow_the_backend() {
    let mut r = request(PdfParserBackend::Vision);
    assert_eq!(vision_model_of(&r).as_deref(), Some("see-1"));
    let p = conversion_plan(&r, Some(10));
    assert_eq!(p.model.as_deref(), Some("see-1"));
    assert_eq!(p.timeout_secs, Some(200));
    assert_eq!(p.page_count_hint, Some(10));
    assert!(!p.captures && !p.no_resume);
    assert_eq!((p.vlm_base_url, p.vlm_model), (None, None));
    assert_eq!(p.checkpoint_dir, "/tmp/edgequake-checkpoints");
    r.settings.vision_timeout_secs = Some("77".to_string());
    assert_eq!(conversion_plan(&r, Some(10)).timeout_secs, Some(77));
    let mut r = request(PdfParserBackend::VlmOcr);
    r.vision_model = Some("GLM-OCR".to_string());
    let p = conversion_plan(&r, None);
    assert_eq!(p.model, None);
    assert_eq!(p.vlm_base_url.as_deref(), Some("http://aperture"));
    assert_eq!(p.vlm_model.as_deref(), Some("GLM-OCR"));
    assert_eq!(p.timeout_secs, None);
    assert!(p.captures);
    r.vision_model = Some(String::new());
    assert_eq!(conversion_plan(&r, None).vlm_model, None);
}

#[test]
fn little_text_is_suspicious() {
    let low = low_content_warning(PdfParserBackend::EdgeParse, "0123456789", Some(2));
    assert_eq!(low, Some(5));
    assert_eq!(
        low_content_message(low).as_deref(),
        Some("Low text content detected. This PDF may be image-only. Consider using Vision extraction.")
    );
    assert_eq!(low_content_warning(PdfParserBackend::Vision, "", Some(2)), None);
    assert_eq!(
        low_content_warning(PdfParserBackend::VlmOcr, &"x".repeat(50), None),
        None
    );
    assert_eq!(low_content_message(None), None);
}

#[test]
fn failed_enrichment_is_a_partial_failure() {
    assert_eq!(final_status_of("completed", true), "partial_failure");
    assert_eq!(final_status_of("completed", false), "completed");
    assert_eq!(final_status_of("failed", true), "failed");
}

#[test]
fn documents_show_up_early() {
    let fields = early_metadata("d", &info(Some(3)), &owner(), "then", "now");
    assert_eq!(text_of(&fields, "id"), "d");
    assert_eq!(text_of(&fields, "status"), "processing");
    assert_eq!(
        text_of(&fields, "stage_message"),
        "Converting PDF to Markdown (0/3 pages)"
    );
    assert_eq!(text_of(&fields, "created_at"), "then");
    assert_eq!(text_of(&fields, "updated_at"), "now");
    let fields = early_metadata("d", &info(Some(0)), &owner(), "", "");
    assert_eq!(
        text_of(&fields, "stage_message"),
        "Converting PDF to Markdown (detecting pages...)"
    );
}

#[test]
fn a_new_document_is_read_from_load_to_cleaning() {
    let job = job(PdfParserBackend::VlmOcr);
    let mut run = PdfRun::start(&job, true, DOC.to_string()).unwrap();
    assert!(matches!(run.first_todo(&job), PdfTodo::LoadPdf));
    let d = run.step(&job, PdfEvent::Loaded { pdf: Ok(Some(info(Some(2)))) });
    assert!(matches!(d.todo, PdfTodo::MarkProcessing));
    let d = run.step(&job, PdfEvent::Done { error: None });
    assert_eq!((d.progress[0].stage, d.progress[0].percent), ("pdf_loading", 5));
    assert!(matches!(d.todo, PdfTodo::SaveId));
    let todo = done(&mut run, &job);
    assert!(matches!(todo, PdfTodo::WriteMetadata { key } if key == format!("{DOC}-metadata")));
    let todo = done(&mut run, &job);
    assert!(matches!(
        todo,
        PdfTodo::EnsureRecord { title, content, status: "processing" }
            if title == "upload.pdf" && content.is_empty()
    ));
    let d = run.step(&job, PdfEvent::Done { error: None });
    assert_eq!(d.progress[0].stage, "pdf_converting");
    assert!(matches!(d.todo, PdfTodo::CheckCancelled { stage: "pre-vision-extraction" }));
    let d = run.step(&job, PdfEvent::Gate { cancelled: false });
    assert!(matches!(d.todo, PdfTodo::Convert { plan } if plan.captures));
    let outcome = ConversionOutcome::Done {
        markdown: "Body\0 ![tbl_1_1](edgequake-table).\n\n## References\n\n[1] X.\n".to_string(),
        figures: vec![figure()],
        tables: vec![table()],
        blocks: 1,
    };
    let d = run.step(&job, PdfEvent::Converted { outcome });
    assert_eq!(d.progress[0].stage, "storing_markdown");
    assert!(matches!(d.todo, PdfTodo::StoreMarkdown { model: None }));
    assert!(!run.markdown.contains('\0'));
    assert!(matches!(done(&mut run, &job), PdfTodo::ReadFrontMatter));
    let front = Some(FrontMatter {
        title: "Glass".to_string(),
        first_author: Some("Roberts".to_string()),
    });
    let d = run.step(&job, PdfEvent::FrontMatterRead { front });
    assert!(matches!(
        d.todo,
        PdfTodo::UpdateFilename { name } if name == "Roberts et al. - Glass.pdf"
    ));
    assert!(matches!(done(&mut run, &job), PdfTodo::SyncTitle { .. }));
    assert_eq!(run.pdf.filename, "Roberts et al. - Glass.pdf");
    assert!(matches!(done(&mut run, &job), PdfTodo::BackfillFigures));
    assert!(matches!(done(&mut run, &job), PdfTodo::BackfillTables));
    let d = run.step(&job, PdfEvent::Done { error: Some("late".to_string()) });
    assert!(!run.enrichment_failed);
    assert_eq!(d.progress[0].stage, "entity_extraction");
    assert!(matches!(d.todo, PdfTodo::CheckCancelled { stage: "pre-text-insert" }));
    let d = run.step(&job, PdfEvent::Gate { cancelled: false });
    assert!(matches!(d.todo, PdfTodo::ParseReferences));
    match done(&mut run, &job) {
        PdfTodo::InsertText { text, metadata } => {
            assert_eq!(text, "Body [[table:tbl_1_1]].\n\n");
            assert_eq!(text_of(&metadata, "filename"), "Roberts et al. - Glass.pdf");
            assert_eq!(text_of(&metadata, "pdf_extraction_method"), "vlm_ocr");
        }
        other => panic!("{other:?}"),
    }
    let d = run.step(&job, PdfEvent::Inserted { result: Ok(None) });
    assert_eq!(d.status, Some("algo_extracting"));
    assert!(matches!(
        d.todo,
        PdfTodo::ExtractAlgorithms { workspace: Some(w) } if w == "w"
    ));
    let d = run.step(&job, PdfEvent::AlgorithmsExtracted { failures: Some(0) });
    assert!(matches!(d.todo, PdfTodo::ReloadPdf));
    assert!(matches!(done(&mut run, &job), PdfTodo::DetectRepos));
    let d = run.step(&job, PdfEvent::Done { error: None });
    assert_eq!(d.status, Some("media_enrichment"));
    assert!(matches!(d.todo, PdfTodo::BackfillFigures));
    assert!(matches!(done(&mut run, &job), PdfTodo::EmbedFigures));
    assert!(matches!(done(&mut run, &job), PdfTodo::ReadFigures));
    assert!(matches!(done(&mut run, &job), PdfTodo::BackfillTables));
    let d = run.step(&job, PdfEvent::Done { error: Some("rows".to_string()) });
    assert!(run.enrichment_failed);
    assert!(matches!(d.todo, PdfTodo::EmbedTables));
    assert!(matches!(done(&mut run, &job), PdfTodo::LinkTables));
    let d = run.step(&job, PdfEvent::Done { error: None });
    assert_eq!(d.status, Some("classifying_tables"));
    assert!(matches!(d.todo, PdfTodo::ClassifyTables));
    let d = run.step(&job, PdfEvent::Done { error: None });
    assert_eq!((d.progress[0].stage, d.progress[0].percent), ("linking", 95));
    assert!(matches!(d.todo, PdfTodo::EnsureRecord { status: "indexed", .. }));
    assert!(matches!(done(&mut run, &job), PdfTodo::LinkPdf));
    let todo = done(&mut run, &job);
    assert!(matches!(
        todo,
        PdfTodo::SetFinalStatus { status } if status == "partial_failure"
    ));
    let d = run.step(&job, PdfEvent::Done { error: None });
    assert_eq!(d.progress[0].percent, 100);
    assert!(matches!(d.todo, PdfTodo::RemoveProgress));
    assert!(matches!(done(&mut run, &job), PdfTodo::Finish));
    assert_eq!(run.stage, PdfStage::Finished);
}

#[test]
fn a_document_that_is_read_again_is_cleaned_first() {
    let mut job = job(PdfParserBackend::EdgeParse);
    job.existing_document_id = Some(DOC.to_string());
    job.request.is_reprocess = true;
    let mut run = PdfRun::start(&job, true, "fresh".to_string()).unwrap();
    assert_eq!(run.document_id, DOC);
    let _ = run.step(&job, PdfEvent::Loaded { pdf: Ok(Some(info(None))) });
    assert!(matches!(done(&mut run, &job), PdfTodo::WriteMetadata { .. }));
    assert!(matches!(done(&mut run, &job), PdfTodo::EnsureRecord { .. }));
    let todo = done(&mut run, &job);
    assert!(matches!(todo, PdfTodo::DeleteContent { key } if key == format!("{DOC}-content")));
    assert!(matches!(done(&mut run, &job), PdfTodo::ListKeys));
    let keys = vec![format!("{DOC}-chunk-0"), "other".to_string()];
    let d = run.step(&job, PdfEvent::Keys { keys });
    assert!(matches!(d.todo, PdfTodo::DeleteChunks));
    assert_eq!(run.old_chunks, [format!("{DOC}-chunk-0")]);
    assert!(matches!(done(&mut run, &job), PdfTodo::PurgeVectors));
    assert!(matches!(done(&mut run, &job), PdfTodo::PurgeRows));
    assert!(matches!(done(&mut run, &job), PdfTodo::PurgeGraph));
    assert!(matches!(done(&mut run, &job), PdfTodo::CheckCancelled { .. }));
    let d = run.step(&job, PdfEvent::Gate { cancelled: true });
    assert!(matches!(d.todo, PdfTodo::Cancel));
}

#[test]
fn reading_fails_with_a_reason() {
    let fails = |todo: PdfTodo| match todo {
        PdfTodo::Fail { failure } => (failure.kind, failure.message),
        other => panic!("{other:?}"),
    };
    let vision = job(PdfParserBackend::Vision);
    let f = PdfRun::start(&vision, false, DOC.to_string()).unwrap_err();
    assert_eq!(f.kind, FailureKind::UnsupportedOperation);
    let start = || PdfRun::start(&vision, true, DOC.to_string()).unwrap();
    let mut run = start();
    assert_eq!(
        fails(run.step(&vision, PdfEvent::Loaded { pdf: Err("x".to_string()) }).todo),
        (FailureKind::Storage, "Failed to load PDF pdf-1: x".to_string())
    );
    let mut run = start();
    assert_eq!(
        fails(run.step(&vision, PdfEvent::Loaded { pdf: Ok(None) }).todo),
        (FailureKind::NotFound, "PDF not found: pdf-1".to_string())
    );
    let converting = |job: &PdfJob| {
        let mut run = PdfRun::start(job, true, DOC.to_string()).unwrap();
        let _ = run.step(job, PdfEvent::Loaded { pdf: Ok(Some(info(Some(10)))) });
        for _ in 0..4 {
            let _ = done(&mut run, job);
        }
        run
    };
    let mut run = start();
    let _ = run.step(&vision, PdfEvent::Loaded { pdf: Ok(Some(info(None))) });
    for _ in 0..3 {
        let _ = done(&mut run, &vision);
    }
    assert_eq!(
        fails(run.step(&vision, PdfEvent::Done { error: Some("x".to_string()) }).todo),
        (FailureKind::Storage, "Failed to create early documents row: x".to_string())
    );
    let mut blind = job(PdfParserBackend::Vision);
    blind.request.enable_vision = false;
    let mut run = converting(&blind);
    assert_eq!(
        fails(run.step(&blind, PdfEvent::Gate { cancelled: false }).todo),
        (
            FailureKind::UnsupportedOperation,
            "Vision PDF extraction requires enable_vision=true.".to_string()
        )
    );
    let mut run = converting(&vision);
    let d = run.step(&vision, PdfEvent::Gate { cancelled: false });
    assert!(matches!(
        d.todo,
        PdfTodo::MakeProvider { provider, model } if provider == "openai" && model == "see-1"
    ));
    let mut other = run.clone();
    assert_eq!(
        fails(other.step(&vision, PdfEvent::Done { error: Some("x".to_string()) }).todo),
        (
            FailureKind::Processing,
            "Failed to create vision provider 'openai': x".to_string()
        )
    );
    assert!(matches!(done(&mut run, &vision), PdfTodo::Convert { .. }));
    let mut other = run.clone();
    let outcome = ConversionOutcome::Failed { error: "x".to_string() };
    assert_eq!(
        fails(other.step(&vision, PdfEvent::Converted { outcome }).todo),
        (FailureKind::Processing, "PDF conversion failed: x".to_string())
    );
    let d = run.step(&vision, PdfEvent::Converted { outcome: ConversionOutcome::TimedOut });
    assert!(matches!(
        d.todo,
        PdfTodo::ReportTimeout { message }
            if message
                == "Vision extraction timed out after 200s. Check that the LLM provider (openai) is reachable."
    ));
    assert_eq!(
        fails(done(&mut run, &vision)),
        (
            FailureKind::Timeout,
            "Vision extraction timed out after 200s for PDF pdf-1. Provider 'openai' may be unresponsive.".to_string()
        )
    );
}

#[test]
fn chunks_only_mode_skips_the_heavy_stages() {
    let mut job = job(PdfParserBackend::EdgeParse);
    job.skip_extraction = true;
    let mut run = PdfRun::start(&job, true, "no-uuid".to_string()).unwrap();
    let _ = run.step(&job, PdfEvent::Loaded { pdf: Ok(Some(info(Some(1)))) });
    for _ in 0..3 {
        let _ = done(&mut run, &job);
    }
    assert_eq!(run.stage, PdfStage::GateConvert);
    let _ = run.step(&job, PdfEvent::Gate { cancelled: false });
    let outcome = ConversionOutcome::Done {
        markdown: "Body".to_string(),
        figures: vec![],
        tables: vec![],
        blocks: 0,
    };
    let _ = run.step(&job, PdfEvent::Converted { outcome });
    assert_eq!(run.low_content, Some(4));
    let _ = done(&mut run, &job);
    let d = run.step(&job, PdfEvent::FrontMatterRead { front: None });
    assert!(matches!(d.todo, PdfTodo::CheckCancelled { .. }));
    let _ = run.step(&job, PdfEvent::Gate { cancelled: false });
    let _ = done(&mut run, &job);
    let mut failing = run.clone();
    let result = Ok(Some("partial_failure".to_string()));
    let d = run.step(&job, PdfEvent::Inserted { result });
    assert!(matches!(
        d.todo,
        PdfTodo::SetFinalStatus { status } if status == "partial_failure"
    ));
    assert!(matches!(done(&mut run, &job), PdfTodo::FlagSkipped));
    assert!(matches!(done(&mut run, &job), PdfTodo::RemoveProgress));
    let failure = TaskFailure::new(FailureKind::Processing, "insert".to_string());
    let d = failing.step(&job, PdfEvent::Inserted { result: Err(failure) });
    assert!(matches!(d.todo, PdfTodo::Fail { failure } if failure.message == "insert"));
}
