use edgequake::conversion::{KreuzbergConverter, PdfConversionError};
use edgequake::layout::{BBox, ElementKind, LayoutElement, PixelBox};
use edgequake::page_runs::{
    missing_models, model_cache_dir, model_names, page_concurrency, path_below, rgb_of,
    vl_model_dir, BlockEvent, BlockRun, BlockTodo, ConvertEvent, ConvertNotice, ConvertRun,
    ConvertTodo, EngineError, MissingModel, OarOcrConverter, OarOcrVlConverter, PageConverter,
    VlmOcrConverter,
};

fn s(t: &str) -> String {
    t.to_string()
}

fn text(e: PdfConversionError) -> String {
    match e {
        PdfConversionError::Backend(t) => format!("backend {t}"),
        PdfConversionError::EmptyOutput(t) => format!("empty {t}"),
        PdfConversionError::Internal(t) => format!("internal {t}"),
    }
}

fn failure(todo: ConvertTodo) -> String {
    match todo {
        ConvertTodo::Fail { error } => text(error),
        other => panic!("{other:?}"),
    }
}

/// A conversion that is about to read its pages.
fn reading(converter: PageConverter, pages: usize) -> ConvertRun {
    let mut run = ConvertRun::new(converter);
    let d = run.step(ConvertEvent::ModelsFound { missing: None });
    assert!(matches!(d.todo, ConvertTodo::Render));
    let d = run.step(ConvertEvent::Rendered { pages: Ok(pages) });
    assert!(matches!(d.notice, ConvertNotice::Started { pages: n } if n == pages));
    assert!(matches!(d.todo, ConvertTodo::BuildEngine));
    let d = run.step(ConvertEvent::EngineBuilt { error: None });
    assert!(matches!(d.todo, ConvertTodo::ReadPages));
    run
}

#[test]
fn models_are_kept_where_the_setting_says() {
    assert_eq!(model_cache_dir(Some("/models"), Some("/home/u")), "/models");
    assert_eq!(
        model_cache_dir(Some(""), Some("/home/u")),
        "/home/u/.cache/edgequake/oar-ocr-models"
    );
    assert_eq!(
        vl_model_dir(None, Some("/home/u/")),
        "/home/u/.cache/edgequake/unirec-0.1b"
    );
    assert_eq!(model_cache_dir(None, None), "/tmp/edgequake-oar-ocr-models");
    assert_eq!(vl_model_dir(None, None), "/tmp/edgequake-unirec-0.1b");
    assert_eq!(path_below("", "a"), "a");
}

#[test]
fn missing_models_are_fetched() {
    let names = model_names();
    assert_eq!(names.len(), 13);
    let mut present = vec![true; 13];
    assert!(missing_models(&present).is_empty());
    present[4] = false;
    present[12] = false;
    let m = missing_models(&present);
    assert_eq!(m.len(), 2);
    assert_eq!(m[0].name, "ppocrv5_dict.txt");
    assert_eq!(
        m[1].url,
        "https://github.com/GreatV/oar-ocr/releases/download/v0.3.0/table_structure_dict_ch.txt"
    );
}

#[test]
fn opacity_is_dropped() {
    assert_eq!(rgb_of(&vec![1, 2, 3, 255, 4, 5, 6, 0]), [1, 2, 3, 4, 5, 6]);
    assert!(rgb_of(&vec![]).is_empty());
    assert_eq!(rgb_of(&vec![1, 2, 3, 255, 4, 5, 6]), [1, 2, 3, 4, 5, 6]);
}

#[test]
fn pages_are_read_several_at_a_time() {
    assert_eq!(page_concurrency(Some(9), Some("2")), 9);
    assert_eq!(page_concurrency(None, Some("2")), 2);
    assert_eq!(page_concurrency(None, Some("two")), 4);
    assert_eq!(page_concurrency(None, None), 4);
}

#[test]
fn pages_are_put_together_in_order() {
    let mut run = reading(PageConverter::VlmOcr, 4);
    let d = run.step(ConvertEvent::PageRead { index: 2, outcome: Ok(s("third")) });
    assert!(matches!(
        d.notice,
        ConvertNotice::PageComplete { page: 3, pages: 4, bytes: 5 }
    ));
    assert!(matches!(d.todo, ConvertTodo::Await));
    let d = run.step(ConvertEvent::PageRead { index: 1, outcome: Err(s("boom")) });
    assert!(matches!(
        d.notice,
        ConvertNotice::PageError { page: 2, pages: 4, error } if error == "boom"
    ));
    let d = run.step(ConvertEvent::PageRead { index: 3, outcome: Ok(s("  \n")) });
    assert!(matches!(d.notice, ConvertNotice::Nothing));
    let d = run.step(ConvertEvent::PageRead { index: 0, outcome: Ok(s("first $x")) });
    match d.todo {
        ConvertTodo::Finish { markdown, succeeded } => {
            assert_eq!(markdown, "first $x$\n\nthird");
            assert_eq!(succeeded, 2);
        }
        other => panic!("{other:?}"),
    }
}

#[test]
fn documents_without_text_are_errors() {
    let mut run = reading(PageConverter::VlmOcr, 1);
    let d = run.step(ConvertEvent::PageRead { index: 0, outcome: Err(s("x")) });
    assert_eq!(failure(d.todo), "empty VLM-OCR returned no text");
    let mut run = reading(PageConverter::OarOcr, 1);
    let d = run.step(ConvertEvent::PageRead { index: 0, outcome: Ok(s(" ")) });
    assert!(matches!(d.notice, ConvertNotice::PageComplete { .. }));
    assert_eq!(
        failure(d.todo),
        "empty OAR-OCR returned no text — PDF may be encrypted or unsupported"
    );
    for (converter, message) in [
        (PageConverter::OarOcr, "empty OAR-OCR: PDF has no pages"),
        (PageConverter::OarOcrVl, "empty OAR-OCR-VL: PDF has no pages"),
        (PageConverter::VlmOcr, "empty VLM-OCR: PDF has no pages"),
    ] {
        let mut run = ConvertRun::new(converter);
        let _ = run.step(ConvertEvent::ModelsFound { missing: None });
        let d = run.step(ConvertEvent::Rendered { pages: Ok(0) });
        assert_eq!(failure(d.todo), message);
    }
}

#[test]
fn conversions_fail_with_a_reason() {
    let missing = |converter, m| {
        let mut run = ConvertRun::new(converter);
        failure(run.step(ConvertEvent::ModelsFound { missing: Some(m) }).todo)
    };
    assert_eq!(
        missing(PageConverter::VlmOcr, MissingModel::Layout { path: s("/m") }),
        "backend VLM-OCR: layout model not found at /m. Download pp-doclayoutv2.onnx to $EDGEQUAKE_OAR_OCR_MODEL_DIR."
    );
    assert_eq!(
        missing(PageConverter::OarOcrVl, MissingModel::Layout { path: s("/m") }),
        "backend OAR-OCR-VL: layout model not found at /m. Run `scripts/download-oar-ocr-models.sh`."
    );
    assert_eq!(
        missing(PageConverter::OarOcrVl, MissingModel::Reader { path: s("/m") }),
        "backend OAR-OCR-VL: UniRec model not found at /m. Download from HuggingFace (topdu/unirec-0.1b)."
    );
    assert_eq!(
        missing(PageConverter::VlmOcr, MissingModel::Directory { error: s("x") }),
        "internal Failed to create model dir: x"
    );
    assert_eq!(
        missing(PageConverter::OarOcr, MissingModel::Directory { error: s("x") }),
        "internal Failed to create OAR-OCR model dir: x"
    );
    assert_eq!(
        missing(PageConverter::OarOcrVl, MissingModel::ReaderDirectory { error: s("x") }),
        "internal Failed to create OAR-OCR-VL model dir: x"
    );
    let e = PdfConversionError::Internal(s("Failed to write download: x"));
    assert_eq!(
        missing(PageConverter::OarOcr, MissingModel::Download { error: e }),
        "internal Failed to write download: x"
    );
    let engine = |converter, e| {
        let mut run = ConvertRun::new(converter);
        let _ = run.step(ConvertEvent::ModelsFound { missing: None });
        let _ = run.step(ConvertEvent::Rendered { pages: Ok(1) });
        failure(run.step(ConvertEvent::EngineBuilt { error: Some(e) }).todo)
    };
    assert_eq!(
        engine(PageConverter::OarOcr, EngineError::Predictor { error: s("x") }),
        "backend OAR-OCR builder failed: x"
    );
    assert_eq!(
        engine(PageConverter::OarOcrVl, EngineError::Predictor { error: s("x") }),
        "backend OAR-OCR-VL: layout predictor failed: x"
    );
    assert_eq!(
        engine(PageConverter::OarOcrVl, EngineError::Reader { error: s("x") }),
        "backend OAR-OCR-VL: UniRec load failed: x"
    );
    assert_eq!(
        engine(PageConverter::VlmOcr, EngineError::Pool { error: s("x") }),
        "internal rayon pool: x"
    );
    let mut run = ConvertRun::new(PageConverter::VlmOcr);
    let _ = run.step(ConvertEvent::ModelsFound { missing: None });
    let d = run.step(ConvertEvent::Rendered { pages: Err(s("x")) });
    assert_eq!(failure(d.todo), "backend hayro parse failed: x");
}

fn listing() -> LayoutElement {
    LayoutElement {
        kind: ElementKind::Algorithm,
        text: None,
        bbox: BBox { x_min: 0, y_min: 0, x_max: 10, y_max: 10 },
        pixels: PixelBox { x_min: 0, y_min: 0, x_max: 0, y_max: 0 },
    }
}

#[test]
fn algorithm_blocks_come_in_page_order() {
    let mut run = BlockRun::new();
    let path = s("/m/pp-doclayout_plus-l.onnx");
    assert!(matches!(
        run.step(BlockEvent::LayoutModel { path, exists: true }),
        BlockTodo::Render
    ));
    assert!(matches!(
        run.step(BlockEvent::Rendered { pages: Ok(3) }),
        BlockTodo::BuildPredictor
    ));
    assert!(matches!(
        run.step(BlockEvent::PredictorBuilt { error: None }),
        BlockTodo::BuildPool
    ));
    assert!(matches!(
        run.step(BlockEvent::PoolBuilt { error: None }),
        BlockTodo::ReadPages
    ));
    let regions = Some((vec![listing()], vec![s("later")]));
    let _ = run.step(BlockEvent::PageRead { page: 3, regions });
    let _ = run.step(BlockEvent::PageRead { page: 2, regions: None });
    let regions = Some((vec![listing(), listing()], vec![s("one"), s("two $x")]));
    match run.step(BlockEvent::PageRead { page: 1, regions }) {
        BlockTodo::Finish { blocks } => {
            let found: Vec<(usize, &str)> =
                blocks.iter().map(|b| (b.page, b.markdown.as_str())).collect();
            assert_eq!(found, [(1, "one"), (1, "two $x$"), (3, "later")]);
        }
        other => panic!("{other:?}"),
    }
}

#[test]
fn block_detection_fails_with_a_reason() {
    let failure = |todo| match todo {
        BlockTodo::Fail { error } => text(error),
        other => panic!("{other:?}"),
    };
    let mut run = BlockRun::new();
    assert_eq!(
        failure(run.step(BlockEvent::LayoutModel { path: s("/m"), exists: false })),
        "backend Algorithm detection: layout model not found at /m"
    );
    let mut run = BlockRun::new();
    let _ = run.step(BlockEvent::LayoutModel { path: s("/m"), exists: true });
    assert!(matches!(
        run.step(BlockEvent::Rendered { pages: Ok(0) }),
        BlockTodo::Finish { blocks } if blocks.is_empty()
    ));
    let mut run = BlockRun::new();
    let _ = run.step(BlockEvent::LayoutModel { path: s("/m"), exists: true });
    let _ = run.step(BlockEvent::Rendered { pages: Ok(1) });
    assert_eq!(
        failure(run.step(BlockEvent::PredictorBuilt { error: Some(s("x")) })),
        "backend Algorithm detection: layout predictor failed: x"
    );
}

#[test]
fn converters_begin_their_own_runs() {
    assert_eq!(OarOcrConverter.backend_name(), "oarocr");
    assert_eq!(OarOcrVlConverter.backend_name(), "oarocrvl");
    assert_eq!(VlmOcrConverter.backend_name(), "vlmocr");
    assert_eq!(KreuzbergConverter.backend_name(), "kreuzberg");
    assert_eq!(OarOcrConverter.start().converter, PageConverter::OarOcr);
    assert_eq!(OarOcrVlConverter.start().converter, PageConverter::OarOcrVl);
    assert_eq!(VlmOcrConverter.start().converter, PageConverter::VlmOcr);
}
