use edgequake::conversion::{
    build_algorithm_blocks, completions_url, finish_extraction, is_low_text, recognised_in_reply,
    recognition_request, request_of, PdfConversionError, PdfParserBackend, RecognitionTask,
    ReplyError, VlmClientConfig,
};
use edgequake::layout::{BBox, ElementKind, LayoutElement, PixelBox, SUBPIXELS};

#[test]
fn backend_env_aliases_roundtrip() {
    assert_eq!(
        PdfParserBackend::from_env_str("vision"),
        Some(PdfParserBackend::Vision)
    );
    assert_eq!(
        PdfParserBackend::from_env_str("edge-parse"),
        Some(PdfParserBackend::EdgeParse)
    );
    assert_eq!(PdfParserBackend::Vision.as_str(), "vision");
    assert_eq!(PdfParserBackend::EdgeParse.as_str(), "edgeparse");
    assert_eq!(PdfParserBackend::VlmOcr.as_str(), "vlmocr");
    assert_eq!(
        PdfParserBackend::from_env_str("kreuzberg"),
        Some(PdfParserBackend::EdgeParse)
    );
    assert_eq!(
        PdfParserBackend::from_env_str("pdfextract"),
        Some(PdfParserBackend::EdgeParse)
    );
    assert_eq!(
        PdfParserBackend::from_env_str("oarocr"),
        Some(PdfParserBackend::VlmOcr)
    );
    assert_eq!(
        PdfParserBackend::from_env_str("oarocrvl"),
        Some(PdfParserBackend::VlmOcr)
    );
    assert_eq!(
        PdfParserBackend::from_env_str("vlm-ocr"),
        Some(PdfParserBackend::VlmOcr)
    );
}


fn layout(kind: ElementKind, y0: i64, y1: i64, text: Option<&str>) -> LayoutElement {
    LayoutElement {
        kind,
        text: text.map(String::from),
        bbox: BBox { x_min: 0, y_min: y0 * SUBPIXELS, x_max: 0, y_max: y1 * SUBPIXELS },
        pixels: PixelBox { x_min: 0, y_min: y0, x_max: 0, y_max: y1 },
    }
}

#[test]
fn settings_choose_a_backend() {
    assert_eq!(PdfParserBackend::from_env_str(" VLM_OCR\n"), Some(PdfParserBackend::VlmOcr));
    assert_eq!(PdfParserBackend::from_env_str("llm"), Some(PdfParserBackend::Vision));
    assert_eq!(PdfParserBackend::from_env_str("paper"), None);
    assert_eq!(PdfParserBackend::from_setting(None), None);
    assert_eq!(PdfParserBackend::from_setting(Some("vision")), Some(PdfParserBackend::Vision));
    assert_eq!(PdfParserBackend::default(), PdfParserBackend::Vision);
    for b in [PdfParserBackend::Vision, PdfParserBackend::EdgeParse, PdfParserBackend::VlmOcr] {
        assert_eq!(PdfParserBackend::from_env_str(b.as_str()), Some(b));
    }
}

#[test]
fn listings_stand_under_their_captions() {
    let elements = vec![
        layout(ElementKind::Algorithm, 0, 100, None),
        layout(ElementKind::FigureTitle, 110, 120, Some("Algorithm 1: Sort")),
        layout(ElementKind::Algorithm, 500, 600, None),
        layout(ElementKind::Algorithm, 700, 710, None),
    ];
    let texts: Vec<String> =
        ["swap $x", "", "merge", "  "].iter().map(|t| t.to_string()).collect();
    let blocks = build_algorithm_blocks(&elements, &texts, 4);
    assert_eq!(blocks.len(), 2);
    assert_eq!(blocks[0].markdown, "## Algorithm 1: Sort\n\nswap $x$");
    assert_eq!(blocks[1].markdown, "merge");
    assert!(blocks.iter().all(|b| b.page == 4));
}

#[test]
fn extractions_need_text() {
    assert!(matches!(
        finish_extraction(" \n"),
        Err(PdfConversionError::EmptyOutput(_))
    ));
    assert_eq!(finish_extraction("Body\n").unwrap().trim(), "Body");
    assert!(is_low_text("short"));
    assert!(!is_low_text(&"x".repeat(200)));
}

#[test]
fn recognition_servers_are_addressed() {
    let c = VlmClientConfig::from_settings(None, None);
    assert_eq!(c.base_url, "http://localhost:8081");
    assert_eq!((c.timeout_secs, c.jpeg_quality), (120, 90));
    let c = VlmClientConfig::from_settings(None, Some("http://o".to_string()));
    assert_eq!(c.base_url, "http://o");
    let c = VlmClientConfig::from_settings(Some("http://c".to_string()), Some(String::new()));
    assert_eq!(c.base_url, "http://c");
    let c = c.with_overrides(None, Some("GLM".to_string()));
    assert_eq!((c.base_url.as_str(), c.model.as_deref()), ("http://c", Some("GLM")));
    assert_eq!(completions_url("http://c/"), "http://c/v1/chat/completions");
    assert_eq!(completions_url("http://c/v1/"), "http://c/v1/chat/completions");
}

#[test]
fn recognition_requests_are_json() {
    let mut c = VlmClientConfig::from_settings(None, None);
    let r = recognition_request(&c, RecognitionTask::Table, "data:\"x\"", 512);
    assert_eq!(r.url, "http://localhost:8081/v1/chat/completions");
    let v: serde_json::Value = serde_json::from_str(&r.body).unwrap();
    assert_eq!(v["max_tokens"], 512);
    assert_eq!(v["temperature"], 0.0);
    assert_eq!(v.get("model"), None);
    let content = &v["messages"][0]["content"];
    assert_eq!(v["messages"][0]["role"], "user");
    assert_eq!(content[0]["type"], "image_url");
    assert_eq!(content[0]["image_url"]["url"], "data:\"x\"");
    assert_eq!(content[1]["type"], "text");
    assert_eq!(content[1]["text"], RecognitionTask::Table.prompt_for_task());
    c.model = Some("GLM\\OCR".to_string());
    let r = recognition_request(&c, RecognitionTask::Ocr, "d", 1);
    let v: serde_json::Value = serde_json::from_str(&r.body).unwrap();
    assert_eq!(v["model"], "GLM\\OCR");
    let r = recognition_request(&c, RecognitionTask::Ocr, "\u{1}\u{8}\t\n\u{c}\r\u{1f}/é\u{7f}\"\\", 1);
    assert!(
        r.body.contains(r#"{"url":"\u0001\b\t\n\f\r\u001f/é"#),
        "{}",
        r.body
    );
    assert!(r.body.contains("é\u{7f}\\\"\\\\\"},"), "{}", r.body);
    assert_eq!(
        request_of("\"i\"", "\"p\"", 7, None),
        "{\"max_tokens\":7,\"messages\":[{\"content\":[{\"image_url\":{\"url\":\"i\"},\"type\":\"image_url\"},{\"text\":\"p\",\"type\":\"text\"}],\"role\":\"user\"}],\"temperature\":0.0}"
    );
}

#[test]
fn replies_are_searched_for_their_message() {
    let reply = "{\"choices\":[{\"message\":{\"content\":\"  text \\n\"}}]}";
    assert_eq!(recognised_in_reply(reply), Ok("text".to_string()));
    assert_eq!(recognised_in_reply("{}"), Err(ReplyError::UnexpectedShape));
    assert_eq!(recognised_in_reply("<html>"), Err(ReplyError::InvalidJson));
}
