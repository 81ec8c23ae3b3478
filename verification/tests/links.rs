use edgequake::links::{
    boundary_after_page, is_references_heading, strip_references_section, LinkExtraction, PdfLinkAnnotation,
    ReferenceBoundary,
};

/// A height on a page: larger is higher.
fn height(y: f32) -> i64 {
    (y as f64 * 65536.0) as i64
}

#[test]
fn is_past_refs_handles_all_cases() {
    let ext = LinkExtraction {
        links: vec![],
        refs_boundary: Some(ReferenceBoundary {
            page_index: 5,
            y_top: height(400.0),
        }),
        page_count: 10,
    };

    let before_page = PdfLinkAnnotation {
        url: "u".into(),
        page_index: 2,
        y_top: height(100.0),
    };
    let after_page = PdfLinkAnnotation {
        url: "u".into(),
        page_index: 6,
        y_top: height(700.0),
    };
    let same_page_above = PdfLinkAnnotation {
        url: "u".into(),
        page_index: 5,
        y_top: height(500.0),
    };
    let same_page_below = PdfLinkAnnotation {
        url: "u".into(),
        page_index: 5,
        y_top: height(300.0),
    };

    assert!(!ext.is_past_refs(&before_page));
    assert!(ext.is_past_refs(&after_page));
    assert!(!ext.is_past_refs(&same_page_above));
    assert!(ext.is_past_refs(&same_page_below));
}

#[test]
fn is_past_refs_returns_false_without_boundary() {
    let ext = LinkExtraction {
        links: vec![],
        refs_boundary: None,
        page_count: 10,
    };
    let link = PdfLinkAnnotation {
        url: "u".into(),
        page_index: 0,
        y_top: height(0.0),
    };
    assert!(!ext.is_past_refs(&link));
}

#[test]
fn refs_heading_regex_matches_common_forms() {
    for s in [
        "References",
        "REFERENCES",
        "references",
        "Bibliography",
        "BIBLIOGRAPHY",
        "Works Cited",
        "works cited",
        "Literature Cited",
        "6. References",
        "6 References",
        "  References  ",
    ] {
        assert!(is_references_heading(s), "should match: {s:?}");
    }
}

#[test]
fn refs_heading_regex_rejects_false_positives() {
    for s in [
        "References and notes",
        "See References",
        "References:",
        "Other references",
        "[10] References",
    ] {
        assert!(!is_references_heading(s), "should NOT match: {s:?}");
    }
}

#[test]
fn strip_references_truncates_at_markdown_heading() {
    let md = "# Title\n\nIntro paragraph.\n\n## Method\n\nWe do X.\n\n## References\n\n[1] Alice et al, 2024.\n[2] Bob, 2025.\n";
    let out = strip_references_section(md);
    assert!(out.ends_with("We do X.\n\n"), "out: {out:?}");
    assert!(!out.contains("References"));
    assert!(!out.contains("Alice"));
}

#[test]
fn strip_references_handles_bibliography_and_works_cited() {
    for heading in ["## Bibliography", "## Works Cited", "## Literature Cited"] {
        let md = format!("Body.\n\n{heading}\n\nCitation 1.\n");
        let out = strip_references_section(&md);
        assert_eq!(out, "Body.\n\n", "heading={heading:?}");
    }
}

#[test]
fn strip_references_returns_input_when_no_heading() {
    let md = "Just a body, no references heading anywhere.\n";
    assert_eq!(strip_references_section(md), md);
}

#[test]
fn strip_references_ignores_mid_paragraph_mentions() {
    let md = "We see References [1] and the references show that…\nMore body.\n";
    assert_eq!(strip_references_section(md), md);
}

#[test]
fn strip_references_handles_numbered_heading() {
    let md = "Body.\n\n6. References\n\n[1] Citation.\n";
    let out = strip_references_section(md);
    assert_eq!(out, "Body.\n\n");
}

#[test]
fn strip_references_handles_bare_heading_without_hash() {
    let md = "Body line.\n\nReferences\n\n[1] Citation.\n";
    let out = strip_references_section(md);
    assert_eq!(out, "Body line.\n\n");
}

#[test]
fn strip_references_drops_at_first_heading_only() {
    let md = "Body.\n\n## References\n[1] A\n## References\n[2] B\n";
    let out = strip_references_section(md);
    assert_eq!(out, "Body.\n\n");
}

#[test]
fn strip_references_preserves_appendix_with_markdown_heading() {
    let md = "## Conclusion\n\nWe conclude X.\n\n## References\n\n[1] Alice, A. (2024). Title.\n[2] Bob, B. (2025). Other.\n\n## Appendix A: Notation\n\nLet $f$ denote the inversion model.\n";
    let out = strip_references_section(&md);
    assert!(out.contains("Conclusion"), "out: {out:?}");
    assert!(out.contains("## Appendix A"), "appendix should survive");
    assert!(out.contains("inversion model"), "appendix body should survive");
    assert!(!out.contains("Alice"), "bibliography must be gone");
    assert!(!out.contains("Bob, B."), "bibliography must be gone");
    assert!(!out.contains("## References"));
}

#[test]
fn strip_references_preserves_letter_appendix_when_refs_is_bare() {
    let md = "Body.\n\nReferences\n\n[1] Alice et al, 2024.\n\nA Notation\n\nLet $f$ denote the inverter.\n";
    let out = strip_references_section(&md);
    assert!(out.contains("Body."));
    assert!(out.contains("A Notation"));
    assert!(out.contains("inverter"));
    assert!(!out.contains("Alice"));
}

#[test]
fn strip_references_preserves_dotted_letter_appendix() {
    let md = "## References\n[1] X.\n\nD.1 IMA inverter architecture\n\nWe use a 2-layer MLP.\n";
    let out = strip_references_section(&md);
    assert!(out.contains("D.1 IMA inverter architecture"), "out: {out:?}");
    assert!(out.contains("2-layer MLP"));
    assert!(!out.contains("[1] X."));
}

#[test]
fn strip_references_preserves_appendix_when_refs_is_numbered() {
    let md = "Body.\n\n6. References\n\n[1] Alice.\n[2] Bob.\n\nAppendix\n\nDetails.\n";
    let out = strip_references_section(&md);
    assert!(out.contains("Body."));
    assert!(out.contains("Appendix"));
    assert!(out.contains("Details."));
    assert!(!out.contains("Alice"));
}

#[test]
fn strip_references_treats_sub_headings_inside_refs_as_part_of_refs() {
    let md = "## References\n\n### Primary Sources\n\n[1] Alice.\n\n### Secondary Sources\n\n[2] Bob.\n\n## Appendix A\n\nAppendix prose.\n";
    let out = strip_references_section(&md);
    assert!(out.contains("## Appendix A"));
    assert!(out.contains("Appendix prose"));
    assert!(!out.contains("Primary Sources"));
    assert!(!out.contains("Alice"));
}

#[test]
fn strip_references_does_not_pickup_bibliography_entry_as_section_start() {
    let md = "## References\n\nA. Smith, J. Doe (2024). Title of work.\nB. Lee (2023). Another paper.\n";
    let out = strip_references_section(&md);
    assert_eq!(out, "");
}

#[test]
fn the_boundary_is_the_first_heading_of_the_references() {
    let page = vec![
        ("Introduction".to_string(), height(700.0)),
        ("  References ".to_string(), height(400.0)),
        ("References".to_string(), height(300.0)),
    ];
    let b = boundary_after_page(None, 4, &page).unwrap();
    assert_eq!((b.page_index, b.y_top), (4, height(400.0)));
    let kept = boundary_after_page(Some(b), 5, &page).unwrap();
    assert_eq!(kept.page_index, 4);
    assert!(boundary_after_page(None, 0, &vec![]).is_none());
}

#[test]
fn other_texts_keep_their_line_ends() {
    let md = "A\r\n\r\nB\r\n";
    assert_eq!(strip_references_section(md), md);
    let md = "A\r\n## References\r\n[1] X\r\n## Appendix\r\nB";
    assert_eq!(strip_references_section(md), "A\r\n## Appendix\r\nB");
}
