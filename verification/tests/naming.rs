use edgequake::metadata::MetaValue;
use edgequake::naming::{
    derive_arxiv_year, format_citation_filename, new_filename, record_key, renamed_fields,
    sanitize_filename_segment, FrontMatter,
};

#[test]
fn year_from_arxiv_pdf_url() {
    assert_eq!(
        derive_arxiv_year("https://arxiv.org/pdf/2506.09452"),
        Some("2025".to_string())
    );
    assert_eq!(
        derive_arxiv_year("https://arxiv.org/abs/2312.01234v2"),
        Some("2023".to_string())
    );
}

#[test]
fn year_none_for_non_arxiv() {
    assert_eq!(derive_arxiv_year("https://example.com/paper.pdf"), None);
    assert_eq!(derive_arxiv_year(""), None);
}

#[test]
fn format_with_year() {
    assert_eq!(
        format_citation_filename("Roberts", Some("2025"), "Stained Glass Transform"),
        "Roberts et al. - 2025 - Stained Glass Transform.pdf"
    );
}

#[test]
fn format_without_year() {
    assert_eq!(
        format_citation_filename("Smith", None, "Paper Title"),
        "Smith et al. - Paper Title.pdf"
    );
}

#[test]
fn sanitize_strips_forbidden_chars_but_keeps_colon() {
    assert_eq!(sanitize_filename_segment("A/B\\C:D?E*F"), "A_B_C:D_E_F");
    assert_eq!(sanitize_filename_segment("  spaces   out  "), "spaces out");
    assert_eq!(
        sanitize_filename_segment("Euston: Efficient Inference"),
        "Euston: Efficient Inference"
    );
}

#[test]
fn truncates_long_title() {
    let long = "a".repeat(200);
    let f = format_citation_filename("X", Some("2020"), &long);
    assert!(f.ends_with(".pdf"));
    let title_part = f
        .strip_prefix("X et al. - 2020 - ")
        .and_then(|s| s.strip_suffix(".pdf"))
        .unwrap();
    assert_eq!(title_part.len(), 120);
}

#[test]
fn years_need_an_arxiv_id() {
    assert_eq!(derive_arxiv_year("https://arxiv.org/pdf/2506.09452v3.pdf"), Some("2025".to_string()));
    assert_eq!(derive_arxiv_year("https://arxiv.org/pdf/25060.9452"), None);
    assert_eq!(derive_arxiv_year("2506.1"), None);
    assert_eq!(derive_arxiv_year("https://arxiv.org/pdf/2506.0945"), None);
    assert_eq!(derive_arxiv_year("https://arxiv.org/pdf/2506."), None);
    assert_eq!(derive_arxiv_year("1.2506 2312.01234"), Some("2023".to_string()));
    assert_eq!(derive_arxiv_year("https://arxiv.org/"), None);
}

#[test]
fn sanitised_names_are_harmless() {
    for s in ["a<b>c\"d|e", "..hidden..", " . x . ", "\u{1}\u{7f}tab\there", "a \t\n b"] {
        let once = sanitize_filename_segment(s);
        assert_eq!(sanitize_filename_segment(&once), once, "{s:?}");
        assert!(!once.contains(['<', '>', '"', '|', '/', '\\', '?', '*']), "{once:?}");
        assert!(!once.contains("  ") && !once.contains('\t'), "{once:?}");
    }
}

#[test]
fn documents_are_renamed_after_their_front_matter() {
    let fm = Some(FrontMatter {
        title: "Stained Glass".to_string(),
        first_author: Some("Roberts".to_string()),
    });
    assert_eq!(
        new_filename(&fm, Some("https://arxiv.org/abs/2506.09452"), "x.pdf"),
        Some("Roberts et al. - 2025 - Stained Glass.pdf".to_string())
    );
    assert_eq!(
        new_filename(&fm, None, "x.pdf"),
        Some("Roberts et al. - Stained Glass.pdf".to_string())
    );
    assert_eq!(new_filename(&fm, None, "Roberts et al. - Stained Glass.pdf"), None);
    assert_eq!(new_filename(&None, None, "x.pdf"), None);
    let nobody = Some(FrontMatter {
        title: "Stained Glass".to_string(),
        first_author: None,
    });
    assert_eq!(new_filename(&nobody, None, "x.pdf"), None);
}

#[test]
fn a_renamed_document_keeps_its_record() {
    assert_eq!(record_key("doc-1"), "doc-1-metadata");
    let fields = renamed_fields("new.pdf");
    assert_eq!(fields.len(), 2);
    assert_eq!(fields[0].name, "title");
    assert_eq!(fields[1].name, "file_name");
    for f in &fields {
        assert!(matches!(&f.value, MetaValue::Text(t) if t == "new.pdf"));
    }
}
