use edgequake::layout::{BBox, ElementKind, LayoutElement, PixelBox, SUBPIXELS};
use edgequake::tables::{
    clean_cell, extract_and_patch, inline_table_placeholders, mark_table_placeholders,
    parse_table_html, render_table_embed_text, render_table_markdown, render_table_rerank_text, table_refs_in,
    ExtractedTable,
};

fn tbl(id: &str, caption: &str, headers: Vec<&str>, rows: Vec<Vec<&str>>) -> ExtractedTable {
    ExtractedTable {
        id: id.to_string(),
        html: String::new(),
        headers: headers.into_iter().map(String::from).collect(),
        rows: rows
            .into_iter()
            .map(|r| r.into_iter().map(String::from).collect())
            .collect(),
        caption: caption.to_string(),
        page: 1,
        order_index: 0,
    }
}

#[test]
fn render_uses_first_row_as_header_when_no_headers() {
    let t = tbl(
        "tbl_6_1",
        "Table 1: Accuracy",
        vec![],
        vec![
            vec!["Setting", "WebQs", "SciQ"],
            vec!["GPT2-Small"],
            vec!["Protected(ours)", "16.8", "91.7"],
        ],
    );
    let md = render_table_markdown(&t).unwrap();
    assert!(md.starts_with("Table 1: Accuracy\n\n"), "md:\n{md}");
    assert!(md.contains("| Setting | WebQs | SciQ |"), "md:\n{md}");
    assert!(md.contains("| --- | --- | --- |"));
    assert!(md.contains("| Protected(ours) | 16.8 | 91.7 |"), "md:\n{md}");
    assert!(md.contains("| GPT2-Small |  |  |"), "md:\n{md}");
}

#[test]
fn embed_text_is_caption_plus_headers_only() {
    let t = tbl(
        "tbl_1_0",
        "Table 1: Comparison with existing volume-hiding EMM schemes",
        vec!["Scheme", "Server Storage", "Query Complexity"],
        vec![
            vec!["Naive Padding", "O(m·l)", "O(l)"],
            vec!["XorMM", "1.23n+β", "l"],
        ],
    );
    let e = render_table_embed_text(&t).unwrap();
    assert!(
        e.starts_with("Table 1: Comparison with existing volume-hiding EMM schemes"),
        "embed:\n{e}"
    );
    assert!(e.contains("Columns: Scheme, Server Storage, Query Complexity"), "embed:\n{e}");
    assert!(!e.contains("1.23n+β"), "embed:\n{e}");
    assert!(!e.contains("Naive Padding"), "embed:\n{e}");
}

#[test]
fn rerank_text_is_caption_plus_both_axes() {
    let t = tbl(
        "tbl_1_0",
        "Table 1: Comparison",
        vec!["Scheme", "Server Storage"],
        vec![
            vec!["Naive Padding", "O(m·l)"],
            vec!["XorMM", "1.23n+β"],
            vec!["VXorMM", "2(1.23n+β)"],
        ],
    );
    let r = render_table_rerank_text(&t).unwrap();
    assert!(r.contains("Columns: Scheme, Server Storage"), "rerank:\n{r}");
    assert!(r.contains("Rows: Naive Padding, XorMM, VXorMM"), "rerank:\n{r}");
    assert!(!r.contains("O(m·l)"), "rerank:\n{r}");
    assert!(!r.contains("1.23n+β"), "rerank:\n{r}");
}

#[test]
fn embed_and_rerank_text_none_when_empty() {
    let t = tbl("tbl_1_0", "", vec![], vec![]);
    assert!(render_table_embed_text(&t).is_none());
    assert!(render_table_rerank_text(&t).is_none());
}

#[test]
fn mark_table_placeholders_and_refs() {
    let t = tbl("tbl_2_0", "Table 1: Comparison", vec!["A"], vec![vec!["x"]]);
    let marked =
        mark_table_placeholders("Intro ![tbl_2_0](edgequake-table) outro.", &vec![t]);
    assert_eq!(marked, "Intro [[table:tbl_2_0]] outro.");
    assert!(!marked.contains("edgequake-table"));
    assert_eq!(table_refs_in(&marked), vec!["tbl_2_0".to_string()]);
    assert_eq!(
        table_refs_in("[[table:a]] x [[table:b]] y [[table:a]]"),
        vec!["a".to_string(), "b".to_string()]
    );
    assert!(table_refs_in("no refs here").is_empty());
}

#[test]
fn render_uses_explicit_headers() {
    let t = tbl("tbl_1_0", "", vec!["A", "B"], vec![vec!["1", "2"]]);
    let md = render_table_markdown(&t).unwrap();
    assert!(md.starts_with("| A | B |\n"), "md:\n{md}");
    assert!(md.contains("| 1 | 2 |"));
}

#[test]
fn render_none_when_empty() {
    assert!(render_table_markdown(&tbl("t", "cap", vec![], vec![])).is_none());
}

#[test]
fn inline_replaces_only_matching_placeholder() {
    let t = tbl("tbl_6_1", "Cap", vec!["X"], vec![vec!["9"]]);
    let md = "before\n\n![tbl_6_1](edgequake-table)\n\n![tbl_9_9](edgequake-table)\n\nafter";
    let out = inline_table_placeholders(md, &vec![t]);
    assert!(out.contains("| X |"), "out:\n{out}");
    assert!(out.contains("| 9 |"));
    assert!(out.contains("![tbl_9_9](edgequake-table)"), "out:\n{out}");
    assert!(!out.contains("![tbl_6_1](edgequake-table)"), "out:\n{out}");
}

#[test]
fn inline_escapes_pipes() {
    let t = tbl("t1", "", vec!["h"], vec![vec!["a|b"]]);
    let out = inline_table_placeholders("![t1](edgequake-table)", &vec![t]);
    assert!(out.contains("a\\|b"), "out:\n{out}");
}

/// A region with its corners in pixels.
fn make_element(
    kind: ElementKind,
    text: Option<&str>,
    x0: f32,
    y0: f32,
    x1: f32,
    y1: f32,
) -> LayoutElement {
    let sub = |v: f32| (v as f64 * SUBPIXELS as f64) as i64;
    let px = |v: f32| v.round() as i64;
    LayoutElement {
        kind,
        text: text.map(|t| t.to_string()),
        bbox: BBox {
            x_min: sub(x0),
            y_min: sub(y0),
            x_max: sub(x1),
            y_max: sub(y1),
        },
        pixels: PixelBox {
            x_min: px(x0),
            y_min: px(y0),
            x_max: px(x1),
            y_max: px(y1),
        },
    }
}

#[test]
fn no_tables_leaves_markdown_untouched() {
    let md = "# Title\n\nSome text.";
    let elements = vec![make_element(
        ElementKind::Text,
        Some("Some text."),
        0.0,
        0.0,
        10.0,
        10.0,
    )];
    let (out, tables) = extract_and_patch(&elements, 1, md);
    assert_eq!(out, md);
    assert!(tables.is_empty());
}

#[test]
fn single_table_with_header_row_parsed_and_patched() {
    let table_div = "<div style=\"text-align: center;\"><table border=\"1\">\
        <tr><th>Model</th><th>Acc</th></tr>\
        <tr><td>GPT-4</td><td>0.92</td></tr>\
        <tr><td>Llama</td><td>0.87</td></tr>\
        </table></div>";
    let md = format!("Body text.\n\n{table_div}\n\nMore text.");
    let elements = vec![
        make_element(ElementKind::Text, Some("Body text."), 0.0, 0.0, 100.0, 30.0),
        make_element(ElementKind::Table, None, 30.0, 60.0, 170.0, 140.0),
        make_element(
            ElementKind::TableTitle,
            Some("Table 1: Model accuracy on benchmark X."),
            40.0,
            145.0,
            160.0,
            160.0,
        ),
    ];
    let (out, tables) = extract_and_patch(&elements, 2, &md);
    assert!(out.contains("![tbl_2_1](edgequake-table)"), "out:\n{out}");
    assert!(!out.contains("<table border=\"1\">"));

    assert_eq!(tables.len(), 1);
    let t = &tables[0];
    assert_eq!(t.id, "tbl_2_1");
    assert_eq!(t.page, 2);
    assert_eq!(t.order_index, 1);
    assert_eq!(t.headers, vec!["Model", "Acc"]);
    assert_eq!(
        t.rows,
        vec![
            vec!["GPT-4".to_string(), "0.92".to_string()],
            vec!["Llama".to_string(), "0.87".to_string()],
        ]
    );
    assert_eq!(t.caption, "Table 1: Model accuracy on benchmark X.");
    assert!(t.html.contains("<table"));
}

#[test]
fn table_without_header_row_has_empty_headers() {
    let table_div = "<div style=\"text-align: center;\"><table border=\"1\">\
        <tr><td>a</td><td>b</td></tr>\
        <tr><td>c</td><td>d</td></tr>\
        </table></div>";
    let elements = vec![make_element(
        ElementKind::Table,
        None,
        0.0,
        0.0,
        100.0,
        100.0,
    )];
    let (out, tables) = extract_and_patch(&elements, 1, table_div);
    assert!(out.contains("![tbl_1_0](edgequake-table)"));
    assert_eq!(tables.len(), 1);
    assert!(tables[0].headers.is_empty());
    assert_eq!(tables[0].rows.len(), 2);
}

#[test]
fn caption_above_table_is_stitched() {
    let table_div = "<div style=\"text-align: center;\"><table border=\"1\">\
        <tr><td>x</td></tr></table></div>";
    let elements = vec![
        make_element(
            ElementKind::TableTitle,
            Some("Tab. 3: Caption above."),
            40.0,
            40.0,
            160.0,
            50.0,
        ),
        make_element(ElementKind::Table, None, 30.0, 60.0, 170.0, 140.0),
    ];
    let (_, tables) = extract_and_patch(&elements, 4, table_div);
    assert_eq!(tables[0].caption, "Tab. 3: Caption above.");
}

#[test]
fn two_tables_paired_in_order() {
    let div = |body: &str| {
        format!(
            "<div style=\"text-align: center;\"><table border=\"1\">{body}</table></div>"
        )
    };
    let md = format!(
        "intro\n\n{}\n\nmiddle\n\n{}\n\nend",
        div("<tr><td>a</td></tr>"),
        div("<tr><td>b</td></tr>"),
    );
    let elements = vec![
        make_element(ElementKind::Table, None, 0.0, 10.0, 100.0, 50.0),
        make_element(ElementKind::Text, Some("middle"), 0.0, 60.0, 100.0, 80.0),
        make_element(ElementKind::Table, None, 0.0, 90.0, 100.0, 150.0),
    ];
    let (out, tables) = extract_and_patch(&elements, 7, &md);
    assert!(out.contains("![tbl_7_0](edgequake-table)"));
    assert!(out.contains("![tbl_7_2](edgequake-table)"));
    assert_eq!(tables.len(), 2);
    assert_eq!(tables[0].order_index, 0);
    assert_eq!(tables[1].order_index, 2);
    assert_eq!(tables[0].rows[0], vec!["a".to_string()]);
    assert_eq!(tables[1].rows[0], vec!["b".to_string()]);
}

#[test]
fn cell_cleaner_strips_tags_and_collapses_whitespace() {
    assert_eq!(clean_cell("  foo  bar  "), "foo bar");
    assert_eq!(clean_cell("<b>foo</b> <i>bar</i>"), "foo bar");
    assert_eq!(clean_cell("line1<br/>line2"), "line1 line2");
    assert_eq!(clean_cell("a\n\n\tb"), "a b");
}

#[test]
fn html_is_read_in_any_case() {
    let (headers, rows) =
        parse_table_html("<TABLE><TR class=\"x\"><TH>A</TH><th>B<br/>b</th></TR><tr><td> 1 </td></tr></TABLE>");
    assert_eq!(headers, ["A", "B b"]);
    assert_eq!(rows, [["1"]]);
    let (headers, rows) = parse_table_html("no table");
    assert!(headers.is_empty() && rows.is_empty());
}

#[test]
fn references_to_tables_are_read_back() {
    let t = tbl("tbl_9_1", "", vec!["h"], vec![vec!["v"]]);
    let md = "see ![tbl_9_1](edgequake-table) and ![tbl_9_2](edgequake-table)";
    let marked = mark_table_placeholders(md, &vec![t]);
    assert_eq!(table_refs_in(&marked), ["tbl_9_1"]);
    assert!(marked.contains("![tbl_9_2](edgequake-table)"));
    let plain = "no placeholder at all";
    assert_eq!(mark_table_placeholders(plain, &vec![]), plain);
    assert_eq!(inline_table_placeholders(plain, &vec![]), plain);
}

#[test]
fn a_body_row_takes_its_data_cells() {
    let row = |cells: &[&str]| cells.iter().map(|c| c.to_string()).collect::<Vec<String>>();
    assert_eq!(
        parse_table_html(
            "<table><tr><th>M</th><th>A</th></tr><tr><th>G</th><td>1</td></tr>\
             <tr><th>x</th><th>y</th></tr></table>"
        ),
        (row(&["M", "A"]), vec![row(&["1"]), row(&["x", "y"])])
    );
    assert_eq!(
        parse_table_html("<table><tr><td>a</td></tr><tr><th>b</th></tr><tr></tr></table>"),
        (vec![], vec![row(&["a"]), row(&["b"]), row(&[])])
    );
}

#[test]
fn marked_tables_are_read_back_in_the_order_of_the_text() {
    let tables = vec![
        tbl("a", "", vec![], vec![]),
        tbl("b", "", vec![], vec![]),
        tbl("ab", "", vec![], vec![]),
        tbl("c", "", vec![], vec![]),
    ];
    let md = "x![ab](edgequake-table)[![b](edgequake-table)]![z](edgequake-table)\
              !![a](edgequake-table)![b](edgequake-table)[[![ab](edgequake-table)";
    let marked = mark_table_placeholders(md, &tables);
    assert_eq!(
        marked,
        "x[[table:ab]][[[table:b]]]![z](edgequake-table)![[table:a]][[table:b]][[[[table:ab]]"
    );
    assert_eq!(table_refs_in(&marked), ["ab", "b", "a"]);
}
