use edgequake::backfill::{
    backfill_outcome, chunk_id_of, figure_row, figure_vector_metadata, media_row_index,
    row_document, table_row, table_texts, table_vector_metadata, EmbedAction, EmbedEvent,
    EmbedRun, Medium, Storing,
};
use edgequake::figures::ExtractedFigure;
use edgequake::graph::{
    table_entities, table_entity_vector, table_node, table_nodes_stored, ExtractedEntity,
    ExtractedRelationship, Extraction, FigureGraph, LinkAction, LinkEvent, LinkRun, Owner,
    ReadAction, ReadEvent, ReadRun,
};
use edgequake::metadata::{Field, MetaValue};
use edgequake::table_classification::{
    build_classification_prompt, can_be_cut, classification_document, classification_from_fields,
    extract_first_json_object, parse_classification_response, ClassifyAction, ClassifyEvent,
    ClassifyRun, TableRow,
};
use edgequake::tables::ExtractedTable;
use edgequake::tasks::FailureKind;

fn s(t: &str) -> String {
    t.to_string()
}

fn figure(id: &str) -> ExtractedFigure {
    ExtractedFigure {
        id: s(id),
        image_bytes: vec![1, 2, 3],
        mime: s("image/webp"),
        caption: s("Figure 1: Loss."),
        page: 3,
        order_index: 7,
    }
}

fn table(caption: &str, rows: Vec<Vec<&str>>) -> ExtractedTable {
    ExtractedTable {
        id: s("tbl_2_4"),
        html: s("<table>…</table>"),
        headers: vec![],
        rows: rows
            .into_iter()
            .map(|r| r.into_iter().map(String::from).collect())
            .collect(),
        caption: s(caption),
        page: 2,
        order_index: 4,
    }
}

fn storing() -> Storing {
    Storing {
        document_id: s("doc"),
        tenant_id: s("t"),
        workspace_id: s("w"),
        embedding_provider: s("openai"),
        embedding_model: s("e"),
    }
}

fn owner() -> Owner {
    Owner { document_id: s("doc"), tenant_id: s("t"), workspace_id: s("w") }
}

fn value<'a>(fields: &'a [Field], name: &str) -> &'a MetaValue {
    &fields.iter().find(|f| f.name == name).unwrap().value
}

fn text<'a>(fields: &'a [Field], name: &str) -> &'a str {
    match value(fields, name) {
        MetaValue::Text(t) => t,
        other => panic!("{other:?}"),
    }
}

#[test]
fn rows_have_places_of_their_own() {
    assert_eq!(media_row_index(Medium::Figure, 3, 7), Some(1_003_007));
    assert_eq!(media_row_index(Medium::Table, 3, 7), Some(2_003_007));
    assert_eq!(media_row_index(Medium::Figure, 0, 0), Some(1_000_000));
    assert_eq!(media_row_index(Medium::Figure, 999, 999), Some(1_999_999));
    assert_eq!(media_row_index(Medium::Table, 999, 999), Some(2_999_999));
    assert_eq!(media_row_index(Medium::Figure, 0, 999_999), Some(1_999_999));
    assert_eq!(media_row_index(Medium::Figure, 1_000, 0), None);
    assert_eq!(media_row_index(Medium::Table, 999, 1_000), None);
    assert_eq!(media_row_index(Medium::Table, u32::MAX, u32::MAX), None);
}

#[test]
fn media_become_rows() {
    let r = figure_row(&figure("fig_3_7")).unwrap();
    assert_eq!(r.content, "Figure 1: Loss.");
    assert_eq!(r.chunk_index, 1_003_007);
    assert_eq!(r.media_bytes, [1, 2, 3]);
    assert_eq!(r.media_mime, "image/webp");
    assert_eq!(text(&r.metadata, "kind"), "figure");
    assert_eq!(text(&r.metadata, "figure_id"), "fig_3_7");
    let t = table_row(&table("Cap", vec![vec!["a", "b"]])).unwrap();
    assert_eq!(t.chunk_index, 2_002_004);
    assert_eq!(t.table_html, "<table>…</table>");
    assert_eq!(t.rows, [["a", "b"]]);
    assert_eq!(text(&t.metadata, "table_id"), "tbl_2_4");
    assert!(matches!(value(&t.metadata, "page"), MetaValue::Count(2)));
}

#[test]
fn a_row_without_a_place_has_failed() {
    let mut f = figure("fig_3_7");
    f.page = 1_000;
    let e = figure_row(&f).unwrap_err();
    assert_eq!(e, "figure row index out of range");
    let mut t = table("Cap", vec![vec!["a"]]);
    t.page = 1_000;
    assert_eq!(table_row(&t).unwrap_err(), "table row index out of range");
    assert_eq!(
        backfill_outcome(Medium::Figure, &vec![Ok(()), Err(e), Ok(())]),
        Err(s("figure backfill: 1/3 inserts failed (first error: figure row index out of range)"))
    );
}

#[test]
fn backfills_report_their_first_failure() {
    assert_eq!(backfill_outcome(Medium::Figure, &vec![Ok(()), Ok(())]), Ok(()));
    assert_eq!(
        backfill_outcome(Medium::Figure, &vec![Ok(()), Err(s("one")), Err(s("two"))]),
        Err(s("figure backfill: 2/3 inserts failed (first error: one)"))
    );
    assert_eq!(
        backfill_outcome(Medium::Table, &vec![Err(s("x"))]),
        Err(s("table backfill: 1/1 inserts failed (first error: x)"))
    );
    assert!(row_document("no id").is_err());
    assert_eq!(row_document("00000000-0000-0000-0000-00000000000a"), Ok(10));
}

#[test]
fn vectors_of_media_carry_metadata() {
    assert_eq!(chunk_id_of("doc", Medium::Figure, "fig_3_7"), "doc-figure-fig_3_7");
    assert_eq!(chunk_id_of("doc", Medium::Table, "tbl_2_4"), "doc-table-tbl_2_4");
    let m = figure_vector_metadata(&storing(), &figure("fig_3_7"));
    assert_eq!(m.len(), 13);
    assert_eq!(text(&m, "type"), "chunk");
    assert_eq!(text(&m, "kind"), "figure");
    assert_eq!(text(&m, "content"), "Figure 1: Loss.");
    assert_eq!(text(&m, "caption"), "Figure 1: Loss.");
    assert_eq!(text(&m, "media_mime"), "image/webp");
    assert_eq!(text(&m, "embedding_provider"), "openai");
    let t = table("Table 1: Cost", vec![vec!["a", "b"], vec!["1", "2"]]);
    let texts = table_texts(&t).unwrap();
    assert_eq!(texts.embed_text, "Table 1: Cost\nColumns: a, b");
    assert!(texts.content.starts_with("Table 1: Cost\n\n| a | b |"));
    let m = table_vector_metadata(&storing(), &t, &texts);
    assert_eq!(m.len(), 13);
    assert_eq!(text(&m, "kind"), "table");
    assert_eq!(text(&m, "content"), texts.content);
    assert!(matches!(value(&m, "rerank_text"), MetaValue::Text(_)));
    assert!(table_texts(&table("", vec![])).is_none());
}

#[test]
fn every_wanted_item_is_embedded() {
    let wanted = vec![true, false, true];
    let mut run = EmbedRun::new();
    assert!(matches!(
        run.step(&wanted, EmbedEvent::Start),
        EmbedAction::Embed { item: 0 }
    ));
    assert!(matches!(
        run.step(&wanted, EmbedEvent::Embedded { ok: true }),
        EmbedAction::Upsert { item: 0 }
    ));
    assert!(matches!(
        run.step(&wanted, EmbedEvent::Upserted { ok: false }),
        EmbedAction::Embed { item: 2 }
    ));
    let mut other = run;
    assert!(matches!(
        other.step(&wanted, EmbedEvent::Embedded { ok: false }),
        EmbedAction::Finish { stored: 0 }
    ));
    let _ = run.step(&wanted, EmbedEvent::Embedded { ok: true });
    assert!(matches!(
        run.step(&wanted, EmbedEvent::Upserted { ok: true }),
        EmbedAction::Finish { stored: 1 }
    ));
    assert!(matches!(
        EmbedRun::new().step(&vec![], EmbedEvent::Start),
        EmbedAction::Finish { stored: 0 }
    ));
}

fn extraction() -> Extraction {
    Extraction {
        entities: vec![ExtractedEntity {
            name: s("GPT-2"),
            entity_type: s("MODEL"),
            description: s("d"),
            importance: 0.5f64.to_bits(),
            source_chunk_ids: vec![s("c1")],
        }],
        relationships: vec![ExtractedRelationship {
            source: s("GPT-2"),
            target: s("Loss"),
            relation_type: s("HAS"),
            description: s("r"),
            weight: 1.0f64.to_bits(),
            keywords: vec![],
            source_chunk_id: None,
        }],
    }
}

#[test]
fn figures_are_linked_to_what_was_read_from_them() {
    let mut g = FigureGraph::new();
    g.add_reading(&owner(), "doc-figure-f", &extraction());
    assert_eq!(g.nodes.len(), 1);
    assert_eq!(g.nodes[0].name, "GPT-2");
    assert!(matches!(
        value(&g.nodes[0].properties, "source_chunk_ids"),
        MetaValue::Texts(v) if v == &["c1", "doc-figure-f"]
    ));
    assert!(matches!(
        value(&g.edges[0].properties, "source_chunk_ids"),
        MetaValue::Texts(v) if v == &["doc-figure-f"]
    ));
    assert_eq!(g.links[0].entity_id, "entity:GPT-2");
    assert_eq!(g.links[0].chunk_id, "doc-figure-f");
}

#[test]
fn figures_are_read_one_by_one() {
    let figures = vec![figure("f1"), figure("f2")];
    let mut run = ReadRun::new();
    assert!(matches!(
        run.step(&owner(), &figures, ReadEvent::Start),
        ReadAction::Read { figure: 0, chunk_id } if chunk_id == "doc-figure-f1"
    ));
    assert!(matches!(
        run.step(&owner(), &figures, ReadEvent::ReadFailed),
        ReadAction::Read { figure: 1, chunk_id } if chunk_id == "doc-figure-f2"
    ));
    assert!(matches!(
        run.step(&owner(), &figures, ReadEvent::Read { extraction: extraction() }),
        ReadAction::StoreNodes
    ));
    let mut failing = run.clone();
    let error = Some(s("x"));
    assert!(matches!(
        failing.step(&owner(), &figures, ReadEvent::NodesStored { error }),
        ReadAction::Fail { message } if message == "upsert_nodes_batch: x"
    ));
    assert!(matches!(
        run.step(&owner(), &figures, ReadEvent::NodesStored { error: None }),
        ReadAction::StoreEdges
    ));
    assert!(matches!(
        run.step(&owner(), &figures, ReadEvent::EdgesStored { error: None }),
        ReadAction::Link
    ));
    assert!(matches!(
        run.step(&owner(), &figures, ReadEvent::Linked),
        ReadAction::Finish { entities: 1, relationships: 1 }
    ));
}

#[test]
fn tables_become_entities() {
    let long = "x".repeat(200);
    let tables = vec![
        table(" Table 1: Cost ", vec![vec!["a"], vec!["1"]]),
        table("", vec![]),
        table("", vec![vec!["h"], vec!["v"]]),
        table(&long, vec![vec!["h"], vec!["v"]]),
    ];
    let e = table_entities("doc", &tables);
    assert_eq!(e.len(), 3);
    assert_eq!(e[0].name, "Table 1: Cost");
    assert_eq!(e[1].name, "Table 2.4");
    assert_eq!(e[2].name.len(), 120);
    assert_eq!(e[0].chunk_id, "doc-table-tbl_2_4");
    let n = table_node(&owner(), &e[0]);
    assert_eq!(n.name, "Table 1: Cost");
    assert_eq!(text(&n.properties, "entity_type"), "TABLE");
    assert!(matches!(
        value(&n.properties, "importance"),
        MetaValue::Float(b) if f64::from_bits(*b) == 0.5
    ));
    let (id, m) = table_entity_vector(&owner(), &e[0]);
    assert_eq!(id, "entity:Table 1: Cost");
    assert_eq!(text(&m, "type"), "entity");
    assert_eq!(text(&m, "description"), e[0].description);
    assert_eq!(table_nodes_stored(None), Ok(()));
    assert_eq!(
        table_nodes_stored(Some(s("x"))),
        Err(s("upsert_nodes_batch (tables): x"))
    );
}

#[test]
fn tables_are_added_nodes_first() {
    let tables = vec![
        table("A", vec![vec!["h"], vec!["v"]]),
        table("B", vec![vec!["h"], vec!["v"]]),
    ];
    let entities = table_entities("doc", &tables);
    let mut run = LinkRun::new(&entities);
    assert!(matches!(run.step(LinkEvent::Start), LinkAction::StoreNodes));
    assert!(matches!(
        run.step(LinkEvent::NodesStored { error: None }),
        LinkAction::Embed { item: 0 }
    ));
    assert!(matches!(
        run.step(LinkEvent::Embedded { ok: true }),
        LinkAction::Upsert { item: 0 }
    ));
    assert!(matches!(
        run.step(LinkEvent::Upserted { ok: true }),
        LinkAction::Embed { item: 1 }
    ));
    assert!(matches!(
        run.step(LinkEvent::Embedded { ok: false }),
        LinkAction::Finish { stored: 1 }
    ));
    let mut run = LinkRun::new(&entities);
    run.step(LinkEvent::Start);
    match run.step(LinkEvent::NodesStored { error: Some(s("x")) }) {
        LinkAction::Fail { message } => assert_eq!(message, "upsert_nodes_batch (tables): x"),
        other => panic!("{other:?}"),
    }
    assert!(matches!(
        LinkRun::new(&vec![]).step(LinkEvent::Start),
        LinkAction::Finish { stored: 0 }
    ));
}

#[test]
fn tables_are_labelled_in_turn() {
    let row = |id: &str| TableRow {
        table_id: s(id),
        caption: Some(s("Table 1")),
        html: s("<table></table>"),
    };
    let rows = vec![row("a"), row("b")];
    let mut run = ClassifyRun::start();
    let ask = run.step(&rows, ClassifyEvent::Proceed { cancelled: false });
    match ask {
        ClassifyAction::Ask { prompt } => {
            assert_eq!(prompt, build_classification_prompt("Table 1", "<table></table>"));
        }
        other => panic!("{other:?}"),
    }
    let reply = s("{\"table_type\":\"Quality\",\"rationale\":\"because\"}");
    let store = run.step(&rows, ClassifyEvent::Replied { reply });
    assert!(matches!(
        store,
        ClassifyAction::Store { table_id, label, rationale }
            if table_id == "a" && label == "quality" && rationale == "because"
    ));
    assert!(matches!(
        run.step(&rows, ClassifyEvent::Stored { ok: true }),
        ClassifyAction::GoOn
    ));
    let _ = run.step(&rows, ClassifyEvent::Proceed { cancelled: false });
    assert!(matches!(
        run.step(&rows, ClassifyEvent::CallFailed),
        ClassifyAction::GoOn
    ));
    assert!(matches!(
        run.step(&rows, ClassifyEvent::Proceed { cancelled: false }),
        ClassifyAction::Finish { classified: 1, total: 2 }
    ));
    let mut run = ClassifyRun::start();
    assert!(matches!(
        run.step(&rows, ClassifyEvent::Proceed { cancelled: true }),
        ClassifyAction::Finish { classified: 0, total: 2 }
    ));
}

#[test]
fn prompts_show_the_start_of_long_tables() {
    let short = build_classification_prompt("", "<table></table>");
    assert!(short.contains("<table></table>"));
    let long = "x".repeat(9000);
    assert!(can_be_cut(&long));
    let prompt = build_classification_prompt("c", &long);
    assert!(prompt.contains(&"x".repeat(8000)));
    assert!(!prompt.contains(&"x".repeat(8001)));
    assert!(!can_be_cut(&format!("a{}", "é".repeat(5000))));
}

#[test]
fn the_first_object_is_cut_out() {
    let cut = |t: &str| {
        extract_first_json_object(&t.chars().collect()).map(|v| v.into_iter().collect::<String>())
    };
    assert_eq!(cut("a {\"b\":{}} {}"), Some(s("{\"b\":{}}")));
    assert_eq!(cut("no object"), None);
    assert_eq!(cut("{ never closed"), None);
}

#[test]
fn replies_without_a_label_are_other() {
    assert_eq!(parse_classification_response("{\"rationale\":\"r\"}").0, "other");
    assert_eq!(parse_classification_response("{\"table_type\":3}").0, "other");
    let (label, why) = classification_from_fields(Some(s(" QUALITY ")), None, "raw");
    assert_eq!((label.as_str(), why.as_str()), ("quality", "raw"));
    let (label, why) = classification_from_fields(None, Some(s(" why ")), "raw");
    assert_eq!((label.as_str(), why.as_str()), ("other", "why"));
    let long = "x".repeat(300);
    let (_, why) = parse_classification_response(&long);
    assert_eq!(why, format!("unparseable LLM reply: {}…", "x".repeat(240)));
}

#[test]
fn documents_to_label_are_named_by_uuid() {
    assert_eq!(classification_document("00000000-0000-0000-0000-00000000000a").unwrap(), 10);
    let f = classification_document("x").unwrap_err();
    assert_eq!(f.kind, FailureKind::Process);
    assert!(f.message.starts_with("Invalid document_id: "));
}
