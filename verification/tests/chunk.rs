use edgequake::chunk::{Chunk, ChunkKind};

#[test]
fn test_chunk_id_generation() {
    let id1 = Chunk::generate_id("Hello chunk");
    let id2 = Chunk::generate_id("Hello chunk");
    let id3 = Chunk::generate_id("Different chunk");

    assert_eq!(id1, id2);
    assert_ne!(id1, id3);
    assert!(id1.starts_with("chunk-"));
}

#[test]
fn test_chunk_creation() {
    let chunk = Chunk::new(
        "Test chunk content".to_string(),
        100,
        0,
        "doc-123".to_string(),
        Some("/test.txt".to_string()),
    );

    assert_eq!(chunk.tokens, 100);
    assert_eq!(chunk.chunk_order_index, 0);
    assert_eq!(chunk.full_doc_id, "doc-123");
    assert_eq!(chunk.file_path, Some("/test.txt".to_string()));
}

#[test]
fn test_chunk_empty_check() {
    let chunk1 = Chunk::new("".to_string(), 0, 0, "doc-1".to_string(), None);
    let chunk2 = Chunk::new("   ".to_string(), 0, 0, "doc-1".to_string(), None);
    let chunk3 = Chunk::new("Content".to_string(), 10, 0, "doc-1".to_string(), None);

    assert!(chunk1.is_empty());
    assert!(chunk2.is_empty());
    assert!(!chunk3.is_empty());
}

#[test]
fn test_chunk_position_default_none() {
    let chunk = Chunk::new("Content".to_string(), 10, 0, "doc-1".to_string(), None);
    assert!(chunk.start_line.is_none());
    assert!(chunk.end_line.is_none());
    assert!(chunk.start_offset.is_none());
    assert!(chunk.end_offset.is_none());
}

#[test]
fn test_chunk_with_position() {
    let chunk = Chunk::new("Content".to_string(), 10, 0, "doc-1".to_string(), None)
        .with_position(1, 5, 0, 200);
    assert_eq!(chunk.start_line, Some(1));
    assert_eq!(chunk.end_line, Some(5));
    assert_eq!(chunk.start_offset, Some(0));
    assert_eq!(chunk.end_offset, Some(200));
}

#[test]
fn test_chunk_with_models() {
    let chunk = Chunk::new("Content".to_string(), 10, 0, "doc-1".to_string(), None)
        .with_models("gpt-4.1-nano", "text-embedding-3-small", 1536);
    assert_eq!(chunk.llm_model, Some("gpt-4.1-nano".to_string()));
    assert_eq!(
        chunk.embedding_model,
        Some("text-embedding-3-small".to_string())
    );
    assert_eq!(chunk.embedding_dimension, Some(1536));
}

#[test]
fn test_chunk_with_full_lineage() {
    let chunk = Chunk::new(
        "Full lineage chunk".to_string(),
        50,
        2,
        "doc-xyz".to_string(),
        Some("/data/file.pdf".to_string()),
    )
    .with_position(10, 20, 500, 1000)
    .with_models("gpt-4.1-nano", "text-embedding-3-small", 1536);
    assert_eq!(chunk.start_line, Some(10));
    assert_eq!(chunk.llm_model, Some("gpt-4.1-nano".to_string()));
    assert_eq!(chunk.embedding_dimension, Some(1536));
    assert_eq!(chunk.full_doc_id, "doc-xyz");
    assert_eq!(chunk.file_path, Some("/data/file.pdf".to_string()));
}

#[test]
fn test_text_chunk_default_kind_and_no_media() {
    let chunk = Chunk::new("Content".to_string(), 10, 0, "doc-1".to_string(), None);
    assert_eq!(chunk.kind, ChunkKind::Text);
    assert!(chunk.media_bytes.is_none());
    assert!(chunk.media_mime.is_none());
    assert!(chunk.figure_id.is_none());
}

#[test]
fn test_figure_chunk_constructor() {
    let png = vec![0x89, b'P', b'N', b'G', 0x0D, 0x0A, 0x1A, 0x0A];
    let chunk = Chunk::new_figure(
        "Figure 2: System diagram.".to_string(),
        8,
        3,
        "doc-1".to_string(),
        None,
        "fig_4_2".to_string(),
        png.clone(),
        "image/png",
    );
    assert_eq!(chunk.kind, ChunkKind::Figure);
    assert_eq!(chunk.media_bytes.as_deref(), Some(png.as_slice()));
    assert_eq!(chunk.media_mime.as_deref(), Some("image/png"));
    assert_eq!(chunk.figure_id.as_deref(), Some("fig_4_2"));
    assert_eq!(chunk.content, "Figure 2: System diagram.");
}

#[test]
fn chunk_ids_are_digests_of_their_seed() {
    assert_eq!(Chunk::generate_id(""), "chunk-d41d8cd98f00b204e9800998ecf8427e");
    let text = Chunk::new("abc".to_string(), 1, 0, "d".to_string(), None);
    assert_eq!(text.id, "chunk-900150983cd24fb0d6963f7d28e17f72");
    let figure = |id: &str| {
        Chunk::new_figure(
            "same caption".to_string(),
            1,
            0,
            "d".to_string(),
            None,
            id.to_string(),
            vec![1],
            "image/webp",
        )
    };
    assert_ne!(figure("fig_1_0").id, figure("fig_1_1").id);
    assert_eq!(figure("fig_1_0").id, figure("fig_1_0").id);
}

#[test]
fn lengths_count_bytes_and_characters() {
    let c = Chunk::new("aß€😀".to_string(), 1, 0, "d".to_string(), None);
    assert_eq!(c.content_len(), 10);
    assert_eq!(c.char_count(), 4);
    assert!(!c.is_empty());
}
