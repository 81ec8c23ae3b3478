//! Segments of documents.

use vstd::prelude::*;

use crate::text::{
    ascii_digit, byte_count, byte_len, chars_of, put_str, string_of, trim, trim_of,
};

verus! {

broadcast use vstd::string::group_string_axioms;

/// What a chunk holds.
#[derive(Clone, Copy, Debug, PartialEq, Eq, Structural)]
pub enum ChunkKind {
    Text,
    Figure,
    Table,
}

impl Default for ChunkKind {
    fn default() -> (r: Self)
        ensures
            r == ChunkKind::Text,
    {
        ChunkKind::Text
    }
}

/// A segment of a document, with where it comes from and what was used to
/// process it.
#[derive(Clone, Debug)]
pub struct Chunk {
    /// The digest of the content, which identifies the chunk.
    pub id: String,
    pub content: String,
    pub tokens: u32,
    /// The position in the document, counted from zero.
    pub chunk_order_index: u32,
    pub full_doc_id: String,
    pub file_path: Option<String>,
    /// The first line, counted from one.
    pub start_line: Option<usize>,
    /// The last line, counted from one.
    pub end_line: Option<usize>,
    pub start_offset: Option<usize>,
    pub end_offset: Option<usize>,
    pub llm_model: Option<String>,
    pub embedding_model: Option<String>,
    pub embedding_dimension: Option<usize>,
    pub kind: ChunkKind,
    /// The bytes of a figure.
    pub media_bytes: Option<Vec<u8>>,
    pub media_mime: Option<String>,
    /// `fig_{page}_{order_index}`.
    pub figure_id: Option<String>,
    /// `tbl_{page}_{order_index}`.
    pub table_id: Option<String>,
}

/// The MD5 digest of a text's UTF-8 bytes in hexadecimal notation.
pub uninterp spec fn md5_hex(text: Seq<char>) -> Seq<char>;

pub open spec fn hex_digit(c: char) -> bool {
    ascii_digit(c) || 'a' <= c <= 'f'
}

/// `md5::compute` on the bytes of `text`, written by its `LowerHex`: sixteen
/// bytes with two lower-case hexadecimal digits each. It is a function of the
/// text.
#[verifier::external_body]
fn md5_digest(text: &str) -> (r: String)
    ensures
        r@ == md5_hex(text@),
        r@.len() == 32,
        forall|i: int| 0 <= i < r@.len() ==> hex_digit(#[trigger] r@[i]),
{
    format!("{:x}", md5::compute(text.as_bytes()))
}

/// The id of a chunk with the given seed.
pub open spec fn chunk_id(seed: Seq<char>) -> Seq<char> {
    "chunk-"@ + md5_hex(seed)
}

/// What the id of a figure's chunk is made from: the figure's own id goes in,
/// so that figures with the same caption differ.
pub open spec fn figure_seed(figure_id: Seq<char>, caption: Seq<char>) -> Seq<char> {
    "figure:"@ + figure_id + ":"@ + caption
}

impl Chunk {
    /// A text chunk without position, models or media.
    pub open spec fn plain(self) -> bool {
        &&& self.start_line is None && self.end_line is None
        &&& self.start_offset is None && self.end_offset is None
        &&& self.llm_model is None && self.embedding_model is None
        &&& self.embedding_dimension is None
        &&& self.table_id is None
    }

    /// The id of a chunk with the given content.
    pub fn generate_id(content: &str) -> (r: String)
        ensures
            r@ == chunk_id(content@),
            r@.len() == "chunk-"@.len() + 32,
    {
        let mut out = chars_of("chunk-");
        put_str(md5_digest(content).as_str(), &mut out);
        string_of(&out)
    }

    /// A text chunk.
    pub fn new(
        content: String,
        tokens: u32,
        chunk_order_index: u32,
        full_doc_id: String,
        file_path: Option<String>,
    ) -> (r: Self)
        ensures
            r.id@ == chunk_id(content@),
            r.content == content,
            r.tokens == tokens,
            r.chunk_order_index == chunk_order_index,
            r.full_doc_id == full_doc_id,
            r.file_path == file_path,
            r.kind == ChunkKind::Text,
            r.media_bytes is None && r.media_mime is None && r.figure_id is None,
            r.plain(),
    {
        Chunk {
            id: Self::generate_id(content.as_str()),
            content,
            tokens,
            chunk_order_index,
            full_doc_id,
            file_path,
            start_line: None,
            end_line: None,
            start_offset: None,
            end_offset: None,
            llm_model: None,
            embedding_model: None,
            embedding_dimension: None,
            kind: ChunkKind::Text,
            media_bytes: None,
            media_mime: None,
            figure_id: None,
            table_id: None,
        }
    }

    /// A figure chunk: its caption, its bytes and its id.
    pub fn new_figure(
        caption: String,
        tokens: u32,
        chunk_order_index: u32,
        full_doc_id: String,
        file_path: Option<String>,
        figure_id: String,
        media_bytes: Vec<u8>,
        media_mime: &str,
    ) -> (r: Self)
        ensures
            r.id@ == chunk_id(figure_seed(figure_id@, caption@)),
            r.content == caption,
            r.tokens == tokens,
            r.chunk_order_index == chunk_order_index,
            r.full_doc_id == full_doc_id,
            r.file_path == file_path,
            r.kind == ChunkKind::Figure,
            r.media_bytes == Some(media_bytes),
            r.media_mime matches Some(m) && m@ == media_mime@,
            r.figure_id == Some(figure_id),
            r.plain(),
    {
        let mut seed = chars_of("figure:");
        put_str(figure_id.as_str(), &mut seed);
        put_str(":", &mut seed);
        put_str(caption.as_str(), &mut seed);
        assert(seed@ =~= figure_seed(figure_id@, caption@));
        Chunk {
            id: Self::generate_id(string_of(&seed).as_str()),
            content: caption,
            tokens,
            chunk_order_index,
            full_doc_id,
            file_path,
            start_line: None,
            end_line: None,
            start_offset: None,
            end_offset: None,
            llm_model: None,
            embedding_model: None,
            embedding_dimension: None,
            kind: ChunkKind::Figure,
            media_bytes: Some(media_bytes),
            media_mime: Some(media_mime.to_owned()),
            figure_id: Some(figure_id),
            table_id: None,
        }
    }

    /// The chunk with its place in the document.
    pub fn with_position(
        self,
        start_line: usize,
        end_line: usize,
        start_offset: usize,
        end_offset: usize,
    ) -> (r: Self)
        ensures
            r == (Chunk {
                start_line: Some(start_line),
                end_line: Some(end_line),
                start_offset: Some(start_offset),
                end_offset: Some(end_offset),
                ..self
            }),
    {
        let mut c = self;
        c.start_line = Some(start_line);
        c.end_line = Some(end_line);
        c.start_offset = Some(start_offset);
        c.end_offset = Some(end_offset);
        c
    }

    /// The chunk with the models that processed it.
    pub fn with_models(
        self,
        llm_model: &str,
        embedding_model: &str,
        embedding_dimension: usize,
    ) -> (r: Self)
        ensures
            r.llm_model matches Some(m) && m@ == llm_model@,
            r.embedding_model matches Some(m) && m@ == embedding_model@,
            r == (Chunk {
                llm_model: r.llm_model,
                embedding_model: r.embedding_model,
                embedding_dimension: Some(embedding_dimension),
                ..self
            }),
    {
        let mut c = self;
        c.llm_model = Some(llm_model.to_owned());
        c.embedding_model = Some(embedding_model.to_owned());
        c.embedding_dimension = Some(embedding_dimension);
        c
    }

    /// Whether the content is nothing but white space.
    pub fn is_empty(&self) -> (r: bool)
        ensures
            r == (trim(self.content@).len() == 0),
    {
        trim_of(&chars_of(self.content.as_str())).len() == 0
    }

    /// The length of the content in bytes.
    pub fn content_len(&self) -> (r: usize)
        ensures
            r == byte_count(self.content@),
    {
        byte_len(self.content.as_str())
    }

    /// The length of the content in characters.
    pub fn char_count(&self) -> (r: usize)
        ensures
            r == self.content@.len(),
    {
        self.content.as_str().unicode_len()
    }
}

} // verus!
