//! Choosing a converter and putting converted pages together.

use vstd::prelude::*;

use crate::algo_blocks::{lines_out, postprocess_algorithm_blocks};
use crate::latex_repair::{repair_latex, repaired};
use crate::layout::{caption_found, find_caption, ElementKind, LayoutElement, Search};
use crate::order::{in_order, stable_order};
use crate::tasks::hex_char;
use crate::text::{
    byte_count, chars_of, count_within, decimal, ends_with, ends_with_of, is_one_of,
    lemma_bytes_grow, lines, lowered, lowered_of, names, put_all, put_decimal, put_str, stands_at,
    string_of, trim, trim_of, trimmed, without_trailing, without_trailing_of,
};

verus! {

broadcast use vstd::string::group_string_axioms;

/// Why a conversion failed.
#[derive(Clone, Debug)]
pub enum PdfConversionError {
    /// The converter's engine reported an error.
    Backend(String),
    /// The conversion gave no text.
    EmptyOutput(&'static str),
    /// The converter itself failed.
    Internal(String),
}

// ---------------------------------------------------------------------------
// Backends
// ---------------------------------------------------------------------------

/// The converters that can be chosen at run time.
#[derive(Clone, Copy, Debug, PartialEq, Eq, Structural)]
pub enum PdfParserBackend {
    Vision,
    EdgeParse,
    VlmOcr,
}

impl Default for PdfParserBackend {
    fn default() -> (r: Self)
        ensures
            r == PdfParserBackend::Vision,
    {
        PdfParserBackend::Vision
    }
}

pub open spec fn vision_names() -> Seq<Seq<char>> {
    seq!["vision"@, "llm"@]
}

/// The names of the layout-free converter, with those of converters that it
/// replaces.
pub open spec fn edgeparse_names() -> Seq<Seq<char>> {
    seq![
        "edgeparse"@,
        "edge-parse"@,
        "edge_parse"@,
        "kreuzberg"@,
        "pdfextract"@,
        "pdf-extract"@,
        "pdf_extract"@,
    ]
}

/// The names of the recognising converter, with those of converters that it
/// replaces.
pub open spec fn vlmocr_names() -> Seq<Seq<char>> {
    seq![
        "vlmocr"@,
        "vlm-ocr"@,
        "vlm_ocr"@,
        "oarocr"@,
        "oar-ocr"@,
        "oar_ocr"@,
        "oarocrvl"@,
        "oar-ocr-vl"@,
        "oar_ocr_vl"@,
    ]
}

/// The converter that a name stands for; white space around it and ASCII case
/// do not matter.
pub open spec fn backend_named(value: Seq<char>) -> Option<PdfParserBackend> {
    let t = lowered(trim(value));
    if vision_names().contains(t) {
        Some(PdfParserBackend::Vision)
    } else if edgeparse_names().contains(t) {
        Some(PdfParserBackend::EdgeParse)
    } else if vlmocr_names().contains(t) {
        Some(PdfParserBackend::VlmOcr)
    } else {
        None
    }
}

impl PdfParserBackend {
    pub open spec fn name(self) -> Seq<char> {
        match self {
            PdfParserBackend::Vision => "vision"@,
            PdfParserBackend::EdgeParse => "edgeparse"@,
            PdfParserBackend::VlmOcr => "vlmocr"@,
        }
    }

    /// The converter that a setting names.
    pub fn from_env_str(value: &str) -> (r: Option<Self>)
        ensures
            r == backend_named(value@),
    {
        let t = lowered_of(&trim_of(&chars_of(value)));
        let vision = vec!["vision", "llm"];
        assert(names(vision@) =~= vision_names());
        let edgeparse = vec![
            "edgeparse",
            "edge-parse",
            "edge_parse",
            "kreuzberg",
            "pdfextract",
            "pdf-extract",
            "pdf_extract",
        ];
        assert(names(edgeparse@) =~= edgeparse_names());
        let vlmocr = vec![
            "vlmocr",
            "vlm-ocr",
            "vlm_ocr",
            "oarocr",
            "oar-ocr",
            "oar_ocr",
            "oarocrvl",
            "oar-ocr-vl",
            "oar_ocr_vl",
        ];
        assert(names(vlmocr@) =~= vlmocr_names());
        if is_one_of(&t, &vision) {
            Some(PdfParserBackend::Vision)
        } else if is_one_of(&t, &edgeparse) {
            Some(PdfParserBackend::EdgeParse)
        } else if is_one_of(&t, &vlmocr) {
            Some(PdfParserBackend::VlmOcr)
        } else {
            None
        }
    }

    /// The converter that a setting names, if it is set.
    pub fn from_setting(value: Option<&str>) -> (r: Option<Self>)
        ensures
            r == (match value {
                Some(v) => if trim(v@).len() > 0 {
                    backend_named(v@)
                } else {
                    None
                },
                None => None,
            }),
    {
        match value {
            Some(v) => if trim_of(&chars_of(v)).len() > 0 {
                Self::from_env_str(v)
            } else {
                None
            },
            None => None,
        }
    }

    pub fn as_str(self) -> (r: &'static str)
        ensures
            r@ == self.name(),
    {
        match self {
            PdfParserBackend::Vision => "vision",
            PdfParserBackend::EdgeParse => "edgeparse",
            PdfParserBackend::VlmOcr => "vlmocr",
        }
    }
}

/// A text of lower-case letters is its own trimmed lower case.
proof fn lemma_plain_name(t: Seq<char>)
    requires
        t.len() > 0,
        forall|i: int| 0 <= i < t.len() ==> 'a' <= #[trigger] t[i] <= 'z',
    ensures
        lowered(trim(t)) == t,
{
    assert(t[0] == t[0]);
    assert('a' <= t[0]);
    assert('a' <= t[t.len() - 1]);
    assert(lowered(t) =~= t);
}

/// The name of a converter stands for that converter.
pub proof fn law_backend_names_round_trip(b: PdfParserBackend)
    ensures
        backend_named(b.name()) == Some(b),
{
    reveal_strlit("vision");
    reveal_strlit("llm");
    reveal_strlit("edgeparse");
    reveal_strlit("edge-parse");
    reveal_strlit("edge_parse");
    reveal_strlit("kreuzberg");
    reveal_strlit("pdfextract");
    reveal_strlit("pdf-extract");
    reveal_strlit("pdf_extract");
    reveal_strlit("vlmocr");
    let t = b.name();
    lemma_plain_name(t);
    match b {
        PdfParserBackend::Vision => {
            assert(vision_names()[0] == t);
        },
        PdfParserBackend::EdgeParse => {
            assert(edgeparse_names()[0] == t);
            assert forall|i: int| 0 <= i < vision_names().len() implies vision_names()[i] != t by {
                assert(vision_names()[i].len() != t.len());
            }
        },
        PdfParserBackend::VlmOcr => {
            assert(vlmocr_names()[0] == t);
            assert forall|i: int| 0 <= i < vision_names().len() implies vision_names()[i] != t by {
                if i == 0 {
                    assert("vision"@[1] != t[1]);
                }
            }
            assert forall|i: int| 0 <= i < edgeparse_names().len() implies edgeparse_names()[i]
                != t by {
                assert(edgeparse_names()[i].len() != t.len());
            }
        },
    }
}

// ---------------------------------------------------------------------------
// Algorithm blocks
// ---------------------------------------------------------------------------

/// A listing that was recognised on a page.
#[derive(Clone, Debug)]
pub struct AlgorithmBlock {
    /// The page, counted from one.
    pub page: usize,
    /// The recognised text.
    pub markdown: String,
}

/// What an algorithm block is, as a mathematical value.
#[verifier::ext_equal]
pub struct BlockModel {
    pub page: usize,
    pub markdown: Seq<char>,
}

impl View for AlgorithmBlock {
    type V = BlockModel;

    open spec fn view(&self) -> BlockModel {
        BlockModel { page: self.page, markdown: self.markdown@ }
    }
}

/// The views of a list of blocks.
pub open spec fn block_views(bs: Seq<AlgorithmBlock>) -> Seq<BlockModel> {
    bs.map_values(|b: AlgorithmBlock| b@)
}

/// The text of a block: what was recognised, under the caption below it, with
/// its LaTeX repaired.
pub open spec fn block_text(elements: Seq<LayoutElement>, i: int, recognised: Seq<char>) -> Seq<
    char,
> {
    match caption_found(Search::BelowAlgorithm, elements[i].bbox, elements) {
        Some(cap) => repaired("## "@ + cap + "\n\n"@ + recognised),
        None => repaired(recognised),
    }
}

/// The blocks of the algorithm regions from the `i`-th on that hold any text.
pub open spec fn blocks_from(
    elements: Seq<LayoutElement>,
    recognised: Seq<String>,
    page: usize,
    i: int,
) -> Seq<BlockModel>
    decreases elements.len() - i,
{
    if i < 0 || i >= elements.len() {
        Seq::empty()
    } else if elements[i].kind == ElementKind::Algorithm && trim(recognised[i]@).len() > 0 {
        seq![BlockModel { page, markdown: block_text(elements, i, recognised[i]@) }] + blocks_from(
            elements,
            recognised,
            page,
            i + 1,
        )
    } else {
        blocks_from(elements, recognised, page, i + 1)
    }
}

/// One block per algorithm region of a page. `recognised` holds the markdown
/// that was recognised in each region.
pub fn build_algorithm_blocks(
    elements: &Vec<LayoutElement>,
    recognised: &Vec<String>,
    page_num: usize,
) -> (r: Vec<AlgorithmBlock>)
    requires
        recognised@.len() == elements@.len(),
    ensures
        block_views(r@) == blocks_from(elements@, recognised@, page_num, 0),
{
    let mut out: Vec<AlgorithmBlock> = Vec::new();
    let ghost want = blocks_from(elements@, recognised@, page_num, 0);
    let mut i: usize = 0;
    assert(block_views(out@) + want =~= want);
    while i < elements.len()
        invariant
            i <= elements@.len(),
            recognised@.len() == elements@.len(),
            want == block_views(out@) + blocks_from(elements@, recognised@, page_num, i as int),
        decreases elements.len() - i,
    {
        if elements[i].kind == ElementKind::Algorithm {
            let text = chars_of(recognised[i].as_str());
            if trim_of(&text).len() > 0 {
                let mut md: Vec<char> = Vec::new();
                if let Some(cap) = find_caption(
                    Search::BelowAlgorithm,
                    &elements[i].bbox,
                    elements,
                ) {
                    put_str("## ", &mut md);
                    put_str(cap.as_str(), &mut md);
                    put_str("\n\n", &mut md);
                    assert(md@ + text@ =~= "## "@ + cap@ + "\n\n"@ + text@);
                } else {
                    assert(md@ + text@ =~= text@);
                }
                put_all(&text, &mut md);
                let b = AlgorithmBlock {
                    page: page_num,
                    markdown: repair_latex(string_of(&md).as_str()),
                };
                let ghost x = b@;
                let ghost before = block_views(out@);
                out.push(b);
                proof {
                    assert(block_views(out@) =~= before.push(x));
                    let z = blocks_from(elements@, recognised@, page_num, i + 1);
                    assert(before + (seq![x] + z) =~= before.push(x) + z);
                }
            }
        }
        i = i + 1;
    }
    assert(block_views(out@) + Seq::<BlockModel>::empty() =~= block_views(out@));
    out
}

/// The pages of the blocks as ordering keys.
pub open spec fn page_keys(bs: Seq<BlockModel>) -> Seq<(u64, i64)> {
    bs.map_values(|b: BlockModel| (b.page as u64, 0i64))
}

/// Puts the blocks of several pages in page order; those of one page stay in
/// their order.
pub fn sort_blocks_by_page(blocks: &Vec<AlgorithmBlock>) -> (r: Vec<AlgorithmBlock>)
    ensures
        r@.len() == blocks@.len(),
        exists|order: Seq<usize>|
            #[trigger] in_order(page_keys(block_views(blocks@)), order) && forall|k: int|
                0 <= k < r@.len() ==> (#[trigger] r@[k])@ == blocks@[order[k] as int]@,
{
    let mut keys: Vec<(u64, i64)> = Vec::new();
    let mut i: usize = 0;
    let ghost want = page_keys(block_views(blocks@));
    while i < blocks.len()
        invariant
            i <= blocks@.len(),
            want == page_keys(block_views(blocks@)),
            keys@ == want.take(i as int),
        decreases blocks.len() - i,
    {
        keys.push((blocks[i].page as u64, 0));
        assert(want.take(i + 1) =~= want.take(i as int).push((blocks@[i as int].page as u64, 0i64)));
        i = i + 1;
    }
    assert(want.take(i as int) =~= want);
    let order = stable_order(&keys);
    let mut out: Vec<AlgorithmBlock> = Vec::new();
    let mut k: usize = 0;
    while k < order.len()
        invariant
            k <= order@.len(),
            order@.len() == blocks@.len(),
            out@.len() == k,
            forall|a: int| 0 <= a < order@.len() ==> #[trigger] order@[a] < blocks@.len(),
            forall|j: int|
                0 <= j < k ==> (#[trigger] out@[j])@ == blocks@[order@[j] as int]@,
        decreases order.len() - k,
    {
        let b = &blocks[order[k]];
        out.push(AlgorithmBlock { page: b.page, markdown: b.markdown.clone() });
        k = k + 1;
    }
    assert(in_order(page_keys(block_views(blocks@)), order@));
    out
}

// ---------------------------------------------------------------------------
// Pages
// ---------------------------------------------------------------------------

/// What became of a page.
#[derive(Clone, Debug)]
pub struct PageResult {
    /// The page, counted from zero.
    pub index: usize,
    /// Its markdown, unless it failed or gave none.
    pub markdown: Option<String>,
}

/// The markdown of a page after repair, unless there is none.
pub open spec fn page_text(raw: Seq<char>) -> Option<Seq<char>> {
    if trim(repaired(raw)).len() > 0 {
        Some(repaired(raw))
    } else {
        None
    }
}

/// Repairs the markdown of a page; nothing if no text is left.
pub fn finish_page(raw: &str) -> (r: Option<String>)
    ensures
        match r {
            Some(s) => page_text(raw@) == Some(s@),
            None => page_text(raw@) is None,
        },
{
    let md = repair_latex(raw);
    if trim_of(&chars_of(md.as_str())).len() > 0 {
        Some(md)
    } else {
        None
    }
}

/// The pages in the given order from the `k`-th on, added to `so_far` with
/// blank lines between them; pages without markdown are left out.
pub open spec fn pages_joined(
    pages: Seq<PageResult>,
    order: Seq<usize>,
    k: int,
    so_far: Seq<char>,
) -> Seq<char>
    decreases order.len() - k,
{
    if k < 0 || k >= order.len() {
        so_far
    } else {
        match pages[order[k] as int].markdown {
            Some(md) => pages_joined(
                pages,
                order,
                k + 1,
                if so_far.len() > 0 {
                    so_far + "\n\n"@ + md@
                } else {
                    md@
                },
            ),
            None => pages_joined(pages, order, k + 1, so_far),
        }
    }
}

/// How many of the first `n` pages have markdown.
pub open spec fn pages_present(pages: Seq<PageResult>, order: Seq<usize>, n: int) -> nat
    decreases n,
{
    if n <= 0 {
        0
    } else {
        pages_present(pages, order, n - 1) + (if pages[order[n - 1] as int].markdown is Some {
            1nat
        } else {
            0nat
        })
    }
}

pub open spec fn index_keys(pages: Seq<PageResult>) -> Seq<(u64, i64)> {
    pages.map_values(|p: PageResult| (p.index as u64, 0i64))
}

/// Puts the pages of a document together in page order. The result is the
/// markdown and the number of pages that are in it; a document without text is
/// an error.
pub fn assemble_pages(pages: &Vec<PageResult>, empty_message: &'static str) -> (r: Result<
    (String, usize),
    PdfConversionError,
>)
    ensures
        exists|order: Seq<usize>|
            {
                &&& #[trigger] in_order(index_keys(pages@), order)
                &&& match r {
                    Ok((md, n)) => md@ == pages_joined(pages@, order, 0, Seq::empty()) && trim(
                        md@,
                    ).len() > 0 && n == pages_present(pages@, order, order.len() as int),
                    Err(e) => trim(pages_joined(pages@, order, 0, Seq::empty())).len() == 0 && e
                        == PdfConversionError::EmptyOutput(empty_message),
                }
            },
{
    let mut keys: Vec<(u64, i64)> = Vec::new();
    let mut i: usize = 0;
    let ghost want = index_keys(pages@);
    while i < pages.len()
        invariant
            i <= pages@.len(),
            want == index_keys(pages@),
            keys@ == want.take(i as int),
        decreases pages.len() - i,
    {
        keys.push((pages[i].index as u64, 0));
        assert(want.take(i + 1) =~= want.take(i as int).push((pages@[i as int].index as u64, 0i64)));
        i = i + 1;
    }
    assert(want.take(i as int) =~= want);
    let order = stable_order(&keys);
    assert(in_order(index_keys(pages@), order@));
    let mut out: Vec<char> = Vec::new();
    let mut n: usize = 0;
    let mut k: usize = 0;
    assert(out@ =~= Seq::<char>::empty());
    while k < order.len()
        invariant
            k <= order@.len(),
            order@.len() == pages@.len(),
            forall|a: int| 0 <= a < order@.len() ==> #[trigger] order@[a] < pages@.len(),
            n <= k,
            n == pages_present(pages@, order@, k as int),
            pages_joined(pages@, order@, 0, Seq::empty()) == pages_joined(
                pages@,
                order@,
                k as int,
                out@,
            ),
        decreases order.len() - k,
    {
        if let Some(md) = &pages[order[k]].markdown {
            let ghost before = out@;
            if out.len() > 0 {
                put_str("\n\n", &mut out);
            }
            put_str(md.as_str(), &mut out);
            assert(out@ =~= (if before.len() > 0 {
                before + "\n\n"@ + md@
            } else {
                md@
            }));
            n = n + 1;
        }
        k = k + 1;
    }
    if trim_of(&out).len() == 0 {
        return Err(PdfConversionError::EmptyOutput(empty_message));
    }
    Ok((string_of(&out), n))
}

/// Converts by taking the text that a document holds.
#[derive(Clone, Copy, Debug, Default)]
pub struct KreuzbergConverter;

impl KreuzbergConverter {
    /// What the converter is called.
    pub fn backend_name(&self) -> (r: &'static str)
        ensures
            r@ == "kreuzberg"@,
    {
        "kreuzberg"
    }
}

/// The shortest text that does not look like a scanned document, in bytes.
pub const LOW_TEXT_BYTES: usize = 200;

/// Whether a converted document has so little text that it may be a scan.
pub fn is_low_text(markdown: &str) -> (r: bool)
    ensures
        r == (byte_count(trim(markdown@)) < LOW_TEXT_BYTES),
{
    let t = trim_of(&chars_of(markdown));
    let n = count_within(&t, LOW_TEXT_BYTES - 1);
    proof {
        lemma_bytes_grow(t@, n as int);
        assert(t@.take(t@.len() as int) =~= t@);
        if n < t@.len() {
            lemma_bytes_grow(t@, n + 1);
        }
    }
    n == t.len()
}

/// Finishes a document that a text extractor converted: boxed listings are
/// reflowed, and a document without text is an error.
pub fn finish_extraction(content: &str) -> (r: Result<String, PdfConversionError>)
    ensures
        match r {
            Ok(s) => trim(content@).len() > 0 && s@ == lines_out(lines(content@), 0),
            Err(e) => trim(content@).len() == 0 && e == PdfConversionError::EmptyOutput(
                "Kreuzberg returned no text — PDF may be scanned or encrypted",
            ),
        },
{
    if trim_of(&chars_of(content)).len() == 0 {
        return Err(
            PdfConversionError::EmptyOutput(
                "Kreuzberg returned no text — PDF may be scanned or encrypted",
            ),
        );
    }
    Ok(postprocess_algorithm_blocks(content))
}

// ---------------------------------------------------------------------------
// The recognition server
// ---------------------------------------------------------------------------

/// How the recognition server is reached.
#[derive(Clone, Debug)]
pub struct VlmClientConfig {
    /// The address of the server.
    pub base_url: String,
    /// The model to ask for.
    pub model: Option<String>,
    /// The time limit of a request, in seconds.
    pub timeout_secs: u64,
    /// The quality of the images that are sent, out of one hundred.
    pub jpeg_quality: u8,
}

impl Default for VlmClientConfig {
    fn default() -> (r: Self)
        ensures
            r.base_url@ == "http://localhost:8081"@,
            r.model is None,
            r.timeout_secs == 120,
            r.jpeg_quality == 90,
    {
        VlmClientConfig {
            base_url: "http://localhost:8081".to_owned(),
            model: None,
            timeout_secs: 120,
            jpeg_quality: 90,
        }
    }
}

impl VlmClientConfig {
    /// The default configuration with the first address that is set.
    pub fn from_settings(compatible_url: Option<String>, openai_url: Option<String>) -> (r: Self)
        ensures
            r.base_url@ == (match compatible_url {
                Some(u) => u@,
                None => match openai_url {
                    Some(u) => u@,
                    None => "http://localhost:8081"@,
                },
            }),
            r.model is None,
            r.timeout_secs == 120,
            r.jpeg_quality == 90,
    {
        let mut c = VlmClientConfig::default();
        match compatible_url {
            Some(u) => {
                c.base_url = u;
            },
            None => {
                if let Some(u) = openai_url {
                    c.base_url = u;
                }
            },
        }
        c
    }

    /// The configuration with the address and the model of a conversion where
    /// these are given.
    pub fn with_overrides(self, base_url: Option<String>, model: Option<String>) -> (r: Self)
        ensures
            r.base_url == (match base_url {
                Some(u) => u,
                None => self.base_url,
            }),
            r.model == (match model {
                Some(m) => Some(m),
                None => self.model,
            }),
            r.timeout_secs == self.timeout_secs,
            r.jpeg_quality == self.jpeg_quality,
    {
        let mut c = self;
        if let Some(u) = base_url {
            c.base_url = u;
        }
        if let Some(m) = model {
            c.model = Some(m);
        }
        c
    }
}

/// The address of the completions endpoint: the version is added unless the
/// base address ends in it.
pub open spec fn completions_address(base_url: Seq<char>) -> Seq<char> {
    let base = without_trailing(base_url, '/');
    if ends_with(base, "/v1"@) {
        base + "/chat/completions"@
    } else {
        base + "/v1/chat/completions"@
    }
}

/// The address of the completions endpoint of a server.
pub fn completions_url(base_url: &str) -> (r: String)
    ensures
        r@ == completions_address(base_url@),
{
    let mut base = without_trailing_of(&chars_of(base_url), '/');
    if ends_with_of(&base, &chars_of("/v1")) {
        put_str("/chat/completions", &mut base);
    } else {
        put_str("/v1/chat/completions", &mut base);
    }
    string_of(&base)
}

/// What is to be recognised in an image.
#[derive(Clone, Copy, Debug, PartialEq, Eq, Structural)]
pub enum RecognitionTask {
    Ocr,
    Table,
    Formula,
    Chart,
}

impl RecognitionTask {
    pub open spec fn prompt(self) -> Seq<char> {
        match self {
            RecognitionTask::Ocr =>
                "Recognize all text in this image exactly as it appears. Preserve line breaks and formatting."@,
            RecognitionTask::Table =>
                "Parse the table in this image into HTML. Use <table>, <tr>, <th>, <td> tags."@,
            RecognitionTask::Formula =>
                "Output the mathematical formula in this image as LaTeX. Only output the LaTeX expression, no explanation."@,
            RecognitionTask::Chart =>
                "Parse the chart in this image. Use Mermaid format for flowcharts, Markdown for other charts."@,
        }
    }

    /// The instruction that is sent with the image.
    pub fn prompt_for_task(self) -> (r: &'static str)
        ensures
            r@ == self.prompt(),
    {
        match self {
            RecognitionTask::Ocr =>
                "Recognize all text in this image exactly as it appears. Preserve line breaks and formatting.",
            RecognitionTask::Table =>
                "Parse the table in this image into HTML. Use <table>, <tr>, <th>, <td> tags.",
            RecognitionTask::Formula =>
                "Output the mathematical formula in this image as LaTeX. Only output the LaTeX expression, no explanation.",
            RecognitionTask::Chart =>
                "Parse the chart in this image. Use Mermaid format for flowcharts, Markdown for other charts.",
        }
    }
}

/// How a character is written in a JSON string.
pub open spec fn json_char(c: char) -> Seq<char> {
    if c == '"' || c == '\\' {
        seq!['\\', c]
    } else if c == '\u{8}' {
        seq!['\\', 'b']
    } else if c == '\t' {
        seq!['\\', 't']
    } else if c == '\n' {
        seq!['\\', 'n']
    } else if c == '\u{c}' {
        seq!['\\', 'f']
    } else if c == '\r' {
        seq!['\\', 'r']
    } else if c <= '\u{1f}' {
        seq!['\\', 'u', '0', '0', hex_char(c as int / 16), hex_char(c as int % 16)]
    } else {
        seq![c]
    }
}

/// How characters are written in a JSON string.
pub open spec fn json_chars(text: Seq<char>) -> Seq<char>
    decreases text.len(),
{
    if text.len() == 0 {
        Seq::empty()
    } else {
        json_chars(text.drop_last()) + json_char(text.last())
    }
}

/// A text as a JSON string.
pub open spec fn json_string(text: Seq<char>) -> Seq<char> {
    seq!['"'] + json_chars(text) + seq!['"']
}

/// `Display` of `serde_json::Value::String`: the text in quotes. Quotes,
/// backslashes and the characters below the space are escaped, the latter by a
/// letter where there is one and else by four hexadecimal digits in lower case.
#[verifier::external_body]
fn json_string_of(text: &str) -> (r: String)
    ensures
        r@ == json_string(text@),
{
    serde_json::Value::String(text.to_string()).to_string()
}

/// The JSON text of a request: one message with an image and an instruction,
/// given the JSON strings of what it holds.
pub open spec fn request_text(
    image: Seq<char>,
    prompt: Seq<char>,
    max_tokens: nat,
    model: Option<Seq<char>>,
) -> Seq<char> {
    "{\"max_tokens\":"@ + decimal(max_tokens)
        + ",\"messages\":[{\"content\":[{\"image_url\":{\"url\":"@ + image
        + "},\"type\":\"image_url\"},{\"text\":"@ + prompt
        + ",\"type\":\"text\"}],\"role\":\"user\"}]"@ + (match model {
        Some(m) => ",\"model\":"@ + m,
        None => Seq::empty(),
    }) + ",\"temperature\":0.0}"@
}

/// The JSON text of a request, given the JSON strings of what it holds.
pub fn request_of(image: &str, prompt: &str, max_tokens: usize, model: Option<&str>) -> (r: String)
    ensures
        r@ == request_text(
            image@,
            prompt@,
            max_tokens as nat,
            crate::safety_limits::text_setting(model),
        ),
{
    let mut out = chars_of("{\"max_tokens\":");
    put_decimal(max_tokens as u64, &mut out);
    put_str(",\"messages\":[{\"content\":[{\"image_url\":{\"url\":", &mut out);
    put_str(image, &mut out);
    put_str("},\"type\":\"image_url\"},{\"text\":", &mut out);
    put_str(prompt, &mut out);
    put_str(",\"type\":\"text\"}],\"role\":\"user\"}]", &mut out);
    if let Some(m) = model {
        let ghost before = out@;
        put_str(",\"model\":", &mut out);
        put_str(m, &mut out);
        assert(out@ =~= before + (",\"model\":"@ + m@));
    } else {
        assert(out@ + Seq::<char>::empty() =~= out@);
    }
    put_str(",\"temperature\":0.0}", &mut out);
    string_of(&out)
}

/// A request to the recognition server.
#[derive(Clone, Debug)]
pub struct RecognitionRequest {
    pub url: String,
    /// JSON.
    pub body: String,
}

/// The request for what is to be recognised in an image, given as a data address.
pub fn recognition_request(
    config: &VlmClientConfig,
    task: RecognitionTask,
    data_uri: &str,
    max_tokens: usize,
) -> (r: RecognitionRequest)
    ensures
        r.url@ == completions_address(config.base_url@),
        r.body@ == request_text(
            json_string(data_uri@),
            json_string(task.prompt()),
            max_tokens as nat,
            match config.model {
                Some(m) => Some(json_string(m@)),
                None => None,
            },
        ),
{
    let image = json_string_of(data_uri);
    let prompt = json_string_of(task.prompt_for_task());
    let body = match &config.model {
        Some(m) => {
            let model = json_string_of(m.as_str());
            request_of(image.as_str(), prompt.as_str(), max_tokens, Some(model.as_str()))
        },
        None => request_of(image.as_str(), prompt.as_str(), max_tokens, None),
    };
    RecognitionRequest { url: completions_url(config.base_url.as_str()), body }
}

/// Why a reply of the recognition server was of no use.
#[derive(Clone, Copy, Debug, PartialEq, Eq, Structural)]
pub enum ReplyError {
    /// It is no JSON.
    InvalidJson,
    /// It holds no message.
    UnexpectedShape,
}

/// The string at `root[list][item][outer][inner]` of a JSON text: nothing if
/// the text is no JSON, and nothing inside if there is no string there.
pub uninterp spec fn json_item_text(
    text: Seq<char>,
    list: Seq<char>,
    item: int,
    outer: Seq<char>,
    inner: Seq<char>,
) -> Option<Option<Seq<char>>>;

/// The view of an optional string.
pub open spec fn opt_view(s: Option<String>) -> Option<Seq<char>> {
    match s {
        Some(x) => Some(x@),
        None => None,
    }
}

/// `serde_json::from_str` on `text`, then the indexing and `as_str` of
/// `serde_json::Value`: the string at `root[list][item][outer][inner]`. It is a
/// function of the text and the four steps.
#[verifier::external_body]
fn json_item(text: &str, list: &str, item: usize, outer: &str, inner: &str) -> (r: Option<
    Option<String>,
>)
    ensures
        match r {
            Some(s) => json_item_text(text@, list@, item as int, outer@, inner@) == Some(
                opt_view(s),
            ),
            None => json_item_text(text@, list@, item as int, outer@, inner@) is None,
        },
{
    let root: serde_json::Value = serde_json::from_str(text).ok()?;
    Some(root[list][item][outer][inner].as_str().map(|s| s.to_string()))
}

/// The recognised text, given what stands where the message should be.
pub fn recognised_text(message: Option<Option<String>>) -> (r: Result<String, ReplyError>)
    ensures
        match message {
            Some(Some(s)) => r matches Ok(t) && t@ == trim(s@),
            Some(None) => r matches Err(e) && e == ReplyError::UnexpectedShape,
            None => r matches Err(e) && e == ReplyError::InvalidJson,
        },
{
    match message {
        Some(Some(s)) => Ok(trimmed(s.as_str())),
        Some(None) => Err(ReplyError::UnexpectedShape),
        None => Err(ReplyError::InvalidJson),
    }
}

/// The recognised text in a reply of the server: the content of the message of
/// the first choice, trimmed.
pub fn recognised_in_reply(reply: &str) -> (r: Result<String, ReplyError>)
    ensures
        match json_item_text(reply@, "choices"@, 0, "message"@, "content"@) {
            Some(Some(s)) => r matches Ok(t) && t@ == trim(s),
            Some(None) => r matches Err(e) && e == ReplyError::UnexpectedShape,
            None => r matches Err(e) && e == ReplyError::InvalidJson,
        },
{
    recognised_text(json_item(reply, "choices", 0, "message", "content"))
}

// ---------------------------------------------------------------------------
// Laws
// ---------------------------------------------------------------------------

/// White space around the name of a converter and its case do not matter.
pub proof fn law_backend_names_plain(a: Seq<char>, b: Seq<char>)
    requires
        lowered(trim(a)) == lowered(trim(b)),
    ensures
        backend_named(a) == backend_named(b),
{
}

/// A text without white space and capitals is its own trimmed lower case.
proof fn lemma_plain(t: Seq<char>)
    requires
        t.len() > 0,
        forall|i: int| 0 <= i < t.len() ==> '-' <= #[trigger] t[i] <= 'z' && !('A' <= t[i] <= 'Z'),
    ensures
        lowered(trim(t)) == t,
{
    assert('-' <= t[0] <= 'z');
    assert('-' <= t[t.len() - 1] <= 'z');
    assert(lowered(t) =~= t);
}

/// What each name stands for: every name that a converter has or that a converter
/// it replaces had.
pub proof fn law_backend_names()
    ensures
        backend_named("vision"@) == Some(PdfParserBackend::Vision),
        backend_named("llm"@) == Some(PdfParserBackend::Vision),
        backend_named("edgeparse"@) == Some(PdfParserBackend::EdgeParse),
        backend_named("edge-parse"@) == Some(PdfParserBackend::EdgeParse),
        backend_named("edge_parse"@) == Some(PdfParserBackend::EdgeParse),
        backend_named("kreuzberg"@) == Some(PdfParserBackend::EdgeParse),
        backend_named("pdfextract"@) == Some(PdfParserBackend::EdgeParse),
        backend_named("pdf-extract"@) == Some(PdfParserBackend::EdgeParse),
        backend_named("pdf_extract"@) == Some(PdfParserBackend::EdgeParse),
        backend_named("vlmocr"@) == Some(PdfParserBackend::VlmOcr),
        backend_named("vlm-ocr"@) == Some(PdfParserBackend::VlmOcr),
        backend_named("vlm_ocr"@) == Some(PdfParserBackend::VlmOcr),
        backend_named("oarocr"@) == Some(PdfParserBackend::VlmOcr),
        backend_named("oar-ocr"@) == Some(PdfParserBackend::VlmOcr),
        backend_named("oar_ocr"@) == Some(PdfParserBackend::VlmOcr),
        backend_named("oarocrvl"@) == Some(PdfParserBackend::VlmOcr),
        backend_named("oar-ocr-vl"@) == Some(PdfParserBackend::VlmOcr),
        backend_named("oar_ocr_vl"@) == Some(PdfParserBackend::VlmOcr),
{
    lemma_names_apart();
    assert(backend_named("vision"@) == Some(PdfParserBackend::Vision)) by {
        reveal_strlit("vision");
        lemma_plain("vision"@);
        assert(vision_names()[0] == "vision"@);
    }
    assert(backend_named("llm"@) == Some(PdfParserBackend::Vision)) by {
        reveal_strlit("llm");
        lemma_plain("llm"@);
        assert(vision_names()[1] == "llm"@);
    }
    assert(backend_named("edgeparse"@) == Some(PdfParserBackend::EdgeParse)) by {
        reveal_strlit("edgeparse");
        lemma_plain("edgeparse"@);
        assert(edgeparse_names()[0] == "edgeparse"@);
    }
    assert(backend_named("edge-parse"@) == Some(PdfParserBackend::EdgeParse)) by {
        reveal_strlit("edge-parse");
        lemma_plain("edge-parse"@);
        assert(edgeparse_names()[1] == "edge-parse"@);
    }
    assert(backend_named("edge_parse"@) == Some(PdfParserBackend::EdgeParse)) by {
        reveal_strlit("edge_parse");
        lemma_plain("edge_parse"@);
        assert(edgeparse_names()[2] == "edge_parse"@);
    }
    assert(backend_named("kreuzberg"@) == Some(PdfParserBackend::EdgeParse)) by {
        reveal_strlit("kreuzberg");
        lemma_plain("kreuzberg"@);
        assert(edgeparse_names()[3] == "kreuzberg"@);
    }
    assert(backend_named("pdfextract"@) == Some(PdfParserBackend::EdgeParse)) by {
        reveal_strlit("pdfextract");
        lemma_plain("pdfextract"@);
        assert(edgeparse_names()[4] == "pdfextract"@);
    }
    assert(backend_named("pdf-extract"@) == Some(PdfParserBackend::EdgeParse)) by {
        reveal_strlit("pdf-extract");
        lemma_plain("pdf-extract"@);
        assert(edgeparse_names()[5] == "pdf-extract"@);
    }
    assert(backend_named("pdf_extract"@) == Some(PdfParserBackend::EdgeParse)) by {
        reveal_strlit("pdf_extract");
        lemma_plain("pdf_extract"@);
        assert(edgeparse_names()[6] == "pdf_extract"@);
    }
    assert(backend_named("vlmocr"@) == Some(PdfParserBackend::VlmOcr)) by {
        reveal_strlit("vlmocr");
        lemma_plain("vlmocr"@);
        assert(vlmocr_names()[0] == "vlmocr"@);
    }
    assert(backend_named("vlm-ocr"@) == Some(PdfParserBackend::VlmOcr)) by {
        reveal_strlit("vlm-ocr");
        lemma_plain("vlm-ocr"@);
        assert(vlmocr_names()[1] == "vlm-ocr"@);
    }
    assert(backend_named("vlm_ocr"@) == Some(PdfParserBackend::VlmOcr)) by {
        reveal_strlit("vlm_ocr");
        lemma_plain("vlm_ocr"@);
        assert(vlmocr_names()[2] == "vlm_ocr"@);
    }
    assert(backend_named("oarocr"@) == Some(PdfParserBackend::VlmOcr)) by {
        reveal_strlit("oarocr");
        lemma_plain("oarocr"@);
        assert(vlmocr_names()[3] == "oarocr"@);
    }
    assert(backend_named("oar-ocr"@) == Some(PdfParserBackend::VlmOcr)) by {
        reveal_strlit("oar-ocr");
        lemma_plain("oar-ocr"@);
        assert(vlmocr_names()[4] == "oar-ocr"@);
    }
    assert(backend_named("oar_ocr"@) == Some(PdfParserBackend::VlmOcr)) by {
        reveal_strlit("oar_ocr");
        lemma_plain("oar_ocr"@);
        assert(vlmocr_names()[5] == "oar_ocr"@);
    }
    assert(backend_named("oarocrvl"@) == Some(PdfParserBackend::VlmOcr)) by {
        reveal_strlit("oarocrvl");
        lemma_plain("oarocrvl"@);
        assert(vlmocr_names()[6] == "oarocrvl"@);
    }
    assert(backend_named("oar-ocr-vl"@) == Some(PdfParserBackend::VlmOcr)) by {
        reveal_strlit("oar-ocr-vl");
        lemma_plain("oar-ocr-vl"@);
        assert(vlmocr_names()[7] == "oar-ocr-vl"@);
    }
    assert(backend_named("oar_ocr_vl"@) == Some(PdfParserBackend::VlmOcr)) by {
        reveal_strlit("oar_ocr_vl");
        lemma_plain("oar_ocr_vl"@);
        assert(vlmocr_names()[8] == "oar_ocr_vl"@);
    }
}

/// No name stands for two converters.
proof fn lemma_names_apart()
    ensures
        forall|i: int|
            0 <= i < edgeparse_names().len() ==> !vision_names().contains(
                #[trigger] edgeparse_names()[i],
            ),
        forall|i: int|
            0 <= i < vlmocr_names().len() ==> !vision_names().contains(
                #[trigger] vlmocr_names()[i],
            ) && !edgeparse_names().contains(vlmocr_names()[i]),
{
    reveal_strlit("vision");
    reveal_strlit("llm");
    reveal_strlit("edgeparse");
    reveal_strlit("edge-parse");
    reveal_strlit("edge_parse");
    reveal_strlit("kreuzberg");
    reveal_strlit("pdfextract");
    reveal_strlit("pdf-extract");
    reveal_strlit("pdf_extract");
    reveal_strlit("vlmocr");
    reveal_strlit("vlm-ocr");
    reveal_strlit("vlm_ocr");
    reveal_strlit("oarocr");
    reveal_strlit("oar-ocr");
    reveal_strlit("oar_ocr");
    reveal_strlit("oarocrvl");
    reveal_strlit("oar-ocr-vl");
    reveal_strlit("oar_ocr_vl");
    assert forall|i: int| 0 <= i < vision_names().len() implies (#[trigger] vision_names()[i]).len()
        > 1 && ((vision_names()[i][0] == 'v' && vision_names()[i][1] == 'i') || vision_names()[i][0]
        == 'l') by {}
    assert forall|i: int|
        0 <= i < edgeparse_names().len() implies (#[trigger] edgeparse_names()[i]).len() > 1 && (
    edgeparse_names()[i][0] == 'e' || edgeparse_names()[i][0] == 'k' || edgeparse_names()[i][0]
        == 'p') by {}
    assert forall|i: int| 0 <= i < vlmocr_names().len() implies (#[trigger] vlmocr_names()[i]).len()
        > 1 && ((vlmocr_names()[i][0] == 'v' && vlmocr_names()[i][1] == 'l') || vlmocr_names()[i][0]
        == 'o') by {}
}

/// The blocks of a page come in the order of their regions. Each stands for an
/// algorithm region with text; its markdown is that text, under the caption found
/// below the region where there is one, with its LaTeX repaired.
pub proof fn law_block_fields(
    elements: Seq<LayoutElement>,
    recognised: Seq<String>,
    page: usize,
    i: int,
    k: int,
) -> (at: int)
    requires
        0 <= i,
        0 <= k < blocks_from(elements, recognised, page, i).len(),
    ensures
        i + k <= at < elements.len(),
        ({
            let b = blocks_from(elements, recognised, page, i)[k];
            &&& elements[at].kind == ElementKind::Algorithm
            &&& trim(recognised[at]@).len() > 0
            &&& b.page == page
            &&& caption_found(Search::BelowAlgorithm, elements[at].bbox, elements) matches Some(c)
                ==> b.markdown == repaired("## "@ + c + "\n\n"@ + recognised[at]@)
            &&& caption_found(Search::BelowAlgorithm, elements[at].bbox, elements) is None
                ==> b.markdown == repaired(recognised[at]@)
        }),
    decreases elements.len() - i,
{
    let all = blocks_from(elements, recognised, page, i);
    if elements[i].kind == ElementKind::Algorithm && trim(recognised[i]@).len() > 0 {
        let rest = blocks_from(elements, recognised, page, i + 1);
        if k == 0 {
            i
        } else {
            assert(all[k] == rest[k - 1]);
            law_block_fields(elements, recognised, page, i + 1, k - 1)
        }
    } else {
        law_block_fields(elements, recognised, page, i + 1, k)
    }
}

/// No region with text is left out: there are as many blocks as algorithm
/// regions with text.
pub proof fn law_no_block_lost(
    elements: Seq<LayoutElement>,
    recognised: Seq<String>,
    page: usize,
    i: int,
    at: int,
)
    requires
        0 <= i <= at < elements.len(),
        elements[at].kind == ElementKind::Algorithm,
        trim(recognised[at]@).len() > 0,
    ensures
        blocks_from(elements, recognised, page, i).len() == blocks_from(
            elements.take(at),
            recognised,
            page,
            i,
        ).len() + 1 + blocks_from(elements, recognised, page, at + 1).len(),
    decreases at - i,
{
    if i < at {
        law_no_block_lost(elements, recognised, page, i + 1, at);
        assert(elements.take(at)[i] == elements[i]);
    }
}

/// Every page that has text stands in the document, in page order, with a blank
/// line between two of them.
pub proof fn law_pages_stand(
    pages: Seq<PageResult>,
    order: Seq<usize>,
    i: int,
    so_far: Seq<char>,
    k: int,
) -> (p: int)
    requires
        0 <= i <= k < order.len(),
        pages[order[k] as int].markdown is Some,
    ensures
        p >= so_far.len(),
        stands_at(
            pages_joined(pages, order, i, so_far),
            p,
            pages[order[k] as int].markdown->0@,
        ),
        p > 0 ==> p >= 2 && stands_at(pages_joined(pages, order, i, so_far), p - 2, "\n\n"@),
        pages_joined(pages, order, i, so_far).len() >= so_far.len(),
        pages_joined(pages, order, i, so_far).take(so_far.len() as int) == so_far,
    decreases k - i,
{
    reveal_strlit("\n\n");
    let all = pages_joined(pages, order, i, so_far);
    let n = so_far.len() as int;
    match pages[order[i] as int].markdown {
        Some(md) => {
            let next = if so_far.len() > 0 {
                so_far + "\n\n"@ + md@
            } else {
                md@
            };
            if i == k {
                lemma_pages_extend(pages, order, i + 1, next);
                let p = if n > 0 {
                    n + 2
                } else {
                    0
                };
                assert(next.subrange(p, next.len() as int) =~= md@);
                assert(all.subrange(p, p + md@.len()) =~= all.take(next.len() as int).subrange(
                    p,
                    next.len() as int,
                ));
                if n > 0 {
                    assert(all.subrange(n, n + 2) =~= all.take(next.len() as int).subrange(
                        n,
                        n + 2,
                    ));
                    assert(next.subrange(n, n + 2) =~= "\n\n"@);
                }
                assert(all.take(n) =~= all.take(next.len() as int).take(n));
                assert(next.take(n) =~= so_far);
                p
            } else {
                let p = law_pages_stand(pages, order, i + 1, next, k);
                assert(all.take(n) =~= all.take(next.len() as int).take(n));
                assert(next.take(n) =~= so_far);
                p
            }
        },
        None => law_pages_stand(pages, order, i + 1, so_far, k),
    }
}

/// What is joined so far stays at the front.
proof fn lemma_pages_extend(pages: Seq<PageResult>, order: Seq<usize>, i: int, so_far: Seq<char>)
    requires
        0 <= i,
    ensures
        pages_joined(pages, order, i, so_far).len() >= so_far.len(),
        pages_joined(pages, order, i, so_far).take(so_far.len() as int) == so_far,
    decreases order.len() - i,
{
    let all = pages_joined(pages, order, i, so_far);
    let n = so_far.len() as int;
    if i < order.len() {
        match pages[order[i] as int].markdown {
            Some(md) => {
                let next = if so_far.len() > 0 {
                    so_far + "\n\n"@ + md@
                } else {
                    md@
                };
                lemma_pages_extend(pages, order, i + 1, next);
                assert(all.take(n) =~= all.take(next.len() as int).take(n));
                assert(next.take(n) =~= so_far);
            },
            None => {
                lemma_pages_extend(pages, order, i + 1, so_far);
            },
        }
    } else {
        assert(all.take(n) =~= so_far);
    }
}

/// The address of a server leads to the same endpoint with or without the version
/// and with or without slashes at its end.
pub proof fn law_completions_address(base: Seq<char>)
    requires
        base.len() > 0,
        base.last() != '/',
        !ends_with(base, "/v1"@),
    ensures
        completions_address(base) == base + "/v1/chat/completions"@,
        completions_address(base + "/"@) == base + "/v1/chat/completions"@,
        completions_address(base + "/v1"@) == base + "/v1/chat/completions"@,
        completions_address(base + "/v1/"@) == base + "/v1/chat/completions"@,
{
    reveal_strlit("/");
    reveal_strlit("/v1");
    reveal_strlit("/v1/");
    reveal_strlit("/chat/completions");
    reveal_strlit("/v1/chat/completions");
    reveal_with_fuel(without_trailing, 2);
    let v = base + "/v1"@;
    assert((base + "/"@).drop_last() =~= base);
    assert((base + "/v1/"@).drop_last() =~= v);
    assert(v.last() == '1');
    assert(v.subrange(v.len() - 3, v.len() as int) =~= "/v1"@);
    assert(v + "/chat/completions"@ =~= base + "/v1/chat/completions"@);
}

/// A document of fewer than 200 bytes of text may be a scan.
pub proof fn law_low_text_limit(n: nat)
    ensures
        n < LOW_TEXT_BYTES <==> n < 200,
{
}

} // verus!
