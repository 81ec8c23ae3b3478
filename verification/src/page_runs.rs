//! The course of converting a document page by page.
//!
//! The pages are rendered, each is read, and what was read is put together in
//! page order. A page that cannot be read is left out; a document without any
//! text is an error.

use vstd::prelude::*;

use crate::conversion::{
    assemble_pages, block_views, blocks_from, build_algorithm_blocks, finish_page, index_keys,
    page_keys, page_text, pages_joined, pages_present, sort_blocks_by_page, AlgorithmBlock,
    BlockModel, PageResult, PdfConversionError,
};
use crate::figures::{
    are_encoded, crops_fit, figure_views, figures_taken, ExtractedFigure, FigureModel, RgbCrop,
};
use crate::layout::LayoutElement;
use crate::order::in_order;
use crate::patterns::Pattern;
use crate::safety_limits::{size_of_setting, size_setting};
use crate::tables::{patched, table_positions, table_views, tables_of, ExtractedTable};
use crate::tasks::{cat, cat3};
use crate::text::{byte_count, byte_len, chars_of, ends_with, ends_with_of, trim};

verus! {

broadcast use vstd::string::group_string_axioms;

/// What a conversion error is, as a mathematical value.
#[verifier::ext_equal]
pub enum ErrorModel {
    Backend(Seq<char>),
    EmptyOutput(Seq<char>),
    Internal(Seq<char>),
}

impl View for PdfConversionError {
    type V = ErrorModel;

    open spec fn view(&self) -> ErrorModel {
        match self {
            PdfConversionError::Backend(s) => ErrorModel::Backend(s@),
            PdfConversionError::EmptyOutput(s) => ErrorModel::EmptyOutput(s@),
            PdfConversionError::Internal(s) => ErrorModel::Internal(s@),
        }
    }
}

// ---------------------------------------------------------------------------
// Where the models are
// ---------------------------------------------------------------------------

/// A path below a directory.
pub open spec fn below(dir: Seq<char>, path: Seq<char>) -> Seq<char> {
    if dir.len() == 0 || ends_with(dir, "/"@) {
        dir + path
    } else {
        dir + "/"@ + path
    }
}

/// A path below a directory.
pub fn path_below(dir: &str, path: &str) -> (r: String)
    ensures
        r@ == below(dir@, path@),
{
    let d = chars_of(dir);
    if d.len() == 0 || ends_with_of(&d, &chars_of("/")) {
        cat(dir, path)
    } else {
        cat3(dir, "/", path)
    }
}

/// Where models are kept: in the directory that is set, else below the home
/// directory, else in a directory for all.
pub open spec fn model_dir(
    setting: Option<Seq<char>>,
    home: Option<Seq<char>>,
    below_home: Seq<char>,
    fallback: Seq<char>,
) -> Seq<char> {
    match setting {
        Some(d) => if d.len() > 0 {
            d
        } else {
            unset_model_dir(home, below_home, fallback)
        },
        None => unset_model_dir(home, below_home, fallback),
    }
}

pub open spec fn unset_model_dir(
    home: Option<Seq<char>>,
    below_home: Seq<char>,
    fallback: Seq<char>,
) -> Seq<char> {
    match home {
        Some(h) => below(h, below_home),
        None => fallback,
    }
}

fn resolve_dir(
    setting: Option<&str>,
    home: Option<&str>,
    below_home: &str,
    fallback: &str,
) -> (r: String)
    ensures
        r@ == model_dir(
            crate::safety_limits::text_setting(setting),
            crate::safety_limits::text_setting(home),
            below_home@,
            fallback@,
        ),
{
    if let Some(d) = setting {
        if chars_of(d).len() > 0 {
            return d.to_owned();
        }
    }
    match home {
        Some(h) => path_below(h, below_home),
        None => fallback.to_owned(),
    }
}

/// Where the models that find regions and text are kept.
pub fn model_cache_dir(setting: Option<&str>, home: Option<&str>) -> (r: String)
    ensures
        r@ == model_dir(
            crate::safety_limits::text_setting(setting),
            crate::safety_limits::text_setting(home),
            ".cache/edgequake/oar-ocr-models"@,
            "/tmp/edgequake-oar-ocr-models"@,
        ),
{
    resolve_dir(setting, home, ".cache/edgequake/oar-ocr-models", "/tmp/edgequake-oar-ocr-models")
}

/// Where the model that reads regions is kept.
pub fn vl_model_dir(setting: Option<&str>, home: Option<&str>) -> (r: String)
    ensures
        r@ == model_dir(
            crate::safety_limits::text_setting(setting),
            crate::safety_limits::text_setting(home),
            ".cache/edgequake/unirec-0.1b"@,
            "/tmp/edgequake-unirec-0.1b"@,
        ),
{
    resolve_dir(setting, home, ".cache/edgequake/unirec-0.1b", "/tmp/edgequake-unirec-0.1b")
}

/// The files that the text recogniser needs.
pub open spec fn model_files() -> Seq<Seq<char>> {
    seq![
        "pp-doclayoutv2.onnx"@,
        "pp-docblocklayout.onnx"@,
        "pp-ocrv5_server_det.onnx"@,
        "pp-ocrv5_server_rec.onnx"@,
        "ppocrv5_dict.txt"@,
        "pp-formulanet_plus-l.onnx"@,
        "unimernet_tokenizer.json"@,
        "pp-lcnet_x1_0_table_cls.onnx"@,
        "slanext_wired.onnx"@,
        "slanet_plus.onnx"@,
        "rt-detr-l_wired_table_cell_det.onnx"@,
        "rt-detr-l_wireless_table_cell_det.onnx"@,
        "table_structure_dict_ch.txt"@,
    ]
}

/// The address of a model file.
pub open spec fn model_address(file: Seq<char>) -> Seq<char> {
    "https://github.com/GreatV/oar-ocr/releases/download/v0.3.0/"@ + file
}

/// The files that are still to be fetched: the name and the address of each that
/// is not there, in order.
pub open spec fn files_missing(present: Seq<bool>, n: int) -> Seq<(Seq<char>, Seq<char>)>
    decreases n,
{
    if n <= 0 {
        Seq::empty()
    } else {
        let before = files_missing(present, n - 1);
        if present[n - 1] {
            before
        } else {
            before.push((model_files()[n - 1], model_address(model_files()[n - 1])))
        }
    }
}

/// A file to fetch.
#[derive(Clone, Debug)]
pub struct ModelFile {
    pub name: &'static str,
    pub url: String,
}

/// The views of a list of files.
pub open spec fn file_views(v: Seq<ModelFile>) -> Seq<(Seq<char>, Seq<char>)> {
    v.map_values(|f: ModelFile| (f.name@, f.url@))
}

/// The names of the files that the text recogniser needs.
pub fn model_names() -> (r: Vec<&'static str>)
    ensures
        crate::text::names(r@) == model_files(),
{
    let r = vec![
        "pp-doclayoutv2.onnx",
        "pp-docblocklayout.onnx",
        "pp-ocrv5_server_det.onnx",
        "pp-ocrv5_server_rec.onnx",
        "ppocrv5_dict.txt",
        "pp-formulanet_plus-l.onnx",
        "unimernet_tokenizer.json",
        "pp-lcnet_x1_0_table_cls.onnx",
        "slanext_wired.onnx",
        "slanet_plus.onnx",
        "rt-detr-l_wired_table_cell_det.onnx",
        "rt-detr-l_wireless_table_cell_det.onnx",
        "table_structure_dict_ch.txt",
    ];
    assert(crate::text::names(r@) =~= model_files());
    r
}

/// The files that are still to be fetched, given for each whether it is there.
pub fn missing_models(present: &Vec<bool>) -> (r: Vec<ModelFile>)
    requires
        present@.len() == model_files().len(),
    ensures
        file_views(r@) == files_missing(present@, model_files().len() as int),
{
    let all = model_names();
    let ghost want = model_files();
    assert(want.len() == all@.len());
    let mut r: Vec<ModelFile> = Vec::new();
    let mut i: usize = 0;
    assert(file_views(r@) =~= Seq::<(Seq<char>, Seq<char>)>::empty());
    while i < all.len()
        invariant
            i <= all@.len(),
            want == model_files(),
            want == crate::text::names(all@),
            all@.len() == want.len(),
            present@.len() == want.len(),
            file_views(r@) == files_missing(present@, i as int),
        decreases all.len() - i,
    {
        assert(want[i as int] == all@[i as int]@);
        if !present[i] {
            let ghost before = file_views(r@);
            let f = ModelFile {
                name: all[i],
                url: cat("https://github.com/GreatV/oar-ocr/releases/download/v0.3.0/", all[i]),
            };
            let ghost m = (f.name@, f.url@);
            r.push(f);
            assert(file_views(r@) =~= before.push(m));
        }
        i = i + 1;
    }
    r
}

// ---------------------------------------------------------------------------
// Pixels
// ---------------------------------------------------------------------------

/// The red, green and blue bytes of pixels that also have an opacity, which the
/// last one may lack.
pub open spec fn without_alpha(rgba: Seq<u8>) -> Seq<u8> {
    Seq::new(
        ((rgba.len() + 1) / 4 * 3) as nat,
        |i: int| rgba[i / 3 * 4 + i % 3],
    )
}

/// The red, green and blue bytes of pixels that also have an opacity.
pub fn rgb_of(rgba: &Vec<u8>) -> (r: Vec<u8>)
    requires
        rgba@.len() % 4 == 0 || rgba@.len() % 4 == 3,
    ensures
        r@ == without_alpha(rgba@),
{
    let mut r: Vec<u8> = Vec::new();
    let mut k: usize = 0;
    let n = if rgba.len() % 4 == 3 {
        rgba.len() / 4 + 1
    } else {
        rgba.len() / 4
    };
    assert(without_alpha(rgba@).take(0) =~= Seq::<u8>::empty());
    while k < n
        invariant
            k <= n,
            n == (rgba@.len() + 1) / 4,
            n * 4 <= rgba@.len() + 1,
            rgba@.len() <= usize::MAX,
            r@ == without_alpha(rgba@).take(k * 3),
        decreases n - k,
    {
        r.push(rgba[k * 4]);
        r.push(rgba[k * 4 + 1]);
        r.push(rgba[k * 4 + 2]);
        proof {
            let all = without_alpha(rgba@);
            assert((3 * k) / 3 == k && (3 * k) % 3 == 0);
            assert((3 * k + 1) / 3 == k && (3 * k + 1) % 3 == 1);
            assert((3 * k + 2) / 3 == k && (3 * k + 2) % 3 == 2);
            assert(all.take((k + 1) * 3) =~= all.take(k * 3).push(rgba@[k * 4]).push(
                rgba@[k * 4 + 1],
            ).push(rgba@[k * 4 + 2]));
        }
        k = k + 1;
    }
    assert(without_alpha(rgba@).take(n * 3) =~= without_alpha(rgba@));
    r
}

// ---------------------------------------------------------------------------
// What is taken out of a page
// ---------------------------------------------------------------------------

/// A page's markdown with what was taken out of it.
#[derive(Clone, Debug)]
pub struct CapturedPage {
    pub markdown: String,
    pub figures: Vec<ExtractedFigure>,
    pub tables: Vec<ExtractedTable>,
}

/// The crop has three bytes per pixel.
pub fn crop_fits(crop: &RgbCrop) -> (r: bool)
    ensures
        r == crop.well_formed(),
{
    let w = crop.width as u128;
    let h = crop.height as u128;
    assert(3 * w * h <= 3 * 0xffff_ffff * 0xffff_ffff) by (nonlinear_arith)
        requires
            w <= 0xffff_ffff,
            h <= 0xffff_ffff,
    ;
    assert(0 <= 3 * w <= 3 * 0xffff_ffff);
    crop.rgb.len() as u128 == 3 * w * h
}

/// Which parts of a page are taken out of its markdown.
#[derive(Clone, Copy, Debug, PartialEq, Eq, Structural)]
pub struct Wanted {
    pub figures: bool,
    pub tables: bool,
}

/// The markdown without the figures that are wanted, and those figures.
pub open spec fn figures_out(
    wanted: Wanted,
    md: Seq<char>,
    elements: Seq<LayoutElement>,
    encoded: Seq<Option<Vec<u8>>>,
    page_num: u32,
) -> (Seq<char>, Seq<FigureModel>) {
    if wanted.figures {
        figures_taken(md, elements, encoded, page_num, 0)
    } else {
        (md, Seq::empty())
    }
}

/// Takes the figures and then the tables out of a page's markdown, as far as they
/// are wanted.
pub fn capture_page(
    elements: &Vec<LayoutElement>,
    crops: &Vec<Option<RgbCrop>>,
    page_num: u32,
    markdown: &str,
    wanted: Wanted,
) -> (r: CapturedPage)
    requires
        crops@.len() == elements@.len(),
        crops_fit(crops@),
    ensures
        exists|encoded: Seq<Option<Vec<u8>>>|
            {
                let out = figures_out(wanted, markdown@, elements@, encoded, page_num);
                &&& #[trigger] are_encoded(crops@, encoded)
                &&& figure_views(r.figures@) == out.1
                &&& if wanted.tables {
                    &&& r.markdown@ == patched(
                        out.0,
                        Pattern::TableDiv.hits(out.0, 0),
                        table_positions(elements@, 0),
                        page_num,
                        0,
                        0,
                    )
                    &&& table_views(r.tables@) == tables_of(out.0, elements@, page_num)
                } else {
                    r.markdown@ == out.0 && r.tables@.len() == 0
                }
            },
{
    let (without_figures, figures) = crate::figures::extract_and_patch(
        elements,
        crops,
        page_num,
        markdown,
    );
    let (without_figures, figures) = if wanted.figures {
        (without_figures, figures)
    } else {
        (markdown.to_owned(), Vec::new())
    };
    if !wanted.tables {
        return CapturedPage { markdown: without_figures, figures, tables: Vec::new() };
    }
    let (markdown, tables) = crate::tables::extract_and_patch(
        elements,
        page_num,
        without_figures.as_str(),
    );
    CapturedPage { markdown, figures, tables }
}

// ---------------------------------------------------------------------------
// The course
// ---------------------------------------------------------------------------

/// The converters that work page by page.
#[derive(Clone, Copy, Debug, PartialEq, Eq, Structural)]
pub enum PageConverter {
    OarOcr,
    OarOcrVl,
    VlmOcr,
}

impl PageConverter {
    pub open spec fn no_pages(self) -> Seq<char> {
        match self {
            PageConverter::OarOcr => "OAR-OCR: PDF has no pages"@,
            PageConverter::OarOcrVl => "OAR-OCR-VL: PDF has no pages"@,
            PageConverter::VlmOcr => "VLM-OCR: PDF has no pages"@,
        }
    }

    pub open spec fn no_text(self) -> Seq<char> {
        match self {
            PageConverter::OarOcr => {
                "OAR-OCR returned no text — PDF may be encrypted or unsupported"@
            },
            PageConverter::OarOcrVl => "OAR-OCR-VL returned no text"@,
            PageConverter::VlmOcr => "VLM-OCR returned no text"@,
        }
    }

    fn no_pages_message(self) -> (r: &'static str)
        ensures
            r@ == self.no_pages(),
    {
        match self {
            PageConverter::OarOcr => "OAR-OCR: PDF has no pages",
            PageConverter::OarOcrVl => "OAR-OCR-VL: PDF has no pages",
            PageConverter::VlmOcr => "VLM-OCR: PDF has no pages",
        }
    }

    fn no_text_message(self) -> (r: &'static str)
        ensures
            r@ == self.no_text(),
    {
        match self {
            PageConverter::OarOcr => {
                "OAR-OCR returned no text — PDF may be encrypted or unsupported"
            },
            PageConverter::OarOcrVl => "OAR-OCR-VL returned no text",
            PageConverter::VlmOcr => "VLM-OCR returned no text",
        }
    }

    pub open spec fn name(self) -> Seq<char> {
        match self {
            PageConverter::OarOcr => "oarocr"@,
            PageConverter::OarOcrVl => "oarocrvl"@,
            PageConverter::VlmOcr => "vlmocr"@,
        }
    }

    /// What the converter is called.
    pub fn backend_name(self) -> (r: &'static str)
        ensures
            r@ == self.name(),
    {
        match self {
            PageConverter::OarOcr => "oarocr",
            PageConverter::OarOcrVl => "oarocrvl",
            PageConverter::VlmOcr => "vlmocr",
        }
    }
}

/// Converts with models of this machine alone.
#[derive(Clone, Copy, Debug, Default)]
pub struct OarOcrConverter;

impl OarOcrConverter {
    /// What the converter is called.
    pub fn backend_name(&self) -> (r: &'static str)
        ensures
            r@ == "oarocr"@,
    {
        PageConverter::OarOcr.backend_name()
    }

    /// Begins a conversion.
    pub fn start(&self) -> (r: ConvertRun)
        ensures
            r.wf(),
            r.is_new(PageConverter::OarOcr),
    {
        ConvertRun::new(PageConverter::OarOcr)
    }
}

/// Converts with a model of this machine that reads text, formulas and tables.
#[derive(Clone, Copy, Debug, Default)]
pub struct OarOcrVlConverter;

impl OarOcrVlConverter {
    /// What the converter is called.
    pub fn backend_name(&self) -> (r: &'static str)
        ensures
            r@ == "oarocrvl"@,
    {
        PageConverter::OarOcrVl.backend_name()
    }

    /// Begins a conversion.
    pub fn start(&self) -> (r: ConvertRun)
        ensures
            r.wf(),
            r.is_new(PageConverter::OarOcrVl),
    {
        ConvertRun::new(PageConverter::OarOcrVl)
    }
}

/// Finds the regions of pages on this machine and has a server read them.
#[derive(Clone, Copy, Debug, Default)]
pub struct VlmOcrConverter;

impl VlmOcrConverter {
    /// What the converter is called.
    pub fn backend_name(&self) -> (r: &'static str)
        ensures
            r@ == "vlmocr"@,
    {
        PageConverter::VlmOcr.backend_name()
    }

    /// Begins a conversion.
    pub fn start(&self) -> (r: ConvertRun)
        ensures
            r.wf(),
            r.is_new(PageConverter::VlmOcr),
    {
        ConvertRun::new(PageConverter::VlmOcr)
    }
}

/// What is missing before a conversion can start.
#[derive(Clone, Debug)]
pub enum MissingModel {
    /// The directory of the models could not be made.
    Directory { error: String },
    /// The directory of the model that reads regions could not be made.
    ReaderDirectory { error: String },
    /// The model that finds regions is not at this path.
    Layout { path: String },
    /// The model that reads regions is not in this directory.
    Reader { path: String },
    /// A file could not be fetched.
    Download { error: PdfConversionError },
}

impl MissingModel {
    /// The error of a converter.
    pub open spec fn error(self, converter: PageConverter) -> ErrorModel {
        match self {
            MissingModel::Directory { error } => match converter {
                PageConverter::VlmOcr => ErrorModel::Internal(
                    "Failed to create model dir: "@ + error@,
                ),
                _ => ErrorModel::Internal("Failed to create OAR-OCR model dir: "@ + error@),
            },
            MissingModel::ReaderDirectory { error } => ErrorModel::Internal(
                "Failed to create OAR-OCR-VL model dir: "@ + error@,
            ),
            MissingModel::Layout { path } => match converter {
                PageConverter::VlmOcr => ErrorModel::Backend(
                    "VLM-OCR: layout model not found at "@ + path@
                        + ". Download pp-doclayoutv2.onnx to $EDGEQUAKE_OAR_OCR_MODEL_DIR."@,
                ),
                _ => ErrorModel::Backend(
                    "OAR-OCR-VL: layout model not found at "@ + path@
                        + ". Run `scripts/download-oar-ocr-models.sh`."@,
                ),
            },
            MissingModel::Reader { path } => ErrorModel::Backend(
                "OAR-OCR-VL: UniRec model not found at "@ + path@
                    + ". Download from HuggingFace (topdu/unirec-0.1b)."@,
            ),
            MissingModel::Download { error } => error@,
        }
    }

    fn to_error(self, converter: PageConverter) -> (r: PdfConversionError)
        ensures
            r@ == self.error(converter),
    {
        match self {
            MissingModel::Directory { error } => {
                let what = match converter {
                    PageConverter::VlmOcr => "Failed to create model dir: ",
                    _ => "Failed to create OAR-OCR model dir: ",
                };
                PdfConversionError::Internal(cat(what, error.as_str()))
            },
            MissingModel::ReaderDirectory { error } => PdfConversionError::Internal(
                cat("Failed to create OAR-OCR-VL model dir: ", error.as_str()),
            ),
            MissingModel::Layout { path } => match converter {
                PageConverter::VlmOcr => PdfConversionError::Backend(
                    cat3(
                        "VLM-OCR: layout model not found at ",
                        path.as_str(),
                        ". Download pp-doclayoutv2.onnx to $EDGEQUAKE_OAR_OCR_MODEL_DIR.",
                    ),
                ),
                _ => PdfConversionError::Backend(
                    cat3(
                        "OAR-OCR-VL: layout model not found at ",
                        path.as_str(),
                        ". Run `scripts/download-oar-ocr-models.sh`.",
                    ),
                ),
            },
            MissingModel::Reader { path } => PdfConversionError::Backend(
                cat3(
                    "OAR-OCR-VL: UniRec model not found at ",
                    path.as_str(),
                    ". Download from HuggingFace (topdu/unirec-0.1b).",
                ),
            ),
            MissingModel::Download { error } => error,
        }
    }
}

/// Which part of the engine could not be made.
#[derive(Clone, Debug)]
pub enum EngineError {
    Predictor { error: String },
    Reader { error: String },
    Pool { error: String },
}

impl EngineError {
    /// The error of a converter.
    pub open spec fn error(self, converter: PageConverter) -> ErrorModel {
        match self {
            EngineError::Predictor { error } => match converter {
                PageConverter::OarOcr => ErrorModel::Backend(
                    "OAR-OCR builder failed: "@ + error@,
                ),
                PageConverter::OarOcrVl => ErrorModel::Backend(
                    "OAR-OCR-VL: layout predictor failed: "@ + error@,
                ),
                PageConverter::VlmOcr => ErrorModel::Backend(
                    "VLM-OCR: layout predictor failed: "@ + error@,
                ),
            },
            EngineError::Reader { error } => ErrorModel::Backend(
                "OAR-OCR-VL: UniRec load failed: "@ + error@,
            ),
            EngineError::Pool { error } => ErrorModel::Internal("rayon pool: "@ + error@),
        }
    }

    fn to_error(self, converter: PageConverter) -> (r: PdfConversionError)
        ensures
            r@ == self.error(converter),
    {
        match self {
            EngineError::Predictor { error } => {
                let what = match converter {
                    PageConverter::OarOcr => "OAR-OCR builder failed: ",
                    PageConverter::OarOcrVl => "OAR-OCR-VL: layout predictor failed: ",
                    PageConverter::VlmOcr => "VLM-OCR: layout predictor failed: ",
                };
                PdfConversionError::Backend(cat(what, error.as_str()))
            },
            EngineError::Reader { error } => PdfConversionError::Backend(
                cat("OAR-OCR-VL: UniRec load failed: ", error.as_str()),
            ),
            EngineError::Pool { error } => PdfConversionError::Internal(
                cat("rayon pool: ", error.as_str()),
            ),
        }
    }
}

/// Where a conversion stands.
#[derive(Clone, Copy, Debug, PartialEq, Eq, Structural)]
pub enum ConvertStage {
    FindingModels,
    Rendering,
    BuildingEngine,
    ReadingPages,
    Finished,
    Failed,
}

/// A conversion page by page.
#[derive(Clone, Debug)]
pub struct ConvertRun {
    pub converter: PageConverter,
    pub stage: ConvertStage,
    pub page_count: usize,
    /// What was read so far, in the order in which it came.
    pub results: Vec<PageResult>,
}

/// What happened outside.
#[derive(Debug)]
pub enum ConvertEvent {
    ModelsFound { missing: Option<MissingModel> },
    /// How many pages could be rendered.
    Rendered { pages: Result<usize, String> },
    EngineBuilt { error: Option<EngineError> },
    /// A page was read, or could not be.
    PageRead { index: usize, outcome: Result<String, String> },
}

/// What listeners are told.
#[derive(Clone, Debug)]
pub enum ConvertNotice {
    Nothing,
    Started { pages: usize },
    PageComplete { page: usize, pages: usize, bytes: usize },
    PageError { page: usize, pages: usize, error: String },
}

/// What to do next.
#[derive(Clone, Debug)]
pub enum ConvertTodo {
    Render,
    BuildEngine,
    ReadPages,
    Await,
    Finish { markdown: String, succeeded: usize },
    Fail { error: PdfConversionError },
}

/// What to tell, and what to do next.
#[derive(Clone, Debug)]
pub struct ConvertDirective {
    pub notice: ConvertNotice,
    pub todo: ConvertTodo,
}

impl ConvertRun {
    /// The conversion can be in this state.
    pub open spec fn wf(self) -> bool {
        self.stage == ConvertStage::ReadingPages ==> self.results@.len() < self.page_count
    }

    /// The event can happen in this state.
    pub open spec fn expects(self, event: ConvertEvent) -> bool {
        match event {
            ConvertEvent::ModelsFound { .. } => self.stage == ConvertStage::FindingModels,
            ConvertEvent::Rendered { .. } => self.stage == ConvertStage::Rendering
                && self.results@.len() == 0,
            ConvertEvent::EngineBuilt { .. } => self.stage == ConvertStage::BuildingEngine
                && self.results@.len() == 0 && self.page_count > 0,
            ConvertEvent::PageRead { index, .. } => self.stage == ConvertStage::ReadingPages
                && index < self.page_count,
        }
    }

    /// What is kept of a page.
    pub open spec fn kept(self, outcome: Result<String, String>) -> Option<Seq<char>> {
        match outcome {
            Ok(md) => if self.converter == PageConverter::VlmOcr {
                page_text(md@)
            } else {
                Some(md@)
            },
            Err(_) => None,
        }
    }

    /// The results with one more page.
    pub open spec fn with_page(
        self,
        index: usize,
        outcome: Result<String, String>,
        results: Seq<PageResult>,
    ) -> bool {
        &&& results.len() == self.results@.len() + 1
        &&& results.drop_last() == self.results@
        &&& results.last().index == index
        &&& crate::conversion::opt_view(results.last().markdown) == self.kept(outcome)
    }

    /// The pages in order give this markdown.
    pub open spec fn gives(results: Seq<PageResult>, markdown: Seq<char>, succeeded: nat) -> bool {
        exists|order: Seq<usize>|
            #[trigger] in_order(index_keys(results), order) && markdown == pages_joined(
                results,
                order,
                0,
                Seq::empty(),
            ) && succeeded == pages_present(results, order, order.len() as int)
    }

    /// The state that follows, what is told and what to do.
    pub open spec fn steps(
        self,
        event: ConvertEvent,
        next: ConvertRun,
        d: ConvertDirective,
    ) -> bool {
        &&& next.converter == self.converter
        &&& match event {
            ConvertEvent::ModelsFound { missing } => {
                &&& next.results == self.results && next.page_count == self.page_count
                &&& d.notice is Nothing
                &&& match missing {
                    Some(m) => next.stage == ConvertStage::Failed && (d.todo
                        matches ConvertTodo::Fail { error } && error@ == m.error(self.converter)),
                    None => next.stage == ConvertStage::Rendering && d.todo is Render,
                }
            },
            ConvertEvent::Rendered { pages } => match pages {
                Err(e) => next.stage == ConvertStage::Failed && next.results == self.results
                    && d.notice is Nothing && (d.todo matches ConvertTodo::Fail { error } && error@
                    == ErrorModel::Backend("hayro parse failed: "@ + e@)),
                Ok(n) => next.results == self.results && next.page_count == n && if n == 0 {
                    next.stage == ConvertStage::Failed && d.notice is Nothing && (d.todo
                        matches ConvertTodo::Fail { error } && error@ == ErrorModel::EmptyOutput(
                        self.converter.no_pages(),
                    ))
                } else {
                    next.stage == ConvertStage::BuildingEngine && d.notice
                        == (ConvertNotice::Started { pages: n }) && d.todo is BuildEngine
                },
            },
            ConvertEvent::EngineBuilt { error } => {
                &&& next.results == self.results && next.page_count == self.page_count
                &&& d.notice is Nothing
                &&& match error {
                    Some(e) => next.stage == ConvertStage::Failed && (d.todo
                        matches ConvertTodo::Fail { error: f } && f@ == e.error(self.converter)),
                    None => next.stage == ConvertStage::ReadingPages && d.todo is ReadPages,
                }
            },
            ConvertEvent::PageRead { index, outcome } => {
                &&& next.page_count == self.page_count
                &&& self.with_page(index, outcome, next.results@)
                &&& match outcome {
                    Err(e) => d.notice matches ConvertNotice::PageError { page, pages, error }
                        && page == index + 1 && pages == self.page_count && error@ == e@,
                    Ok(_) => match self.kept(outcome) {
                        Some(md) => d.notice matches ConvertNotice::PageComplete {
                            page,
                            pages,
                            bytes,
                        } && page == index + 1 && pages == self.page_count && bytes == byte_count(
                            md,
                        ),
                        None => d.notice is Nothing,
                    },
                }
                &&& if next.results@.len() < self.page_count {
                    next.stage == ConvertStage::ReadingPages && d.todo is Await
                } else {
                    match d.todo {
                        ConvertTodo::Finish { markdown, succeeded } => next.stage
                            == ConvertStage::Finished && trim(markdown@).len() > 0 && Self::gives(
                            next.results@,
                            markdown@,
                            succeeded as nat,
                        ),
                        ConvertTodo::Fail { error } => next.stage == ConvertStage::Failed && error@
                            == ErrorModel::EmptyOutput(self.converter.no_text()) && exists|
                            markdown: Seq<char>,
                            n: nat,
                        | #[trigger]
                            Self::gives(next.results@, markdown, n) && trim(markdown).len() == 0,
                        _ => false,
                    }
                }
            },
        }
    }

    /// Nothing has happened yet in a conversion.
    pub open spec fn is_new(self, converter: PageConverter) -> bool {
        &&& self.converter == converter
        &&& self.stage == ConvertStage::FindingModels
        &&& self.results@.len() == 0
    }

    /// A new conversion. The first thing to do is to find the models.
    pub fn new(converter: PageConverter) -> (r: Self)
        ensures
            r.wf(),
            r.is_new(converter),
    {
        ConvertRun {
            converter,
            stage: ConvertStage::FindingModels,
            page_count: 0,
            results: Vec::new(),
        }
    }

    fn fail(&mut self, error: PdfConversionError) -> (d: ConvertDirective)
        ensures
            *final(self) == (ConvertRun { stage: ConvertStage::Failed, ..*old(self) }),
            d.notice is Nothing,
            d.todo == (ConvertTodo::Fail { error }),
    {
        self.stage = ConvertStage::Failed;
        ConvertDirective { notice: ConvertNotice::Nothing, todo: ConvertTodo::Fail { error } }
    }

    fn page_read(&mut self, index: usize, outcome: Result<String, String>) -> (d:
        ConvertDirective)
        requires
            old(self).wf(),
            old(self).expects(ConvertEvent::PageRead { index, outcome }),
        ensures
            final(self).wf(),
            old(self).steps(ConvertEvent::PageRead { index, outcome }, *final(self), d),
    {
        let ghost before = self.results@;
        let pages = self.page_count;
        let page = index + 1;
        let markdown = match &outcome {
            Ok(md) => if self.converter == PageConverter::VlmOcr {
                finish_page(md.as_str())
            } else {
                Some(md.clone())
            },
            Err(_) => None,
        };
        let notice = match &outcome {
            Err(e) => ConvertNotice::PageError { page, pages, error: e.clone() },
            Ok(_) => match &markdown {
                Some(md) => ConvertNotice::PageComplete {
                    page,
                    pages,
                    bytes: byte_len(md.as_str()),
                },
                None => ConvertNotice::Nothing,
            },
        };
        self.results.push(PageResult { index, markdown });
        assert(self.results@.drop_last() =~= before);
        if self.results.len() < self.page_count {
            return ConvertDirective { notice, todo: ConvertTodo::Await };
        }
        let message = self.converter.no_text_message();
        match assemble_pages(&self.results, message) {
            Ok((markdown, succeeded)) => {
                self.stage = ConvertStage::Finished;
                ConvertDirective { notice, todo: ConvertTodo::Finish { markdown, succeeded } }
            },
            Err(error) => {
                self.stage = ConvertStage::Failed;
                proof {
                    let order = choose|order: Seq<usize>|
                        #[trigger] in_order(index_keys(self.results@), order) && trim(
                            pages_joined(self.results@, order, 0, Seq::empty()),
                        ).len() == 0;
                    let md = pages_joined(self.results@, order, 0, Seq::empty());
                    let n = pages_present(self.results@, order, order.len() as int);
                    assert(Self::gives(self.results@, md, n));
                }
                ConvertDirective { notice, todo: ConvertTodo::Fail { error } }
            },
        }
    }

    /// Takes in what happened and says what to tell and to do next.
    pub fn step(&mut self, event: ConvertEvent) -> (d: ConvertDirective)
        requires
            old(self).wf(),
            old(self).expects(event),
        ensures
            final(self).wf(),
            old(self).steps(event, *final(self), d),
    {
        match event {
            ConvertEvent::ModelsFound { missing } => match missing {
                Some(m) => {
                    let error = m.to_error(self.converter);
                    self.fail(error)
                },
                None => {
                    self.stage = ConvertStage::Rendering;
                    ConvertDirective { notice: ConvertNotice::Nothing, todo: ConvertTodo::Render }
                },
            },
            ConvertEvent::Rendered { pages } => match pages {
                Err(e) => self.fail(
                    PdfConversionError::Backend(cat("hayro parse failed: ", e.as_str())),
                ),
                Ok(n) => {
                    self.page_count = n;
                    if n == 0 {
                        let message = self.converter.no_pages_message();
                        return self.fail(PdfConversionError::EmptyOutput(message));
                    }
                    self.stage = ConvertStage::BuildingEngine;
                    ConvertDirective {
                        notice: ConvertNotice::Started { pages: n },
                        todo: ConvertTodo::BuildEngine,
                    }
                },
            },
            ConvertEvent::EngineBuilt { error } => match error {
                Some(e) => {
                    let error = e.to_error(self.converter);
                    self.fail(error)
                },
                None => {
                    self.stage = ConvertStage::ReadingPages;
                    ConvertDirective {
                        notice: ConvertNotice::Nothing,
                        todo: ConvertTodo::ReadPages,
                    }
                },
            },
            ConvertEvent::PageRead { index, outcome } => self.page_read(index, outcome),
        }
    }
}

// ---------------------------------------------------------------------------
// Looking for algorithms
// ---------------------------------------------------------------------------

/// How many pages are read at a time: what the conversion asks for, else what the
/// setting says, else four.
pub open spec fn pages_at_a_time(configured: Option<usize>, setting: Option<Seq<char>>) -> int {
    match configured {
        Some(n) => n as int,
        None => size_setting(setting, 4),
    }
}

/// How many pages are read at a time.
pub fn page_concurrency(configured: Option<usize>, setting: Option<&str>) -> (r: usize)
    ensures
        r == pages_at_a_time(configured, crate::safety_limits::text_setting(setting)),
{
    match configured {
        Some(n) => n,
        None => size_of_setting(setting, 4),
    }
}

/// Where the search for algorithm blocks stands.
#[derive(Clone, Copy, Debug, PartialEq, Eq, Structural)]
pub enum BlockStage {
    FindingModels,
    Rendering,
    BuildingEngine,
    ReadingPages,
    Finished,
    Failed,
}

/// A search for the algorithm blocks of a document.
#[derive(Clone, Debug)]
pub struct BlockRun {
    pub stage: BlockStage,
    pub page_count: usize,
    /// How many pages were read or could not be.
    pub done: usize,
    /// The blocks of the pages so far.
    pub blocks: Vec<AlgorithmBlock>,
}

/// What happened outside.
#[derive(Debug)]
pub enum BlockEvent {
    DirectoryFailed { error: String },
    LayoutModel { path: String, exists: bool },
    Rendered { pages: Result<usize, String> },
    PredictorBuilt { error: Option<String> },
    PoolBuilt { error: Option<String> },
    /// The regions of a page with what was recognised in each; nothing if the
    /// page could not be read.
    PageRead { page: usize, regions: Option<(Vec<LayoutElement>, Vec<String>)> },
}

/// What to do next.
#[derive(Clone, Debug)]
pub enum BlockTodo {
    Render,
    BuildPredictor,
    BuildPool,
    ReadPages,
    Await,
    Finish { blocks: Vec<AlgorithmBlock> },
    Fail { error: PdfConversionError },
}

/// These are the blocks in page order, those of one page in their order.
pub open spec fn by_page(blocks: Seq<AlgorithmBlock>, sorted: Seq<AlgorithmBlock>) -> bool {
    &&& sorted.len() == blocks.len()
    &&& exists|order: Seq<usize>|
        #[trigger] in_order(page_keys(block_views(blocks)), order) && forall|k: int|
            0 <= k < sorted.len() ==> (#[trigger] sorted[k])@ == blocks[order[k] as int]@
}

impl BlockRun {
    /// The search can be in this state.
    pub open spec fn wf(self) -> bool {
        self.stage == BlockStage::ReadingPages ==> self.done < self.page_count
    }

    /// The event can happen in this state.
    pub open spec fn expects(self, event: BlockEvent) -> bool {
        match event {
            BlockEvent::DirectoryFailed { .. } => self.stage == BlockStage::FindingModels,
            BlockEvent::LayoutModel { .. } => self.stage == BlockStage::FindingModels,
            BlockEvent::Rendered { .. } => self.stage == BlockStage::Rendering && self.done == 0,
            BlockEvent::PredictorBuilt { .. } => self.stage == BlockStage::BuildingEngine,
            BlockEvent::PoolBuilt { .. } => self.stage == BlockStage::BuildingEngine && self.done
                < self.page_count,
            BlockEvent::PageRead { page, regions } => self.stage == BlockStage::ReadingPages && (
            regions matches Some((elements, texts)) ==> elements@.len() == texts@.len()),
        }
    }

    /// The blocks that a page adds.
    pub open spec fn added(
        page: usize,
        regions: Option<(Vec<LayoutElement>, Vec<String>)>,
    ) -> Seq<BlockModel> {
        match regions {
            Some((elements, texts)) => blocks_from(elements@, texts@, page, 0),
            None => Seq::empty(),
        }
    }

    /// The search ends with this error.
    pub open spec fn fails(self, next: BlockRun, todo: BlockTodo, error: ErrorModel) -> bool {
        &&& next == (BlockRun { stage: BlockStage::Failed, ..self })
        &&& todo matches BlockTodo::Fail { error: e } && e@ == error
    }

    /// The state that follows and what to do.
    pub open spec fn steps(self, event: BlockEvent, next: BlockRun, todo: BlockTodo) -> bool {
        match event {
            BlockEvent::DirectoryFailed { error } => self.fails(
                next,
                todo,
                ErrorModel::Internal("Failed to create model dir: "@ + error@),
            ),
            BlockEvent::LayoutModel { path, exists } => if exists {
                next == (BlockRun { stage: BlockStage::Rendering, ..self }) && todo is Render
            } else {
                self.fails(
                    next,
                    todo,
                    ErrorModel::Backend(
                        "Algorithm detection: layout model not found at "@ + path@,
                    ),
                )
            },
            BlockEvent::Rendered { pages } => match pages {
                Err(e) => self.fails(next, todo, ErrorModel::Backend("hayro parse failed: "@ + e@)),
                Ok(n) => if n == 0 {
                    next == (BlockRun { stage: BlockStage::Finished, page_count: 0, ..self }) && (
                    todo matches BlockTodo::Finish { blocks } && blocks@.len() == 0)
                } else {
                    next == (BlockRun {
                        stage: BlockStage::BuildingEngine,
                        page_count: n,
                        ..self
                    }) && todo is BuildPredictor
                },
            },
            BlockEvent::PredictorBuilt { error } => match error {
                Some(e) => self.fails(
                    next,
                    todo,
                    ErrorModel::Backend("Algorithm detection: layout predictor failed: "@ + e@),
                ),
                None => next == self && todo is BuildPool,
            },
            BlockEvent::PoolBuilt { error } => match error {
                Some(e) => self.fails(next, todo, ErrorModel::Internal("rayon pool: "@ + e@)),
                None => next == (BlockRun { stage: BlockStage::ReadingPages, ..self })
                    && todo is ReadPages,
            },
            BlockEvent::PageRead { page, regions } => {
                &&& next.page_count == self.page_count
                &&& next.done == self.done + 1
                &&& block_views(next.blocks@) == block_views(self.blocks@) + Self::added(
                    page,
                    regions,
                )
                &&& if next.done < self.page_count {
                    next.stage == BlockStage::ReadingPages && todo is Await
                } else {
                    next.stage == BlockStage::Finished && (todo matches BlockTodo::Finish { blocks }
                        && by_page(next.blocks@, blocks@))
                }
            },
        }
    }

    /// A new search. The first thing to do is to find the models.
    pub fn new() -> (r: Self)
        ensures
            r.wf(),
            r.stage == BlockStage::FindingModels,
            r.done == 0,
            r.blocks@.len() == 0,
    {
        BlockRun { stage: BlockStage::FindingModels, page_count: 0, done: 0, blocks: Vec::new() }
    }

    fn fail(&mut self, error: PdfConversionError) -> (todo: BlockTodo)
        ensures
            old(self).fails(*final(self), todo, error@),
    {
        self.stage = BlockStage::Failed;
        BlockTodo::Fail { error }
    }

    fn page_read(
        &mut self,
        page: usize,
        regions: Option<(Vec<LayoutElement>, Vec<String>)>,
    ) -> (todo: BlockTodo)
        requires
            old(self).wf(),
            old(self).expects(BlockEvent::PageRead { page, regions }),
        ensures
            final(self).wf(),
            old(self).steps(BlockEvent::PageRead { page, regions }, *final(self), todo),
    {
        let ghost before = block_views(self.blocks@);
        self.done = self.done + 1;
        match regions {
            Some((elements, texts)) => {
                let mut found = build_algorithm_blocks(&elements, &texts, page);
                let ghost more = block_views(found@);
                self.blocks.append(&mut found);
                assert(block_views(self.blocks@) =~= before + more);
            },
            None => {
                assert(before + Seq::<BlockModel>::empty() =~= before);
            },
        }
        if self.done < self.page_count {
            BlockTodo::Await
        } else {
            self.stage = BlockStage::Finished;
            BlockTodo::Finish { blocks: sort_blocks_by_page(&self.blocks) }
        }
    }

    /// Takes in what happened and says what to do next.
    pub fn step(&mut self, event: BlockEvent) -> (todo: BlockTodo)
        requires
            old(self).wf(),
            old(self).expects(event),
        ensures
            final(self).wf(),
            old(self).steps(event, *final(self), todo),
    {
        match event {
            BlockEvent::DirectoryFailed { error } => self.fail(
                PdfConversionError::Internal(
                    cat("Failed to create model dir: ", error.as_str()),
                ),
            ),
            BlockEvent::LayoutModel { path, exists } => if exists {
                self.stage = BlockStage::Rendering;
                BlockTodo::Render
            } else {
                self.fail(
                    PdfConversionError::Backend(
                        cat("Algorithm detection: layout model not found at ", path.as_str()),
                    ),
                )
            },
            BlockEvent::Rendered { pages } => match pages {
                Err(e) => self.fail(
                    PdfConversionError::Backend(cat("hayro parse failed: ", e.as_str())),
                ),
                Ok(n) => {
                    self.page_count = n;
                    if n == 0 {
                        self.stage = BlockStage::Finished;
                        BlockTodo::Finish { blocks: Vec::new() }
                    } else {
                        self.stage = BlockStage::BuildingEngine;
                        BlockTodo::BuildPredictor
                    }
                },
            },
            BlockEvent::PredictorBuilt { error } => match error {
                Some(e) => self.fail(
                    PdfConversionError::Backend(
                        cat("Algorithm detection: layout predictor failed: ", e.as_str()),
                    ),
                ),
                None => BlockTodo::BuildPool,
            },
            BlockEvent::PoolBuilt { error } => match error {
                Some(e) => self.fail(PdfConversionError::Internal(cat("rayon pool: ", e.as_str()))),
                None => {
                    self.stage = BlockStage::ReadingPages;
                    BlockTodo::ReadPages
                },
            },
            BlockEvent::PageRead { page, regions } => self.page_read(page, regions),
        }
    }
}

/// A page that could not be read is not also reported as complete, and a page is
/// reported as complete only if its text is kept.
pub proof fn law_one_notice_per_page(
    run: ConvertRun,
    index: usize,
    outcome: Result<String, String>,
    next: ConvertRun,
    d: ConvertDirective,
)
    requires
        run.steps(ConvertEvent::PageRead { index, outcome }, next, d),
    ensures
        d.notice is PageError <==> outcome is Err,
        d.notice is PageComplete <==> next.results@.last().markdown is Some,
{
}

} // verus!
