//! Figures of recognised pages.
//!
//! A recognised page holds its figures as centred HTML images whose files do
//! not exist. Each one whose region could be cropped and encoded becomes a
//! placeholder in the markdown and an [`ExtractedFigure`].

use vstd::prelude::*;

use crate::layout::{caption_found, find_caption, ElementKind, LayoutElement, PixelBox, Search};
use crate::patterns::{find_all, positions, Pattern};
use crate::tables::{hit_within, lemma_hits_bounds};
use crate::text::{
    chars_of, decimal, put_decimal, put_range, put_str, range_of, same_text, string_of, trim,
    trimmed,
};

verus! {

broadcast use vstd::string::group_string_axioms;

/// The quality of the lossy encoding, out of one hundred.
pub const WEBP_QUALITY: u8 = 80;

/// The largest side that the encoder takes, in pixels.
pub const WEBP_MAX_SIDE: u32 = 16383;

/// A figure taken out of a page.
#[derive(Clone, Debug)]
pub struct ExtractedFigure {
    /// `fig_{page}_{order_index}`.
    pub id: String,
    /// The encoded crop of the figure.
    pub image_bytes: Vec<u8>,
    /// The type of `image_bytes`.
    pub mime: String,
    /// The caption below the figure, or the text in it, or nothing.
    pub caption: String,
    /// The page, counted from one.
    pub page: u32,
    /// The position of the figure's region on the page.
    pub order_index: u32,
}

/// What a figure is, as a mathematical value.
#[verifier::ext_equal]
pub struct FigureModel {
    pub id: Seq<char>,
    pub image_bytes: Seq<u8>,
    pub mime: Seq<char>,
    pub caption: Seq<char>,
    pub page: u32,
    pub order_index: u32,
}

impl View for ExtractedFigure {
    type V = FigureModel;

    open spec fn view(&self) -> FigureModel {
        FigureModel {
            id: self.id@,
            image_bytes: self.image_bytes@,
            mime: self.mime@,
            caption: self.caption@,
            page: self.page,
            order_index: self.order_index,
        }
    }
}

/// The views of a list of figures.
pub open spec fn figure_views(fs: Seq<ExtractedFigure>) -> Seq<FigureModel> {
    fs.map_values(|f: ExtractedFigure| f@)
}

/// The crop of a region: its pixels as red, green and blue bytes, row by row.
#[derive(Clone, Debug)]
pub struct RgbCrop {
    pub width: u32,
    pub height: u32,
    pub rgb: Vec<u8>,
}

impl RgbCrop {
    /// There are three bytes per pixel.
    pub open spec fn well_formed(self) -> bool {
        self.rgb@.len() == 3 * self.width * self.height
    }

    /// No side is longer than the encoder takes.
    pub open spec fn encodable(self) -> bool {
        self.width <= WEBP_MAX_SIDE && self.height <= WEBP_MAX_SIDE
    }
}

/// The image that `webp::Encoder::encode_simple` makes, lossy, of red, green and
/// blue bytes; nothing where it reports an error.
pub uninterp spec fn webp_image(rgb: Seq<u8>, width: u32, height: u32, quality: u8) -> Option<
    Seq<u8>,
>;

/// The bytes of an image, if there is one.
pub open spec fn bytes_view(b: Option<Vec<u8>>) -> Option<Seq<u8>> {
    match b {
        Some(v) => Some(v@),
        None => None,
    }
}

/// `webp::Encoder::encode_simple`, lossy, on an encoder made by
/// `webp::Encoder::from_rgb`: the encoded image, which is [`webp_image`], or
/// nothing where the encoder reports an error. `from_rgb` panics on a buffer
/// that is too small, which the precondition rules out.
#[verifier::external_body]
fn webp_encode(rgb: &Vec<u8>, width: u32, height: u32, quality: u8) -> (r: Option<Vec<u8>>)
    requires
        width <= WEBP_MAX_SIDE,
        height <= WEBP_MAX_SIDE,
        rgb@.len() >= 3 * width * height,
    ensures
        bytes_view(r) == webp_image(rgb@, width, height, quality),
{
    let encoder = webp::Encoder::from_rgb(rgb.as_slice(), width, height);
    encoder.encode_simple(false, quality.into()).ok().map(|m| m.to_vec())
}

/// What is kept of an encoded image: nothing if there is none or it is empty.
pub open spec fn usable_image(image: Option<Seq<u8>>) -> Option<Seq<u8>> {
    match image {
        Some(b) => if b.len() > 0 {
            Some(b)
        } else {
            None
        },
        None => None,
    }
}

/// What is kept of an encoded image: nothing if there is none or it is empty.
pub fn keep_image(image: Option<Vec<u8>>) -> (r: Option<Vec<u8>>)
    ensures
        bytes_view(r) == usable_image(bytes_view(image)),
{
    match image {
        Some(bytes) => if bytes.len() > 0 {
            Some(bytes)
        } else {
            None
        },
        None => None,
    }
}

/// The encoding of a crop.
pub open spec fn encoding_of(crop: Option<RgbCrop>) -> Option<Seq<u8>> {
    match crop {
        Some(c) => if c.encodable() {
            usable_image(webp_image(c.rgb@, c.width, c.height, WEBP_QUALITY))
        } else {
            None
        },
        None => None,
    }
}

/// Encodes a crop; nothing if it is too large or the encoder fails or produces
/// nothing.
pub fn encode_webp(crop: &RgbCrop) -> (r: Option<Vec<u8>>)
    requires
        crop.well_formed(),
    ensures
        bytes_view(r) == encoding_of(Some(*crop)),
{
    if crop.width > WEBP_MAX_SIDE || crop.height > WEBP_MAX_SIDE {
        return None;
    }
    keep_image(webp_encode(&crop.rgb, crop.width, crop.height, WEBP_QUALITY))
}

// ---------------------------------------------------------------------------
// Names
// ---------------------------------------------------------------------------

/// The decimal notation of a signed number.
pub open spec fn signed_decimal(n: int) -> Seq<char> {
    if n < 0 {
        seq!['-'] + decimal((-n) as nat)
    } else {
        decimal(n as nat)
    }
}

/// The name of the image file of a region.
pub open spec fn image_source(kind: ElementKind, b: PixelBox) -> Seq<char> {
    "imgs/img_in_"@ + (if kind == ElementKind::Chart {
        "chart"@
    } else {
        "image"@
    }) + "_box_"@ + signed_decimal(b.x_min as int) + "_"@ + signed_decimal(b.y_min as int) + "_"@
        + signed_decimal(b.x_max as int) + "_"@ + signed_decimal(b.y_max as int) + ".jpg"@
}

fn put_signed(n: i64, out: &mut Vec<char>)
    ensures
        final(out)@ == old(out)@ + signed_decimal(n as int),
{
    let ghost before = out@;
    if n < 0 {
        out.push('-');
        let m: u64 = (-(n as i128)) as u64;
        put_decimal(m, out);
        assert(out@ =~= before + signed_decimal(n as int));
    } else {
        put_decimal(n as u64, out);
    }
}

/// The name under which the markdown of a page refers to a region's image.
pub fn expected_img_src(kind: ElementKind, b: &PixelBox) -> (r: Vec<char>)
    ensures
        r@ == image_source(kind, *b),
{
    let mut out: Vec<char> = Vec::new();
    put_str("imgs/img_in_", &mut out);
    if kind == ElementKind::Chart {
        put_str("chart", &mut out);
    } else {
        put_str("image", &mut out);
    }
    put_str("_box_", &mut out);
    put_signed(b.x_min, &mut out);
    put_str("_", &mut out);
    put_signed(b.y_min, &mut out);
    put_str("_", &mut out);
    put_signed(b.x_max, &mut out);
    put_str("_", &mut out);
    put_signed(b.y_max, &mut out);
    put_str(".jpg", &mut out);
    assert(out@ =~= image_source(kind, *b));
    out
}

/// `fig_{page}_{index}`.
pub open spec fn figure_id(page: u32, index: int) -> Seq<char> {
    "fig_"@ + decimal(page as nat) + "_"@ + decimal(index as nat)
}

/// The placeholder of a figure in markdown.
pub open spec fn figure_placeholder(id: Seq<char>) -> Seq<char> {
    "!["@ + id + "](edgequake-figure)"@
}

// ---------------------------------------------------------------------------
// Patching
// ---------------------------------------------------------------------------

/// The first of the matches from the `k`-th on whose group is `src`.
pub open spec fn first_with_source(
    t: Seq<char>,
    hits: Seq<(int, int, int, int)>,
    src: Seq<char>,
    k: int,
) -> Option<int>
    decreases hits.len() - k,
{
    if k < 0 || k >= hits.len() {
        None
    } else if t.subrange(hits[k].2, hits[k].3) == src {
        Some(k)
    } else {
        first_with_source(t, hits, src, k + 1)
    }
}

/// Where the first image with the source `src` begins and ends in `t`.
pub open spec fn image_at(t: Seq<char>, src: Seq<char>) -> Option<(int, int)> {
    let hits = Pattern::ImageDiv.hits(t, 0);
    match first_with_source(t, hits, src, 0) {
        Some(k) => Some((hits[k].0, hits[k].1)),
        None => None,
    }
}

/// The caption of a figure: what stands below it, or else its own text.
pub open spec fn figure_caption(elements: Seq<LayoutElement>, i: int) -> Seq<char> {
    match caption_found(Search::BelowFigure, elements[i].bbox, elements) {
        Some(c) => c,
        None => match elements[i].text_view() {
            Some(t) => trim(t),
            None => Seq::empty(),
        },
    }
}

/// What a page becomes when the figures from the `i`-th region on are taken
/// out. A figure is taken out if its image stands in the markdown and it was
/// encoded; both the placeholder and the figure come about, or neither.
pub open spec fn figures_taken(
    md: Seq<char>,
    elements: Seq<LayoutElement>,
    encoded: Seq<Option<Vec<u8>>>,
    page: u32,
    i: int,
) -> (Seq<char>, Seq<FigureModel>)
    decreases elements.len() - i,
{
    if i < 0 || i >= elements.len() {
        (md, Seq::empty())
    } else {
        let src = image_source(elements[i].kind, elements[i].pixels);
        if elements[i].kind.figure_kind() && image_at(md, src) is Some && encoded[i] is Some {
            let (s, e) = image_at(md, src)->0;
            let id = figure_id(page, i);
            let next = md.take(s) + figure_placeholder(id) + md.skip(e);
            let fig = FigureModel {
                id,
                image_bytes: encoded[i]->0@,
                mime: "image/webp"@,
                caption: figure_caption(elements, i),
                page,
                order_index: i as u32,
            };
            let rest = figures_taken(next, elements, encoded, page, i + 1);
            (rest.0, seq![fig] + rest.1)
        } else {
            figures_taken(md, elements, encoded, page, i + 1)
        }
    }
}

fn find_image(t: &Vec<char>, src: &Vec<char>) -> (r: Option<(usize, usize)>)
    ensures
        match r {
            Some((s, e)) => image_at(t@, src@) == Some((s as int, e as int)) && s <= e <= t@.len(),
            None => image_at(t@, src@) is None,
        },
{
    let text = string_of(t);
    let found = find_all(Pattern::ImageDiv, text.as_str());
    let ghost hits = Pattern::ImageDiv.hits(t@, 0);
    proof {
        assert(positions(found@).len() == found@.len());
        lemma_hits_bounds(Pattern::ImageDiv, t@, 0);
    }
    let mut k: usize = 0;
    while k < found.len()
        invariant
            k <= found@.len(),
            hits == Pattern::ImageDiv.hits(t@, 0),
            hits == positions(found@),
            found@.len() == hits.len(),
            forall|j: int|
                0 <= j < hits.len() ==> hit_within(#[trigger] hits[j], 0, t@.len() as int),
            first_with_source(t@, hits, src@, 0) == first_with_source(t@, hits, src@, k as int),
        decreases found.len() - k,
    {
        let f = found[k];
        assert(hits[k as int] == f@);
        let group = range_of(t, f.group_start, f.group_end);
        if same_text(&group, src) {
            return Some((f.start, f.end));
        }
        k = k + 1;
    }
    None
}

/// Takes the figures out of a page's markdown, given the encoded crop of each
/// region that could be cropped and encoded.
pub fn patch_figures(
    elements: &Vec<LayoutElement>,
    encoded: &Vec<Option<Vec<u8>>>,
    page_num: u32,
    markdown: &str,
) -> (r: (String, Vec<ExtractedFigure>))
    requires
        encoded@.len() == elements@.len(),
    ensures
        (r.0@, figure_views(r.1@)) == figures_taken(markdown@, elements@, encoded@, page_num, 0),
{
    let mut md = chars_of(markdown);
    let mut figs: Vec<ExtractedFigure> = Vec::new();
    let ghost want = figures_taken(markdown@, elements@, encoded@, page_num, 0);
    let mut i: usize = 0;
    assert(figure_views(figs@) + want.1 =~= want.1);
    while i < elements.len()
        invariant
            i <= elements@.len(),
            encoded@.len() == elements@.len(),
            want == figures_taken(markdown@, elements@, encoded@, page_num, 0),
            want.0 == figures_taken(md@, elements@, encoded@, page_num, i as int).0,
            want.1 == figure_views(figs@) + figures_taken(
                md@,
                elements@,
                encoded@,
                page_num,
                i as int,
            ).1,
        decreases elements.len() - i,
    {
        let elem = &elements[i];
        if elem.kind.is_figure() {
            let src = expected_img_src(elem.kind, &elem.pixels);
            let place = find_image(&md, &src);
            if let (Some((s, e)), Some(bytes)) = (place, &encoded[i]) {
                let mut id: Vec<char> = Vec::new();
                put_str("fig_", &mut id);
                put_decimal(page_num as u64, &mut id);
                put_str("_", &mut id);
                put_decimal(i as u64, &mut id);
                assert(id@ =~= figure_id(page_num, i as int));
                let mut next: Vec<char> = Vec::new();
                put_range(&md, 0, s, &mut next);
                put_str("![", &mut next);
                put_range(&id, 0, id.len(), &mut next);
                put_str("](edgequake-figure)", &mut next);
                put_range(&md, e, md.len(), &mut next);
                proof {
                    assert(id@.subrange(0, id@.len() as int) =~= id@);
                    assert(next@ =~= md@.take(s as int) + figure_placeholder(id@) + md@.skip(
                        e as int,
                    ));
                }
                let caption = match find_caption(Search::BelowFigure, &elem.bbox, elements) {
                    Some(c) => c,
                    None => match &elem.text {
                        Some(t) => trimmed(t.as_str()),
                        None => String::new(),
                    },
                };
                let fig = ExtractedFigure {
                    id: string_of(&id),
                    image_bytes: copy_bytes(bytes),
                    mime: "image/webp".to_owned(),
                    caption,
                    page: page_num,
                    order_index: i as u32,
                };
                let ghost x = fig@;
                let ghost before = figure_views(figs@);
                figs.push(fig);
                proof {
                    assert(figure_views(figs@) =~= before.push(x));
                    let z = figures_taken(next@, elements@, encoded@, page_num, i + 1).1;
                    assert(before + (seq![x] + z) =~= before.push(x) + z);
                }
                md = next;
            }
        }
        i = i + 1;
    }
    assert(figure_views(figs@) + Seq::<FigureModel>::empty() =~= figure_views(figs@));
    (string_of(&md), figs)
}

fn copy_bytes(v: &Vec<u8>) -> (r: Vec<u8>)
    ensures
        r@ == v@,
{
    let mut r: Vec<u8> = Vec::new();
    let mut i: usize = 0;
    while i < v.len()
        invariant
            i <= v@.len(),
            r@ == v@.take(i as int),
        decreases v.len() - i,
    {
        r.push(v[i]);
        assert(v@.take(i + 1) =~= v@.take(i as int).push(v@[i as int]));
        i = i + 1;
    }
    assert(v@.take(i as int) =~= v@);
    r
}

/// These are the encodings of the crops.
pub open spec fn are_encoded(crops: Seq<Option<RgbCrop>>, encoded: Seq<Option<Vec<u8>>>) -> bool {
    &&& encoded.len() == crops.len()
    &&& forall|i: int|
        0 <= i < encoded.len() ==> bytes_view(#[trigger] encoded[i]) == encoding_of(crops[i])
}

/// The crops can be encoded.
pub open spec fn crops_fit(crops: Seq<Option<RgbCrop>>) -> bool {
    forall|i: int|
        0 <= i < crops.len() ==> (#[trigger] crops[i] matches Some(c) ==> c.well_formed())
}

/// Encodes the crops of a page's figures and takes the figures out of its
/// markdown. A figure whose crop is missing or does not encode stays.
pub fn extract_and_patch(
    elements: &Vec<LayoutElement>,
    crops: &Vec<Option<RgbCrop>>,
    page_num: u32,
    markdown: &str,
) -> (r: (String, Vec<ExtractedFigure>))
    requires
        crops@.len() == elements@.len(),
        crops_fit(crops@),
    ensures
        exists|encoded: Seq<Option<Vec<u8>>>| #[trigger]
            are_encoded(crops@, encoded) && (r.0@, figure_views(r.1@)) == figures_taken(
                markdown@,
                elements@,
                encoded,
                page_num,
                0,
            ),
{
    let mut encoded: Vec<Option<Vec<u8>>> = Vec::new();
    let mut i: usize = 0;
    while i < crops.len()
        invariant
            i <= crops@.len(),
            encoded@.len() == i,
            forall|k: int|
                0 <= k < crops@.len() ==> (#[trigger] crops@[k] matches Some(c)
                    ==> c.well_formed()),
            forall|k: int|
                0 <= k < i ==> bytes_view(#[trigger] encoded@[k]) == encoding_of(crops@[k]),
        decreases crops.len() - i,
    {
        let e = match &crops[i] {
            Some(c) => encode_webp(c),
            None => None,
        };
        encoded.push(e);
        i = i + 1;
    }
    assert(are_encoded(crops@, encoded@));
    patch_figures(elements, &encoded, page_num, markdown)
}

/// A page without figure regions is left alone.
pub proof fn law_no_figures_untouched(
    md: Seq<char>,
    elements: Seq<LayoutElement>,
    encoded: Seq<Option<Vec<u8>>>,
    page: u32,
    i: int,
)
    requires
        0 <= i,
        forall|k: int|
            i <= k < elements.len() ==> !(#[trigger] elements[k]).kind.figure_kind()
                || encoded[k] is None,
    ensures
        figures_taken(md, elements, encoded, page, i) == (md, Seq::<FigureModel>::empty()),
    decreases elements.len() - i,
{
    if i < elements.len() {
        assert(!elements[i].kind.figure_kind() || encoded[i] is None);
        law_no_figures_untouched(md, elements, encoded, page, i + 1);
    }
}

} // verus!
