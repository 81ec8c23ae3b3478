//! Regions of a recognised page.
//!
//! Coordinates are whole numbers of sub-pixels, so the spatial rules by which a
//! caption is found are exact.

use vstd::prelude::*;

use crate::text::{trim, trimmed};

verus! {

broadcast use vstd::string::group_string_axioms;

/// Sub-pixels per pixel.
pub const SUBPIXELS: i64 = 65536;

/// The largest vertical gap between a region and its caption, in pixels.
pub const MAX_CAPTION_GAP: i64 = 100;

/// How far the centres of a figure or algorithm and its caption may be apart
/// horizontally, in pixels.
pub const FIGURE_CENTER_DIFF: i64 = 60;

/// How far the centres of a table and its caption may be apart horizontally, in
/// pixels.
pub const TABLE_CENTER_DIFF: i64 = 80;

/// What a region of a page holds.
#[derive(Clone, Copy, Debug, PartialEq, Eq, Structural)]
pub enum ElementKind {
    Text,
    Table,
    Image,
    Chart,
    Seal,
    Algorithm,
    FigureTitle,
    ChartTitle,
    TableTitle,
    FigureTableChartTitle,
    Other,
}

impl ElementKind {
    pub open spec fn caption_kind(self) -> bool {
        self == ElementKind::FigureTitle || self == ElementKind::ChartTitle || self
            == ElementKind::TableTitle || self == ElementKind::FigureTableChartTitle
    }

    pub open spec fn figure_kind(self) -> bool {
        self == ElementKind::Image || self == ElementKind::Chart || self == ElementKind::Seal
    }

    /// Whether the region is the caption of another.
    pub fn is_caption(self) -> (r: bool)
        ensures
            r == self.caption_kind(),
    {
        self == ElementKind::FigureTitle || self == ElementKind::ChartTitle || self
            == ElementKind::TableTitle || self == ElementKind::FigureTableChartTitle
    }

    /// Whether the region is a figure.
    pub fn is_figure(self) -> (r: bool)
        ensures
            r == self.figure_kind(),
    {
        self == ElementKind::Image || self == ElementKind::Chart || self == ElementKind::Seal
    }
}

/// A bounding box in sub-pixels; `y` grows downwards.
#[derive(Clone, Copy, Debug)]
pub struct BBox {
    pub x_min: i64,
    pub y_min: i64,
    pub x_max: i64,
    pub y_max: i64,
}

/// The corners of a bounding box rounded to whole pixels, as they appear in the
/// names of image files.
#[derive(Clone, Copy, Debug)]
pub struct PixelBox {
    pub x_min: i64,
    pub y_min: i64,
    pub x_max: i64,
    pub y_max: i64,
}

/// A region of a page with the text that was recognised in it.
#[derive(Clone, Debug)]
pub struct LayoutElement {
    pub kind: ElementKind,
    pub text: Option<String>,
    pub bbox: BBox,
    pub pixels: PixelBox,
}

impl LayoutElement {
    /// The recognised text.
    pub open spec fn text_view(self) -> Option<Seq<char>> {
        match self.text {
            Some(s) => Some(s@),
            None => None,
        }
    }
}

/// The horizontal centres of two boxes are at most `limit` pixels apart.
pub open spec fn aligned(a: BBox, b: BBox, limit: int) -> bool {
    let d = (a.x_min + a.x_max) - (b.x_min + b.x_max);
    -2 * limit * SUBPIXELS <= d <= 2 * limit * SUBPIXELS
}

pub open spec fn gap_in_range(gap: int) -> bool {
    0 <= gap <= MAX_CAPTION_GAP * SUBPIXELS
}

/// The gap between a region and a caption of its column right below it.
pub open spec fn gap_below(region: BBox, caption: BBox, limit: int) -> Option<int> {
    let gap = caption.y_min - region.y_max;
    if gap_in_range(gap) && aligned(region, caption, limit) {
        Some(gap)
    } else {
        None
    }
}

/// The gap between a region and a caption of its column right above it or else
/// right below it.
pub open spec fn gap_beside(region: BBox, caption: BBox, limit: int) -> Option<int> {
    let above = region.y_min - caption.y_max;
    let below = caption.y_min - region.y_max;
    if !aligned(region, caption, limit) {
        None
    } else if gap_in_range(above) {
        Some(above)
    } else if gap_in_range(below) {
        Some(below)
    } else {
        None
    }
}

/// How a caption is looked for.
#[derive(Clone, Copy, Debug, PartialEq, Eq, Structural)]
pub enum Search {
    /// Below a figure, any caption.
    BelowFigure,
    /// Below an algorithm, figure titles only.
    BelowAlgorithm,
    /// Above or below a table, any caption.
    BesideTable,
}

/// The gap to the `j`-th element when it can be the caption of `region`.
pub open spec fn caption_gap(search: Search, region: BBox, e: LayoutElement) -> Option<int> {
    match search {
        Search::BelowFigure => if e.kind.caption_kind() {
            gap_below(region, e.bbox, FIGURE_CENTER_DIFF as int)
        } else {
            None
        },
        Search::BelowAlgorithm => if e.kind == ElementKind::FigureTitle {
            gap_below(region, e.bbox, FIGURE_CENTER_DIFF as int)
        } else {
            None
        },
        Search::BesideTable => if e.kind.caption_kind() {
            gap_beside(region, e.bbox, TABLE_CENTER_DIFF as int)
        } else {
            None
        },
    }
}

/// `k` is the element with the smallest gap, the first of several.
pub open spec fn nearest(
    search: Search,
    region: BBox,
    elements: Seq<LayoutElement>,
    k: int,
) -> bool {
    &&& 0 <= k < elements.len()
    &&& caption_gap(search, region, elements[k]) is Some
    &&& forall|j: int|
        0 <= j < elements.len() ==> (caption_gap(search, region, #[trigger] elements[j]) matches Some(
            g,
        ) ==> (caption_gap(search, region, elements[k])->0 < g || (caption_gap(
            search,
            region,
            elements[k],
        )->0 == g && k <= j)))
}

/// The caption that the search finds: the trimmed text of the nearest element,
/// if that has any.
pub open spec fn caption_found(
    search: Search,
    region: BBox,
    elements: Seq<LayoutElement>,
) -> Option<Seq<char>> {
    if exists|k: int| nearest(search, region, elements, k) {
        match elements[choose|k: int| nearest(search, region, elements, k)].text_view() {
            Some(t) => Some(trim(t)),
            None => None,
        }
    } else {
        None
    }
}

fn gap_to(search: Search, region: &BBox, e: &LayoutElement) -> (r: Option<i128>)
    ensures
        match r {
            Some(g) => caption_gap(search, *region, *e) == Some(g as int),
            None => caption_gap(search, *region, *e) is None,
        },
{
    let counts = match search {
        Search::BelowAlgorithm => e.kind == ElementKind::FigureTitle,
        _ => e.kind.is_caption(),
    };
    if !counts {
        return None;
    }
    let limit: i128 = match search {
        Search::BesideTable => TABLE_CENTER_DIFF as i128,
        _ => FIGURE_CENTER_DIFF as i128,
    };
    let d: i128 = (region.x_min as i128 + region.x_max as i128) - (e.bbox.x_min as i128
        + e.bbox.x_max as i128);
    let span: i128 = 2 * limit * (SUBPIXELS as i128);
    if d < -span || d > span {
        return None;
    }
    let most: i128 = (MAX_CAPTION_GAP as i128) * (SUBPIXELS as i128);
    let below: i128 = e.bbox.y_min as i128 - region.y_max as i128;
    let above: i128 = region.y_min as i128 - e.bbox.y_max as i128;
    match search {
        Search::BesideTable => if 0 <= above && above <= most {
            Some(above)
        } else if 0 <= below && below <= most {
            Some(below)
        } else {
            None
        },
        _ => if 0 <= below && below <= most {
            Some(below)
        } else {
            None
        },
    }
}

/// The index of the nearest caption of a region.
pub fn find_caption_index(search: Search, region: &BBox, elements: &Vec<LayoutElement>) -> (r:
    Option<usize>)
    ensures
        match r {
            Some(k) => nearest(search, *region, elements@, k as int),
            None => forall|j: int|
                0 <= j < elements@.len() ==> caption_gap(
                    search,
                    *region,
                    #[trigger] elements@[j],
                ) is None,
        },
{
    let mut best: Option<(usize, i128)> = None;
    let mut i: usize = 0;
    while i < elements.len()
        invariant
            i <= elements@.len(),
            match best {
                Some((k, g)) => k < i && caption_gap(search, *region, elements@[k as int]) == Some(
                    g as int,
                ) && forall|j: int|
                    0 <= j < i ==> (caption_gap(
                        search,
                        *region,
                        #[trigger] elements@[j],
                    ) matches Some(h) ==> (g < h || (g == h && k <= j))),
                None => forall|j: int|
                    0 <= j < i ==> caption_gap(
                        search,
                        *region,
                        #[trigger] elements@[j],
                    ) is None,
            },
        decreases elements.len() - i,
    {
        if let Some(h) = gap_to(search, region, &elements[i]) {
            match best {
                None => {
                    best = Some((i, h));
                },
                Some((_k, g)) => {
                    if h < g {
                        best = Some((i, h));
                    }
                },
            }
        }
        i = i + 1;
    }
    match best {
        Some((k, _g)) => Some(k),
        None => None,
    }
}

/// The caption text of a region.
pub fn find_caption(search: Search, region: &BBox, elements: &Vec<LayoutElement>) -> (r: Option<
    String,
>)
    ensures
        match r {
            Some(s) => caption_found(search, *region, elements@) == Some(s@),
            None => caption_found(search, *region, elements@) is None,
        },
{
    match find_caption_index(search, region, elements) {
        Some(k) => {
            proof {
                assert(nearest(search, *region, elements@, k as int));
                let c = choose|c: int| nearest(search, *region, elements@, c);
                assert(nearest(search, *region, elements@, c));
                assert(elements@[c] == elements@[c] && elements@[k as int] == elements@[k as int]);
                assert(c == k);
            }
            match &elements[k].text {
                Some(s) => Some(trimmed(s.as_str())),
                None => None,
            }
        },
        None => {
            proof {
                assert forall|k: int| !nearest(search, *region, elements@, k) by {
                    if 0 <= k < elements@.len() {
                        assert(caption_gap(search, *region, elements@[k]) is None);
                    }
                }
            }
            None
        },
    }
}

// ---------------------------------------------------------------------------
// Laws of the search
// ---------------------------------------------------------------------------

/// How far apart two numbers are.
pub open spec fn apart(a: int, b: int) -> int {
    if a < b {
        b - a
    } else {
        a - b
    }
}

/// A caption that is found is the trimmed text of an element of the page that
/// is a title and stands in the column of the region: the doubled centres of the
/// two boxes are at most the doubled limit apart, on either side. It begins at
/// most 100 pixels below the region; the caption of a table may also end at most
/// 100 pixels above it.
pub proof fn law_caption_is_beside(
    search: Search,
    region: BBox,
    elements: Seq<LayoutElement>,
) -> (k: int)
    requires
        caption_found(search, region, elements) is Some,
    ensures
        0 <= k < elements.len(),
        elements[k].text matches Some(s) && caption_found(search, region, elements) == Some(
            trim(s@),
        ),
        elements[k].kind == ElementKind::FigureTitle || (search != Search::BelowAlgorithm && (
        elements[k].kind == ElementKind::ChartTitle || elements[k].kind == ElementKind::TableTitle
            || elements[k].kind == ElementKind::FigureTableChartTitle)),
        apart(
            region.x_min + region.x_max,
            elements[k].bbox.x_min + elements[k].bbox.x_max,
        ) <= 2 * 65536 * (if search == Search::BesideTable {
            80int
        } else {
            60int
        }),
        0 <= elements[k].bbox.y_min - region.y_max <= 100 * 65536 || (search
            == Search::BesideTable && 0 <= region.y_min - elements[k].bbox.y_max <= 100 * 65536),
        nearest(search, region, elements, k),
{
    let k = choose|k: int| nearest(search, region, elements, k);
    k
}

/// A title right below a region whose centre is within the limit is not passed
/// over for one further away: the element that is chosen is at most as far below
/// or, for a table, above.
pub proof fn law_nearest_caption_wins(
    search: Search,
    region: BBox,
    elements: Seq<LayoutElement>,
    k: int,
    j: int,
)
    requires
        nearest(search, region, elements, k),
        0 <= j < elements.len(),
        elements[j].kind == ElementKind::FigureTitle || (search != Search::BelowAlgorithm && (
        elements[j].kind == ElementKind::ChartTitle || elements[j].kind == ElementKind::TableTitle
            || elements[j].kind == ElementKind::FigureTableChartTitle)),
        apart(
            region.x_min + region.x_max,
            elements[j].bbox.x_min + elements[j].bbox.x_max,
        ) <= 2 * 65536 * (if search == Search::BesideTable {
            80int
        } else {
            60int
        }),
    ensures
        search != Search::BesideTable && 0 <= elements[j].bbox.y_min - region.y_max <= 100 * 65536
            ==> elements[k].bbox.y_min < elements[j].bbox.y_min || (elements[k].bbox.y_min
            == elements[j].bbox.y_min && k <= j),
        search == Search::BesideTable && 0 <= region.y_min - elements[j].bbox.y_max <= 100 * 65536
            ==> 0 <= region.y_min - elements[k].bbox.y_max <= region.y_min
            - elements[j].bbox.y_max || 0 <= elements[k].bbox.y_min - region.y_max
            <= region.y_min - elements[j].bbox.y_max,
        search == Search::BesideTable && region.y_min < elements[j].bbox.y_max && 0
            <= elements[j].bbox.y_min - region.y_max <= 100 * 65536 ==> 0 <= region.y_min
            - elements[k].bbox.y_max <= elements[j].bbox.y_min - region.y_max || 0
            <= elements[k].bbox.y_min - region.y_max <= elements[j].bbox.y_min - region.y_max,
{
    assert(elements[j] == elements[j] && elements[k] == elements[k]);
}

/// A region has a caption wherever a title stands in its column right below it
/// or, for a table, right above it: some element is chosen.
pub proof fn law_caption_is_not_missed(
    search: Search,
    region: BBox,
    elements: Seq<LayoutElement>,
    j: int,
) -> (k: int)
    requires
        0 <= j < elements.len(),
        elements[j].kind == ElementKind::FigureTitle || (search != Search::BelowAlgorithm && (
        elements[j].kind == ElementKind::ChartTitle || elements[j].kind == ElementKind::TableTitle
            || elements[j].kind == ElementKind::FigureTableChartTitle)),
        apart(
            region.x_min + region.x_max,
            elements[j].bbox.x_min + elements[j].bbox.x_max,
        ) <= 2 * 65536 * (if search == Search::BesideTable {
            80int
        } else {
            60int
        }),
        0 <= elements[j].bbox.y_min - region.y_max <= 100 * 65536 || (search
            == Search::BesideTable && 0 <= region.y_min - elements[j].bbox.y_max <= 100 * 65536),
    ensures
        nearest(search, region, elements, k),
        elements[k].text matches Some(s) ==> caption_found(search, region, elements) == Some(
            trim(s@),
        ),
{
    let k = lemma_some_nearest(search, region, elements, j, elements.len() as int);
    let c = choose|c: int| nearest(search, region, elements, c);
    assert(nearest(search, region, elements, c));
    assert(elements[c] == elements[c] && elements[k] == elements[k]);
    assert(c == k);
    k
}

/// Among the first `n` elements one of which can be the caption, one is nearest.
proof fn lemma_some_nearest(
    search: Search,
    region: BBox,
    elements: Seq<LayoutElement>,
    j: int,
    n: int,
) -> (k: int)
    requires
        0 <= j < n <= elements.len(),
        caption_gap(search, region, elements[j]) is Some,
    ensures
        nearest(search, region, elements.take(n), k),
        n == elements.len() ==> nearest(search, region, elements, k),
    decreases n,
{
    let first = elements.take(n);
    let last = caption_gap(search, region, elements[n - 1]);
    assert(n == elements.len() ==> first =~= elements);
    let k = if exists|i: int|
        0 <= i < n - 1 && caption_gap(search, region, #[trigger] elements[i]) is Some {
        let i = choose|i: int|
            0 <= i < n - 1 && caption_gap(search, region, #[trigger] elements[i]) is Some;
        let k = lemma_some_nearest(search, region, elements, i, n - 1);
        assert(elements.take(n - 1)[k] == elements[k]);
        if last matches Some(g) && g < caption_gap(search, region, elements[k])->0 {
            n - 1
        } else {
            k
        }
    } else {
        n - 1
    };
    assert forall|i: int| 0 <= i < first.len() implies (caption_gap(
        search,
        region,
        #[trigger] first[i],
    ) matches Some(g) ==> (caption_gap(search, region, first[k])->0 < g || (caption_gap(
        search,
        region,
        first[k],
    )->0 == g && k <= i))) by {
        assert(first[i] == elements[i]);
        if i < n - 1 {
            assert(elements.take(n - 1)[i] == elements[i]);
        }
    }
    k
}

/// The second box is the first one on a page of width `w` that is mirrored left
/// to right.
pub open spec fn mirrored(a: BBox, b: BBox, w: int) -> bool {
    &&& a.x_min + b.x_max == w
    &&& a.x_max + b.x_min == w
    &&& a.y_min == b.y_min
    &&& a.y_max == b.y_max
}

/// The second box is the first one moved across the page.
pub open spec fn moved(a: BBox, b: BBox, dx: int, dy: int) -> bool {
    &&& b.x_min == a.x_min + dx
    &&& b.x_max == a.x_max + dx
    &&& b.y_min == a.y_min + dy
    &&& b.y_max == a.y_max + dy
}

/// Where the gaps of two pages agree, so do the captions.
proof fn lemma_same_gaps(
    search: Search,
    region: BBox,
    elements: Seq<LayoutElement>,
    other: BBox,
    others: Seq<LayoutElement>,
)
    requires
        elements.len() == others.len(),
        forall|i: int|
            #![trigger elements[i]]
            0 <= i < elements.len() ==> elements[i].text == others[i].text && caption_gap(
                search,
                region,
                elements[i],
            ) == caption_gap(search, other, others[i]),
    ensures
        caption_found(search, region, elements) == caption_found(search, other, others),
        forall|k: int|
            nearest(search, region, elements, k) <==> nearest(search, other, others, k),
{
    assert forall|k: int| nearest(search, region, elements, k) implies nearest(
        search,
        other,
        others,
        k,
    ) by {
        assert forall|j: int| 0 <= j < others.len() implies (caption_gap(
            search,
            other,
            #[trigger] others[j],
        ) matches Some(g) ==> (caption_gap(search, other, others[k])->0 < g || (caption_gap(
            search,
            other,
            others[k],
        )->0 == g && k <= j))) by {
            assert(elements[j].text == others[j].text);
        }
    }
    assert forall|k: int| nearest(search, other, others, k) implies nearest(
        search,
        region,
        elements,
        k,
    ) by {
        assert(elements[k].text == others[k].text);
        assert forall|j: int| 0 <= j < elements.len() implies (caption_gap(
            search,
            region,
            #[trigger] elements[j],
        ) matches Some(g) ==> (caption_gap(search, region, elements[k])->0 < g || (caption_gap(
            search,
            region,
            elements[k],
        )->0 == g && k <= j))) by {
            assert(others[j] == others[j]);
        }
    }
    if exists|k: int| nearest(search, region, elements, k) {
        let a = choose|k: int| nearest(search, region, elements, k);
        let b = choose|k: int| nearest(search, other, others, k);
        assert(nearest(search, other, others, a));
        assert(others[a] == others[a] && others[b] == others[b]);
        assert(a == b);
        assert(elements[a].text == others[a].text);
    }
}

/// Mirroring a page left to right finds the same caption.
pub proof fn law_mirrored_page(
    search: Search,
    region: BBox,
    elements: Seq<LayoutElement>,
    other: BBox,
    others: Seq<LayoutElement>,
    w: int,
)
    requires
        mirrored(region, other, w),
        elements.len() == others.len(),
        forall|i: int|
            #![trigger elements[i]]
            0 <= i < elements.len() ==> elements[i].kind == others[i].kind && elements[i].text
                == others[i].text && mirrored(elements[i].bbox, others[i].bbox, w),
    ensures
        caption_found(search, region, elements) == caption_found(search, other, others),
{
    lemma_same_gaps(search, region, elements, other, others);
}

/// Moving a whole page finds the same caption.
pub proof fn law_moved_page(
    search: Search,
    region: BBox,
    elements: Seq<LayoutElement>,
    other: BBox,
    others: Seq<LayoutElement>,
    dx: int,
    dy: int,
)
    requires
        moved(region, other, dx, dy),
        elements.len() == others.len(),
        forall|i: int|
            #![trigger elements[i]]
            0 <= i < elements.len() ==> elements[i].kind == others[i].kind && elements[i].text
                == others[i].text && moved(elements[i].bbox, others[i].bbox, dx, dy),
    ensures
        caption_found(search, region, elements) == caption_found(search, other, others),
{
    lemma_same_gaps(search, region, elements, other, others);
}

/// Images, charts and seals are figures, and the titles of figures, charts and
/// tables are captions; no region is both.
pub proof fn law_kinds_of_regions(kind: ElementKind)
    ensures
        kind.figure_kind() <==> kind == ElementKind::Image || kind == ElementKind::Chart || kind
            == ElementKind::Seal,
        kind.caption_kind() <==> kind == ElementKind::FigureTitle || kind
            == ElementKind::ChartTitle || kind == ElementKind::TableTitle || kind
            == ElementKind::FigureTableChartTitle,
        !(kind.figure_kind() && kind.caption_kind()),
{
}

} // verus!
