use edgequake::figures::{encode_webp, extract_and_patch, keep_image, RgbCrop};
use edgequake::layout::{BBox, ElementKind, LayoutElement, PixelBox, SUBPIXELS};
use edgequake::page_runs::{capture_page, crop_fits, Wanted};

/// A region with its corners in pixels.
fn make_element(
    kind: ElementKind,
    text: Option<&str>,
    x0: f32,
    y0: f32,
    x1: f32,
    y1: f32,
) -> LayoutElement {
    let sub = |v: f32| (v as f64 * SUBPIXELS as f64) as i64;
    let px = |v: f32| v.round() as i64;
    LayoutElement {
        kind,
        text: text.map(|t| t.to_string()),
        bbox: BBox {
            x_min: sub(x0),
            y_min: sub(y0),
            x_max: sub(x1),
            y_max: sub(y1),
        },
        pixels: PixelBox {
            x_min: px(x0),
            y_min: px(y0),
            x_max: px(x1),
            y_max: px(y1),
        },
    }
}

/// The crop of each figure out of a page of one colour.
fn crops(elements: &[LayoutElement], colour: [u8; 3]) -> Vec<Option<RgbCrop>> {
    elements
        .iter()
        .map(|e| {
            if !e.kind.is_figure() {
                return None;
            }
            let width = (e.pixels.x_max - e.pixels.x_min) as u32;
            let height = (e.pixels.y_max - e.pixels.y_min) as u32;
            let image = image::RgbImage::from_pixel(width, height, image::Rgb(colour));
            Some(RgbCrop {
                width,
                height,
                rgb: image.into_raw(),
            })
        })
        .collect()
}

#[test]
fn no_figure_elements_leaves_markdown_untouched() {
    let markdown = "# Title\n\nSome text.";
    let elements = vec![make_element(
        ElementKind::Text,
        Some("Some text."),
        0.0,
        0.0,
        10.0,
        10.0,
    )];
    let crops = crops(&elements, [0, 0, 0]);
    let (out, figs) = extract_and_patch(&elements, &crops, 1, markdown);
    assert_eq!(out, markdown);
    assert!(figs.is_empty());
}

#[test]
fn captioned_image_div_gets_replaced_and_figure_captured() {
    let elements = vec![
        make_element(ElementKind::Text, Some("intro paragraph"), 0.0, 0.0, 200.0, 50.0),
        make_element(ElementKind::Image, None, 50.0, 60.0, 150.0, 130.0),
        make_element(
            ElementKind::FigureTitle,
            Some("Figure 1: Overview of the system."),
            40.0, 135.0, 160.0, 150.0,
        ),
    ];

    let img_div = r#"<div style="text-align: center;"><img src="imgs/img_in_image_box_50_60_150_130.jpg" alt="Image" width="50%" /></div>"#;
    let cap_div = r#"<div style="text-align: center;">Figure 1: Overview of the system. </div>"#;
    let md = format!("intro paragraph\n\n{img_div}\n\n{cap_div}");

    let crops = crops(&elements, [10, 20, 30]);
    let (out, figs) = extract_and_patch(&elements, &crops, 3, &md);

    assert!(
        out.contains("![fig_3_1](edgequake-figure)"),
        "expected placeholder in patched markdown:\n{out}"
    );
    assert!(!out.contains("imgs/img_in_image_box_50_60_150_130.jpg"));
    assert!(out.contains("Figure 1: Overview of the system."));

    assert_eq!(figs.len(), 1);
    assert_eq!(figs[0].id, "fig_3_1");
    assert_eq!(figs[0].caption, "Figure 1: Overview of the system.");
    assert_eq!(figs[0].mime, "image/webp");
    assert!(!figs[0].image_bytes.is_empty());
    let decoded = image::load_from_memory(&figs[0].image_bytes)
        .expect("encoded figure should decode as WEBP");
    assert_eq!((decoded.width(), decoded.height()), (100, 70));
    assert_eq!(figs[0].page, 3);
}

#[test]
fn chart_element_uses_chart_filename() {
    let elements = vec![make_element(
        ElementKind::Chart,
        None,
        10.0, 20.0, 110.0, 80.0,
    )];
    let chart_div = r#"<div style="text-align: center;"><img src="imgs/img_in_chart_box_10_20_110_80.jpg" alt="Image" width="50%" /></div>"#;
    let crops = crops(&elements, [0, 0, 0]);
    let (out, figs) = extract_and_patch(&elements, &crops, 1, chart_div);
    assert!(out.contains("![fig_1_0](edgequake-figure)"));
    assert_eq!(figs.len(), 1);
}

#[test]
fn distant_caption_is_not_stitched() {
    let elements = vec![
        make_element(ElementKind::Image, None, 50.0, 60.0, 150.0, 130.0),
        make_element(
            ElementKind::FigureTitle,
            Some("Figure 9: unrelated."),
            40.0, 250.0, 160.0, 265.0,
        ),
    ];
    let img_div = r#"<div style="text-align: center;"><img src="imgs/img_in_image_box_50_60_150_130.jpg" alt="Image" width="50%" /></div>"#;
    let crops = crops(&elements, [0, 0, 0]);
    let (_out, figs) = extract_and_patch(&elements, &crops, 1, img_div);
    assert_eq!(figs.len(), 1);
    assert_eq!(
        figs[0].caption, "",
        "distant caption shouldn't be stitched"
    );
}

#[test]
fn figures_and_tables_are_taken_out_of_one_page() {
    let elements = vec![
        make_element(ElementKind::Chart, None, 10.0, 20.0, 110.0, 80.0),
        make_element(ElementKind::Table, None, 0.0, 100.0, 100.0, 200.0),
        make_element(ElementKind::Image, None, 1.0, 2.0, 3.0, 4.0),
    ];
    let chart = r#"<div style="text-align: center;"><img src="imgs/img_in_chart_box_10_20_110_80.jpg" alt="Image" width="50%" /></div>"#;
    let table = r#"<div style="text-align: center;"><table border="1"><tr><td>a</td></tr></table></div>"#;
    let md = format!("{chart}\n\n{table}");
    let mut crops = crops(&elements, [1, 2, 3]);
    assert!(crop_fits(crops[0].as_ref().unwrap()));
    crops[2] = None;
    let all = Wanted { figures: true, tables: true };
    let page = capture_page(&elements, &crops, 5, &md, all);
    assert_eq!(page.markdown, "![fig_5_0](edgequake-figure)\n\n![tbl_5_1](edgequake-table)");
    assert_eq!(page.figures.len(), 1);
    assert_eq!(page.tables.len(), 1);
    let only = |figures, tables| Wanted { figures, tables };
    let page = capture_page(&elements, &crops, 5, &md, only(true, false));
    assert_eq!(page.markdown, format!("![fig_5_0](edgequake-figure)\n\n{table}"));
    assert!(page.tables.is_empty());
    let page = capture_page(&elements, &crops, 5, &md, only(false, true));
    assert_eq!(page.markdown, format!("{chart}\n\n![tbl_5_1](edgequake-table)"));
    assert!(page.figures.is_empty());
    let page = capture_page(&elements, &crops, 5, &md, only(false, false));
    assert_eq!(page.markdown, md);
    assert!(!crop_fits(&RgbCrop { width: 2, height: 2, rgb: vec![0; 11] }));
    let wide = RgbCrop { width: 20_000, height: 1, rgb: vec![0; 60_000] };
    assert!(crop_fits(&wide));
    assert_eq!(encode_webp(&wide), None);
    let fits = RgbCrop { width: 16_383, height: 1, rgb: vec![0; 49_149] };
    assert!(encode_webp(&fits).is_some());
}

#[test]
fn figures_that_do_not_encode_stay() {
    let elements = vec![make_element(ElementKind::Chart, None, 10.0, 20.0, 110.0, 80.0)];
    let chart = r#"<div style="text-align: center;"><img src="imgs/img_in_chart_box_10_20_110_80.jpg" alt="Image" width="50%" /></div>"#;
    let (out, figs) = extract_and_patch(&elements, &vec![None], 1, chart);
    assert_eq!(out, chart);
    assert!(figs.is_empty());
    assert_eq!(keep_image(Some(vec![])), None);
    assert_eq!(keep_image(Some(vec![7])), Some(vec![7]));
    let empty = RgbCrop { width: 0, height: 0, rgb: vec![] };
    assert_eq!(encode_webp(&empty), None);
}
