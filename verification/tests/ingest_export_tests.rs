use std::io::Cursor;

use doc_manager::export::plan_export;
use doc_manager::export::place_page;
use doc_manager::export::ExportError;
use doc_manager::ingest::merge_sources;
use doc_manager::ingest::PageSource;

fn png(w: u32, h: u32, shade: u8) -> Vec<u8> {
    let img = image::DynamicImage::ImageRgb8(image::RgbImage::from_pixel(
        w,
        h,
        image::Rgb([shade, shade, shade]),
    ));
    let mut out: Vec<u8> = Vec::new();
    img.write_to(&mut Cursor::new(&mut out), image::ImageFormat::Png)
        .expect("png encoding");
    out
}

#[test]
fn merging_a_three_page_document_and_one_image_gives_four_entries_in_order() {
    let sources = vec![
        PageSource::MultiPage(vec![vec![1u8], vec![2u8], vec![3u8]]),
        PageSource::SingleImage(vec![4u8]),
    ];
    let merged = merge_sources(&sources);
    assert_eq!(merged.len(), 4);
    assert_eq!(merged[0], vec![1u8]);
    assert_eq!(merged[1], vec![2u8]);
    assert_eq!(merged[2], vec![3u8]);
    assert_eq!(merged[3], vec![4u8]);
}

#[test]
fn merging_keeps_selection_order() {
    let sources = vec![
        PageSource::SingleImage(vec![9u8]),
        PageSource::MultiPage(vec![vec![7u8], vec![8u8]]),
        PageSource::SingleImage(vec![6u8]),
    ];
    let merged = merge_sources(&sources);
    assert_eq!(merged, vec![vec![9u8], vec![7u8], vec![8u8], vec![6u8]]);
}

#[test]
fn export_aborts_when_no_page_decodes() {
    let pages = vec![vec![0u8, 1, 2], vec![3u8, 4, 5]];
    assert!(matches!(plan_export(&pages), Err(ExportError::UndecodablePage)));
}

#[test]
fn export_aborts_on_a_single_corrupt_page() {
    let pages = vec![png(2, 2, 10), vec![0u8, 1, 2]];
    assert!(matches!(plan_export(&pages), Err(ExportError::UndecodablePage)));
}

#[test]
fn export_of_nothing_is_refused() {
    let pages: Vec<Vec<u8>> = Vec::new();
    assert!(matches!(plan_export(&pages), Err(ExportError::EmptyPageSet)));
}

#[test]
fn export_plans_one_output_page_per_source_page() {
    let pages = vec![png(96, 96, 1), png(10, 20, 2)];
    let plan = plan_export(&pages).expect("plan");
    assert_eq!(plan.len(), 2);
    assert_eq!((plan[0].width_px, plan[0].height_px), (96, 96));
    assert_eq!((plan[1].width_px, plan[1].height_px), (10, 20));
    let decoded = image::load_from_memory(&plan[0].bytes).expect("page bytes decode");
    assert_eq!((decoded.width(), decoded.height()), (96, 96));
}

#[test]
fn placement_scales_at_fixed_density_and_centers() {
    // 96 px at 96 dpi is one inch: 72 points, centered on 595 x 842.
    let p = place_page(96, 96);
    assert_eq!(p, ((595 - 72) / 2, (842 - 72) / 2, 72, 72));
    // A page too wide to fit is shrunk to the page width, keeping ratio.
    let q = place_page(9600, 4800);
    assert_eq!(q.2, 595);
    assert_eq!(q.3, 595 / 2);
    assert_eq!(q.0, 0);
    // A page too tall is shrunk to the page height.
    let r = place_page(960, 96000);
    assert_eq!(r.3, 842);
    assert_eq!(r.1, 0);
    assert!(r.2 <= 595);
}

#[test]
fn export_reencodes_every_page_into_the_canonical_format() {
    let img = image::DynamicImage::ImageRgb8(image::RgbImage::from_pixel(
        8,
        4,
        image::Rgb([120u8, 10u8, 200u8]),
    ));
    let mut jpeg: Vec<u8> = Vec::new();
    img.write_to(&mut Cursor::new(&mut jpeg), image::ImageFormat::Jpeg)
        .expect("jpeg encoding");
    let plan = plan_export(&vec![jpeg]).expect("plan");
    assert_eq!(
        doc_manager::codec::detect_format(&plan[0].bytes),
        doc_manager::codec::SourceFormat::Png
    );
    assert_eq!((plan[0].width_px, plan[0].height_px), (8, 4));
}
