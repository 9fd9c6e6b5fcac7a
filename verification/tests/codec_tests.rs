use std::io::Cursor;

use doc_manager::codec::detect_format;
use doc_manager::codec::normalize_to_storage_format;
use doc_manager::codec::compress_storage;
use doc_manager::codec::compress_export;
use doc_manager::codec::dimensions;
use doc_manager::codec::placeholder_png;
use doc_manager::codec::SourceFormat;

fn sample_jpeg(w: u32, h: u32) -> Vec<u8> {
    let img = image::DynamicImage::ImageRgb8(image::RgbImage::from_pixel(
        w,
        h,
        image::Rgb([10u8, 200u8, 30u8]),
    ));
    let mut out: Vec<u8> = Vec::new();
    img.write_to(&mut Cursor::new(&mut out), image::ImageFormat::Jpeg)
        .expect("jpeg encoding");
    out
}

fn sample_png(w: u32, h: u32) -> Vec<u8> {
    let img = image::DynamicImage::ImageRgb8(image::RgbImage::from_pixel(
        w,
        h,
        image::Rgb([50u8, 60u8, 70u8]),
    ));
    let mut out: Vec<u8> = Vec::new();
    img.write_to(&mut Cursor::new(&mut out), image::ImageFormat::Png)
        .expect("png encoding");
    out
}

#[test]
fn detects_formats_by_magic() {
    assert_eq!(detect_format(&sample_png(2, 2)), SourceFormat::Png);
    assert_eq!(detect_format(&sample_jpeg(2, 2)), SourceFormat::Jpeg);
    let mut webp = vec![0x52, 0x49, 0x46, 0x46, 0, 0, 0, 0, 0x57, 0x45, 0x42, 0x50];
    webp.push(0);
    assert_eq!(detect_format(&webp), SourceFormat::Webp);
    let pdf = vec![0x25, 0x50, 0x44, 0x46, 0x2d, 0x31];
    assert_eq!(detect_format(&pdf), SourceFormat::Pdf);
    assert_eq!(detect_format(&vec![1, 2, 3]), SourceFormat::Unknown);
}

#[test]
fn placeholder_is_a_png() {
    let p = placeholder_png();
    assert_eq!(&p[0..8], &[0x89, 0x50, 0x4e, 0x47, 0x0d, 0x0a, 0x1a, 0x0a]);
    let img = image::load_from_memory(&p).expect("placeholder must decode");
    assert_eq!(img.width(), 1);
    assert_eq!(img.height(), 1);
}

#[test]
fn normalize_converts_jpeg_to_png_and_keeps_dimensions() {
    let jpeg = sample_jpeg(5, 3);
    let out = normalize_to_storage_format(jpeg.clone());
    assert_ne!(out, jpeg);
    assert_eq!(detect_format(&out), SourceFormat::Png);
    let img = image::load_from_memory(&out).expect("normalized output must decode");
    assert_eq!((img.width(), img.height()), (5, 3));
}

#[test]
fn normalize_passes_canonical_input_through_unchanged() {
    let png = sample_png(4, 6);
    let out = normalize_to_storage_format(png.clone());
    assert_eq!(out, png);
}

#[test]
fn normalize_substitutes_placeholder_for_corrupt_input() {
    let corrupt = vec![0u8, 1, 2, 3, 4, 5];
    let out = normalize_to_storage_format(corrupt);
    assert_eq!(out, placeholder_png());
}

#[test]
fn compress_then_decode_keeps_pixel_dimensions() {
    let png = sample_png(9, 7);
    let small = compress_storage(png.clone());
    assert_eq!(detect_format(&small), SourceFormat::Png);
    let img = image::load_from_memory(&small).expect("compressed output must decode");
    assert_eq!((img.width(), img.height()), (9, 7));

    let export = compress_export(png);
    let img2 = image::load_from_memory(&export).expect("export output must decode");
    assert_eq!((img2.width(), img2.height()), (9, 7));
}

#[test]
fn dimensions_reports_decoded_size() {
    let png = sample_png(11, 2);
    assert_eq!(dimensions(&png).unwrap(), (11, 2));
    assert!(dimensions(&vec![9u8, 9, 9]).is_err());
}

#[test]
fn storage_compression_shrinks_a_plain_png() {
    let png = sample_png(200, 200);
    let small = compress_storage(png.clone());
    assert!(small.len() < png.len());
    let lossy = compress_export(png.clone());
    assert!(lossy.len() < png.len());
}

#[test]
fn compression_really_compresses_rather_than_substituting() {
    let png = sample_png(64, 32);
    let stored = compress_storage(png.clone());
    assert_ne!(stored, placeholder_png());
    let img = image::load_from_memory(&stored).expect("stored bytes decode");
    assert_eq!((img.width(), img.height()), (64, 32));
    let exported = compress_export(png);
    assert_ne!(exported, placeholder_png());
}

#[test]
fn storage_compression_is_repeatable() {
    let png = sample_png(33, 17);
    let a = compress_storage(png.clone());
    let b = compress_storage(png);
    assert_eq!(a, b);
}
