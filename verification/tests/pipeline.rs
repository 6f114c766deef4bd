use sizepress::codec::{encode_png_rgba, encode_png_with_quality};
use sizepress::compress_file;
use sizepress::pdf::compress_pdf_images;

fn transparent_png_10x10() -> Vec<u8> {
    let rgba = vec![0u8; 10 * 10 * 4];
    let png = encode_png_rgba(10, 10, rgba, 0, true, 256, false, false);
    assert_eq!(&png[0..4], &[0x89, b'P', b'N', b'G']);
    png
}

#[test]
fn empty_input_yields_empty_jpeg_result() {
    let r = compress_file(
        Vec::new(),
        "image/png".to_string(),
        "png".to_string(),
        "auto".to_string(),
        80,
        1,
        0,
        0,
        255,
        255,
        255,
        "auto".to_string(),
        256,
        false,
        false,
        false,
    )
    .unwrap();
    assert!(r.bytes().is_empty());
    assert_eq!(r.out_mode(), "jpeg");
}

#[test]
fn transparent_background_forces_png_output() {
    let png = transparent_png_10x10();
    let r = compress_file(
        png,
        "image/png".to_string(),
        "png".to_string(),
        "auto".to_string(),
        80,
        0,
        0,
        0,
        255,
        255,
        255,
        "auto".to_string(),
        256,
        false,
        false,
        true,
    )
    .unwrap();
    assert_eq!(r.out_mode(), "png");
}

#[test]
fn pdf_magic_overrides_explicit_jpeg_selection() {
    let bytes = b"%PDF-1.4 not really parseable".to_vec();
    let r = compress_file(
        bytes.clone(),
        String::new(),
        String::new(),
        "jpeg".to_string(),
        80,
        1,
        0,
        0,
        255,
        255,
        255,
        "auto".to_string(),
        256,
        false,
        false,
        false,
    )
    .unwrap();
    assert_eq!(r.out_mode(), "pdf");
    // unparsable PDF input passes through unchanged
    assert_eq!(r.bytes(), bytes);
}

#[test]
fn uppercase_mime_is_lowercased_before_classification() {
    let png = transparent_png_10x10();
    let r = compress_file(
        png,
        "IMAGE/PNG".to_string(),
        "PNG".to_string(),
        "auto".to_string(),
        80,
        0,
        0,
        0,
        255,
        255,
        255,
        "lossless".to_string(),
        256,
        false,
        false,
        false,
    )
    .unwrap();
    assert_eq!(r.out_mode(), "png");
}

#[test]
fn undecodable_raster_input_is_the_only_error() {
    let r = compress_file(
        b"this is not an image".to_vec(),
        "image/png".to_string(),
        "png".to_string(),
        "auto".to_string(),
        80,
        1,
        0,
        0,
        255,
        255,
        255,
        "auto".to_string(),
        256,
        false,
        false,
        false,
    );
    let err = r.err().expect("decode must fail");
    assert!(err.message().starts_with("Decode failed"));
}

#[test]
fn max_side_downscales_the_output() {
    // a 100x100 gradient PNG, compressed with max_side 50, decodes to 50x50
    let mut rgba = Vec::with_capacity(100 * 100 * 4);
    for y in 0..100u32 {
        for x in 0..100u32 {
            rgba.push((x * 2) as u8);
            rgba.push((y * 2) as u8);
            rgba.push(128);
            rgba.push(255);
        }
    }
    let png = encode_png_rgba(100, 100, rgba, 0, true, 256, false, false);
    let r = compress_file(
        png,
        "image/png".to_string(),
        "png".to_string(),
        "auto".to_string(),
        80,
        0,
        50,
        0,
        255,
        255,
        255,
        "lossless".to_string(),
        256,
        false,
        false,
        false,
    )
    .unwrap();
    assert_eq!(r.out_mode(), "png");
    let img = image::load_from_memory(&r.bytes()).unwrap();
    let rgba_out = img.to_rgba8();
    assert_eq!(rgba_out.dimensions(), (50, 50));
}

#[test]
fn jpeg_output_from_opaque_png_input() {
    let mut rgba = vec![0u8; 20 * 20 * 4];
    for p in rgba.chunks_mut(4) {
        p[0] = 200;
        p[1] = 10;
        p[2] = 10;
        p[3] = 255;
    }
    let png = encode_png_rgba(20, 20, rgba, 0, true, 256, false, false);
    let r = compress_file(
        png,
        "image/png".to_string(),
        "png".to_string(),
        "jpeg".to_string(),
        80,
        1,
        0,
        0,
        255,
        255,
        255,
        "auto".to_string(),
        256,
        false,
        false,
        false,
    )
    .unwrap();
    assert_eq!(r.out_mode(), "jpeg");
    let bytes = r.bytes();
    assert_eq!(&bytes[0..2], &[0xFF, 0xD8]);
}

#[test]
fn png_reencode_fallback_keeps_original_when_not_smaller() {
    let mut rgba = Vec::with_capacity(16 * 16 * 4);
    for y in 0..16u32 {
        for x in 0..16u32 {
            rgba.push((x * 16) as u8);
            rgba.push((y * 16) as u8);
            rgba.push(200);
            rgba.push(255);
        }
    }
    let orig = encode_png_rgba(16, 16, rgba, 2, true, 256, false, false);
    let r = compress_file(
        orig.clone(),
        "image/png".to_string(),
        "png".to_string(),
        "auto".to_string(),
        80,
        0,
        0,
        0,
        255,
        255,
        255,
        "lossless".to_string(),
        256,
        false,
        false,
        false,
    )
    .unwrap();
    assert_eq!(r.out_mode(), "png");
    // the pipeline keeps the original bytes exactly when re-encoding does
    // not shrink them, and otherwise returns the re-encoding
    let decoded = image::load_from_memory(&orig).unwrap().to_rgba8();
    let (w, h) = decoded.dimensions();
    let raw = decoded.into_raw();
    let enc = encode_png_with_quality(&raw, w, h, 80, 0, "lossless", 256, false, false);
    let expect = if enc.len() >= orig.len() { orig.clone() } else { enc };
    assert_eq!(r.bytes(), expect);
}

#[test]
fn target_budget_never_enlarges_the_jpeg_output() {
    let mut rgba = Vec::with_capacity(64 * 64 * 4);
    for y in 0..64u32 {
        for x in 0..64u32 {
            rgba.push((x * 4) as u8);
            rgba.push((y * 4) as u8);
            rgba.push(((x + y) % 256) as u8);
            rgba.push(255);
        }
    }
    let png = encode_png_rgba(64, 64, rgba, 0, true, 256, false, false);
    let args = |target_kb: u32| {
        compress_file(
            png.clone(),
            "image/png".to_string(),
            "png".to_string(),
            "jpeg".to_string(),
            80,
            0,
            0,
            target_kb,
            255,
            255,
            255,
            "auto".to_string(),
            256,
            false,
            false,
            false,
        )
        .unwrap()
    };
    let unbudgeted = args(0);
    let budgeted = args(1);
    assert_eq!(budgeted.out_mode(), "jpeg");
    let out = budgeted.bytes();
    assert!(!out.is_empty());
    assert_eq!(&out[0..2], &[0xFF, 0xD8]);
    assert!(out.len() <= unbudgeted.bytes().len());
}

#[test]
fn target_budget_drives_pdf_path_on_empty_input_gracefully() {
    let out = compress_pdf_images(Vec::new(), 80, 1);
    assert!(out.is_empty());
}
