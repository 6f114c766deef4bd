use sizepress::classify::{choose_out_mode, input_kind, is_pdf};
use sizepress::codec::{colors_from_level, encode_jpeg_rgba, encode_png_rgba, encode_png_with_quality};
use sizepress::search::{compress_jpeg_to_target, compress_png_to_target, estimate_quality};
use sizepress::util::{blend_channel, clamp_u16, clamp_u8, scale_to_max_side};

#[test]
fn clamp_basics() {
    assert_eq!(clamp_u8(0, 1, 100), 1);
    assert_eq!(clamp_u8(250, 1, 100), 100);
    assert_eq!(clamp_u8(42, 1, 100), 42);
    assert_eq!(clamp_u16(0, 1, 256), 1);
    assert_eq!(clamp_u16(1000, 1, 256), 256);
    assert_eq!(clamp_u16(77, 1, 256), 77);
}

#[test]
fn blend_extremes_hold_for_all_values() {
    for src in 0..=255u8 {
        for bg in 0..=255u8 {
            assert_eq!(blend_channel(src, 255, bg), src);
            assert_eq!(blend_channel(src, 0, bg), bg);
        }
    }
}

#[test]
fn blend_exact_values() {
    // (200*128 + 100*127 + 127) / 255 = (25600 + 12700 + 127) / 255 = 150
    assert_eq!(blend_channel(200, 128, 100), 150);
    // (10*1 + 250*254 + 127) / 255 = 63637 / 255 = 249
    assert_eq!(blend_channel(10, 1, 250), 249);
}

#[test]
fn scale_zero_max_side_is_identity() {
    assert_eq!(scale_to_max_side(0, 0, 0), (0, 0));
    assert_eq!(scale_to_max_side(1920, 1080, 0), (1920, 1080));
    assert_eq!(scale_to_max_side(u32::MAX, 1, 0), (u32::MAX, 1));
}

#[test]
fn scale_respects_bound_and_stays_positive() {
    let cases = [(1920u32, 1080u32, 800u32), (1080, 1920, 800), (10000, 1, 100), (1, 10000, 100), (500, 500, 499)];
    for (w, h, ms) in cases {
        let (nw, nh) = scale_to_max_side(w, h, ms);
        assert!(nw.max(nh) <= ms, "{w}x{h} -> {nw}x{nh} bound {ms}");
        assert!(nw >= 1 && nh >= 1);
    }
    // no upscaling when everything already fits
    assert_eq!(scale_to_max_side(100, 50, 200), (100, 50));
}

#[test]
fn scale_exact_rounding() {
    // 1920x1080 to 800: 1080 * 800 / 1920 = 450 exactly
    assert_eq!(scale_to_max_side(1920, 1080, 800), (800, 450));
    // 3x2 to 2: round(3*2/3)=2, round(2*2/3)=round(1.33)=1
    assert_eq!(scale_to_max_side(3, 2, 2), (2, 1));
    // extreme aspect ratio floors at 1
    assert_eq!(scale_to_max_side(10000, 1, 100), (100, 1));
}

#[test]
fn input_kind_cases() {
    assert_eq!(input_kind("application/pdf", ""), "pdf");
    assert_eq!(input_kind("", "pdf"), "pdf");
    assert_eq!(input_kind("image/png", "bin"), "png");
    assert_eq!(input_kind("", "png"), "png");
    assert_eq!(input_kind("image/jpeg", ""), "jpeg");
    assert_eq!(input_kind("image/jpg", ""), "jpeg");
    assert_eq!(input_kind("", "jpg"), "jpeg");
    assert_eq!(input_kind("", "jpeg"), "jpeg");
    assert_eq!(input_kind("application/octet-stream", "bin"), "unknown");
    // MIME beats extension
    assert_eq!(input_kind("application/pdf", "png"), "pdf");
}

#[test]
fn is_pdf_magic_fallback() {
    assert!(is_pdf("application/pdf", "", b""));
    assert!(is_pdf("", "pdf", b""));
    assert!(is_pdf("", "", b"%PDF-1.7 rest"));
    assert!(!is_pdf("", "", b"%PD"));
    assert!(!is_pdf("image/png", "png", b"\x89PNG"));
}

#[test]
fn choose_out_mode_cases() {
    assert_eq!(choose_out_mode("image/png", "png", "jpeg"), "jpeg");
    assert_eq!(choose_out_mode("image/png", "", "auto"), "png");
    assert_eq!(choose_out_mode("application/pdf", "", "auto"), "pdf");
    assert_eq!(choose_out_mode("", "", "auto"), "jpeg");
    // an explicit selection is honored verbatim, whatever it is
    assert_eq!(choose_out_mode("image/png", "", "webp"), "webp");
}

fn gradient_rgba(w: u32, h: u32) -> Vec<u8> {
    let mut v = Vec::with_capacity((w * h * 4) as usize);
    for y in 0..h {
        for x in 0..w {
            v.push((x * 255 / w.max(1)) as u8);
            v.push((y * 255 / h.max(1)) as u8);
            v.push(((x + y) % 256) as u8);
            v.push(255);
        }
    }
    v
}

#[test]
fn jpeg_of_undersized_buffer_is_empty() {
    for quality in [1u8, 50, 100] {
        let out = encode_jpeg_rgba(10, 10, vec![0u8; 399], quality, 1, 255, 255, 255);
        assert!(out.is_empty());
        let out = encode_jpeg_rgba(10, 10, Vec::new(), quality, 1, 0, 0, 0);
        assert!(out.is_empty());
        let out = encode_jpeg_rgba(0, 10, vec![0u8; 400], quality, 1, 0, 0, 0);
        assert!(out.is_empty());
    }
}

#[test]
fn png_of_undersized_buffer_is_empty() {
    let out = encode_png_rgba(10, 10, vec![0u8; 399], 1, true, 256, false, false);
    assert!(out.is_empty());
    let out = encode_png_rgba(10, 0, vec![0u8; 400], 1, false, 256, true, true);
    assert!(out.is_empty());
}

#[test]
fn opaque_buffer_encodes_to_jpeg_with_soi_marker() {
    let rgba = vec![255u8; 100 * 100 * 4];
    let out = encode_jpeg_rgba(100, 100, rgba, 80, 1, 255, 255, 255);
    assert!(!out.is_empty());
    assert_eq!(out[0], 0xFF);
    assert_eq!(out[1], 0xD8);
}

#[test]
fn png_encodes_with_signature() {
    let rgba = gradient_rgba(16, 16);
    let out = encode_png_rgba(16, 16, rgba.clone(), 0, true, 256, false, false);
    assert_eq!(&out[0..4], &[0x89, b'P', b'N', b'G']);
    let lossy = encode_png_rgba(16, 16, rgba, 0, false, 16, true, true);
    assert_eq!(&lossy[0..4], &[0x89, b'P', b'N', b'G']);
}

#[test]
fn png_quality_modes_encode() {
    let rgba = gradient_rgba(16, 16);
    let lossless = encode_png_with_quality(&rgba, 16, 16, 80, 0, "lossless", 256, false, false);
    assert_eq!(&lossless[0..4], &[0x89, b'P', b'N', b'G']);
    let auto_low = encode_png_with_quality(&rgba, 16, 16, 10, 0, "auto", 256, false, false);
    assert_eq!(&auto_low[0..4], &[0x89, b'P', b'N', b'G']);
    let manual = encode_png_with_quality(&rgba, 16, 16, 80, 0, "manual", 8, true, true);
    assert_eq!(&manual[0..4], &[0x89, b'P', b'N', b'G']);
}

#[test]
fn palette_size_formula_exact_values() {
    // round(8 + level/100 * 248) in integer arithmetic
    assert_eq!(colors_from_level(1), 10);
    assert_eq!(colors_from_level(50), 132);
    assert_eq!(colors_from_level(90), 231);
    assert_eq!(colors_from_level(100), 256);
}

#[test]
fn estimate_quality_exact_values() {
    // max_quality * fifth_root(ratio_scaled^3), biased and divided by 251,
    // clamped to [1, max_quality]
    assert_eq!(estimate_quality(80, 1000, 500), 53);
    assert_eq!(estimate_quality(80, 1000, 999), 80);
    assert_eq!(estimate_quality(80, 1000, 10), 13);
    assert_eq!(estimate_quality(100, 1000, 1000), 100);
    assert_eq!(estimate_quality(50, 2000, 100), 8);
}

#[test]
fn estimate_quality_stays_in_range() {
    assert_eq!(estimate_quality(80, 0, 1000), 80);
    assert_eq!(estimate_quality(80, 1000, 0), 80);
    for (cur, tgt) in [(1000usize, 10usize), (1000, 500), (1000, 999), (10, 1000)] {
        let e = estimate_quality(80, cur, tgt);
        assert!(e >= 1 && e <= 80, "estimate {e} for {cur}/{tgt}");
    }
}

#[test]
fn jpeg_search_returns_max_quality_encode_when_it_fits() {
    let rgba = gradient_rgba(64, 64);
    let full = encode_jpeg_rgba(64, 64, rgba.clone(), 80, 0, 255, 255, 255);
    let got = compress_jpeg_to_target(&rgba, 64, 64, 0, 255, 255, 255, 80, full.len() * 10);
    assert_eq!(got, full);
}

#[test]
fn jpeg_search_meets_achievable_budget() {
    let rgba = gradient_rgba(64, 64);
    let low = encode_jpeg_rgba(64, 64, rgba.clone(), 10, 0, 255, 255, 255);
    let full = encode_jpeg_rgba(64, 64, rgba.clone(), 80, 0, 255, 255, 255);
    assert!(low.len() < full.len());
    let got = compress_jpeg_to_target(&rgba, 64, 64, 0, 255, 255, 255, 80, low.len());
    assert!(got.len() <= low.len(), "{} > {}", got.len(), low.len());
    assert_eq!(&got[0..2], &[0xFF, 0xD8]);
}

#[test]
fn png_search_returns_max_quality_encode_when_it_fits() {
    let rgba = gradient_rgba(32, 32);
    let full = encode_png_with_quality(&rgba, 32, 32, 80, 0, "auto", 256, false, false);
    let got = compress_png_to_target(&rgba, 32, 32, 0, "auto", 256, false, false, 80, full.len() * 10);
    assert_eq!(got, full);
}

#[test]
fn png_search_never_exceeds_single_shot_size() {
    let rgba = gradient_rgba(32, 32);
    let full = encode_png_with_quality(&rgba, 32, 32, 80, 0, "auto", 256, false, false);
    let got = compress_png_to_target(&rgba, 32, 32, 0, "auto", 256, false, false, 80, 1);
    assert!(!got.is_empty());
    assert!(got.len() <= full.len());
    assert_eq!(&got[0..4], &[0x89, b'P', b'N', b'G']);
}

#[test]
fn jpeg_search_degrades_to_smallest_when_budget_unreachable() {
    let rgba = gradient_rgba(64, 64);
    let full = encode_jpeg_rgba(64, 64, rgba.clone(), 80, 0, 255, 255, 255);
    let got = compress_jpeg_to_target(&rgba, 64, 64, 0, 255, 255, 255, 80, 1);
    assert!(!got.is_empty());
    assert!(got.len() <= full.len());
    assert_eq!(&got[0..2], &[0xFF, 0xD8]);
}
