//! Size-targeted image and document compressor.
//!
//! Raw JPEG/PNG image bytes or a PDF are re-encoded to minimize byte size
//! while honoring a quality and target-size budget, optionally downscaling
//! and compositing transparency onto a background color.

pub mod util;
pub mod text;
pub mod codec;
pub mod classify;
pub mod search;
pub mod pdf;
pub mod raster;

pub use crate::codec::{encode_jpeg_rgba, encode_png_rgba};
pub use crate::pdf::compress_pdf_images;

use vstd::prelude::*;
use vstd::slice::slice_to_vec;

use crate::classify::{
    input_kind, is_pdf, resolve_out_mode, spec_input_kind, spec_is_pdf, spec_resolve_out_mode,
};
use crate::codec::{encode_png_with_quality, spec_encode_jpeg_rgba, spec_encode_png_with_quality};
use crate::pdf::compress_pdf_to_target;
use crate::raster::{decoded_rgba_of, image_decode_rgba, image_resize_rgba, resized_rgba_of};
use crate::pdf::spec_compress_pdf_post;
use crate::search::{
    compress_jpeg_to_target, compress_png_to_target, spec_jpeg_at, spec_png_at,
    spec_search_result,
};
use crate::text::{lower_of, str_eq, to_lower};
use crate::util::{lemma_scale_to_max_side_bounds, scale_to_max_side, spec_clamp, spec_scale_to_max_side};

verus! {

/// Output byte buffer plus the resolved output mode tag.
pub struct CompressionResult {
    pub bytes: Vec<u8>,
    pub out_mode: String,
}

impl CompressionResult {
    fn new(bytes: Vec<u8>, out_mode: String) -> (r: Self)
        ensures
            r.bytes == bytes,
            r.out_mode == out_mode,
    {
        Self { bytes, out_mode }
    }

    pub fn bytes(&self) -> (r: Vec<u8>)
        ensures
            r@ == self.bytes@,
    {
        slice_to_vec(self.bytes.as_slice())
    }

    pub fn out_mode(&self) -> (r: String)
        ensures
            r@ == self.out_mode@,
    {
        self.out_mode.clone()
    }
}

/// The one hard failure: raster input that cannot be decoded.
#[derive(Debug)]
pub struct CompressError {
    pub message: String,
}

impl CompressError {
    pub fn message(&self) -> (r: String)
        ensures
            r@ == self.message@,
    {
        self.message.clone()
    }
}

/// The output mode `compress_file` resolves: MIME type and extension are
/// lowercased before classification, PDF input is detected with the
/// magic-byte fallback, and the transparency override applies.
pub open spec fn spec_resolved_mode(
    mime: Seq<char>,
    ext: Seq<char>,
    sel: Seq<char>,
    bytes: Seq<u8>,
    bg_transparent: bool,
) -> Seq<char> {
    spec_resolve_out_mode(
        lower_of(mime),
        lower_of(ext),
        sel,
        spec_is_pdf(lower_of(mime), lower_of(ext), bytes),
        bg_transparent,
    )
}

/// The byte budget a kilobyte target translates to, saturated at the 32-bit
/// boundary as the caller-facing argument is.
pub open spec fn spec_target_bytes(target_kb: u32) -> int {
    if target_kb * 1024 > 0xffffffff {
        0xffffffff
    } else {
        target_kb * 1024
    }
}

/// The working buffer of the raster pipeline: the decoded buffer, downscaled
/// when a positive `max_side` demands it, together with its dimensions and
/// whether resampling happened.
pub open spec fn spec_raster_buffer(w: u32, h: u32, raw: Seq<u8>, max_side: u32) -> (
    u32,
    u32,
    Seq<u8>,
    bool,
) {
    let dims = spec_scale_to_max_side(w, h, max_side);
    if (dims.0 != w || dims.1 != h) && w >= 1 && h >= 1 {
        (dims.0, dims.1, resized_rgba_of(raw, w, h, dims.0, dims.1), true)
    } else {
        (w, h, raw, false)
    }
}

/// The PDF arm of the pipeline: rewrite directly, or through the target-size
/// search when a byte budget is set, and tag the result.
fn pdf_entry(bytes: Vec<u8>, quality: u8, preset: u8, target_bytes: usize) -> (c:
    CompressionResult)
    ensures
        c.out_mode@ == "pdf"@,
        target_bytes == 0 ==> spec_compress_pdf_post(bytes@, c.bytes@, quality, preset),
        target_bytes > 0 ==> exists|q: u8|
            1 <= q <= spec_clamp(quality as int, 1, 100) && #[trigger] spec_compress_pdf_post(
                bytes@,
                c.bytes@,
                q,
                preset,
            ),
{
    let ghost bv = bytes@;
    if target_bytes > 0 {
        let out = compress_pdf_to_target(bytes, quality, preset, target_bytes);
        let ghost ob = out@;
        let c = CompressionResult::new(out, "pdf".to_owned());
        proof {
            let q0 = choose|q: u8|
                1 <= q <= spec_clamp(quality as int, 1, 100) && #[trigger] spec_compress_pdf_post(
                    bv,
                    ob,
                    q,
                    preset,
                );
            assert(c.bytes@ == ob);
            assert(spec_compress_pdf_post(bv, c.bytes@, q0, preset));
        }
        c
    } else {
        let out = compress_pdf_images(bytes, quality, preset);
        let ghost ob = out@;
        let c = CompressionResult::new(out, "pdf".to_owned());
        proof {
            assert(c.bytes@ == ob);
            assert(spec_compress_pdf_post(bv, c.bytes@, quality, preset));
        }
        c
    }
}

/// Compress one in-memory file: classify the input, then either rewrite it
/// as a PDF or run the raster pipeline (decode, downscale, composite,
/// encode), delegating to the target-size search when a byte budget is set.
///
/// Empty input yields an empty result tagged `jpeg`; undecodable raster
/// input is the only error; every PDF-path anomaly degrades to returning the
/// best available bytes.
#[verifier::rlimit(100)]
#[verifier::spinoff_prover]
pub fn compress_file(
    bytes: Vec<u8>,
    mime: String,
    ext: String,
    out_mode_sel: String,
    quality: u8,
    preset: u8,
    max_side: u32,
    target_kb: u32,
    bg_r: u8,
    bg_g: u8,
    bg_b: u8,
    png_mode: String,
    png_max_colors: u16,
    png_dither: bool,
    png_force_quant: bool,
    bg_transparent: bool,
) -> (r: Result<CompressionResult, CompressError>)
    ensures
        bytes@.len() == 0 ==> (r matches Ok(c) && c.bytes@.len() == 0 && c.out_mode@ == "jpeg"@),
        ({
            let resolved = spec_resolved_mode(mime@, ext@, out_mode_sel@, bytes@, bg_transparent);
            bytes@.len() > 0 && resolved == "pdf"@ ==> (r matches Ok(c) && c.out_mode@ == "pdf"@)
        }),
        ({
            let resolved = spec_resolved_mode(mime@, ext@, out_mode_sel@, bytes@, bg_transparent);
            bytes@.len() > 0 && resolved != "pdf"@ ==> ((r is Err) <==> decoded_rgba_of(
                bytes@,
            ) is None)
        }),
        r matches Err(e) ==> e.message@.len() >= 14 && e.message@.subrange(0, 14)
            == "Decode failed:"@,
        ({
            let resolved = spec_resolved_mode(mime@, ext@, out_mode_sel@, bytes@, bg_transparent);
            bytes@.len() > 0 && resolved != "pdf"@ ==> (r matches Ok(c) ==> c.out_mode@ == (
            if resolved == "png"@ {
                "png"@
            } else {
                "jpeg"@
            }))
        }),
        ({
            let resolved = spec_resolved_mode(mime@, ext@, out_mode_sel@, bytes@, bg_transparent);
            let kind = spec_input_kind(lower_of(mime@), lower_of(ext@));
            bytes@.len() > 0 && resolved != "pdf"@ && resolved == "png"@ && target_kb == 0 ==> (
            r matches Ok(c)
                ==> (decoded_rgba_of(bytes@) matches Some(d) ==> {
                let rb = spec_raster_buffer(d.0, d.1, d.2, max_side);
                let enc_png = spec_encode_png_with_quality(
                    rb.2,
                    rb.0,
                    rb.1,
                    quality,
                    preset,
                    lower_of(png_mode@),
                    png_max_colors,
                    png_dither,
                    png_force_quant,
                );
                c.bytes@ == (if !rb.3 && kind == "png"@ && enc_png.len() >= bytes@.len() {
                    bytes@
                } else {
                    enc_png
                })
            }))
        }),
        ({
            let resolved = spec_resolved_mode(mime@, ext@, out_mode_sel@, bytes@, bg_transparent);
            let kind = spec_input_kind(lower_of(mime@), lower_of(ext@));
            bytes@.len() > 0 && resolved != "pdf"@ && resolved != "png"@ && target_kb == 0 ==> (
            r matches Ok(c) ==> (decoded_rgba_of(bytes@) matches Some(d) ==> {
                let rb = spec_raster_buffer(d.0, d.1, d.2, max_side);
                let enc_jpg = spec_encode_jpeg_rgba(
                    rb.0,
                    rb.1,
                    rb.2,
                    quality,
                    preset,
                    bg_r,
                    bg_g,
                    bg_b,
                );
                c.bytes@ == (if !rb.3 && kind == "jpeg"@ && enc_jpg.len() >= bytes@.len() {
                    bytes@
                } else {
                    enc_jpg
                })
            }))
        }),
        ({
            let resolved = spec_resolved_mode(mime@, ext@, out_mode_sel@, bytes@, bg_transparent);
            bytes@.len() > 0 && resolved != "pdf"@ && resolved == "png"@ && target_kb > 0 ==> (
            r matches Ok(c)
                ==> (decoded_rgba_of(bytes@) matches Some(d) ==> {
                let rb = spec_raster_buffer(d.0, d.1, d.2, max_side);
                c.bytes@ == spec_search_result(
                    (|q: u8|
                        spec_png_at(
                            rb.2,
                            rb.0,
                            rb.1,
                            preset,
                            lower_of(png_mode@),
                            png_max_colors,
                            png_dither,
                            png_force_quant,
                            q,
                        )),
                    quality,
                    spec_target_bytes(target_kb),
                )
            }))
        }),
        ({
            let resolved = spec_resolved_mode(mime@, ext@, out_mode_sel@, bytes@, bg_transparent);
            bytes@.len() > 0 && resolved != "pdf"@ && resolved != "png"@ && target_kb > 0 ==> (
            r matches Ok(c) ==> (decoded_rgba_of(bytes@) matches Some(d) ==> {
                let rb = spec_raster_buffer(d.0, d.1, d.2, max_side);
                c.bytes@ == spec_search_result(
                    (|q: u8| spec_jpeg_at(rb.2, rb.0, rb.1, preset, bg_r, bg_g, bg_b, q)),
                    quality,
                    spec_target_bytes(target_kb),
                )
            }))
        }),
        ({
            let resolved = spec_resolved_mode(mime@, ext@, out_mode_sel@, bytes@, bg_transparent);
            let mq = spec_clamp(quality as int, 1, 100) as u8;
            bytes@.len() > 0 && resolved != "pdf"@ && resolved == "png"@ && target_kb > 0 ==> (
            r matches Ok(c)
                ==> (decoded_rgba_of(bytes@) matches Some(d) ==> {
                let rb = spec_raster_buffer(d.0, d.1, d.2, max_side);
                exists|q: u8|
                    1 <= q <= mq && c.bytes@ == #[trigger] spec_png_at(
                        rb.2,
                        rb.0,
                        rb.1,
                        preset,
                        lower_of(png_mode@),
                        png_max_colors,
                        png_dither,
                        png_force_quant,
                        q,
                    )
            }))
        }),
        ({
            let resolved = spec_resolved_mode(mime@, ext@, out_mode_sel@, bytes@, bg_transparent);
            let mq = spec_clamp(quality as int, 1, 100) as u8;
            bytes@.len() > 0 && resolved != "pdf"@ && resolved != "png"@ && target_kb > 0 ==> (
            r matches Ok(c) ==> (decoded_rgba_of(bytes@) matches Some(d) ==> {
                let rb = spec_raster_buffer(d.0, d.1, d.2, max_side);
                exists|q: u8|
                    1 <= q <= mq && c.bytes@ == #[trigger] spec_jpeg_at(
                        rb.2,
                        rb.0,
                        rb.1,
                        preset,
                        bg_r,
                        bg_g,
                        bg_b,
                        q,
                    )
            }))
        }),
        ({
            let resolved = spec_resolved_mode(mime@, ext@, out_mode_sel@, bytes@, bg_transparent);
            bytes@.len() > 0 && resolved == "pdf"@ && target_kb == 0 ==> (r matches Ok(c)
                ==> spec_compress_pdf_post(bytes@, c.bytes@, quality, preset))
        }),
        ({
            let resolved = spec_resolved_mode(mime@, ext@, out_mode_sel@, bytes@, bg_transparent);
            bytes@.len() > 0 && resolved == "pdf"@ && target_kb > 0 ==> (r matches Ok(c)
                ==> exists|q: u8|
                1 <= q <= spec_clamp(quality as int, 1, 100) && #[trigger] spec_compress_pdf_post(
                    bytes@,
                    c.bytes@,
                    q,
                    preset,
                ))
        }),
{
    if bytes.len() == 0 {
        return Ok(CompressionResult::new(Vec::new(), "jpeg".to_owned()));
    }
    let orig_len: usize = bytes.len();
    let mime_l = to_lower(mime.as_str());
    let ext_l = to_lower(ext.as_str());
    let kind = input_kind(mime_l.as_str(), ext_l.as_str());
    let is_pdf_input = is_pdf(mime_l.as_str(), ext_l.as_str(), bytes.as_slice());
    let out_mode = resolve_out_mode(
        mime_l.as_str(),
        ext_l.as_str(),
        out_mode_sel.as_str(),
        is_pdf_input,
        bg_transparent,
    );

    let tk64: u64 = (target_kb as u64) * 1024;
    let t32: u32 = if tk64 > 0xffffffffu64 {
        0xffffffffu32
    } else {
        tk64 as u32
    };
    let target_bytes: usize = t32 as usize;

    if str_eq(out_mode.as_str(), "pdf") {
        return Ok(pdf_entry(bytes, quality, preset, target_bytes));
    }

    let decoded = match image_decode_rgba(bytes.as_slice()) {
        Ok(t) => t,
        Err(message) => {
            return Err(CompressError { message });
        },
    };
    let w: u32 = decoded.0;
    let h: u32 = decoded.1;
    let raw: Vec<u8> = decoded.2;
    let dims = scale_to_max_side(w, h, max_side);
    let new_w: u32 = dims.0;
    let new_h: u32 = dims.1;
    let do_resize = (new_w != w || new_h != h) && w >= 1 && h >= 1;
    let mut bw: u32 = w;
    let mut bh: u32 = h;
    let mut resized = false;
    let raw_len: usize = raw.len();
    let buf: Vec<u8> = if do_resize {
        proof {
            assert(raw@.len() == raw_len);
            assert(max_side >= 1);
            lemma_scale_to_max_side_bounds(w, h, max_side);
            assert(new_w as int * new_h as int <= w as int * h as int) by (nonlinear_arith)
                requires
                    0 <= new_w as int <= w as int,
                    0 <= new_h as int <= h as int,
            ;
            assert(new_w as int * new_h as int * 4 <= w as int * h as int * 4);
            assert(w as int * h as int * 4 == raw@.len());
        }
        bw = new_w;
        bh = new_h;
        resized = true;
        image_resize_rgba(raw, w, h, new_w, new_h)
    } else {
        raw
    };

    if str_eq(out_mode.as_str(), "png") {
        let png_mode_l = to_lower(png_mode.as_str());
        let enc = if target_bytes > 0 {
            let e = compress_png_to_target(
                buf.as_slice(),
                bw,
                bh,
                preset,
                png_mode_l.as_str(),
                png_max_colors,
                png_dither,
                png_force_quant,
                quality,
                target_bytes,
            );
            proof {
                let dd = decoded_rgba_of(bytes@)->Some_0;
                let rb = spec_raster_buffer(dd.0, dd.1, dd.2, max_side);
                assert(rb.0 == bw && rb.1 == bh && rb.2 == buf@);
                let mqg = spec_clamp(quality as int, 1, 100) as u8;
                let q0 = choose|q: u8|
                    1 <= q <= mqg && e@ == #[trigger] spec_png_at(
                        buf@,
                        bw,
                        bh,
                        preset,
                        png_mode_l@,
                        png_max_colors,
                        png_dither,
                        png_force_quant,
                        q,
                    );
                assert(e@ == spec_png_at(
                    rb.2,
                    rb.0,
                    rb.1,
                    preset,
                    lower_of(png_mode@),
                    png_max_colors,
                    png_dither,
                    png_force_quant,
                    q0,
                ));
            }
            e
        } else {
            encode_png_with_quality(
                buf.as_slice(),
                bw,
                bh,
                quality,
                preset,
                png_mode_l.as_str(),
                png_max_colors,
                png_dither,
                png_force_quant,
            )
        };
        if target_bytes == 0 && !resized && str_eq(kind, "png") && enc.len() >= orig_len {
            return Ok(CompressionResult::new(bytes, "png".to_owned()));
        }
        return Ok(CompressionResult::new(enc, "png".to_owned()));
    }

    let enc = if target_bytes > 0 {
        let e = compress_jpeg_to_target(
            buf.as_slice(),
            bw,
            bh,
            preset,
            bg_r,
            bg_g,
            bg_b,
            quality,
            target_bytes,
        );
        proof {
            let dd = decoded_rgba_of(bytes@)->Some_0;
            let rb = spec_raster_buffer(dd.0, dd.1, dd.2, max_side);
            assert(rb.0 == bw && rb.1 == bh && rb.2 == buf@);
            let mqg = spec_clamp(quality as int, 1, 100) as u8;
            let q0 = choose|q: u8|
                1 <= q <= mqg && e@ == #[trigger] spec_jpeg_at(
                    buf@,
                    bw,
                    bh,
                    preset,
                    bg_r,
                    bg_g,
                    bg_b,
                    q,
                );
            assert(e@ == spec_jpeg_at(rb.2, rb.0, rb.1, preset, bg_r, bg_g, bg_b, q0));
        }
        e
    } else {
        encode_jpeg_rgba(bw, bh, buf, quality, preset, bg_r, bg_g, bg_b)
    };
    if target_bytes == 0 && !resized && str_eq(kind, "jpeg") && enc.len() >= orig_len {
        return Ok(CompressionResult::new(bytes, "jpeg".to_owned()));
    }
    Ok(CompressionResult::new(enc, "jpeg".to_owned()))
}

} // verus!
