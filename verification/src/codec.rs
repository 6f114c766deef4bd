//! Single-shot encoders: RGBA buffers become JPEG bytes (with background
//! compositing) or PNG bytes (with optional palette quantization), through
//! the underlying pixel encoders.

use vstd::prelude::*;
use vstd::slice::slice_to_vec;
use crate::util::{clamp_u8, clamp_u16, spec_clamp, spec_blend_channel, blend_channel, lemma_mul3_index};
use crate::text::str_eq;

verus! {

/// What `pixo::jpeg::encode` returns for an RGB buffer with the options
/// derived from these arguments; the result depends on the arguments alone.
pub uninterp spec fn jpeg_encoding_of(
    rgb: Seq<u8>,
    width: u32,
    height: u32,
    quality: u8,
    preset: u8,
) -> Seq<u8>;

/// What `pixo::png::encode` returns for an RGBA buffer with the options
/// derived from these arguments (the empty sequence when the encoder rejects
/// the input); the result depends on the arguments alone.
pub uninterp spec fn png_encoding_of(
    rgba: Seq<u8>,
    width: u32,
    height: u32,
    preset: u8,
    lossless: bool,
    max_colors: u16,
    dithering: bool,
    force_quant: bool,
) -> Seq<u8>;

/// Relies on pixo::jpeg::encode: deterministic JPEG encoding. For quality in
/// 1..=100, dimensions in 1..=65535 and an exactly sized RGB buffer its
/// validation passes, it always succeeds, and the output begins with the
/// JPEG start-of-image marker 0xFF 0xD8.
#[verifier::external_body]
pub(crate) fn pixo_encode_jpeg(rgb: &Vec<u8>, width: u32, height: u32, quality: u8, preset: u8) -> (r: Vec<
    u8,
>)
    requires
        1 <= quality <= 100,
        1 <= width <= 65535,
        1 <= height <= 65535,
        rgb@.len() == width as int * height as int * 3,
    ensures
        r@ == jpeg_encoding_of(rgb@, width, height, quality, preset),
        r@.len() >= 2,
        r@[0] == 0xffu8,
        r@[1] == 0xd8u8,
{
    let mut opts = pixo::jpeg::JpegOptions::from_preset(width, height, quality, preset);
    opts.color_type = pixo::ColorType::Rgb;
    pixo::jpeg::encode(rgb, &opts).unwrap_or_default()
}

/// Relies on pixo::png::encode: deterministic PNG encoding; it returns an
/// error (mapped here to the empty buffer) whenever the buffer length is not
/// exactly width*height*4 or a dimension is zero. In lossless mode the
/// quantization arguments never reach the encoder, so the result equals the
/// one at the canonical values 256/false/false.
#[verifier::external_body]
fn pixo_encode_png(
    rgba: &Vec<u8>,
    width: u32,
    height: u32,
    preset: u8,
    lossless: bool,
    max_colors: u16,
    dithering: bool,
    force_quant: bool,
) -> (r: Vec<u8>)
    requires
        preset <= 2,
        1 <= max_colors <= 256,
    ensures
        r@ == png_encoding_of(rgba@, width, height, preset, lossless, max_colors, dithering, force_quant),
        rgba@.len() != width as int * height as int * 4 ==> r@.len() == 0,
        width == 0 || height == 0 ==> r@.len() == 0,
        lossless ==> r@ == png_encoding_of(rgba@, width, height, preset, true, 256u16, false, false),
{
    let mut opts = pixo::png::PngOptions::from_preset_with_lossless(width, height, preset, lossless);
    opts.color_type = pixo::ColorType::Rgba;
    if !lossless {
        opts.quantization.mode = if force_quant {
            pixo::png::QuantizationMode::Force
        } else {
            pixo::png::QuantizationMode::Auto
        };
        opts.quantization.max_colors = max_colors;
        opts.quantization.dithering = dithering;
    }
    pixo::png::encode(rgba, &opts).unwrap_or_default()
}

/// One composited channel: an opaque pixel keeps its value, a fully
/// transparent one takes the background, anything between is blended.
pub open spec fn spec_blend_or_copy(src: u8, a: u8, bg: u8) -> u8 {
    if a == 255 {
        src
    } else if a == 0 {
        bg
    } else {
        spec_blend_channel(src, a, bg) as u8
    }
}

pub open spec fn spec_bg_channel(bg_r: u8, bg_g: u8, bg_b: u8, c: int) -> u8 {
    if c == 0 {
        bg_r
    } else if c == 1 {
        bg_g
    } else {
        bg_b
    }
}

/// The RGB buffer that compositing an RGBA buffer of `px` pixels onto the
/// given background produces.
pub open spec fn spec_composite_rgb(rgba: Seq<u8>, px: int, bg_r: u8, bg_g: u8, bg_b: u8) -> Seq<
    u8,
> {
    Seq::new(
        (3 * px) as nat,
        |j: int|
            spec_blend_or_copy(
                rgba[4 * (j / 3) + (j % 3)],
                rgba[4 * (j / 3) + 3],
                spec_bg_channel(bg_r, bg_g, bg_b, j % 3),
            ),
    )
}

/// The bytes `encode_jpeg_rgba` returns: empty for an undersized or
/// zero-area buffer (and for dimensions beyond the encoder's limit),
/// otherwise the JPEG encoding of the composited RGB buffer at clamped
/// quality and preset.
pub open spec fn spec_encode_jpeg_rgba(
    width: u32,
    height: u32,
    rgba: Seq<u8>,
    quality: u8,
    preset: u8,
    bg_r: u8,
    bg_g: u8,
    bg_b: u8,
) -> Seq<u8> {
    let px = width as int * height as int;
    if px == 0 || rgba.len() < px * 4 || width > 65535 || height > 65535 {
        Seq::empty()
    } else {
        jpeg_encoding_of(
            spec_composite_rgb(rgba, px, bg_r, bg_g, bg_b),
            width,
            height,
            spec_clamp(quality as int, 1, 100) as u8,
            spec_clamp(preset as int, 0, 2) as u8,
        )
    }
}

/// Encode RGBA pixels into a JPEG, compositing any transparency onto the
/// given background color. An undersized or zero-area buffer yields an empty
/// result; a valid one yields bytes beginning with the JPEG start-of-image
/// marker.
pub fn encode_jpeg_rgba(
    width: u32,
    height: u32,
    rgba: Vec<u8>,
    quality: u8,
    preset: u8,
    bg_r: u8,
    bg_g: u8,
    bg_b: u8,
) -> (r: Vec<u8>)
    ensures
        r@ == spec_encode_jpeg_rgba(width, height, rgba@, quality, preset, bg_r, bg_g, bg_b),
        (width as int * height as int == 0 || rgba@.len() < width as int * height as int * 4)
            ==> r@.len() == 0,
        (width as int * height as int > 0 && rgba@.len() >= width as int * height as int * 4
            && width <= 65535 && height <= 65535) ==> r@.len() >= 2 && r@[0] == 0xffu8 && r@[1]
            == 0xd8u8,
{
    if width == 0 || height == 0 || width > 65535 || height > 65535 {
        return Vec::new();
    }
    proof {
        assert(width as int * height as int <= 65535 * 65535) by (nonlinear_arith)
            requires width as int <= 65535 && height as int <= 65535,
        ;
    }
    let px: usize = (width as usize) * (height as usize);
    proof {
        assert(px > 0) by (nonlinear_arith)
            requires width as int > 0 && height as int > 0 && px == width as int * height as int,
        ;
    }
    let rl: usize = rgba.len();
    if rl / 4 < px {
        proof {
            vstd::arithmetic::div_mod::lemma_fundamental_div_mod(rl as int, 4);
        }
        return Vec::new();
    }
    proof {
        vstd::arithmetic::div_mod::lemma_fundamental_div_mod(rl as int, 4);
    }
    let ghost comp = spec_composite_rgb(rgba@, px as int, bg_r, bg_g, bg_b);
    let mut rgb: Vec<u8> = Vec::new();
    let mut i: usize = 0;
    while i < px
        invariant
            rl == rgba@.len(),
            px * 4 <= rl,
            0 <= i <= px,
            rgb@.len() == 3 * i,
            comp == spec_composite_rgb(rgba@, px as int, bg_r, bg_g, bg_b),
            comp.len() == 3 * px,
            forall|j: int| 0 <= j < 3 * i ==> rgb@[j] == comp[j],
        decreases px - i,
    {
        let r0 = rgba[i * 4];
        let g0 = rgba[i * 4 + 1];
        let b0 = rgba[i * 4 + 2];
        let a0 = rgba[i * 4 + 3];
        if a0 == 255 {
            rgb.push(r0);
            rgb.push(g0);
            rgb.push(b0);
        } else if a0 == 0 {
            rgb.push(bg_r);
            rgb.push(bg_g);
            rgb.push(bg_b);
        } else {
            rgb.push(blend_channel(r0, a0, bg_r));
            rgb.push(blend_channel(g0, a0, bg_g));
            rgb.push(blend_channel(b0, a0, bg_b));
        }
        proof {
            lemma_mul3_index(i as int, 0);
            lemma_mul3_index(i as int, 1);
            lemma_mul3_index(i as int, 2);
            assert(rgb@[3 * i as int] == comp[3 * i as int]);
            assert(rgb@[3 * i as int + 1] == comp[3 * i as int + 1]);
            assert(rgb@[3 * i as int + 2] == comp[3 * i as int + 2]);
        }
        i += 1;
    }
    proof {
        assert(rgb@ =~= comp);
    }
    let q = clamp_u8(quality, 1, 100);
    let p = clamp_u8(preset, 0, 2);
    pixo_encode_jpeg(&rgb, width, height, q, p)
}

/// The bytes `encode_png_rgba` returns: empty for an undersized or zero-area
/// buffer, otherwise the PNG encoding of the RGBA buffer at clamped preset
/// and palette size.
pub open spec fn spec_encode_png_rgba(
    width: u32,
    height: u32,
    rgba: Seq<u8>,
    preset: u8,
    lossless: bool,
    max_colors: u16,
    dithering: bool,
    force_quant: bool,
) -> Seq<u8> {
    let px = width as int * height as int;
    if px == 0 || rgba.len() < px * 4 {
        Seq::empty()
    } else {
        png_encoding_of(
            rgba,
            width,
            height,
            spec_clamp(preset as int, 0, 2) as u8,
            lossless,
            spec_clamp(max_colors as int, 1, 256) as u16,
            dithering,
            force_quant,
        )
    }
}

/// Encode RGBA pixels into a PNG. With `lossless` set the full RGBA data is
/// kept; otherwise palette quantization is enabled (forced or automatic)
/// with a clamped palette size bound. An undersized or zero-area buffer
/// yields an empty result.
pub fn encode_png_rgba(
    width: u32,
    height: u32,
    rgba: Vec<u8>,
    preset: u8,
    lossless: bool,
    max_colors: u16,
    dithering: bool,
    force_quant: bool,
) -> (r: Vec<u8>)
    ensures
        r@ == spec_encode_png_rgba(width, height, rgba@, preset, lossless, max_colors, dithering, force_quant),
        (width as int * height as int == 0 || rgba@.len() < width as int * height as int * 4)
            ==> r@.len() == 0,
        lossless ==> r@ == spec_encode_png_rgba(width, height, rgba@, preset, true, 256u16, false, false),
{
    if width == 0 || height == 0 {
        proof {
            assert(width as int * height as int == 0) by (nonlinear_arith)
                requires width == 0 || height == 0,
            ;
        }
        let r: Vec<u8> = Vec::new();
        proof {
            assert(r@ =~= Seq::<u8>::empty());
        }
        return r;
    }
    let rl: usize = rgba.len();
    let px_opt = (width as usize).checked_mul(height as usize);
    let px: usize = match px_opt {
        Some(v) => v,
        None => {
            // the pixel count does not even fit in memory, so the buffer is
            // certainly undersized
            proof {
                let wh = width as int * height as int;
                assert(wh > usize::MAX as int);
                assert(wh <= wh * 4) by (nonlinear_arith)
                    requires wh >= 0,
                ;
                assert(rl < wh * 4);
            }
            return Vec::new();
        },
    };
    proof {
        assert(px > 0) by (nonlinear_arith)
            requires width as int > 0 && height as int > 0 && px == width as int * height as int,
        ;
    }
    if rl / 4 < px {
        proof {
            vstd::arithmetic::div_mod::lemma_fundamental_div_mod(rl as int, 4);
        }
        return Vec::new();
    }
    proof {
        vstd::arithmetic::div_mod::lemma_fundamental_div_mod(rl as int, 4);
    }
    let p = clamp_u8(preset, 0, 2);
    let mc = clamp_u16(max_colors, 1, 256);
    pixo_encode_png(&rgba, width, height, p, lossless, mc, dithering, force_quant)
}

/// Palette size that the automatic PNG mode derives from a quality level:
/// `round(8 + level/100 * 248)` in exact integer arithmetic.
pub open spec fn spec_colors_from_level(level: int) -> int {
    (248 * level + 850) / 100
}

/// The bytes `encode_png_with_quality` returns: the quality scalar and the
/// `png_mode` selector are translated into concrete PNG options — lossless
/// mode bypasses quantization, automatic mode derives the palette size from
/// the level and enables dithering at low levels and forced quantization
/// below level 90, and any other mode uses the caller-supplied values.
pub open spec fn spec_encode_png_with_quality(
    rgba: Seq<u8>,
    width: u32,
    height: u32,
    quality: u8,
    preset: u8,
    png_mode: Seq<char>,
    png_max_colors: u16,
    png_dither: bool,
    png_force_quant: bool,
) -> Seq<u8> {
    let level = spec_clamp(quality as int, 1, 100);
    if png_mode == "lossless"@ {
        spec_encode_png_rgba(width, height, rgba, preset, true, png_max_colors, png_dither, png_force_quant)
    } else if png_mode == "auto"@ {
        spec_encode_png_rgba(
            width,
            height,
            rgba,
            preset,
            false,
            spec_colors_from_level(level) as u16,
            level <= 50,
            level < 90,
        )
    } else {
        spec_encode_png_rgba(width, height, rgba, preset, false, png_max_colors, png_dither, png_force_quant)
    }
}

/// Palette size for the automatic PNG mode: the quality level mapped
/// linearly onto [10, 256].
pub fn colors_from_level(level: u8) -> (r: u16)
    requires
        1 <= level <= 100,
    ensures
        r == spec_colors_from_level(level as int),
        10 <= r <= 256,
{
    ((248u32 * (level as u32) + 850) / 100) as u16
}

/// Map a perceptual quality scalar and a PNG mode selector onto concrete PNG
/// options and encode.
pub fn encode_png_with_quality(
    rgba: &[u8],
    width: u32,
    height: u32,
    quality: u8,
    preset: u8,
    png_mode: &str,
    png_max_colors: u16,
    png_dither: bool,
    png_force_quant: bool,
) -> (r: Vec<u8>)
    ensures
        r@ == spec_encode_png_with_quality(
            rgba@,
            width,
            height,
            quality,
            preset,
            png_mode@,
            png_max_colors,
            png_dither,
            png_force_quant,
        ),
{
    let auto_level: u8 = clamp_u8(quality, 1, 100);
    let level_colors: u16 = colors_from_level(auto_level);
    if str_eq(png_mode, "lossless") {
        encode_png_rgba(
            width,
            height,
            slice_to_vec(rgba),
            preset,
            true,
            png_max_colors,
            png_dither,
            png_force_quant,
        )
    } else if str_eq(png_mode, "auto") {
        encode_png_rgba(
            width,
            height,
            slice_to_vec(rgba),
            preset,
            false,
            level_colors,
            auto_level <= 50,
            auto_level < 90,
        )
    } else {
        encode_png_rgba(
            width,
            height,
            slice_to_vec(rgba),
            preset,
            false,
            png_max_colors,
            png_dither,
            png_force_quant,
        )
    }
}

} // verus!
