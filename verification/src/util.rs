//! Integer clamping, rounding alpha blend, and proportional
//! resize-to-max-side geometry.

use vstd::prelude::*;

verus! {

pub open spec fn spec_clamp(v: int, lo: int, hi: int) -> int {
    if v < lo {
        lo
    } else if v > hi {
        hi
    } else {
        v
    }
}

pub fn clamp_u8(v: u8, lo: u8, hi: u8) -> (r: u8)
    ensures
        r == spec_clamp(v as int, lo as int, hi as int),
{
    if v < lo {
        lo
    } else if v > hi {
        hi
    } else {
        v
    }
}

pub fn clamp_u16(v: u16, lo: u16, hi: u16) -> (r: u16)
    ensures
        r == spec_clamp(v as int, lo as int, hi as int),
{
    if v < lo {
        lo
    } else if v > hi {
        hi
    } else {
        v
    }
}

/// Blend of one channel of a partially transparent pixel onto a solid
/// background: `round((src*alpha + bg*(255 - alpha)) / 255)`, computed with a
/// `+127` bias before the division for bit-exact integer rounding.
pub open spec fn spec_blend_channel(src: u8, a: u8, bg: u8) -> int {
    (src * a + bg * (255 - a) + 127) / 255
}

pub fn blend_channel(src: u8, a: u8, bg: u8) -> (r: u8)
    ensures
        r == spec_blend_channel(src, a, bg),
        a == 255 ==> r == src,
        a == 0 ==> r == bg,
{
    let s16: u16 = src as u16;
    let a16: u16 = a as u16;
    let b16: u16 = bg as u16;
    proof {
        assert(s16 * a16 <= 255 * a16) by (nonlinear_arith)
            requires s16 <= 255,
        ;
        assert(b16 * (255 - a16) <= 255 * (255 - a16)) by (nonlinear_arith)
            requires b16 <= 255 && a16 <= 255,
        ;
    }
    let out: u16 = (s16 * a16 + b16 * (255 - a16) + 127) / 255;
    proof {
        if a == 255 {
            assert((s16 * 255 + 127) / 255 == s16);
        }
        if a == 0 {
            assert((b16 * 255 + 127) / 255 == b16);
        }
        assert(out <= 255);
    }
    out as u8
}

/// Nearest-integer rounding of the quotient `a / b` for `b > 0`.
pub open spec fn spec_round_div(a: int, b: int) -> int {
    (2 * a + b) / (2 * b)
}

pub open spec fn spec_max_u32(a: u32, b: u32) -> u32 {
    if a >= b {
        a
    } else {
        b
    }
}

/// Proportional downscale so that the longer side becomes `max_side`:
/// unchanged when `max_side` is zero or nothing exceeds it; otherwise each
/// dimension is scaled by `max_side / max(w, h)`, rounded to the nearest
/// integer and floored at 1.
pub open spec fn spec_scale_to_max_side(w: u32, h: u32, max_side: u32) -> (u32, u32) {
    let m = spec_max_u32(w, h);
    if max_side == 0 || m <= max_side {
        (w, h)
    } else {
        let nw = spec_round_div(w as int * max_side as int, m as int);
        let nh = spec_round_div(h as int * max_side as int, m as int);
        ((if nw < 1 { 1int } else { nw }) as u32, (if nh < 1 { 1int } else { nh }) as u32)
    }
}

proof fn lemma_round_div_le(a: int, b: int, c: int)
    requires
        b > 0,
        a <= c * b,
    ensures
        spec_round_div(a, b) <= c,
{
    assert(2 * a + b <= (2 * b) * c + b) by (nonlinear_arith)
        requires a <= c * b,
    ;
    vstd::arithmetic::div_mod::lemma_div_multiples_vanish_fancy(c, b, 2 * b);
    vstd::arithmetic::div_mod::lemma_div_is_ordered(2 * a + b, (2 * b) * c + b, 2 * b);
}

/// Splitting a flat index of a three-channel buffer into pixel and channel.
pub proof fn lemma_mul3_index(i: int, c: int)
    requires
        0 <= c < 3,
        0 <= i,
    ensures
        (3 * i + c) / 3 == i,
        (3 * i + c) % 3 == c,
{
    vstd::arithmetic::div_mod::lemma_fundamental_div_mod_converse_div(3 * i + c, 3, i, c);
    vstd::arithmetic::div_mod::lemma_fundamental_div_mod_converse_mod(3 * i + c, 3, i, c);
}

pub fn scale_to_max_side(w: u32, h: u32, max_side: u32) -> (r: (u32, u32))
    ensures
        r == spec_scale_to_max_side(w, h, max_side),
{
    if max_side == 0 {
        return (w, h);
    }
    let m: u32 = if w >= h { w } else { h };
    if m <= max_side {
        return (w, h);
    }
    proof {
        assert(w as int * max_side as int >= 0) by (nonlinear_arith);
        assert(h as int * max_side as int >= 0) by (nonlinear_arith);
        assert(w as int * max_side as int <= max_side as int * m as int) by (nonlinear_arith)
            requires w as int <= m as int && max_side as int >= 0,
        ;
        assert(h as int * max_side as int <= max_side as int * m as int) by (nonlinear_arith)
            requires h as int <= m as int && max_side as int >= 0,
        ;
        assert(w as int * max_side as int <= 0xffffffffint * 0xffffffffint) by (nonlinear_arith)
            requires w <= 0xffffffffu32 && max_side <= 0xffffffffu32,
        ;
        assert(h as int * max_side as int <= 0xffffffffint * 0xffffffffint) by (nonlinear_arith)
            requires h <= 0xffffffffu32 && max_side <= 0xffffffffu32,
        ;
        lemma_round_div_le(w as int * max_side as int, m as int, max_side as int);
        lemma_round_div_le(h as int * max_side as int, m as int, max_side as int);
        vstd::arithmetic::div_mod::lemma_div_pos_is_pos(
            2 * (w as int) * (max_side as int) + m as int,
            2 * (m as int),
        );
        vstd::arithmetic::div_mod::lemma_div_pos_is_pos(
            2 * (h as int) * (max_side as int) + m as int,
            2 * (m as int),
        );
    }
    let nw128: u128 = (2 * ((w as u128) * (max_side as u128)) + (m as u128)) / (2 * (m as u128));
    let nh128: u128 = (2 * ((h as u128) * (max_side as u128)) + (m as u128)) / (2 * (m as u128));
    proof {
        assert(nw128 == spec_round_div(w as int * max_side as int, m as int));
        assert(nh128 == spec_round_div(h as int * max_side as int, m as int));
    }
    let nw: u32 = if nw128 < 1 { 1 } else { nw128 as u32 };
    let nh: u32 = if nh128 < 1 { 1 } else { nh128 as u32 };
    (nw, nh)
}

/// For positive inputs and a positive bound, the scaled dimensions never
/// exceed the bound and never degenerate to zero.
pub proof fn lemma_scale_to_max_side_bounds(w: u32, h: u32, max_side: u32)
    requires
        w >= 1,
        h >= 1,
        max_side >= 1,
    ensures
        spec_max_u32(spec_scale_to_max_side(w, h, max_side).0, spec_scale_to_max_side(w, h, max_side).1)
            <= max_side,
        spec_scale_to_max_side(w, h, max_side).0 >= 1,
        spec_scale_to_max_side(w, h, max_side).1 >= 1,
        spec_scale_to_max_side(w, h, max_side).0 <= w,
        spec_scale_to_max_side(w, h, max_side).1 <= h,
{
    let m = spec_max_u32(w, h);
    if m <= max_side {
    } else {
        assert(w as int * max_side as int <= w as int * m as int) by (nonlinear_arith)
            requires max_side as int <= m as int && w as int >= 0,
        ;
        assert(h as int * max_side as int <= h as int * m as int) by (nonlinear_arith)
            requires max_side as int <= m as int && h as int >= 0,
        ;
        lemma_round_div_le(w as int * max_side as int, m as int, w as int);
        lemma_round_div_le(h as int * max_side as int, m as int, h as int);
        assert(w as int * max_side as int <= max_side as int * m as int) by (nonlinear_arith)
            requires w as int <= m as int && max_side as int >= 0,
        ;
        assert(h as int * max_side as int <= max_side as int * m as int) by (nonlinear_arith)
            requires h as int <= m as int && max_side as int >= 0,
        ;
        assert(w as int * max_side as int >= 0) by (nonlinear_arith);
        assert(h as int * max_side as int >= 0) by (nonlinear_arith);
        lemma_round_div_le(w as int * max_side as int, m as int, max_side as int);
        lemma_round_div_le(h as int * max_side as int, m as int, max_side as int);
    }
}

} // verus!
