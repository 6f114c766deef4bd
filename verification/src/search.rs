//! Target-size search: bounded bisection over the quality range that drives
//! a single-shot encoder to converge on a byte budget, with a power-law
//! heuristic seed to reduce iteration count.

use vstd::prelude::*;
use vstd::slice::slice_to_vec;
use crate::util::{clamp_u8, spec_clamp};
use crate::codec::{
    encode_jpeg_rgba, encode_png_with_quality, spec_encode_jpeg_rgba, spec_encode_png_with_quality,
};

verus! {

pub const MIN_TARGET_QUALITY: u8 = 1;

pub open spec fn spec_pow5(x: int) -> int {
    x * x * x * x * x
}

/// The clamped fixed-point ratio of target to current size, in 1/10000ths:
/// 10000 when the target is not below the current size, floored at 500.
pub open spec fn spec_ratio_scaled(current: int, target: int) -> int {
    if target >= current {
        10000
    } else if target * 10000 / current < 500 {
        500
    } else {
        target * 10000 / current
    }
}

/// Largest integer whose fifth power does not exceed `n`.
pub open spec fn spec_fifth_root(n: int) -> int {
    choose|r: int| 0 <= r && #[trigger] spec_pow5(r) <= n && n < spec_pow5(r + 1)
}

/// The exact value the quality heuristic computes.
pub open spec fn spec_estimate_quality(max_quality: u8, current: int, target: int) -> int {
    if current == 0 || target == 0 {
        max_quality as int
    } else {
        let x = spec_ratio_scaled(current, target);
        let root = spec_fifth_root(x * x * x);
        spec_clamp((max_quality as int * root + 125) / 251, 1, max_quality as int)
    }
}

proof fn lemma_pow5_monotone(a: int, b: int)
    requires
        0 <= a <= b,
    ensures
        spec_pow5(a) <= spec_pow5(b),
{
    assert(a * a * a * a * a <= b * b * b * b * b) by (nonlinear_arith)
        requires 0 <= a <= b,
    ;
}

proof fn lemma_fifth_root_pins(n: int, r: int)
    requires
        0 <= r,
        spec_pow5(r) <= n,
        n < spec_pow5(r + 1),
    ensures
        spec_fifth_root(n) == r,
{
    let rc = spec_fifth_root(n);
    assert(0 <= rc && spec_pow5(rc) <= n && n < spec_pow5(rc + 1)) by {
        assert(exists|x: int| 0 <= x && #[trigger] spec_pow5(x) <= n && n < spec_pow5(x + 1)) by {
            assert(0 <= r && spec_pow5(r) <= n && n < spec_pow5(r + 1));
        }
    }
    if rc < r {
        lemma_pow5_monotone(rc + 1, r);
        assert(false);
    }
    if r < rc {
        lemma_pow5_monotone(r + 1, rc);
        assert(false);
    }
}

/// Largest integer whose fifth power does not exceed `n`.
fn fifth_root(n: u64) -> (r: u64)
    requires
        n <= 1_000_000_000_000,
    ensures
        spec_pow5(r as int) <= n as int,
        (n as int) < spec_pow5(r as int + 1),
        r <= 251,
{
    let mut r: u64 = 0;
    loop
        invariant
            spec_pow5(r as int) <= n as int,
            n <= 1_000_000_000_000,
            r <= 251,
        decreases 252 - r,
    {
        let next = r + 1;
        proof {
            assert(next as int * next as int <= 63504) by (nonlinear_arith)
                requires 1 <= next as int <= 252,
            ;
            assert(next as int * next as int * next as int <= 16003008) by (nonlinear_arith)
                requires 1 <= next as int <= 252,
            ;
            assert(next as int * next as int * next as int * next as int <= 4032758016)
                by (nonlinear_arith)
                requires 1 <= next as int <= 252,
            ;
            assert(next as int * next as int * next as int * next as int * next as int
                <= 1016255020032) by (nonlinear_arith)
                requires 1 <= next as int <= 252,
            ;
        }
        let p = next * next * next * next * next;
        if p > n {
            return r;
        }
        proof {
            assert(next <= 251) by (nonlinear_arith)
                requires
                    spec_pow5(next as int) <= 0xE8D4A51000int,
                    next >= 1,
            ;
        }
        r = next;
    }
}

/// Heuristic starting upper bound for the bisection: the quality predicted
/// by the empirical power law `size ~ quality^(1/0.6)`, computed here in
/// fixed-point integer arithmetic as
/// `max_quality * fifth_root(ratio^3)` with the ratio of target to current
/// size scaled to 1/10000ths and clamped to [0.05, 1.0].
///
/// The exact value is tuning, not correctness: callers rely only on the
/// guaranteed range, and any value in it leaves the search correct.
pub fn estimate_quality(max_quality: u8, current_bytes: usize, target_bytes: usize) -> (r: u8)
    requires
        1 <= max_quality <= 100,
    ensures
        r == spec_estimate_quality(max_quality, current_bytes as int, target_bytes as int),
        1 <= r <= max_quality,
        current_bytes == 0 || target_bytes == 0 ==> r == max_quality,
{
    if current_bytes == 0 || target_bytes == 0 {
        return max_quality;
    }
    let ratio_scaled: u64 = if target_bytes >= current_bytes {
        10000
    } else {
        let q128: u128 = (target_bytes as u128) * 10000 / (current_bytes as u128);
        proof {
            assert((target_bytes as int) * 10000 < (current_bytes as int) * 10000) by (nonlinear_arith)
                requires target_bytes < current_bytes,
            ;
            vstd::arithmetic::div_mod::lemma_multiply_divide_lt(
                (target_bytes as int) * 10000,
                current_bytes as int,
                10000,
            );
        }
        let q = q128 as u64;
        if q < 500 {
            500
        } else {
            q
        }
    };
    proof {
        assert(ratio_scaled as int * ratio_scaled as int <= 100000000) by (nonlinear_arith)
            requires 0 <= ratio_scaled as int <= 10000,
        ;
        assert(ratio_scaled as int * ratio_scaled as int * ratio_scaled as int
            <= 0xE8D4A51000int) by (nonlinear_arith)
            requires 0 <= ratio_scaled as int <= 10000,
        ;
    }
    proof {
        assert(ratio_scaled as int == spec_ratio_scaled(current_bytes as int, target_bytes as int));
    }
    let cubed: u64 = ratio_scaled * ratio_scaled * ratio_scaled;
    let root = fifth_root(cubed);
    proof {
        lemma_fifth_root_pins(cubed as int, root as int);
    }
    proof {
        assert((max_quality as int) * (root as int) <= 25100) by (nonlinear_arith)
            requires root as int <= 251 && 0 <= max_quality as int <= 100,
        ;
    }
    let predicted: u64 = ((max_quality as u64) * root + 125) / 251;
    proof {
        assert((max_quality as int) * (root as int) <= (max_quality as int) * 251)
            by (nonlinear_arith)
            requires root as int <= 251 && max_quality as int >= 0,
        ;
        vstd::arithmetic::div_mod::lemma_div_multiples_vanish_fancy(max_quality as int, 125, 251);
        vstd::arithmetic::div_mod::lemma_div_is_ordered(
            (max_quality as int) * (root as int) + 125,
            251 * (max_quality as int) + 125,
            251,
        );
    }
    let predicted_q: u8 = predicted as u8;
    clamp_u8(predicted_q, 1, max_quality)
}

pub open spec fn opt_seq_view(v: Option<Vec<u8>>) -> Option<Seq<u8>> {
    match v {
        Some(b) => Some(b@),
        None => None,
    }
}

/// The bisection from state (lo, hi, iterations, best-under-budget,
/// smallest-seen): at most six probes, each at the midpoint quality; a probe
/// that fits the budget becomes the best-under and the search moves up, one
/// that does not moves the search down and may become the smallest seen;
/// the result is the last best-under, else the smallest seen.
pub open spec fn spec_search_step(
    enc: spec_fn(u8) -> Seq<u8>,
    target: int,
    lo: int,
    hi: int,
    iterations: int,
    best_under: Option<Seq<u8>>,
    smallest: Seq<u8>,
) -> Seq<u8>
    decreases 6 - iterations,
{
    if iterations < 0 || iterations >= 6 || lo > hi {
        match best_under {
            Some(b) => b,
            None => smallest,
        }
    } else {
        let mid = (lo + hi) / 2;
        let out = enc(mid as u8);
        if out.len() <= target {
            spec_search_step(enc, target, mid + 1, hi, iterations + 1, Some(out), smallest)
        } else {
            let smallest2 = if out.len() < smallest.len() {
                out
            } else {
                smallest
            };
            if mid == 0 {
                match best_under {
                    Some(b) => b,
                    None => smallest2,
                }
            } else {
                spec_search_step(enc, target, lo, mid - 1, iterations + 1, best_under, smallest2)
            }
        }
    }
}

/// The encodings the bisection probes from a state, in probing order.
pub open spec fn spec_search_probes(
    enc: spec_fn(u8) -> Seq<u8>,
    target: int,
    lo: int,
    hi: int,
    iterations: int,
) -> Seq<Seq<u8>>
    decreases 6 - iterations,
{
    if iterations < 0 || iterations >= 6 || lo > hi {
        Seq::empty()
    } else {
        let mid = (lo + hi) / 2;
        let out = enc(mid as u8);
        if out.len() <= target {
            seq![out] + spec_search_probes(enc, target, mid + 1, hi, iterations + 1)
        } else {
            if mid == 0 {
                seq![out]
            } else {
                seq![out] + spec_search_probes(enc, target, lo, mid - 1, iterations + 1)
            }
        }
    }
}

/// The whole target-size search over an encoder model: the encoding at the
/// clamped maximum quality is returned directly when it fits; otherwise the
/// bisection runs over [1, heuristic bound] starting from it.
pub open spec fn spec_search_result(
    enc: spec_fn(u8) -> Seq<u8>,
    max_quality: u8,
    target: int,
) -> Seq<u8> {
    let mq = spec_clamp(max_quality as int, 1, 100);
    let best = enc(mq as u8);
    if best.len() <= target {
        best
    } else {
        let est = spec_estimate_quality(mq as u8, best.len() as int, target);
        let hi = if est > 1 && est < mq {
            est
        } else {
            mq
        };
        spec_search_step(enc, target, 1, hi, 0, None::<Seq<u8>>, best)
    }
}

/// The initial encoding together with every probed one.
pub open spec fn spec_search_all_probes(
    enc: spec_fn(u8) -> Seq<u8>,
    max_quality: u8,
    target: int,
) -> Seq<Seq<u8>> {
    let mq = spec_clamp(max_quality as int, 1, 100);
    let best = enc(mq as u8);
    if best.len() <= target {
        seq![best]
    } else {
        let est = spec_estimate_quality(mq as u8, best.len() as int, target);
        let hi = if est > 1 && est < mq {
            est
        } else {
            mq
        };
        seq![best] + spec_search_probes(enc, target, 1, hi, 0)
    }
}

proof fn lemma_search_step_outcome(
    enc: spec_fn(u8) -> Seq<u8>,
    target: int,
    lo: int,
    hi: int,
    iterations: int,
    best_under: Option<Seq<u8>>,
    smallest: Seq<u8>,
)
    requires
        best_under matches Some(b) ==> b.len() <= target,
    ensures
        ({
            let r = spec_search_step(enc, target, lo, hi, iterations, best_under, smallest);
            let ps = spec_search_probes(enc, target, lo, hi, iterations);
            &&& best_under is Some ==> r.len() <= target
            &&& (exists|i: int| 0 <= i < ps.len() && #[trigger] ps[i].len() <= target) ==> r.len()
                <= target
            &&& (best_under is None && (forall|i: int|
                0 <= i < ps.len() ==> #[trigger] ps[i].len() > target)) ==> ((r == smallest
                || exists|i: int| 0 <= i < ps.len() && r == #[trigger] ps[i]) && r.len()
                <= smallest.len() && (forall|i: int|
                0 <= i < ps.len() ==> r.len() <= #[trigger] ps[i].len()))
        }),
    decreases 6 - iterations,
{
    let r = spec_search_step(enc, target, lo, hi, iterations, best_under, smallest);
    let ps = spec_search_probes(enc, target, lo, hi, iterations);
    if iterations < 0 || iterations >= 6 || lo > hi {
    } else {
        let mid = (lo + hi) / 2;
        let out = enc(mid as u8);
        if out.len() <= target {
            let ps2 = spec_search_probes(enc, target, mid + 1, hi, iterations + 1);
            assert(ps == seq![out] + ps2);
            lemma_search_step_outcome(
                enc,
                target,
                mid + 1,
                hi,
                iterations + 1,
                Some(out),
                smallest,
            );
            assert(r.len() <= target);
            assert(ps[0] == out);
        } else {
            let smallest2 = if out.len() < smallest.len() {
                out
            } else {
                smallest
            };
            if mid == 0 {
                assert(ps =~= seq![out]);
                assert(ps[0] == out);
            } else {
                let ps2 = spec_search_probes(enc, target, lo, mid - 1, iterations + 1);
                assert(ps == seq![out] + ps2);
                assert(ps[0] == out);
                assert(ps.len() == 1 + ps2.len());
                assert(forall|i: int| 1 <= i < ps.len() ==> ps[i] == #[trigger] ps2[i - 1]);
                lemma_search_step_outcome(
                    enc,
                    target,
                    lo,
                    mid - 1,
                    iterations + 1,
                    best_under,
                    smallest2,
                );
                if exists|i: int| 0 <= i < ps.len() && #[trigger] ps[i].len() <= target {
                    let i = choose|i: int| 0 <= i < ps.len() && #[trigger] ps[i].len() <= target;
                    assert(i >= 1);
                    assert(ps2[i - 1].len() <= target);
                    assert(r.len() <= target);
                }
                if best_under is None && (forall|i: int|
                    0 <= i < ps.len() ==> #[trigger] ps[i].len() > target) {
                    assert forall|i: int| 0 <= i < ps2.len() implies #[trigger] ps2[i].len()
                        > target by {
                        assert(ps2[i] == ps[i + 1]);
                    }
                    assert(r == smallest2 || exists|i: int|
                        0 <= i < ps2.len() && r == #[trigger] ps2[i]);
                    if r == smallest2 {
                        assert(r == smallest || r == out);
                    } else {
                        let i = choose|i: int| 0 <= i < ps2.len() && r == #[trigger] ps2[i];
                        assert(r == ps[i + 1]);
                    }
                    assert(r.len() <= smallest2.len());
                    assert(forall|i: int| 0 <= i < ps.len() ==> r.len() <= #[trigger] ps[i].len())
                        by {
                        assert(forall|i: int|
                            1 <= i < ps.len() ==> ps[i] == #[trigger] ps2[i - 1]);
                        assert(r.len() <= out.len());
                    }
                }
            }
        }
    }
}

/// Budget compliance of the bounded search, over any encoder model: whenever
/// the encoding at the clamped maximum quality or any encoding the bisection
/// probes fits the budget, the search result fits it; when none does, the
/// result is one of those encodings and no probed encoding is smaller.
pub proof fn lemma_search_result_outcome(
    enc: spec_fn(u8) -> Seq<u8>,
    max_quality: u8,
    target: int,
)
    ensures
        ({
            let r = spec_search_result(enc, max_quality, target);
            let ps = spec_search_all_probes(enc, max_quality, target);
            &&& ps.len() >= 1
            &&& (exists|i: int| 0 <= i < ps.len() && #[trigger] ps[i].len() <= target) ==> r.len()
                <= target
            &&& (forall|i: int| 0 <= i < ps.len() ==> #[trigger] ps[i].len() > target) ==> ((
            exists|i: int| 0 <= i < ps.len() && r == #[trigger] ps[i]) && (forall|i: int|
                0 <= i < ps.len() ==> r.len() <= #[trigger] ps[i].len()))
        }),
{
    let mq = spec_clamp(max_quality as int, 1, 100);
    let best = enc(mq as u8);
    let r = spec_search_result(enc, max_quality, target);
    let ps = spec_search_all_probes(enc, max_quality, target);
    if best.len() <= target {
        assert(ps =~= seq![best]);
        assert(ps[0] == best);
    } else {
        let est = spec_estimate_quality(mq as u8, best.len() as int, target);
        let hi = if est > 1 && est < mq {
            est
        } else {
            mq
        };
        let ps2 = spec_search_probes(enc, target, 1, hi, 0);
        assert(ps == seq![best] + ps2);
        assert(ps[0] == best);
        assert(ps.len() == 1 + ps2.len());
        assert(forall|i: int| 1 <= i < ps.len() ==> ps[i] == #[trigger] ps2[i - 1]);
        lemma_search_step_outcome(enc, target, 1, hi, 0, None::<Seq<u8>>, best);
        if exists|i: int| 0 <= i < ps.len() && #[trigger] ps[i].len() <= target {
            let i = choose|i: int| 0 <= i < ps.len() && #[trigger] ps[i].len() <= target;
            assert(i >= 1);
            assert(ps2[i - 1].len() <= target);
            assert(r.len() <= target);
        }
        if forall|i: int| 0 <= i < ps.len() ==> #[trigger] ps[i].len() > target {
            assert forall|i: int| 0 <= i < ps2.len() implies #[trigger] ps2[i].len() > target by {
                assert(ps2[i] == ps[i + 1]);
            }
            assert(r == best || exists|i: int| 0 <= i < ps2.len() && r == #[trigger] ps2[i]);
            if r != best {
                let i = choose|i: int| 0 <= i < ps2.len() && r == #[trigger] ps2[i];
                assert(r == ps[i + 1]);
            }
            assert(forall|i: int| 0 <= i < ps.len() ==> r.len() <= #[trigger] ps[i].len()) by {
                assert(forall|i: int| 1 <= i < ps.len() ==> ps[i] == #[trigger] ps2[i - 1]);
                assert(r.len() <= best.len());
            }
        }
    }
}

/// The JPEG encoding the search probes at quality `q`.
pub open spec fn spec_jpeg_at(
    rgba: Seq<u8>,
    width: u32,
    height: u32,
    preset: u8,
    bg_r: u8,
    bg_g: u8,
    bg_b: u8,
    q: u8,
) -> Seq<u8> {
    spec_encode_jpeg_rgba(width, height, rgba, q, preset, bg_r, bg_g, bg_b)
}

/// Bounded bisection for JPEG output: find the highest quality not above
/// `max_quality` whose encoding fits `target_bytes`, preferring to stay
/// under budget; when no probed quality fits, degrade to the smallest
/// encoding seen rather than fail.
///
/// The result is always an actual encoding at some quality in range, it is
/// returned directly when the encoding at (clamped) `max_quality` already
/// fits, and it is never larger than that encoding.
pub fn compress_jpeg_to_target(
    rgba: &[u8],
    width: u32,
    height: u32,
    preset: u8,
    bg_r: u8,
    bg_g: u8,
    bg_b: u8,
    max_quality: u8,
    target_bytes: usize,
) -> (r: Vec<u8>)
    ensures
        ({
            let mq = spec_clamp(max_quality as int, 1, 100) as u8;
            &&& exists|q: u8|
                1 <= q <= mq && r@ == #[trigger] spec_jpeg_at(
                    rgba@,
                    width,
                    height,
                    preset,
                    bg_r,
                    bg_g,
                    bg_b,
                    q,
                )
            &&& spec_jpeg_at(rgba@, width, height, preset, bg_r, bg_g, bg_b, mq).len()
                <= target_bytes ==> r@ == spec_jpeg_at(
                rgba@,
                width,
                height,
                preset,
                bg_r,
                bg_g,
                bg_b,
                mq,
            )
            &&& r@.len() <= spec_jpeg_at(rgba@, width, height, preset, bg_r, bg_g, bg_b, mq).len()
            &&& r@ == spec_search_result(
                (|q: u8| spec_jpeg_at(rgba@, width, height, preset, bg_r, bg_g, bg_b, q)),
                max_quality,
                target_bytes as int,
            )
        }),
{
    let ghost encf: spec_fn(u8) -> Seq<u8> = (|q: u8|
        spec_jpeg_at(rgba@, width, height, preset, bg_r, bg_g, bg_b, q));
    let mq = clamp_u8(max_quality, 1, 100);
    let min_quality = if MIN_TARGET_QUALITY < mq {
        MIN_TARGET_QUALITY
    } else {
        mq
    };
    let best = encode_jpeg_rgba(width, height, slice_to_vec(rgba), mq, preset, bg_r, bg_g, bg_b);
    proof {
        assert(best@ == spec_jpeg_at(rgba@, width, height, preset, bg_r, bg_g, bg_b, mq));
        assert(encf(mq) == best@);
    }
    if best.len() <= target_bytes {
        return best;
    }
    let mut lo: u8 = min_quality;
    let mut hi: u8 = mq;
    let mut best_under: Option<Vec<u8>> = None;
    let mut smallest: Vec<u8> = best;

    let estimate = estimate_quality(mq, smallest.len(), target_bytes);
    if estimate > min_quality && estimate < mq {
        hi = estimate;
    }
    let ghost mres = spec_search_result(encf, max_quality, target_bytes as int);
    proof {
        assert(mres == spec_search_step(
            encf,
            target_bytes as int,
            1,
            hi as int,
            0,
            None::<Seq<u8>>,
            smallest@,
        ));
    }

    let mut iterations: u8 = 0;
    while lo <= hi && iterations < 6
        invariant
            1 <= min_quality <= mq <= 100,
            lo >= min_quality,
            hi <= mq,
            iterations <= 6,
            exists|q: u8|
                1 <= q <= mq && smallest@ == #[trigger] spec_jpeg_at(
                    rgba@,
                    width,
                    height,
                    preset,
                    bg_r,
                    bg_g,
                    bg_b,
                    q,
                ),
            smallest@.len() <= spec_jpeg_at(rgba@, width, height, preset, bg_r, bg_g, bg_b, mq).len(),
            best_under is Some ==> exists|q: u8|
                1 <= q <= mq && best_under->Some_0@ == #[trigger] spec_jpeg_at(
                    rgba@,
                    width,
                    height,
                    preset,
                    bg_r,
                    bg_g,
                    bg_b,
                    q,
                ) && best_under->Some_0@.len() <= target_bytes,
            encf == (|q: u8| spec_jpeg_at(rgba@, width, height, preset, bg_r, bg_g, bg_b, q)),
            mres == spec_search_result(encf, max_quality, target_bytes as int),
            mres == spec_search_step(
                encf,
                target_bytes as int,
                lo as int,
                hi as int,
                iterations as int,
                opt_seq_view(best_under),
                smallest@,
            ),
        decreases 6 - iterations,
    {
        let mid: u16 = (lo as u16 + hi as u16) / 2;
        let mid_q: u8 = mid as u8;
        proof {
            assert(lo <= mid <= hi);
        }
        let out = encode_jpeg_rgba(
            width,
            height,
            slice_to_vec(rgba),
            mid_q,
            preset,
            bg_r,
            bg_g,
            bg_b,
        );
        proof {
            assert(out@ == spec_jpeg_at(rgba@, width, height, preset, bg_r, bg_g, bg_b, mid_q));
        }
        if out.len() <= target_bytes {
            best_under = Some(out);
            lo = if mid_q == 255 {
                255
            } else {
                mid_q + 1
            };
        } else {
            if out.len() < smallest.len() {
                smallest = out;
            }
            hi = mid_q - 1;
        }
        iterations += 1;
    }
    proof {
        reveal_with_fuel(spec_search_step, 2);
        assert(spec_search_step(
            encf,
            target_bytes as int,
            lo as int,
            hi as int,
            iterations as int,
            opt_seq_view(best_under),
            smallest@,
        ) == (match opt_seq_view(best_under) {
            Some(b) => b,
            None => smallest@,
        }));
    }
    match best_under {
        Some(b) => {
            proof {
                assert(b@ == mres);
            }
            b
        },
        None => smallest,
    }
}

/// The PNG encoding the search probes at quality `q`.
pub open spec fn spec_png_at(
    rgba: Seq<u8>,
    width: u32,
    height: u32,
    preset: u8,
    png_mode: Seq<char>,
    png_max_colors: u16,
    png_dither: bool,
    png_force_quant: bool,
    q: u8,
) -> Seq<u8> {
    spec_encode_png_with_quality(
        rgba,
        width,
        height,
        q,
        preset,
        png_mode,
        png_max_colors,
        png_dither,
        png_force_quant,
    )
}

/// Bounded bisection for PNG output, over the perceptual quality scalar that
/// `encode_png_with_quality` translates into quantization options; same
/// search shape and guarantees as the JPEG search.
pub fn compress_png_to_target(
    rgba: &[u8],
    width: u32,
    height: u32,
    preset: u8,
    png_mode: &str,
    png_max_colors: u16,
    png_dither: bool,
    png_force_quant: bool,
    max_quality: u8,
    target_bytes: usize,
) -> (r: Vec<u8>)
    ensures
        ({
            let mq = spec_clamp(max_quality as int, 1, 100) as u8;
            &&& exists|q: u8|
                1 <= q <= mq && r@ == #[trigger] spec_png_at(
                    rgba@,
                    width,
                    height,
                    preset,
                    png_mode@,
                    png_max_colors,
                    png_dither,
                    png_force_quant,
                    q,
                )
            &&& spec_png_at(
                rgba@,
                width,
                height,
                preset,
                png_mode@,
                png_max_colors,
                png_dither,
                png_force_quant,
                mq,
            ).len() <= target_bytes ==> r@ == spec_png_at(
                rgba@,
                width,
                height,
                preset,
                png_mode@,
                png_max_colors,
                png_dither,
                png_force_quant,
                mq,
            )
            &&& r@.len() <= spec_png_at(
                rgba@,
                width,
                height,
                preset,
                png_mode@,
                png_max_colors,
                png_dither,
                png_force_quant,
                mq,
            ).len()
            &&& r@ == spec_search_result(
                (|q: u8|
                    spec_png_at(
                        rgba@,
                        width,
                        height,
                        preset,
                        png_mode@,
                        png_max_colors,
                        png_dither,
                        png_force_quant,
                        q,
                    )),
                max_quality,
                target_bytes as int,
            )
        }),
{
    let ghost encf: spec_fn(u8) -> Seq<u8> = (|q: u8|
        spec_png_at(
            rgba@,
            width,
            height,
            preset,
            png_mode@,
            png_max_colors,
            png_dither,
            png_force_quant,
            q,
        ));
    let mq = clamp_u8(max_quality, 1, 100);
    let min_quality = if MIN_TARGET_QUALITY < mq {
        MIN_TARGET_QUALITY
    } else {
        mq
    };
    let best = encode_png_with_quality(
        rgba,
        width,
        height,
        mq,
        preset,
        png_mode,
        png_max_colors,
        png_dither,
        png_force_quant,
    );
    proof {
        assert(best@ == spec_png_at(
            rgba@, width, height, preset, png_mode@, png_max_colors, png_dither, png_force_quant, mq));
        assert(encf(mq) == best@);
    }
    if best.len() <= target_bytes {
        return best;
    }
    let mut lo: u8 = min_quality;
    let mut hi: u8 = mq;
    let mut best_under: Option<Vec<u8>> = None;
    let mut smallest: Vec<u8> = best;

    let estimate = estimate_quality(mq, smallest.len(), target_bytes);
    if estimate > min_quality && estimate < mq {
        hi = estimate;
    }
    let ghost mres = spec_search_result(encf, max_quality, target_bytes as int);
    proof {
        assert(mres == spec_search_step(
            encf,
            target_bytes as int,
            1,
            hi as int,
            0,
            None::<Seq<u8>>,
            smallest@,
        ));
    }

    let mut iterations: u8 = 0;
    while lo <= hi && iterations < 6
        invariant
            1 <= min_quality <= mq <= 100,
            lo >= min_quality,
            hi <= mq,
            iterations <= 6,
            encf == (|q: u8|
                spec_png_at(
                    rgba@,
                    width,
                    height,
                    preset,
                    png_mode@,
                    png_max_colors,
                    png_dither,
                    png_force_quant,
                    q,
                )),
            mres == spec_search_result(encf, max_quality, target_bytes as int),
            mres == spec_search_step(
                encf,
                target_bytes as int,
                lo as int,
                hi as int,
                iterations as int,
                opt_seq_view(best_under),
                smallest@,
            ),
            exists|q: u8|
                1 <= q <= mq && smallest@ == #[trigger] spec_png_at(
                    rgba@,
                    width,
                    height,
                    preset,
                    png_mode@,
                    png_max_colors,
                    png_dither,
                    png_force_quant,
                    q,
                ),
            smallest@.len() <= spec_png_at(
                rgba@,
                width,
                height,
                preset,
                png_mode@,
                png_max_colors,
                png_dither,
                png_force_quant,
                mq,
            ).len(),
            best_under is Some ==> exists|q: u8|
                1 <= q <= mq && best_under->Some_0@ == #[trigger] spec_png_at(
                    rgba@,
                    width,
                    height,
                    preset,
                    png_mode@,
                    png_max_colors,
                    png_dither,
                    png_force_quant,
                    q,
                ) && best_under->Some_0@.len() <= target_bytes,
        decreases 6 - iterations,
    {
        let mid: u16 = (lo as u16 + hi as u16) / 2;
        let mid_q: u8 = mid as u8;
        proof {
            assert(lo <= mid <= hi);
        }
        let out = encode_png_with_quality(
            rgba,
            width,
            height,
            mid_q,
            preset,
            png_mode,
            png_max_colors,
            png_dither,
            png_force_quant,
        );
        proof {
            assert(out@ == spec_png_at(
                rgba@, width, height, preset, png_mode@, png_max_colors, png_dither, png_force_quant, mid_q));
        }
        if out.len() <= target_bytes {
            best_under = Some(out);
            lo = if mid_q == 255 {
                255
            } else {
                mid_q + 1
            };
        } else {
            if out.len() < smallest.len() {
                smallest = out;
            }
            hi = mid_q - 1;
        }
        iterations += 1;
    }
    proof {
        assert(spec_search_step(
            encf,
            target_bytes as int,
            lo as int,
            hi as int,
            iterations as int,
            opt_seq_view(best_under),
            smallest@,
        ) == (match opt_seq_view(best_under) {
            Some(b) => b,
            None => smallest@,
        }));
    }
    match best_under {
        Some(b) => {
            proof {
                assert(b@ == mres);
            }
            b
        },
        None => smallest,
    }
}

} // verus!
