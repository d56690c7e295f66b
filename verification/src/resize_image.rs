//! Selection of display dimensions that preserve aspect ratio.
//!
//! [`resize_dimensions`] picks the width and height an image should be scaled
//! to so that it either fits inside a target box (leaving empty space on one
//! axis) or fills it (overflowing the box on one axis). Ratios are handled as
//! exact rationals; scaled axes are rounded to the nearest integer, raised to
//! at least one, and clamped to `u32::MAX` with the opposite axis rescaled.

use vstd::prelude::*;
use vstd::arithmetic::div_mod::{
    lemma_div_is_ordered, lemma_div_multiples_vanish_fancy, lemma_fundamental_div_mod,
};
use vstd::arithmetic::mul::lemma_mul_inequality;

verus! {

/// `a / b` rounded to the nearest integer, halves rounded up.
pub open spec fn round_div(a: int, b: int) -> int
    recommends
        b > 0,
{
    (a + b / 2) / b
}

/// Dimension `d` scaled by the ratio `num / den`, rounded, and raised to at
/// least one so that no axis collapses to zero.
pub open spec fn scale_dim(d: int, num: int, den: int) -> int
    recommends
        den > 0,
{
    let s: int = round_div(d * num, den);
    if s < 1 {
        1
    } else {
        s
    }
}

/// Clamps a scaled axis to the largest representable dimension.
pub open spec fn clamp_dim(x: int) -> int {
    if x > 0xffff_ffff {
        0xffff_ffff
    } else {
        x
    }
}

/// The pair of display dimensions for a source of `w x h` and a target box of
/// `nw x nh`. An axis with a zero source dimension carries no usable ratio: the
/// other axis decides, and under `fill` a zero source axis drives the opposite
/// axis to the maximum (the ratio needed to cover it is unbounded).
pub open spec fn spec_resize_dimensions(fill: bool, w: int, h: int, nw: int, nh: int) -> (
    int,
    int,
) {
    if w == 0 && h == 0 {
        (1, 1)
    } else if w == 0 {
        if fill && nw > 0 {
            (1, 0xffff_ffff)
        } else {
            (1, scale_dim(h, nh, h))
        }
    } else if h == 0 {
        if fill && nh > 0 {
            (0xffff_ffff, 1)
        } else {
            (scale_dim(w, nw, w), 1)
        }
    } else {
        let wr_le_hr: bool = nw * h <= nh * w;
        let pick_h: bool = if fill {
            wr_le_hr
        } else {
            !wr_le_hr
        };
        let num: int = if pick_h {
            nh
        } else {
            nw
        };
        let den: int = if pick_h {
            h
        } else {
            w
        };
        let a: int = scale_dim(w, num, den);
        let b: int = scale_dim(h, num, den);
        if a > 0xffff_ffff {
            (0xffff_ffff, clamp_dim(scale_dim(h, 0xffff_ffff, w)))
        } else if b > 0xffff_ffff {
            (clamp_dim(scale_dim(w, 0xffff_ffff, h)), 0xffff_ffff)
        } else {
            (a, b)
        }
    }
}

/// Scaling a dimension by a whole ratio `n / n` gives it back unchanged.
proof fn lemma_round_div_exact(a: int, b: int)
    requires
        b >= 1,
        a >= 0,
    ensures
        round_div(a * b, b) == a,
{
    assert(a * b + b / 2 == b * a + b / 2) by (nonlinear_arith);
    lemma_div_multiples_vanish_fancy(a, b / 2, b);
}

/// If `a <= bound * b` then the rounded quotient stays at or under `bound`.
proof fn lemma_round_div_le(a: int, b: int, bound: int)
    requires
        b >= 1,
        0 <= a,
        a <= bound * b,
    ensures
        round_div(a, b) <= bound,
{
    lemma_div_is_ordered(a + b / 2, bound * b + b / 2, b);
    assert(bound * b + b / 2 == b * bound + b / 2) by (nonlinear_arith);
    lemma_div_multiples_vanish_fancy(bound, b / 2, b);
}

/// Fitting into a box never exceeds the box: each axis of the fit result is at
/// most the matching target dimension, or one where the target is zero.
pub proof fn lemma_fit_within_box(w: int, h: int, nw: int, nh: int)
    requires
        0 <= w <= 0xffff_ffff,
        0 <= h <= 0xffff_ffff,
        0 <= nw <= 0xffff_ffff,
        0 <= nh <= 0xffff_ffff,
    ensures
        spec_resize_dimensions(false, w, h, nw, nh).0 <= if nw >= 1 {
            nw
        } else {
            1
        },
        spec_resize_dimensions(false, w, h, nw, nh).1 <= if nh >= 1 {
            nh
        } else {
            1
        },
        spec_resize_dimensions(false, w, h, nw, nh).0 >= 1,
        spec_resize_dimensions(false, w, h, nw, nh).1 >= 1,
{
    if w == 0 && h == 0 {
    } else if w == 0 {
        lemma_round_div_exact(nh, h);
        assert(h * nh == nh * h) by (nonlinear_arith);
    } else if h == 0 {
        lemma_round_div_exact(nw, w);
        assert(w * nw == nw * w) by (nonlinear_arith);
    } else {
        let wr_le_hr: bool = nw * h <= nh * w;
        let num: int = if !wr_le_hr {
            nh
        } else {
            nw
        };
        let den: int = if !wr_le_hr {
            h
        } else {
            w
        };
        // the chosen fit ratio satisfies w * num <= nw * den and h * num <= nh * den
        assert(w * num <= nw * den && h * num <= nh * den) by (nonlinear_arith)
            requires
                w >= 1,
                h >= 1,
                num >= 0,
                den >= 1,
                nw >= 0,
                nh >= 0,
                (num == nw && den == w && nw * h <= nh * w) || (num == nh && den == h && nw * h
                    > nh * w),
        ;
        lemma_round_div_le(w * num, den, nw);
        lemma_round_div_le(h * num, den, nh);
    }
}

/// Calculates the width and height an image should be resized to. This
/// preserves aspect ratio, and based on the `fill` parameter will either fill
/// the dimensions to fit inside the smaller constraint (overflowing the
/// specified bounds on one axis to preserve aspect ratio), or will shrink so
/// that both dimensions are completely contained within the given `new_width`
/// and `new_height`, with empty space on one axis.
pub fn resize_dimensions(fill: bool, width: u32, height: u32, new_width: u32, new_height: u32) -> (r: (
    u32,
    u32,
))
    ensures
        (r.0 as int, r.1 as int) == spec_resize_dimensions(
            fill,
            width as int,
            height as int,
            new_width as int,
            new_height as int,
        ),
        r.0 >= 1,
        r.1 >= 1,
{
    proof {
        lemma_fit_within_box(width as int, height as int, new_width as int, new_height as int);
    }
    if width == 0 && height == 0 {
        (1, 1)
    } else if width == 0 {
        if fill && new_width > 0 {
            (1, u32::MAX)
        } else {
            (1, scale_axis(height, new_height, height))
        }
    } else if height == 0 {
        if fill && new_height > 0 {
            (u32::MAX, 1)
        } else {
            (scale_axis(width, new_width, width), 1)
        }
    } else {
        proof {
            assert((new_width as int) * (height as int) <= 0xffff_ffff * 0xffff_ffff
                && (new_height as int) * (width as int) <= 0xffff_ffff * 0xffff_ffff)
                by (nonlinear_arith)
                requires
                    new_width <= 0xffff_ffff,
                    height <= 0xffff_ffff,
                    new_height <= 0xffff_ffff,
                    width <= 0xffff_ffff,
            ;
        }
        let wr_le_hr: bool = (new_width as u64) * (height as u64) <= (new_height as u64) * (width
            as u64);
        let pick_h: bool = if fill {
            wr_le_hr
        } else {
            !wr_le_hr
        };
        let num: u32 = if pick_h {
            new_height
        } else {
            new_width
        };
        let den: u32 = if pick_h {
            height
        } else {
            width
        };
        let a: u64 = scale_axis_wide(width, num, den);
        let b: u64 = scale_axis_wide(height, num, den);
        if a > u32::MAX as u64 {
            (u32::MAX, scale_axis(height, u32::MAX, width))
        } else if b > u32::MAX as u64 {
            (scale_axis(width, u32::MAX, height), u32::MAX)
        } else {
            (a as u32, b as u32)
        }
    }
}

/// One axis scaled by `num / den` without clamping, as a wide integer.
fn scale_axis_wide(d: u32, num: u32, den: u32) -> (r: u64)
    requires
        den >= 1,
    ensures
        r as int == scale_dim(d as int, num as int, den as int),
{
    proof {
        lemma_mul_inequality(d as int, 0xffff_ffff, num as int);
        assert(0xffff_ffff * (num as int) <= 0xffff_ffff * 0xffff_ffff) by (nonlinear_arith)
            requires
                num <= 0xffff_ffff,
        ;
    }
    let prod: u64 = (d as u64) * (num as u64);
    let s: u64 = (prod + (den as u64) / 2) / (den as u64);
    if s < 1 {
        1
    } else {
        s
    }
}

/// One axis scaled by `num / den`, rounded, raised to at least one, and
/// clamped to the largest representable dimension.
fn scale_axis(d: u32, num: u32, den: u32) -> (r: u32)
    requires
        den >= 1,
    ensures
        r as int == clamp_dim(scale_dim(d as int, num as int, den as int)),
{
    let s: u64 = scale_axis_wide(d, num, den);
    if s > u32::MAX as u64 {
        u32::MAX
    } else {
        s as u32
    }
}

/// Rounded division lands within half a denominator of the exact quotient.
proof fn lemma_round_div_error(a: int, b: int)
    requires
        b >= 1,
        a >= 0,
    ensures
        b * round_div(a, b) <= a + b / 2,
        b * round_div(a, b) > a + b / 2 - b,
{
    lemma_fundamental_div_mod(a + b / 2, b);
}

/// Scaling a dimension up by `num / den` and back down by `den / num` lands
/// on the starting dimension or overshoots it by exactly one.
///
/// Holds of every upscale (`num >= den`); a strong downscale can lose more
/// than the reverse ratio can recover.
pub proof fn lemma_scale_round_trip(d: int, num: int, den: int)
    requires
        d >= 1,
        1 <= den <= num,
    ensures
        d <= scale_dim(scale_dim(d, num, den), den, num) <= d + 1,
{
    let s: int = scale_dim(d, num, den);
    lemma_round_div_error(d * num, den);
    assert(s == round_div(d * num, den)) by {
        assert(d * num >= den) by (nonlinear_arith)
            requires
                d >= 1,
                num >= den,
                den >= 1,
        ;
        lemma_div_is_ordered(den, d * num + den / 2, den);
        assert(den / den == 1) by {
            lemma_div_multiples_vanish_fancy(1, 0, den);
            assert(den * 1 + 0 == den) by (nonlinear_arith);
        }
    }
    // e is how far s * den lands from the exact product d * num
    let e: int = s * den - d * num;
    assert(den * s == s * den) by (nonlinear_arith);
    assert(e <= den / 2 && e > den / 2 - den);
    let back: int = round_div(s * den, num);
    assert(s * den + num / 2 == num * d + (e + num / 2)) by (nonlinear_arith)
        requires
            e == s * den - d * num,
    ;
    assert(0 <= e + num / 2 < 2 * num) by {
        lemma_div_is_ordered(den, num, 2);
        lemma_fundamental_div_mod(den, 2);
        lemma_fundamental_div_mod(num, 2);
    }
    if e + num / 2 < num {
        lemma_div_multiples_vanish_fancy(d, e + num / 2, num);
        assert(back == d);
    } else {
        assert(num * d + (e + num / 2) == num * (d + 1) + (e + num / 2 - num)) by (nonlinear_arith);
        lemma_div_multiples_vanish_fancy(d + 1, e + num / 2 - num, num);
        assert(back == d + 1);
    }
    assert(scale_dim(s, den, num) == back);
}

} // verus!
