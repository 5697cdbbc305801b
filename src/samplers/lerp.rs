//! Linear interpolation between the keyframes around an instant, and linear
//! extrapolation from the two nearest ones on one side.
use vstd::prelude::*;
use crate::interface::{DataSampler, KeySeq};

verus! {

/// A bound on the magnitude of a difference of two `i64` times.
pub const TIME_SPAN: i128 = 0x1_0000_0000_0000_0000;

/// `a / b` rounded toward zero, for `b > 0`.
pub open spec fn trunc_div(a: int, b: int) -> int {
    if a >= 0 {
        a / b
    } else {
        -((-a) / b)
    }
}

/// Values that can be blended: moved a fraction `num / den` of the way from
/// one value toward another, where the fraction may be below 0 or above 1.
pub trait Lerp: Sized {
    /// The value `num / den` of the way from `a` to `b`, or `None` where it
    /// cannot be represented.
    spec fn lerp_spec(a: Self, b: Self, num: int, den: int) -> Option<Self>;

    /// At fraction 0 the blend is exactly the start, at fraction 1 exactly the end.
    proof fn lemma_lerp_ends(a: Self, b: Self, den: int)
        requires
            0 < den < TIME_SPAN,
        ensures
            Self::lerp_spec(a, b, 0, den) == Some(a),
            Self::lerp_spec(a, b, den, den) == Some(b),
    ;

    fn lerp(self, other: Self, num: i128, den: i128) -> (r: Option<Self>)
        requires
            -TIME_SPAN < num < TIME_SPAN,
            0 < den < TIME_SPAN,
        ensures
            r == Self::lerp_spec(self, other, num as int, den as int),
    ;
}

/// `d * num / den` rounded toward zero.
fn scaled(d: i128, num: i128, den: i128) -> (r: i128)
    requires
        -0x2_0000_0000 <= d <= 0x2_0000_0000,
        -TIME_SPAN < num < TIME_SPAN,
        0 < den < TIME_SPAN,
    ensures
        r == trunc_div(d * num, den as int),
        -0x2_0000_0000 * TIME_SPAN <= r <= 0x2_0000_0000 * TIME_SPAN,
{
    assert(-0x2_0000_0000 * TIME_SPAN <= d * num <= 0x2_0000_0000 * TIME_SPAN) by (nonlinear_arith)
        requires
            -0x2_0000_0000 <= d <= 0x2_0000_0000,
            -TIME_SPAN < num < TIME_SPAN,
    ;
    let prod = d * num;
    if prod >= 0 {
        let q = (prod as u128) / (den as u128);
        assert(q <= prod) by (nonlinear_arith)
            requires
                q == (prod as int) / (den as int),
                prod >= 0,
                den > 0,
        ;
        q as i128
    } else {
        let q = ((-prod) as u128) / (den as u128);
        assert(q <= -prod) by (nonlinear_arith)
            requires
                q == (-prod) / (den as int),
                prod < 0,
                den > 0,
        ;
        -(q as i128)
    }
}

/// `trunc_div(d * den, den) == d`.
proof fn lemma_trunc_div_cancel(d: int, den: int)
    requires
        den > 0,
    ensures
        trunc_div(d * den, den) == d,
{
    if d >= 0 {
        assert(d * den >= 0) by (nonlinear_arith)
            requires
                d >= 0,
                den > 0,
        ;
        vstd::arithmetic::div_mod::lemma_div_by_multiple(d, den);
    } else {
        assert(d * den < 0) by (nonlinear_arith)
            requires
                d < 0,
                den > 0,
        ;
        assert(-(d * den) == (-d) * den) by (nonlinear_arith);
        vstd::arithmetic::div_mod::lemma_div_by_multiple(-d, den);
    }
}

/// The `i32` value `a + (b - a) * num / den`, rounded toward zero.
pub open spec fn lerp_i32(a: i32, b: i32, num: int, den: int) -> Option<i32> {
    let r = a + trunc_div((b - a) * num, den);
    if i32::MIN <= r <= i32::MAX {
        Some(r as i32)
    } else {
        None
    }
}

impl Lerp for i32 {
    open spec fn lerp_spec(a: i32, b: i32, num: int, den: int) -> Option<i32> {
        lerp_i32(a, b, num, den)
    }

    proof fn lemma_lerp_ends(a: i32, b: i32, den: int) {
        assert((b - a) * 0 == 0);
        assert(trunc_div(0, den) == 0);
        lemma_trunc_div_cancel(b - a, den);
    }

    fn lerp(self, other: i32, num: i128, den: i128) -> (r: Option<i32>) {
        let d = other as i128 - self as i128;
        let r = self as i128 + scaled(d, num, den);
        if i32::MIN as i128 <= r && r <= i32::MAX as i128 {
            Some(r as i32)
        } else {
            None
        }
    }
}

/// Pairs blend component by component, and fail where either component does.
impl<A: Lerp + Copy, B: Lerp + Copy> Lerp for (A, B) {
    open spec fn lerp_spec(a: (A, B), b: (A, B), num: int, den: int) -> Option<(A, B)> {
        match (A::lerp_spec(a.0, b.0, num, den), B::lerp_spec(a.1, b.1, num, den)) {
            (Some(x), Some(y)) => Some((x, y)),
            _ => None,
        }
    }

    proof fn lemma_lerp_ends(a: (A, B), b: (A, B), den: int) {
        A::lemma_lerp_ends(a.0, b.0, den);
        B::lemma_lerp_ends(a.1, b.1, den);
    }

    fn lerp(self, other: (A, B), num: i128, den: i128) -> (r: Option<(A, B)>) {
        match (self.0.lerp(other.0, num, den), self.1.lerp(other.1, num, den)) {
            (Some(x), Some(y)) => Some((x, y)),
            _ => None,
        }
    }
}

/// The value at `time` on the line through keyframes `a` and `b`, or `None`
/// where the two share a time or the value cannot be represented.
pub open spec fn line_at<V: Lerp>(a: (i64, V), b: (i64, V), time: i64) -> Option<V> {
    if a.0 < b.0 {
        V::lerp_spec(a.1, b.1, time - a.0, b.0 - a.0)
    } else if b.0 < a.0 {
        V::lerp_spec(a.1, b.1, a.0 - time, a.0 - b.0)
    } else {
        None
    }
}

fn line_through<V: Lerp + Copy>(a: (i64, V), b: (i64, V), time: i64) -> (r: Option<V>)
    ensures
        r == line_at(a, b, time),
{
    if a.0 < b.0 {
        a.1.lerp(b.1, time as i128 - a.0 as i128, b.0 as i128 - a.0 as i128)
    } else if b.0 < a.0 {
        a.1.lerp(b.1, a.0 as i128 - time as i128, a.0 as i128 - b.0 as i128)
    } else {
        None
    }
}

/// Interpolates between the nearest keyframes on each side of the instant;
/// with keyframes on one side only, extrapolates the line through the two
/// nearest there, and fails with fewer than two.
pub struct LerpSampler;

impl<V: Lerp + Copy> DataSampler<V> for LerpSampler {
    open spec fn sample_spec(past: Seq<(i64, V)>, future: Seq<(i64, V)>, time: i64) -> Option<V> {
        if past.len() > 0 && future.len() > 0 {
            line_at(past[0], future[0], time)
        } else if past.len() > 0 {
            if past.len() > 1 {
                line_at(past[1], past[0], time)
            } else {
                None
            }
        } else if future.len() > 0 {
            if future.len() > 1 {
                line_at(future[0], future[1], time)
            } else {
                None
            }
        } else {
            None
        }
    }

    fn sample<'a>(past: &mut KeySeq<'a, V>, future: &mut KeySeq<'a, V>, time: i64) -> (r: Option<
        V,
    >) {
        match (past.next(), future.next()) {
            (Some(p), Some(f)) => line_through(p, f, time),
            (Some(p), None) => match past.next() {
                Some(p2) => line_through(p2, p, time),
                None => None,
            },
            (None, Some(f)) => match future.next() {
                Some(f2) => line_through(f, f2, time),
                None => None,
            },
            (None, None) => None,
        }
    }
}

} // verus!
