//! Numeric utilities: the elementwise activation function and its
//! derivative, uniform random initializers, and the mean-squared-error cost.

use vstd::prelude::*;
use vstd::arithmetic::div_mod::{
    lemma_div_is_ordered, lemma_div_is_ordered_by_denominator, lemma_div_multiples_vanish,
    lemma_div_pos_is_pos,
};
use vstd::arithmetic::mul::lemma_mul_nonnegative;
use crate::fixed::{fx_add, fx_add_spec, fx_mul, fx_mul_spec, fx_sub, fx_sub_spec, FX_SCALE};
use crate::views::vview;

verus! {

broadcast use crate::views::lemma_vview_len, crate::views::lemma_vview_index;

/// Fixed-point values of the logistic function `1 / (1 + e^-x)` at the
/// integer points `0..=5`; the curve is interpolated linearly between them
/// and held constant beyond the last point.
pub open spec fn sig_knot(k: int) -> int {
    if k <= 0 {
        32768
    } else if k == 1 {
        47911
    } else if k == 2 {
        57724
    } else if k == 3 {
        62428
    } else if k == 4 {
        64357
    } else {
        65097
    }
}

/// The logistic curve on nonnegative arguments: piecewise-linear between the
/// knots, constant past the last knot.
pub open spec fn sigmoid_pos_spec(x: int) -> int
    recommends
        x >= 0,
{
    if x >= 5 * 65536 {
        65097
    } else {
        sig_knot(x / 65536) + ((sig_knot(x / 65536 + 1) - sig_knot(x / 65536)) * (x % 65536))
            / 65536
    }
}

/// The logistic curve on all arguments, by the symmetry
/// `sigmoid(-x) == 1 - sigmoid(x)`.
pub open spec fn sigmoid_spec(x: int) -> int {
    if x >= 0 {
        sigmoid_pos_spec(x)
    } else {
        65536 - sigmoid_pos_spec(-x)
    }
}

/// Derivative of the activation in terms of the already-activated value `a`:
/// `a * (1 - a)`.
pub open spec fn sigmoid_prime_spec(a: int) -> int {
    fx_mul_spec(a, fx_sub_spec(65536, a))
}

/// Linear interpolation between two ordered values stays between them.
proof fn lemma_interp_bounds(v0: int, v1: int, f: int)
    requires
        0 <= v0 <= v1,
        0 <= f < 65536,
    ensures
        0 <= ((v1 - v0) * f) / 65536 <= v1 - v0,
{
    let d = v1 - v0;
    lemma_mul_nonnegative(d, f);
    lemma_div_pos_is_pos(d * f, 65536);
    assert(d * f <= d * 65536) by (nonlinear_arith)
        requires
            0 <= f < 65536,
            0 <= d,
    ;
    lemma_div_is_ordered(d * f, d * 65536, 65536);
    lemma_div_multiples_vanish(d, 65536);
    assert(d * 65536 == 65536 * d);
}

/// The positive half of the logistic curve stays between its first and last
/// knot values.
pub proof fn lemma_sigmoid_pos_range(x: int)
    requires
        x >= 0,
    ensures
        32768 <= sigmoid_pos_spec(x) <= 65097,
{
    if x < 5 * 65536 {
        let k = x / 65536;
        let f = x % 65536;
        assert(0 <= k <= 4);
        assert(32768 <= sig_knot(k) <= sig_knot(k + 1) <= 65097);
        lemma_interp_bounds(sig_knot(k), sig_knot(k + 1), f);
    }
}

/// The logistic curve takes values strictly between 0 and 1.
pub proof fn lemma_sigmoid_range(x: int)
    ensures
        0 < sigmoid_spec(x) < 65536,
{
    if x >= 0 {
        lemma_sigmoid_pos_range(x);
    } else {
        lemma_sigmoid_pos_range(-x);
    }
}

/// Knot values of the logistic curve, as executable constants.
fn sig_knot_at(k: u64) -> (r: u64)
    requires
        k <= 5,
    ensures
        r as int == sig_knot(k as int),
        32768 <= r <= 65097,
{
    if k == 0 {
        32768
    } else if k == 1 {
        47911
    } else if k == 2 {
        57724
    } else if k == 3 {
        62428
    } else if k == 4 {
        64357
    } else {
        65097
    }
}

/// The logistic curve on nonnegative arguments.
fn sigmoid_pos(x: i64) -> (r: i64)
    requires
        x >= 0,
    ensures
        r as int == sigmoid_pos_spec(x as int),
        32768 <= r <= 65097,
{
    if x >= 5 * FX_SCALE {
        65097
    } else {
        let xu: u64 = x as u64;
        let k: u64 = xu / 65536;
        let f: u64 = xu % 65536;
        let v0: u64 = sig_knot_at(k);
        let v1: u64 = sig_knot_at(k + 1);
        assert(sig_knot(k as int) <= sig_knot(k as int + 1));
        let d: u64 = v1 - v0;
        assert(d * f < 0x1_0000_0000_0000u64) by (nonlinear_arith)
            requires
                d <= 65097,
                f < 65536,
        ;
        let q: u64 = (d * f) / 65536;
        proof {
            lemma_interp_bounds(v0 as int, v1 as int, f as int);
        }
        (v0 + q) as i64
    }
}

/// Sigmoid function: the logistic curve in fixed point, linear between the
/// tabulated knots and constant past them, so its values stay strictly
/// between 0 and 1.
pub fn sigmoid(x: i64) -> (r: i64)
    ensures
        r as int == sigmoid_spec(x as int),
        0 < r < FX_SCALE,
{
    proof {
        lemma_sigmoid_range(x as int);
    }
    if x >= 0 {
        sigmoid_pos(x)
    } else if x <= -5 * FX_SCALE {
        FX_SCALE - 65097
    } else {
        FX_SCALE - sigmoid_pos(-x)
    }
}

/// Derivative of the sigmoid function, applied to an already-activated
/// value: `a * (1 - a)`.
pub fn sigmoid_prime(a: i64) -> (r: i64)
    ensures
        r as int == sigmoid_prime_spec(a as int),
{
    fx_mul(a, fx_sub(FX_SCALE, a))
}

/// A fixed-point square is never negative.
pub proof fn lemma_fx_square_nonneg(a: int)
    ensures
        0 <= fx_mul_spec(a, a) <= i64::MAX as int,
{
    assert(a * a >= 0) by (nonlinear_arith);
    lemma_div_pos_is_pos(a * a, 65536);
}

/// Saturating sum of the squared errors over the first `n` positions.
pub open spec fn mse_sum(o: Seq<int>, t: Seq<int>, n: int) -> int
    decreases n,
{
    if n <= 0 {
        0
    } else {
        fx_add_spec(
            mse_sum(o, t, n - 1),
            fx_mul_spec(fx_sub_spec(o[n - 1], t[n - 1]), fx_sub_spec(o[n - 1], t[n - 1])),
        )
    }
}

/// Mean squared error: the squared-error sum divided by the length.
pub open spec fn mse_spec(o: Seq<int>, t: Seq<int>) -> int {
    mse_sum(o, t, o.len() as int) / (o.len() as int)
}

/// Mean Squared Error between an output vector and a target vector.
pub fn mse(output: &Vec<i64>, target: &Vec<i64>) -> (r: i64)
    requires
        output@.len() == target@.len(),
        output@.len() > 0,
    ensures
        r as int == mse_spec(vview(output@), vview(target@)),
        r >= 0,
{
    let ghost o = vview(output@);
    let ghost t = vview(target@);
    let mut sum: i64 = 0;
    let mut i: usize = 0;
    while i < output.len()
        invariant
            i <= output@.len(),
            output@.len() == target@.len(),
            o == vview(output@),
            t == vview(target@),
            sum as int == mse_sum(o, t, i as int),
            sum >= 0,
        decreases output@.len() - i,
    {
        let d: i64 = fx_sub(output[i], target[i]);
        proof {
            lemma_fx_square_nonneg(d as int);
        }
        sum = fx_add(sum, fx_mul(d, d));
        i = i + 1;
    }
    let n: u64 = output.len() as u64;
    proof {
        lemma_div_pos_is_pos(sum as int, n as int);
        lemma_div_is_ordered_by_denominator(sum as int, 1, n as int);
    }
    ((sum as u64) / n) as i64
}

/// Relies on rand::random_range over a half-open `i64` range: the result is
/// drawn uniformly from the range, so it lies in `[-FX_SCALE, FX_SCALE)`.
#[verifier::external_body]
fn random_unit() -> (r: i64)
    ensures
        -FX_SCALE <= r < FX_SCALE,
{
    rand::random_range(-FX_SCALE..FX_SCALE)
}

/// Fill every element of a vector with an independent uniform value from
/// `[-1, 1)` (in fixed point, `[-FX_SCALE, FX_SCALE)`).
pub fn randomise1(arr: &mut Vec<i64>)
    ensures
        final(arr)@.len() == old(arr)@.len(),
        forall|j: int|
            0 <= j < final(arr)@.len() ==> -FX_SCALE <= #[trigger] final(arr)@[j] < FX_SCALE,
{
    let mut i: usize = 0;
    while i < arr.len()
        invariant
            i <= arr@.len(),
            arr@.len() == old(arr)@.len(),
            forall|j: int| 0 <= j < i ==> -FX_SCALE <= #[trigger] arr@[j] < FX_SCALE,
        decreases arr@.len() - i,
    {
        let v: i64 = random_unit();
        arr.set(i, v);
        i = i + 1;
    }
}

/// Fill every element of a matrix with an independent uniform value from
/// `[-1, 1)`, keeping the dimensions of every row.
pub fn randomise2(arr: &mut Vec<Vec<i64>>)
    ensures
        final(arr)@.len() == old(arr)@.len(),
        forall|t: int|
            0 <= t < final(arr)@.len() ==> (#[trigger] final(arr)@[t])@.len() == old(
                arr,
            )@[t]@.len(),
        forall|t: int, j: int|
            0 <= t < final(arr)@.len() && 0 <= j < final(arr)@[t]@.len() ==> -FX_SCALE
                <= #[trigger] final(arr)@[t]@[j] < FX_SCALE,
{
    let mut i: usize = 0;
    while i < arr.len()
        invariant
            i <= arr@.len(),
            arr@.len() == old(arr)@.len(),
            forall|t: int| i <= t < arr@.len() ==> arr@[t] == old(arr)@[t],
            forall|t: int| 0 <= t < i ==> (#[trigger] arr@[t])@.len() == old(arr)@[t]@.len(),
            forall|t: int, j: int|
                0 <= t < i && 0 <= j < arr@[t]@.len() ==> -FX_SCALE <= #[trigger] arr@[t]@[j]
                    < FX_SCALE,
        decreases arr@.len() - i,
    {
        let n: usize = arr[i].len();
        let mut row: Vec<i64> = Vec::new();
        let mut j: usize = 0;
        while j < n
            invariant
                j <= n,
                row@.len() == j,
                forall|u: int| 0 <= u < j ==> -FX_SCALE <= #[trigger] row@[u] < FX_SCALE,
            decreases n - j,
        {
            row.push(random_unit());
            j = j + 1;
        }
        arr.set(i, row);
        i = i + 1;
    }
}

} // verus!
