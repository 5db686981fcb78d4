//! How near the cube root of the colour conversion comes to the true one, in exact arithmetic.
use crate::arith::{exact_field, exact_ratio};
use crate::lab::{cbrt_guess, cbrt_poly, halley, lab_weights, LabWeights};
use crate::reals::{
    cube, lemma_cancel, lemma_comm, lemma_cube_monotone, lemma_cube_mul, lemma_cube_not_negative,
    lemma_cube_positive, lemma_divided, lemma_product_monotone, lemma_square_monotone,
};
use vstd::prelude::*;

verus! {

/// The constants of the conversion as real numbers.
pub open spec fn exact_weights() -> LabWeights<real> {
    lab_weights(exact_field(), exact_ratio())
}

/// The constants of the cube root.
pub proof fn lemma_root_weights()
    ensures
        exact_weights().guess0 == 1real / 5real,
        exact_weights().guess1 == 151real / 100real,
        exact_weights().guess2 == -1real / 2real,
        exact_weights().two == 2real,
        exact_weights().epsilon == 216real / 24389real,
        exact_weights().offset == 4real / 29real,
        exact_weights().slope == 24389real / 3132real,
{
    assert(2real / 10real == 1real / 5real) by (nonlinear_arith);
    assert(-5real / 10real == -1real / 2real) by (nonlinear_arith);
    assert(16real / 1real == 16real && 27real / 1real == 27real && 116real / 1real == 116real
        && 24389real / 1real == 24389real) by (nonlinear_arith);
    assert(16real / 116real == 4real / 29real) by (nonlinear_arith);
    assert(27real * 116real == 3132real) by (nonlinear_arith);
}

/// The error of one step of Halley's method: the cube of the error before it, scaled.
pub proof fn law_halley_step(x: real, y: real)
    requires
        x >= 0real,
        y > 0real,
    ensures
        2real * cube(y) + x > 0real,
        halley(exact_field(), 2real, x, y) > 0real,
        (cube(halley(exact_field(), 2real, x, y)) - x) * cube(2real * cube(y) + x) == cube(cube(y) - x) * (cube(y) + x),
{
    let y1 = halley(exact_field(), 2real, x, y);
    let a = cube(y);
    let d = 2real * a + x;
    let n = 2real * x + a;
    lemma_cube_positive(y);
    assert(y1 == (y * n) / d);
    lemma_divided(y * n, d);
    assert(y * n > 0real) by (nonlinear_arith)
        requires
            y > 0real,
            n > 0real,
    ;
    assert(y1 > 0real) by (nonlinear_arith)
        requires
            y1 * d > 0real,
            d > 0real,
    ;
    lemma_cube_mul(y1, d);
    lemma_cube_mul(y, n);
    assert((cube(y1) - x) * cube(d) == cube(y1) * cube(d) - x * cube(d)) by (nonlinear_arith);
    assert(a * (n * n * n) - x * (d * d * d) == ((a - x) * (a - x) * (a - x)) * (a + x)) by (nonlinear_arith)
        requires
            d == 2real * a + x,
            n == 2real * x + a,
    ;
}

/// The error of one step, relative to `x`.
proof fn lemma_relative_step(x: real, y: real, v: real, v1: real)
    requires
        x > 0real,
        y > 0real,
        cube(y) == v * x,
        cube(halley(exact_field(), 2real, x, y)) == v1 * x,
    ensures
        (v1 - 1real) * cube(2real * v + 1real) == cube(v - 1real) * (v + 1real),
{
    law_halley_step(x, y);
    let c = cube(x);
    let m = cube(2real * v + 1real);
    let n = cube(v - 1real);
    assert(v1 * x - x == x * (v1 - 1real)) by (nonlinear_arith);
    assert(v * x - x == x * (v - 1real)) by (nonlinear_arith);
    assert(v * x + x == x * (v + 1real)) by (nonlinear_arith);
    assert(2real * (v * x) + x == x * (2real * v + 1real)) by (nonlinear_arith);
    lemma_cube_mul(x, 2real * v + 1real);
    lemma_cube_mul(x, v - 1real);
    assert((x * (v1 - 1real)) * (c * m) == (c * n) * (x * (v + 1real)));
    assert((x * (v1 - 1real)) * (c * m) == ((v1 - 1real) * m) * (x * c)) by (nonlinear_arith);
    assert((c * n) * (x * (v + 1real)) == (n * (v + 1real)) * (x * c)) by (nonlinear_arith);
    lemma_cube_positive(x);
    assert(x * c > 0real) by (nonlinear_arith)
        requires
            x > 0real,
            c > 0real,
    ;
    lemma_cancel((v1 - 1real) * m, n * (v + 1real), x * c);
}

/// Above `x`, a step from farther away ends farther away.
proof fn lemma_above(v: real, v1: real, w: real, w1: real)
    requires
        1real <= v <= w,
        (v1 - 1real) * cube(2real * v + 1real) == cube(v - 1real) * (v + 1real),
        (w1 - 1real) * cube(2real * w + 1real) >= cube(w - 1real) * (w + 1real),
    ensures
        1real <= v1 <= w1,
{
    let (d, e) = (2real * v + 1real, 2real * w + 1real);
    let (p, q) = (v - 1real, w - 1real);
    assert(0real <= p * e <= q * d) by (nonlinear_arith)
        requires
            d == 2real * v + 1real,
            e == 2real * w + 1real,
            p == v - 1real,
            q == w - 1real,
            1real <= v <= w,
    ;
    lemma_cube_monotone(p * e, q * d);
    lemma_cube_mul(p, e);
    lemma_cube_mul(q, d);
    lemma_cube_positive(d);
    lemma_cube_positive(e);
    lemma_cube_not_negative(p);
    lemma_cube_not_negative(q);
    lemma_quotients_in_order(cube(p), v + 1real, cube(d), v1 - 1real, cube(q), w + 1real, cube(e), w1 - 1real);
}

/// Below `x`, a step from farther away ends farther away.
proof fn lemma_below(v: real, v1: real, w: real, w1: real)
    requires
        0real <= w <= v <= 1real,
        (v1 - 1real) * cube(2real * v + 1real) == cube(v - 1real) * (v + 1real),
        (1real - w1) * cube(2real * w + 1real) >= cube(1real - w) * (w + 1real),
    ensures
        w1 <= v1 <= 1real,
{
    let (d, e) = (2real * v + 1real, 2real * w + 1real);
    let (p, q) = (1real - v, 1real - w);
    assert(0real <= p * e <= q * d && 0real <= p * (v + 1real) <= q * (w + 1real)) by (nonlinear_arith)
        requires
            d == 2real * v + 1real,
            e == 2real * w + 1real,
            p == 1real - v,
            q == 1real - w,
            0real <= w <= v <= 1real,
    ;
    assert((p * e) * (p * e) * e <= (q * d) * (q * d) * d) by {
        lemma_square_monotone(p * e, q * d);
        assert(0real <= (q * d) * (q * d)) by (nonlinear_arith);
        lemma_product_monotone((p * e) * (p * e), (q * d) * (q * d), e, d);
    }
    assert(0real <= (p * e) * (p * e) * e) by (nonlinear_arith)
        requires
            e >= 0real,
    ;
    assert((p * e) * (p * e) * e == (p * p) * cube(e)) by (nonlinear_arith)
        requires
            cube(e) == e * e * e,
    ;
    assert((q * d) * (q * d) * d == (q * q) * cube(d)) by (nonlinear_arith)
        requires
            cube(d) == d * d * d,
    ;
    lemma_cube_positive(d);
    lemma_cube_positive(e);
    assert(cube(v - 1real) * (v + 1real) == -((p * (v + 1real)) * (p * p))) by (nonlinear_arith)
        requires
            cube(v - 1real) == (v - 1real) * (v - 1real) * (v - 1real),
            p == 1real - v,
    ;
    assert(cube(1real - w) * (w + 1real) == (q * (w + 1real)) * (q * q)) by (nonlinear_arith)
        requires
            cube(1real - w) == (1real - w) * (1real - w) * (1real - w),
            q == 1real - w,
    ;
    assert((1real - v1) * cube(d) == (p * (v + 1real)) * (p * p)) by (nonlinear_arith)
        requires
            (v1 - 1real) * cube(d) == -((p * (v + 1real)) * (p * p)),
    ;
    assert(0real <= p * p && 0real <= q * q) by (nonlinear_arith);
    lemma_quotients_in_order(
        p * p,
        p * (v + 1real),
        cube(d),
        1real - v1,
        q * q,
        q * (w + 1real),
        cube(e),
        1real - w1,
    );
}

/// Quotients of products are in order if their factors are.
proof fn lemma_quotients_in_order(p: real, a: real, d: real, t: real, q: real, b: real, e: real, u: real)
    requires
        0real <= p,
        0real <= q,
        0real <= a <= b,
        0real < d,
        0real < e,
        p * e <= q * d,
        t * d == p * a || t * d == a * p,
        u * e >= q * b || u * e >= b * q,
    ensures
        0real <= t <= u,
{
    assert(0real <= p * a) by (nonlinear_arith)
        requires
            0real <= p,
            0real <= a,
    ;
    lemma_comm(a, p);
    lemma_comm(b, q);
    assert(0real <= t) by (nonlinear_arith)
        requires
            0real <= t * d,
            0real < d,
    ;
    assert(0real <= p * e) by (nonlinear_arith)
        requires
            0real <= p,
            0real < e,
    ;
    lemma_product_monotone(p * e, q * d, a, b);
    assert((p * e) * a == (t * d) * e) by (nonlinear_arith)
        requires
            t * d == p * a,
    ;
    assert((q * d) * b == (q * b) * d) by (nonlinear_arith);
    assert((q * b) * d <= (u * e) * d) by (nonlinear_arith)
        requires
            q * b <= u * e,
            0real < d,
    ;
    assert(t <= u) by (nonlinear_arith)
        requires
            (t * d) * e <= (u * e) * d,
            0real < d,
            0real < e,
    ;
}

/// Above `x`, a step leaves at most an eighth of the error.
proof fn lemma_above_eighth(v: real, v1: real)
    requires
        1real <= v,
        (v1 - 1real) * cube(2real * v + 1real) == cube(v - 1real) * (v + 1real),
    ensures
        1real <= v1,
        8real * (v1 - 1real) <= v - 1real,
{
    let d = cube(2real * v + 1real);
    let n = cube(v - 1real) * (v + 1real);
    assert(d > 0real && 0real <= n && 8real * n <= (v - 1real) * d) by (nonlinear_arith)
        requires
            d == (2real * v + 1real) * (2real * v + 1real) * (2real * v + 1real),
            n == (v - 1real) * (v - 1real) * (v - 1real) * (v + 1real),
            1real <= v,
    ;
    assert(1real <= v1 && 8real * (v1 - 1real) <= v - 1real) by (nonlinear_arith)
        requires
            d > 0real,
            0real <= (v1 - 1real) * d,
            8real * ((v1 - 1real) * d) <= (v - 1real) * d,
    ;
}

/// The first guess is positive, and its cube is not much below `x`.
pub proof fn lemma_guess_low(x: real)
    requires
        0real <= x <= 1real,
    ensures
        ({
            let y = cbrt_guess(exact_field(), exact_weights(), x);
            &&& y == (151real / 100real - x / 2real) * x + 1real / 5real
            &&& y >= 1real / 5real
            &&& 50real * cube(y) >= 17real * x
        }),
{
    lemma_root_weights();
    let y = cbrt_guess(exact_field(), exact_weights(), x);
    let g = 151real / 100real - x / 2real;
    assert((-1real / 2real) * x + 151real / 100real == g) by (nonlinear_arith)
        requires
            g == 151real / 100real - x / 2real,
    ;
    assert(y == g * x + 1real / 5real);
    assert(y >= 1real / 5real) by (nonlinear_arith)
        requires
            y == g * x + 1real / 5real,
            g == 151real / 100real - x / 2real,
            0real <= x <= 1real,
    ;
    if x <= 9real / 20real {
        assert(y >= (257real / 200real) * x + 1real / 5real) by (nonlinear_arith)
            requires
                y == g * x + 1real / 5real,
                g == 151real / 100real - x / 2real,
                0real <= x <= 9real / 20real,
        ;
        let t = (257real / 200real) * x + 1real / 5real;
        assert(50real * (t * t * t) >= 17real * x) by (nonlinear_arith)
            requires
                t == (257real / 200real) * x + 1real / 5real,
                0real <= x,
        ;
        lemma_cube_monotone(t, y);
    } else {
        assert(y >= (157real / 200real) * x + 17real / 40real) by (nonlinear_arith)
            requires
                y == g * x + 1real / 5real,
                g == 151real / 100real - x / 2real,
                9real / 20real <= x <= 1real,
        ;
        let t = (157real / 200real) * x + 17real / 40real;
        assert(t * t * t >= x) by (nonlinear_arith)
            requires
                t == (157real / 200real) * x + 17real / 40real,
                9real / 20real <= x <= 1real,
        ;
        lemma_cube_monotone(t, y);
    }
}

/// The cube of the first guess is at most twice `x`, but for the smallest `x`.
proof fn lemma_guess_high(x: real)
    requires
        216real / 24389real <= x <= 1real,
    ensures
        cube(cbrt_guess(exact_field(), exact_weights(), x)) <= 2real * x,
{
    lemma_guess_low(x);
    let y = cbrt_guess(exact_field(), exact_weights(), x);
    let g = 151real / 100real - x / 2real;
    if x <= 1real / 10real {
        let t = (151real / 100real) * x + 1real / 5real;
        assert(y <= t && t * t * t <= 2real * x) by (nonlinear_arith)
            requires
                y == g * x + 1real / 5real,
                g == 151real / 100real - x / 2real,
                t == (151real / 100real) * x + 1real / 5real,
                216real / 24389real <= x <= 1real / 10real,
        ;
        lemma_cube_monotone(y, t);
    } else if x <= 9real / 20real {
        let t = (121real / 100real) * x + 49real / 200real;
        assert(y <= t && t * t * t <= 2real * x) by (nonlinear_arith)
            requires
                y == g * x + 1real / 5real,
                g == 151real / 100real - x / 2real,
                t == (121real / 100real) * x + 49real / 200real,
                1real / 10real <= x <= 9real / 20real,
        ;
        lemma_cube_monotone(y, t);
    } else {
        let t = (51real / 100real) * x + 7real / 10real;
        assert(y <= t && t * t * t <= 2real * x) by (nonlinear_arith)
            requires
                y == g * x + 1real / 5real,
                g == 151real / 100real - x / 2real,
                t == (51real / 100real) * x + 7real / 10real,
                9real / 20real <= x <= 1real,
        ;
        lemma_cube_monotone(y, t);
    }
}

/// For the smallest `x`, the cube of the first guess is at most 1/125 above it.
proof fn lemma_guess_small(x: real)
    requires
        0real <= x <= 216real / 24389real,
    ensures
        cube(cbrt_guess(exact_field(), exact_weights(), x)) <= x + 1real / 125real,
{
    lemma_guess_low(x);
    let y = cbrt_guess(exact_field(), exact_weights(), x);
    let g = 151real / 100real - x / 2real;
    let t = (151real / 100real) * x + 1real / 5real;
    assert(y <= t && t * t * t <= x + 1real / 125real) by (nonlinear_arith)
        requires
            y == g * x + 1real / 5real,
            g == 151real / 100real - x / 2real,
            t == (151real / 100real) * x + 1real / 5real,
            0real <= x <= 216real / 24389real,
    ;
    lemma_cube_monotone(y, t);
}

/// For every `x` from zero to one the two steps have positive divisors, so that the cube root is
/// finite, and it is positive.
pub proof fn law_cbrt_is_finite(x: real)
    requires
        0real <= x <= 1real,
    ensures
        ({
            let y0 = cbrt_guess(exact_field(), exact_weights(), x);
            let y1 = halley(exact_field(), 2real, x, y0);
            &&& exact_weights().two == 2real
            &&& 2real * cube(y0) + x > 0real
            &&& 2real * cube(y1) + x > 0real
            &&& cbrt_poly(exact_field(), exact_weights(), x) == halley(exact_field(), 2real, x, y1)
            &&& cbrt_poly(exact_field(), exact_weights(), x) > 0real
        }),
{
    lemma_root_weights();
    lemma_guess_low(x);
    let y0 = cbrt_guess(exact_field(), exact_weights(), x);
    law_halley_step(x, y0);
    law_halley_step(x, halley(exact_field(), 2real, x, y0));
}

/// From `v` times `x`, where `e` is how far `v` is from one, a step comes within `within` of one.
pub open spec fn step_reaches(e: real, v: real, within: real) -> bool {
    within * ((2real * v + 1real) * (2real * v + 1real) * (2real * v + 1real)) >= (e * e * e) * (v + 1real)
}

/// From between `low` and `high` times `x`, a step comes between `low1` and `high1` times `x`, and
/// another within `within` times `x`.
pub open spec fn steps_reach(low: real, low1: real, high: real, high1: real, within: real) -> bool {
    &&& 0real <= low <= 1real <= high
    &&& 0real <= low1 <= 1real <= high1
    &&& step_reaches(1real - low, low, 1real - low1)
    &&& step_reaches(1real - low1, low1, within)
    &&& step_reaches(high - 1real, high, high1 - 1real)
    &&& step_reaches(high1 - 1real, high1, within)
}

/// What the cube root is, whatever `x` is: from the guess `g`, which is 0.2 + 1.51 x - 0.5 x x, two
/// steps of Halley's method towards the cube root of `x`, the first of which ends at `y`.
pub proof fn law_cbrt_is_two_steps(x: real, g: real, y: real)
    requires
        g == 2real / 10real + 151real / 100real * x - x * x / 2real,
        2real * (g * g * g) + x != 0real,
        y * (2real * (g * g * g) + x) == g * (g * g * g + 2real * x),
        2real * (y * y * y) + x != 0real,
    ensures
        cbrt_poly(exact_field(), exact_weights(), x) * (2real * (y * y * y) + x) == y * (y * y * y + 2real * x),
{
    lemma_root_weights();
    let g0 = cbrt_guess(exact_field(), exact_weights(), x);
    assert(g0 == ((-1real / 2real) * x + 151real / 100real) * x + 1real / 5real);
    assert(g0 == g) by (nonlinear_arith)
        requires
            g0 == ((-1real / 2real) * x + 151real / 100real) * x + 1real / 5real,
            g == 2real / 10real + 151real / 100real * x - x * x / 2real,
    ;
    let (d, e) = (2real * cube(g) + x, 2real * cube(y) + x);
    let y1 = halley(exact_field(), 2real, x, g);
    assert(y1 == (g * (2real * x + cube(g))) / d);
    lemma_divided(g * (2real * x + cube(g)), d);
    lemma_cancel(y1, y, d);
    let y2 = halley(exact_field(), 2real, x, y);
    assert(y2 == (y * (2real * x + cube(y))) / e);
    lemma_divided(y * (2real * x + cube(y)), e);
}

/// Two steps from a guess whose cube is between `low` and `high` times `x`.
pub proof fn lemma_two_steps(
    x: real,
    low: real,
    low1: real,
    high: real,
    high1: real,
    within: real,
)
    requires
        0real < x <= 1real,
        low * x <= cube(cbrt_guess(exact_field(), exact_weights(), x)) <= high * x,
        steps_reach(low, low1, high, high1, within),
    ensures
        ({
            let a = cube(cbrt_poly(exact_field(), exact_weights(), x));
            &&& a - x <= within * x
            &&& x - a <= within * x
        }),
{
    law_cbrt_is_finite(x);
    lemma_guess_low(x);
    let y0 = cbrt_guess(exact_field(), exact_weights(), x);
    let y1 = halley(exact_field(), 2real, x, y0);
    let y2 = halley(exact_field(), 2real, x, y1);
    let v0 = cube(y0) / x;
    let v1 = cube(y1) / x;
    let v2 = cube(y2) / x;
    lemma_divided(cube(y0), x);
    lemma_divided(cube(y1), x);
    lemma_divided(cube(y2), x);
    law_halley_step(x, y0);
    lemma_relative_step(x, y0, v0, v1);
    lemma_relative_step(x, y1, v1, v2);
    assert(low <= v0 <= high) by (nonlinear_arith)
        requires
            x > 0real,
            low * x <= v0 * x <= high * x,
    ;
    if v0 >= 1real {
        lemma_above(v0, v1, high, high1);
        lemma_above(v1, v2, high1, 1real + within);
    } else {
        lemma_below(v0, v1, low, low1);
        lemma_below(v1, v2, low1, 1real - within);
    }
    assert(within >= 0real);
    assert(v2 * x - x <= within * x && x - v2 * x <= within * x) by (nonlinear_arith)
        requires
            x > 0real,
            1real - within <= v2 <= 1real + within,
    ;
}

/// The cube of the cube root is near `x`: within 1/20000 of it, relatively, but for `x` so small
/// that the curve is a straight line there.
pub proof fn law_cbrt_relative_error(x: real)
    requires
        216real / 24389real <= x <= 1real,
    ensures
        ({
            let a = cube(cbrt_poly(exact_field(), exact_weights(), x));
            &&& 20_000real * (a - x) <= x
            &&& 20_000real * (x - a) <= x
        }),
{
    lemma_guess_low(x);
    lemma_guess_high(x);
    assert(steps_reach(17real / 50real, 459real / 500real, 2real, 77real / 75real, 1real / 20_000real))
        by (nonlinear_arith);
    lemma_two_steps(x, 17real / 50real, 459real / 500real, 2real, 77real / 75real, 1real / 20_000real);
}

/// The cube of the cube root is within 1/8000 of `x`, for every `x` from zero to one.
pub proof fn law_cbrt_error(x: real)
    requires
        0real <= x <= 1real,
    ensures
        ({
            let a = cube(cbrt_poly(exact_field(), exact_weights(), x));
            &&& a - x <= 1real / 8000real
            &&& x - a <= 1real / 8000real
        }),
{
    if x >= 216real / 24389real {
        law_cbrt_relative_error(x);
    } else {
        law_cbrt_is_finite(x);
        lemma_guess_low(x);
        lemma_guess_small(x);
        let y0 = cbrt_guess(exact_field(), exact_weights(), x);
        let y1 = halley(exact_field(), 2real, x, y0);
        let y2 = halley(exact_field(), 2real, x, y1);
        law_halley_step(x, y0);
        law_halley_step(x, y1);
        if x == 0real {
            lemma_eighth_at_zero(cube(y0), cube(y1));
            lemma_eighth_at_zero(cube(y1), cube(y2));
        } else {
            let v0 = cube(y0) / x;
            let v1 = cube(y1) / x;
            let v2 = cube(y2) / x;
            lemma_divided(cube(y0), x);
            lemma_divided(cube(y1), x);
            lemma_divided(cube(y2), x);
            lemma_relative_step(x, y0, v0, v1);
            lemma_relative_step(x, y1, v1, v2);
            if v0 >= 1real {
                lemma_above_eighth(v0, v1);
                lemma_above_eighth(v1, v2);
                assert(0real <= 64real * (v2 * x - x) <= v0 * x - x) by (nonlinear_arith)
                    requires
                        x > 0real,
                        0real <= 64real * (v2 - 1real) <= v0 - 1real,
                ;
            } else {
                assert(v0 * x <= x) by (nonlinear_arith)
                    requires
                        x > 0real,
                        v0 < 1real,
                ;
                assert(steps_reach(17real / 50real, 459real / 500real, 1real, 1real, 1real / 20_000real))
                    by (nonlinear_arith);
                lemma_two_steps(x, 17real / 50real, 459real / 500real, 1real, 1real, 1real / 20_000real);
            }
        }
    }
}

/// At zero, a step leaves an eighth.
proof fn lemma_eighth_at_zero(a: real, a1: real)
    requires
        a > 0real,
        (a1 - 0real) * cube(2real * a + 0real) == cube(a - 0real) * (a + 0real),
    ensures
        8real * a1 == a,
{
    assert(8real * a1 == a) by (nonlinear_arith)
        requires
            a > 0real,
            a1 * ((2real * a) * (2real * a) * (2real * a)) == (a * a * a) * a,
    ;
}

/// The cube root of a number from zero to one is below 1.001, and it is not below what the curve
/// takes off it.
pub proof fn law_cbrt_range(x: real)
    requires
        0real <= x <= 1real,
    ensures
        ({
            let y = cbrt_poly(exact_field(), exact_weights(), x);
            &&& 0real < y < 1001real / 1000real
            &&& x >= exact_weights().epsilon ==> y >= exact_weights().offset
        }),
{
    lemma_root_weights();
    law_cbrt_is_finite(x);
    law_cbrt_error(x);
    let y = cbrt_poly(exact_field(), exact_weights(), x);
    assert(y < 1001real / 1000real) by (nonlinear_arith)
        requires
            y > 0real,
            y * y * y <= 1real + 1real / 8000real,
    ;
    if x >= 216real / 24389real {
        assert(y >= 4real / 29real) by (nonlinear_arith)
            requires
                y > 0real,
                y * y * y >= 216real / 24389real - 1real / 8000real,
        ;
    }
}

/// A step for a larger number ends no lower.
proof fn lemma_halley_monotone_in_x(x: real, z: real, y: real)
    requires
        0real <= x <= z,
        y > 0real,
    ensures
        halley(exact_field(), 2real, x, y) <= halley(exact_field(), 2real, z, y),
{
    let a = cube(y);
    lemma_cube_positive(y);
    let (n, d) = (y * (2real * x + a), 2real * a + x);
    let (m, e) = (y * (2real * z + a), 2real * a + z);
    lemma_divided(n, d);
    lemma_divided(m, e);
    let (p, q) = (n / d, m / e);
    assert((2real * x + a) * (2real * a + z) <= (2real * z + a) * (2real * a + x)) by (nonlinear_arith)
        requires
            0real <= x <= z,
            a > 0real,
    ;
    assert(n * e <= m * d) by (nonlinear_arith)
        requires
            n == y * (2real * x + a),
            d == 2real * a + x,
            m == y * (2real * z + a),
            e == 2real * a + z,
            y > 0real,
            (2real * x + a) * (2real * a + z) <= (2real * z + a) * (2real * a + x),
    ;
    assert(p <= q) by (nonlinear_arith)
        requires
            (p * d) * e <= (q * e) * d,
            d > 0real,
            e > 0real,
    ;
}

/// A step from a larger guess ends no lower.
proof fn lemma_halley_monotone_in_y(x: real, y: real, z: real)
    requires
        0real <= x,
        0real < y <= z,
    ensures
        halley(exact_field(), 2real, x, y) <= halley(exact_field(), 2real, x, z),
{
    let y1 = halley(exact_field(), 2real, x, y);
    let z1 = halley(exact_field(), 2real, x, z);
    law_halley_step(x, y);
    law_halley_step(x, z);
    lemma_cube_monotone(y, z);
    if x == 0real {
        lemma_cube_positive(y);
        lemma_cube_positive(z);
        lemma_eighth_at_zero(cube(y), cube(y1));
        lemma_eighth_at_zero(cube(z), cube(z1));
    } else {
        let (v, v1) = (cube(y) / x, cube(y1) / x);
        let (w, w1) = (cube(z) / x, cube(z1) / x);
        lemma_divided(cube(y), x);
        lemma_divided(cube(y1), x);
        lemma_divided(cube(z), x);
        lemma_divided(cube(z1), x);
        lemma_relative_step(x, y, v, v1);
        lemma_relative_step(x, z, w, w1);
        lemma_cube_positive(y);
        assert(0real < v <= w) by (nonlinear_arith)
            requires
                x > 0real,
                0real < v * x <= w * x,
        ;
        lemma_negated_step(v, v1);
        if v >= 1real {
            lemma_above(v, v1, w, w1);
        } else if w <= 1real {
            lemma_below(w, w1, v, v1);
        } else {
            lemma_below(v, v1, v, v1);
            lemma_above(w, w1, w, w1);
        }
        assert(v1 * x <= w1 * x) by (nonlinear_arith)
            requires
                x > 0real,
                v1 <= w1,
        ;
    }
    if y1 > z1 {
        assert(y1 * y1 * y1 > z1 * z1 * z1) by (nonlinear_arith)
            requires
                y1 > z1,
                z1 > 0real,
        ;
    }
}

/// The error of a step, with its sign turned.
proof fn lemma_negated_step(v: real, v1: real)
    requires
        (v1 - 1real) * cube(2real * v + 1real) == cube(v - 1real) * (v + 1real),
    ensures
        (1real - v1) * cube(2real * v + 1real) == cube(1real - v) * (v + 1real),
{
    let (c, d) = (cube(v - 1real), cube(2real * v + 1real));
    assert((1real - v) * (1real - v) * (1real - v) == -((v - 1real) * (v - 1real) * (v - 1real))) by (nonlinear_arith);
    assert((1real - v1) * d == (-c) * (v + 1real)) by (nonlinear_arith)
        requires
            (v1 - 1real) * d == c * (v + 1real),
    ;
}

/// The cube root of a larger number is no smaller.
pub proof fn law_cbrt_is_monotone(x: real, z: real)
    requires
        0real <= x <= z <= 1real,
    ensures
        cbrt_poly(exact_field(), exact_weights(), x) <= cbrt_poly(exact_field(), exact_weights(), z),
{
    law_cbrt_is_finite(x);
    law_cbrt_is_finite(z);
    lemma_guess_low(x);
    lemma_guess_low(z);
    let (a0, b0) = (cbrt_guess(exact_field(), exact_weights(), x), cbrt_guess(exact_field(), exact_weights(), z));
    assert(a0 <= b0) by (nonlinear_arith)
        requires
            a0 == (151real / 100real - x / 2real) * x + 1real / 5real,
            b0 == (151real / 100real - z / 2real) * z + 1real / 5real,
            0real <= x <= z <= 1real,
    ;
    let (a1, b1) = (halley(exact_field(), 2real, x, a0), halley(exact_field(), 2real, z, b0));
    law_halley_step(x, a0);
    law_halley_step(z, b0);
    lemma_halley_monotone_in_x(x, z, a0);
    lemma_halley_monotone_in_y(z, a0, b0);
    lemma_halley_monotone_in_x(x, z, a1);
    lemma_halley_monotone_in_y(z, a1, b1);
}

/// From about a fifth on, the cube of the cube root is within 22/100000000 of `x`, relatively.
pub proof fn law_cbrt_fine_error(x: real)
    requires
        1999real / 10_000real <= x <= 1real,
    ensures
        ({
            let a = cube(cbrt_poly(exact_field(), exact_weights(), x));
            &&& 100_000_000real * (a - x) <= 22real * x
            &&& 100_000_000real * (x - a) <= 22real * x
        }),
{
    lemma_guess_low(x);
    let y = cbrt_guess(exact_field(), exact_weights(), x);
    assert(1000real * (y * y * y) >= 559real * x && 100real * (y * y * y) <= 178real * x) by (nonlinear_arith)
        requires
            y == (151real / 100real - x / 2real) * x + 1real / 5real,
            1999real / 10_000real <= x <= 1real,
    ;
    assert(steps_reach(559real / 1000real, 9859real / 10_000real, 178real / 100real, 1014real / 1000real, 22real / 100_000_000real))
        by (nonlinear_arith);
    lemma_two_steps(x, 559real / 1000real, 9859real / 10_000real, 178real / 100real, 1014real / 1000real, 22real / 100_000_000real);
}

/// From about a fifth on, the cube root is within 1/10000000 of the true one.
pub proof fn law_cbrt_near_root(x: real, root: real)
    requires
        1999real / 10_000real <= x <= 1real,
        root >= 0real,
        cube(root) == x,
    ensures
        ({
            let y = cbrt_poly(exact_field(), exact_weights(), x);
            &&& y - root < 1real / 10_000_000real
            &&& root - y < 1real / 10_000_000real
        }),
{
    law_cbrt_is_finite(x);
    law_cbrt_fine_error(x);
    let y = cbrt_poly(exact_field(), exact_weights(), x);
    assert(0real < root <= 1real) by (nonlinear_arith)
        requires
            root >= 0real,
            0real < root * root * root <= 1real,
    ;
    // The error relative to the root.
    let w = y / root;
    lemma_divided(y, root);
    lemma_cube_mul(w, root);
    assert(100_000_000real * (cube(w) - 1real) <= 22real && 100_000_000real * (1real - cube(w)) <= 22real)
        by (nonlinear_arith)
        requires
            x > 0real,
            100_000_000real * (cube(w) * x - x) <= 22real * x,
            100_000_000real * (x - cube(w) * x) <= 22real * x,
    ;
    assert(10_000_000real * (w - 1real) < 1real && 10_000_000real * (1real - w) < 1real) by (nonlinear_arith)
        requires
            100_000_000real * (w * w * w - 1real) <= 22real,
            100_000_000real * (1real - w * w * w) <= 22real,
    ;
    assert(10_000_000real * (w * root - root) < 1real && 10_000_000real * (root - w * root) < 1real)
        by (nonlinear_arith)
        requires
            0real < root <= 1real,
            10_000_000real * (w - 1real) < 1real,
            10_000_000real * (1real - w) < 1real,
    ;
}

} // verus!
