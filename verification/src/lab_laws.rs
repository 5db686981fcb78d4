//! What holds of the colour conversion in exact arithmetic.
use crate::arith::exact_field;
use crate::cbrt_laws::{exact_weights, law_cbrt_fine_error, law_cbrt_is_finite, law_cbrt_near_root, law_cbrt_range, law_cbrt_relative_error, lemma_root_weights};
use crate::lab::{cbrt_poly, curved_x, curved_y, curved_z, fma_matrix, gray_l, lab_a, lab_b, lab_f, lab_l, Rgb};
use crate::reals::{cube, lemma_cube_monotone, lemma_cube_mul, lemma_divided, lemma_fraction};
use vstd::prelude::*;

verus! {

/// The constants of the three colours.
proof fn lemma_color_weights()
    ensures
        ({
            let w = exact_weights();
            &&& 9505real * w.x_r == 4124real && 9505real * w.x_g == 3576real && 9505real * w.x_b == 1805real
            &&& 10_000real * w.y_r == 2126real && 10_000real * w.y_g == 7152real && 10_000real * w.y_b == 722real
            &&& 10_890real * w.z_r == 193real && 10_890real * w.z_g == 1192real && 10_890real * w.z_b == 9505real
            &&& 100real * w.l_scale == 105real
            &&& 220real * w.a_scale == 500real && 2200real * w.a_offset == 862real
            &&& 220real * w.b_scale == 200real && 2200real * w.b_offset == 1079real
        }),
{
    lemma_fraction(4124real, 10_000real, 9505real, 10_000real, 9505real, 4124real);
    lemma_fraction(3576real, 10_000real, 9505real, 10_000real, 9505real, 3576real);
    lemma_fraction(1805real, 10_000real, 9505real, 10_000real, 9505real, 1805real);
    lemma_fraction(2126real, 10_000real, 1real, 1real, 10_000real, 2126real);
    lemma_fraction(7152real, 10_000real, 1real, 1real, 10_000real, 7152real);
    lemma_fraction(722real, 10_000real, 1real, 1real, 10_000real, 722real);
    lemma_fraction(193real, 10_000real, 1089real, 1000real, 10_890real, 193real);
    lemma_fraction(1192real, 10_000real, 1089real, 1000real, 10_890real, 1192real);
    lemma_fraction(9505real, 10_000real, 1089real, 1000real, 10_890real, 9505real);
    lemma_fraction(500real, 1real, 220real, 1real, 220real, 500real);
    lemma_fraction(862real, 10real, 220real, 1real, 2200real, 862real);
    lemma_fraction(200real, 1real, 220real, 1real, 220real, 200real);
    lemma_fraction(1079real, 10real, 220real, 1real, 2200real, 1079real);
}

/// The line and the cube root meet where one gives way to the other, with the same value and the
/// same slope.
pub proof fn law_curve_is_smooth()
    ensures
        ({
            let w = exact_weights();
            let root = 6real / 29real;
            &&& cube(root) == w.epsilon
            &&& w.slope * w.epsilon == root - w.offset
            &&& w.slope * (3real * (root * root)) == 1real
        }),
{
    lemma_root_weights();
    let w = exact_weights();
    let root = 6real / 29real;
    assert(root * root * root == 216real / 24389real) by (nonlinear_arith)
        requires
            root == 6real / 29real,
    ;
    assert(w.slope * w.epsilon == root - w.offset) by (nonlinear_arith)
        requires
            w.slope == 24389real / 3132real,
            w.epsilon == 216real / 24389real,
            w.offset == 4real / 29real,
            root == 6real / 29real,
    ;
    assert(w.slope * (3real * (root * root)) == 1real) by (nonlinear_arith)
        requires
            w.slope == 24389real / 3132real,
            root == 6real / 29real,
    ;
}

/// A pixel without colour has the X, Y and Z of its red, green and blue, so that both colour axes
/// are at their offsets, which is where they are zero.
pub proof fn law_neutral_pixel(v: real)
    ensures
        ({
            let f = exact_field();
            let w = exact_weights();
            let px = Rgb { r: v, g: v, b: v };
            &&& lab_l(f, w, px) == lab_f(f, w, v) * w.l_scale
            &&& lab_a(f, w, px) == w.a_offset
            &&& lab_b(f, w, px) == w.b_offset
        }),
{
    let f = exact_field();
    let w = exact_weights();
    let px = Rgb { r: v, g: v, b: v };
    lemma_color_weights();
    lemma_neutral_sum(v, w.x_r, w.x_g, w.x_b);
    lemma_neutral_sum(v, w.y_r, w.y_g, w.y_b);
    lemma_neutral_sum(v, w.z_r, w.z_g, w.z_b);
    let y = lab_f(f, w, v);
    assert(curved_x(f, w, px) == y && curved_y(f, w, px) == y && curved_z(f, w, px) == y);
    assert(y - y == 0real);
    assert(w.a_scale * 0real == 0real) by (nonlinear_arith);
    assert(w.b_scale * 0real == 0real) by (nonlinear_arith);
}

/// Three weights that add up to one keep a value.
proof fn lemma_neutral_sum(v: real, p: real, q: real, r: real)
    requires
        p + q + r == 1real,
    ensures
        fma_matrix(exact_field(), v, p, v, q, v, r) == v,
{
    assert(v * r + (v * q + v * p) == v) by (nonlinear_arith)
        requires
            p + q + r == 1real,
    ;
}

/// A grayscale sample goes through the same curve as the lightness of a pixel.
pub proof fn law_gray_curve(v: real)
    ensures
        gray_l(exact_field(), exact_weights(), v) == lab_f(exact_field(), exact_weights(), v) * exact_weights().gray_scale,
{
    let w = exact_weights();
    assert((w.slope * w.gray_scale) * v == (w.slope * v) * w.gray_scale) by (nonlinear_arith);
}

/// The light of a pixel is in range.
pub open spec fn in_gamut(px: Rgb<real>) -> bool {
    &&& 0real <= px.r <= 1real
    &&& 0real <= px.g <= 1real
    &&& 0real <= px.b <= 1real
}

/// The curve from zero to one.
proof fn lemma_curve(t: real)
    requires
        0real <= t <= 1real,
    ensures
        ({
            let v = lab_f(exact_field(), exact_weights(), t);
            &&& 0real <= v < 1001real / 1000real - 4real / 29real
            &&& t <= 216real / 24389real ==> v <= 2real / 29real
            &&& t > 216real / 24389real ==> v == cbrt_poly(exact_field(), exact_weights(), t) - 4real / 29real
        }),
{
    lemma_root_weights();
    law_cbrt_range(t);
    let slope = exact_weights().slope;
    if t <= 216real / 24389real {
        assert(0real <= slope * t <= 2real / 29real) by (nonlinear_arith)
            requires
                slope == 24389real / 3132real,
                0real <= t <= 216real / 24389real,
        ;
    }
}

/// X, Y and Z of a pixel in range, times the denominators of their weights.
proof fn lemma_xyz(px: Rgb<real>)
    ensures
        ({
            let f = exact_field();
            let w = exact_weights();
            &&& 9505real * fma_matrix(f, px.r, w.x_r, px.g, w.x_g, px.b, w.x_b) == 4124real * px.r + 3576real * px.g + 1805real * px.b
            &&& 10_000real * fma_matrix(f, px.r, w.y_r, px.g, w.y_g, px.b, w.y_b) == 2126real * px.r + 7152real * px.g + 722real * px.b
            &&& 10_890real * fma_matrix(f, px.r, w.z_r, px.g, w.z_g, px.b, w.z_b) == 193real * px.r + 1192real * px.g + 9505real * px.b
        }),
{
    lemma_color_weights();
    let w = exact_weights();
    lemma_scaled_sum(9505real, px, w.x_r, w.x_g, w.x_b, 4124real, 3576real, 1805real);
    lemma_scaled_sum(10_000real, px, w.y_r, w.y_g, w.y_b, 2126real, 7152real, 722real);
    lemma_scaled_sum(10_890real, px, w.z_r, w.z_g, w.z_b, 193real, 1192real, 9505real);
}

proof fn lemma_scaled_sum(k: real, px: Rgb<real>, p: real, q: real, r: real, kp: real, kq: real, kr: real)
    requires
        k * p == kp,
        k * q == kq,
        k * r == kr,
    ensures
        k * fma_matrix(exact_field(), px.r, p, px.g, q, px.b, r) == kp * px.r + kq * px.g + kr * px.b,
{
    let (x, y, z) = (px.r, px.g, px.b);
    assert(k * (z * r) == kr * z) by (nonlinear_arith)
        requires
            k * r == kr,
    ;
    assert(k * (y * q) == kq * y) by (nonlinear_arith)
        requires
            k * q == kq,
    ;
    assert(k * (x * p) == kp * x) by (nonlinear_arith)
        requires
            k * p == kp,
    ;
    assert(k * (z * r + (y * q + x * p)) == k * (z * r) + k * (y * q) + k * (x * p)) by (nonlinear_arith);
}

/// The lightness of a pixel in range is from zero to one.
pub proof fn law_lightness_range(px: Rgb<real>)
    requires
        in_gamut(px),
    ensures
        0real <= lab_l(exact_field(), exact_weights(), px) <= 1real,
{
    let f = exact_field();
    let w = exact_weights();
    lemma_xyz(px);
    lemma_color_weights();
    let fy = fma_matrix(f, px.r, w.y_r, px.g, w.y_g, px.b, w.y_b);
    lemma_curve(fy);
    let y = lab_f(f, w, fy);
    assert(0real <= y * w.l_scale <= 1real) by (nonlinear_arith)
        requires
            0real <= y < 1001real / 1000real - 4real / 29real,
            100real * w.l_scale == 105real,
    ;
}

/// X is not far below Y.
proof fn lemma_x_not_far_below_y(u: real, s: real)
    requires
        0real <= u <= 1real,
        0real <= s <= 1real,
        1901real * u >= 1000real * s,
        1901real * u >= 1000real * s + 2850real * (s - 7152real / 10_000real),
    ensures
        lab_f(exact_field(), exact_weights(), u) - lab_f(exact_field(), exact_weights(), s) > -431real / 2500real,
{
    let eps = 216real / 24389real;
    lemma_curve(u);
    lemma_curve(s);
    if s > eps {
        law_cbrt_is_finite(s);
        law_cbrt_relative_error(s);
        let q = cbrt_poly(exact_field(), exact_weights(), s);
        if u <= eps {
            assert(q < 3real / 10real) by (nonlinear_arith)
                requires
                    q > 0real,
                    20_000real * (q * q * q) <= 20_001real * s,
                    1000real * s <= 1901real * (216real / 24389real),
            ;
        } else {
            law_cbrt_is_finite(u);
            law_cbrt_relative_error(u);
            let p = cbrt_poly(exact_field(), exact_weights(), u);
            if p - q <= -431real / 2500real {
                let h = q - 431real / 2500real;
                assert(h > 0real);
                lemma_cube_monotone(p, h);
                assert(q >= 89real / 100real) by (nonlinear_arith)
                    requires
                        h == q - 431real / 2500real,
                        h > 0real,
                        20_000real * (h * h * h) >= 19_999real * u,
                        1901real * u >= 1000real * s,
                        20_000real * (q * q * q) <= 20_001real * s,
                ;
                assert(s >= 7real / 10real) by (nonlinear_arith)
                    requires
                        q >= 89real / 100real,
                        20_000real * (q * q * q) <= 20_001real * s,
                ;
                law_cbrt_fine_error(u);
                law_cbrt_fine_error(s);
                law_cbrt_range(s);
                assert(q >= 4472real / 5000real) by (nonlinear_arith)
                    requires
                        h == q - 431real / 2500real,
                        h > 0real,
                        100_000_000real * (h * h * h) >= 99_999_978real * u,
                        1901real * u >= 1000real * s,
                        100_000_000real * (q * q * q) <= 100_000_022real * s,
                ;
                assert(false) by (nonlinear_arith)
                    requires
                        h == q - 431real / 2500real,
                        4472real / 5000real <= q < 1001real / 1000real,
                        100_000_000real * (h * h * h) >= 99_999_978real * u,
                        1901real * u >= 1000real * s + 2850real * (s - 7152real / 10_000real),
                        100_000_000real * (q * q * q) <= 100_000_022real * s,
                ;
            }
        }
    }
}

/// Y is not far below Z.
proof fn lemma_y_not_far_below_z(u: real, s: real)
    requires
        0real <= u <= 1real,
        0real <= s <= 1real,
        95_050_000real * u >= 7_862_580real * s,
        95_050_000real * u >= 7_862_580real * s + 570_300_000real * (s - 9505real / 10_890real),
    ensures
        lab_f(exact_field(), exact_weights(), u) - lab_f(exact_field(), exact_weights(), s) > -1079real / 2000real,
{
    let eps = 216real / 24389real;
    lemma_curve(u);
    lemma_curve(s);
    if s > eps {
        law_cbrt_is_finite(s);
        law_cbrt_relative_error(s);
        let q = cbrt_poly(exact_field(), exact_weights(), s);
        if u <= eps {
            assert(q < 1real / 2real) by (nonlinear_arith)
                requires
                    q > 0real,
                    20_000real * (q * q * q) <= 20_001real * s,
                    7_862_580real * s <= 95_050_000real * (216real / 24389real),
            ;
        } else {
            law_cbrt_is_finite(u);
            law_cbrt_relative_error(u);
            let p = cbrt_poly(exact_field(), exact_weights(), u);
            if p - q <= -1079real / 2000real {
                let h = q - 1079real / 2000real;
                assert(h > 0real);
                lemma_cube_monotone(p, h);
                law_cbrt_range(s);
                assert(q >= 956real / 1000real) by (nonlinear_arith)
                    requires
                        h == q - 1079real / 2000real,
                        h > 0real,
                        20_000real * (h * h * h) >= 19_999real * u,
                        95_050_000real * u >= 7_862_580real * s,
                        20_000real * (q * q * q) <= 20_001real * s,
                ;
                assert(false) by (nonlinear_arith)
                    requires
                        h == q - 1079real / 2000real,
                        956real / 1000real <= q < 1001real / 1000real,
                        20_000real * (h * h * h) >= 19_999real * u,
                        95_050_000real * u >= 7_862_580real * s + 570_300_000real * (s - 9505real / 10_890real),
                        20_000real * (q * q * q) <= 20_001real * s,
                ;
            }
        }
    }
}

/// The offsets keep both colour axes of a pixel in range positive.
pub proof fn law_axes_are_positive(px: Rgb<real>)
    requires
        in_gamut(px),
    ensures
        lab_a(exact_field(), exact_weights(), px) > 0real,
        lab_b(exact_field(), exact_weights(), px) > 0real,
{
    let f = exact_field();
    let w = exact_weights();
    lemma_xyz(px);
    lemma_color_weights();
    let fx = fma_matrix(f, px.r, w.x_r, px.g, w.x_g, px.b, w.x_b);
    let fy = fma_matrix(f, px.r, w.y_r, px.g, w.y_g, px.b, w.y_b);
    let fz = fma_matrix(f, px.r, w.z_r, px.g, w.z_g, px.b, w.z_b);
    lemma_x_not_far_below_y(fx, fy);
    lemma_y_not_far_below_z(fy, fz);
    let (x, y, z) = (lab_f(f, w, fx), lab_f(f, w, fy), lab_f(f, w, fz));
    assert(w.a_scale * (x - y) + w.a_offset > 0real) by (nonlinear_arith)
        requires
            220real * w.a_scale == 500real,
            2200real * w.a_offset == 862real,
            x - y > -431real / 2500real,
    ;
    assert(w.b_scale * (y - z) + w.b_offset > 0real) by (nonlinear_arith)
        requires
            220real * w.b_scale == 200real,
            2200real * w.b_offset == 1079real,
            y - z > -1079real / 2000real,
    ;
}

/// Above `epsilon` the curve is within 1/100000 of the true one, which takes the offset off the
/// true cube root.
pub proof fn law_curve_is_near(t: real, root: real)
    requires
        exact_weights().epsilon < t <= 1real,
        root >= 0real,
        cube(root) == t,
    ensures
        ({
            let v = lab_f(exact_field(), exact_weights(), t);
            let truth = root - exact_weights().offset;
            &&& v - truth <= 1real / 100_000real
            &&& truth - v <= 1real / 100_000real
        }),
{
    lemma_root_weights();
    lemma_curve(t);
    let y = cbrt_poly(exact_field(), exact_weights(), t);
    if t >= 1999real / 10_000real {
        law_cbrt_near_root(t, root);
    } else {
        law_cbrt_is_finite(t);
        law_cbrt_relative_error(t);
        assert(0real < root < 585real / 1000real) by (nonlinear_arith)
            requires
                root >= 0real,
                0real < root * root * root < 1999real / 10_000real,
        ;
        let w = y / root;
        lemma_divided(y, root);
        lemma_cube_mul(w, root);
        assert(20_000real * (cube(w) - 1real) <= 1real && 20_000real * (1real - cube(w)) <= 1real) by (nonlinear_arith)
            requires
                t > 0real,
                20_000real * (cube(w) * t - t) <= t,
                20_000real * (t - cube(w) * t) <= t,
        ;
        assert(59_900real * (w - 1real) <= 1real && 59_900real * (1real - w) <= 1real) by (nonlinear_arith)
            requires
                20_000real * (w * w * w - 1real) <= 1real,
                20_000real * (1real - w * w * w) <= 1real,
        ;
        assert(100_000real * (w * root - root) <= 1real && 100_000real * (root - w * root) <= 1real)
            by (nonlinear_arith)
            requires
                0real < root < 585real / 1000real,
                59_900real * (w - 1real) <= 1real,
                59_900real * (1real - w) <= 1real,
        ;
    }
}

/// The scales of the lightness.
proof fn lemma_gray_weights()
    ensures
        100real * exact_weights().gray_scale == 116real,
        exact_weights().gray_slope == exact_weights().slope * exact_weights().gray_scale,
{
    assert(exact_weights().gray_scale == 116real / 100real);
}

/// The two parts of the curve, for every number: a straight line up to 216/24389, and the cube root
/// less 16/116 above.
pub proof fn law_curve_parts(t: real)
    ensures
        t <= 216real / 24389real ==> 3132real * lab_f(exact_field(), exact_weights(), t) == 24389real * t,
        t > 216real / 24389real ==> lab_f(exact_field(), exact_weights(), t) == cbrt_poly(
            exact_field(),
            exact_weights(),
            t,
        ) - 16real / 116real,
{
    lemma_root_weights();
    assert(16real / 116real == 4real / 29real) by (nonlinear_arith);
    let slope = exact_weights().slope;
    assert(3132real * (slope * t) == 24389real * t) by (nonlinear_arith)
        requires
            slope == 24389real / 3132real,
    ;
}

/// The L, a and b of every pixel, from its X, Y and Z, which are weighed sums of its red, green and
/// blue relative to white.
pub proof fn law_lab_of_pixel(px: Rgb<real>, x: real, y: real, z: real)
    requires
        9505real * x == 4124real * px.r + 3576real * px.g + 1805real * px.b,
        10_000real * y == 2126real * px.r + 7152real * px.g + 722real * px.b,
        10_890real * z == 193real * px.r + 1192real * px.g + 9505real * px.b,
    ensures
        ({
            let (f, w) = (exact_field(), exact_weights());
            let (fx, fy, fz) = (lab_f(f, w, x), lab_f(f, w, y), lab_f(f, w, z));
            &&& 100real * lab_l(f, w, px) == 105real * fy
            &&& 2200real * lab_a(f, w, px) == 5000real * (fx - fy) + 862real
            &&& 2200real * lab_b(f, w, px) == 2000real * (fy - fz) + 1079real
        }),
{
    lemma_xyz(px);
    lemma_color_weights();
    let (f, w) = (exact_field(), exact_weights());
    assert(fma_matrix(f, px.r, w.x_r, px.g, w.x_g, px.b, w.x_b) == x);
    assert(fma_matrix(f, px.r, w.y_r, px.g, w.y_g, px.b, w.y_b) == y);
    assert(fma_matrix(f, px.r, w.z_r, px.g, w.z_g, px.b, w.z_b) == z);
    let (fx, fy, fz) = (lab_f(f, w, x), lab_f(f, w, y), lab_f(f, w, z));
    assert(100real * (fy * w.l_scale) == 105real * fy) by (nonlinear_arith)
        requires
            100real * w.l_scale == 105real,
    ;
    assert(2200real * (w.a_scale * (fx - fy)) == 5000real * (fx - fy)) by (nonlinear_arith)
        requires
            220real * w.a_scale == 500real,
    ;
    assert(2200real * (w.b_scale * (fy - fz)) == 2000real * (fy - fz)) by (nonlinear_arith)
        requires
            220real * w.b_scale == 200real,
    ;
}

/// The lightness of every grayscale sample.
pub proof fn law_lab_of_gray(v: real)
    ensures
        100real * gray_l(exact_field(), exact_weights(), v) == 116real * lab_f(exact_field(), exact_weights(), v),
{
    law_gray_curve(v);
    lemma_gray_weights();
    let (s, c) = (exact_weights().gray_scale, lab_f(exact_field(), exact_weights(), v));
    assert(100real * (c * s) == 116real * c) by (nonlinear_arith)
        requires
            100real * s == 116real,
    ;
}

/// `v` is where the true curve takes `t`: to its cube root less 16/116, or along a straight line up to
/// 216/24389.
pub open spec fn is_on_true_curve(t: real, v: real) -> bool {
    if t > 216real / 24389real {
        let root = v + 16real / 116real;
        root >= 0real && root * root * root == t
    } else {
        3132real * v == 24389real * t
    }
}

/// From zero to one the curve is within 1/100000 of the true one.
pub proof fn law_curve_follows_true_one(t: real, v: real)
    requires
        0real <= t <= 1real,
        is_on_true_curve(t, v),
    ensures
        lab_f(exact_field(), exact_weights(), t) - v <= 1real / 100_000real,
        v - lab_f(exact_field(), exact_weights(), t) <= 1real / 100_000real,
{
    law_curve_parts(t);
    lemma_root_weights();
    assert(16real / 116real == 4real / 29real) by (nonlinear_arith);
    if t > 216real / 24389real {
        law_curve_is_near(t, v + 16real / 116real);
    }
}

/// The L, a and b of every pixel in range are near those that the true curve gives for its X, Y and Z:
/// L is 1.05 times the curved Y, a is 500/220 times the difference of the curved X and Y, moved by
/// 86.2/220, and b is 200/220 times the difference of the curved Y and Z, moved by 107.9/220.
pub proof fn law_lab_follows_true_one(px: Rgb<real>, x: real, y: real, z: real, fx: real, fy: real, fz: real)
    requires
        in_gamut(px),
        9505real * x == 4124real * px.r + 3576real * px.g + 1805real * px.b,
        10_000real * y == 2126real * px.r + 7152real * px.g + 722real * px.b,
        10_890real * z == 193real * px.r + 1192real * px.g + 9505real * px.b,
        is_on_true_curve(x, fx),
        is_on_true_curve(y, fy),
        is_on_true_curve(z, fz),
    ensures
        ({
            let (f, w) = (exact_field(), exact_weights());
            let (l, a, b) = (lab_l(f, w, px), lab_a(f, w, px), lab_b(f, w, px));
            &&& -2real <= 100_000real * (l - 105real / 100real * fy) <= 2real
            &&& -5real <= 100_000real * (a - (500real / 220real * (fx - fy) + 862real / 2200real)) <= 5real
            &&& -2real <= 100_000real * (b - (200real / 220real * (fy - fz) + 1079real / 2200real)) <= 2real
        }),
{
    law_lab_of_pixel(px, x, y, z);
    law_curve_follows_true_one(x, fx);
    law_curve_follows_true_one(y, fy);
    law_curve_follows_true_one(z, fz);
}

} // verus!
