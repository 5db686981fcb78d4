//! The blur as a weighed average.
use crate::arith::{exact_ratio, exact_ring, Ring};
use crate::blur::{blur_columns, blur_image, blur_rows, blurred_at, clamped, column, product_image};
use crate::blur_laws::{is_constant, law_constant_image, law_gaussian_weights};
use crate::kernel::{gaussian, Kernel, K_CENTER, K_SIDE, K_UNIT};
use crate::plane::is_rectangle;
use crate::reals::{lemma_assoc, lemma_comm, lemma_dist};
use vstd::prelude::*;

verus! {

/// Addition keeps an order, and so does multiplication by each of the weights.
pub open spec fn keeps_order<T>(r: Ring<T>, k: Kernel<T>, le: spec_fn(T, T) -> bool) -> bool {
    &&& forall|a: T, b: T, c: T, d: T|
        #![trigger (r.plus)(a, c), (r.plus)(b, d)]
        le(a, b) && le(c, d) ==> le((r.plus)(a, c), (r.plus)(b, d))
    &&& forall|a: T, b: T, w: T|
        #![trigger (r.times)(a, w), (r.times)(b, w)]
        le(a, b) && (w == k.outer || w == k.inner || w == k.mid) ==> le((r.times)(a, w), (r.times)(b, w))
    &&& forall|a: T, b: T, w: T|
        #![trigger (r.times)(w, a), (r.times)(w, b)]
        le(a, b) && (w == k.edge_center || w == k.edge_near || w == k.edge_far) ==> le((r.times)(w, a), (r.times)(w, b))
}

/// Each sample of one line is in order with the sample at the same place of another.
pub open spec fn lines_in_order<T>(le: spec_fn(T, T) -> bool, a: Seq<T>, b: Seq<T>) -> bool {
    &&& a.len() == b.len()
    &&& forall|x: int| 0 <= x < a.len() ==> le(#[trigger] a[x], b[x])
}

/// Each sample of one image is in order with the sample at the same place of another.
pub open spec fn in_order<T>(le: spec_fn(T, T) -> bool, a: Seq<Seq<T>>, b: Seq<Seq<T>>) -> bool {
    &&& a.len() == b.len()
    &&& forall|y: int| 0 <= y < a.len() ==> lines_in_order(le, #[trigger] a[y], b[y])
}

proof fn lemma_line_keeps_order<T>(r: Ring<T>, k: Kernel<T>, le: spec_fn(T, T) -> bool, a: Seq<T>, b: Seq<T>, j: int)
    requires
        keeps_order(r, k, le),
        lines_in_order(le, a, b),
        0 <= j < a.len(),
    ensures
        le(blurred_at(r, k, a, j), blurred_at(r, k, b, j)),
{
    let n = a.len() as int;
    if j == 0 {
        let (i1, i2) = (clamped(1, n), clamped(2, n));
        assert(le(a[0], b[0]) && le(a[i1], b[i1]) && le(a[i2], b[i2]));
    } else if j == n - 1 {
        let i0 = clamped(n - 3, n);
        assert(le(a[i0], b[i0]) && le(a[n - 2], b[n - 2]) && le(a[n - 1], b[n - 1]));
    } else {
        let (m2, m1, p1, p2) = (clamped(j - 2, n), clamped(j - 1, n), clamped(j + 1, n), clamped(j + 2, n));
        assert(le(a[m2], b[m2]) && le(a[m1], b[m1]) && le(a[j], b[j]) && le(a[p1], b[p1]) && le(a[p2], b[p2]));
        assert(le((r.plus)(a[m2], a[p2]), (r.plus)(b[m2], b[p2])));
        assert(le((r.plus)(a[m1], a[p1]), (r.plus)(b[m1], b[p1])));
    }
}

/// In an arithmetic that keeps an order, so does the blur. Rounding keeps the order of numbers, and
/// all weights are positive.
pub proof fn law_blur_keeps_order<T>(
    r: Ring<T>,
    k: Kernel<T>,
    le: spec_fn(T, T) -> bool,
    a: Seq<Seq<T>>,
    b: Seq<Seq<T>>,
    width: nat,
)
    requires
        keeps_order(r, k, le),
        is_rectangle(a, width),
        is_rectangle(b, width),
        in_order(le, a, b),
    ensures
        in_order(le, blur_image(r, k, a), blur_image(r, k, b)),
{
    let (across_a, across_b) = (blur_rows(r, k, a), blur_rows(r, k, b));
    assert forall|y: int| 0 <= y < a.len() implies lines_in_order(le, #[trigger] across_a[y], across_b[y])
        && across_a[y].len() == width by {
        assert(a[y].len() == width && b[y].len() == width);
        assert(lines_in_order(le, a[y], b[y]));
        assert forall|x: int| 0 <= x < width implies le(#[trigger] across_a[y][x], across_b[y][x]) by {
            lemma_line_keeps_order(r, k, le, a[y], b[y], x);
        }
    }
    let (image_a, image_b) = (blur_image(r, k, a), blur_image(r, k, b));
    assert forall|y: int| 0 <= y < a.len() implies lines_in_order(le, #[trigger] image_a[y], image_b[y]) by {
        assert(across_a[y].len() == width);
        assert(lines_in_order(le, across_a[y], across_b[y]));
        assert forall|x: int| 0 <= x < width implies le(#[trigger] image_a[y][x], image_b[y][x]) by {
            let (col_a, col_b) = (column(across_a, x), column(across_b, x));
            assert forall|v: int| 0 <= v < a.len() implies le(#[trigger] col_a[v], col_b[v]) by {
                assert(across_a[v].len() == width);
                assert(lines_in_order(le, across_a[v], across_b[v]));
                assert(le(across_a[v][x], across_b[v][x]));
            }
            lemma_line_keeps_order(r, k, le, col_a, col_b, y);
        }
    }
}

/// One sample is not above another.
pub open spec fn at_most() -> spec_fn(real, real) -> bool {
    |a: real, b: real| a <= b
}

/// The blur of the exact Gaussian.
pub open spec fn exact_blur(rows: Seq<Seq<real>>) -> Seq<Seq<real>> {
    blur_image(exact_ring(), gaussian(exact_ring(), exact_ratio()), rows)
}

/// The weights of the exact Gaussian are positive.
proof fn lemma_weights_keep_order()
    ensures
        keeps_order(exact_ring(), gaussian(exact_ring(), exact_ratio()), at_most()),
{
    let r = exact_ring();
    let k = gaussian(r, exact_ratio());
    let (side, center) = (exact_ratio()(K_SIDE, K_UNIT), exact_ratio()(K_CENTER, K_UNIT));
    law_gaussian_weights();
    assert(side == 30_875_886real / 100_000_000real);
    assert(center == 38_248_280real / 100_000_000real);
    assert(side * side >= 0real && side * center >= 0real && center * center >= 0real) by (nonlinear_arith)
        requires
            side >= 0real,
            center >= 0real,
    ;
    lemma_assoc(2real, side, center);
    lemma_assoc(2real, side, side);
    assert forall|a: real, b: real, w: real|
        #![trigger (r.times)(a, w), (r.times)(b, w)]
        a <= b && (w == k.outer || w == k.inner || w == k.mid) implies (r.times)(a, w) <= (r.times)(b, w) by {
        lemma_times_keeps_order(a, b, w);
    }
    assert forall|a: real, b: real, w: real|
        #![trigger (r.times)(w, a), (r.times)(w, b)]
        a <= b && (w == k.edge_center || w == k.edge_near || w == k.edge_far) implies (r.times)(w, a)
        <= (r.times)(w, b) by {
        lemma_times_keeps_order(a, b, w);
    }
}

proof fn lemma_times_keeps_order(a: real, b: real, w: real)
    requires
        a <= b,
        w >= 0real,
    ensures
        a * w <= b * w,
        w * a <= w * b,
{
    assert(a * w <= b * w && w * a <= w * b) by (nonlinear_arith)
        requires
            a <= b,
            w >= 0real,
    ;
}

/// The blur is monotone: an image that is nowhere above another is so after blurring too.
pub proof fn law_blur_is_monotone(a: Seq<Seq<real>>, b: Seq<Seq<real>>, width: nat)
    requires
        is_rectangle(a, width),
        is_rectangle(b, width),
        in_order(at_most(), a, b),
    ensures
        in_order(at_most(), exact_blur(a), exact_blur(b)),
{
    lemma_weights_keep_order();
    law_blur_keeps_order(exact_ring(), gaussian(exact_ring(), exact_ratio()), at_most(), a, b, width);
}

/// `p` times a line and `q` times another.
pub open spec fn combined_line(p: real, a: Seq<real>, q: real, b: Seq<real>) -> Seq<real> {
    Seq::new(a.len(), |x: int| p * a[x] + q * b[x])
}

/// `p` times an image and `q` times another.
pub open spec fn combined(p: real, a: Seq<Seq<real>>, q: real, b: Seq<Seq<real>>) -> Seq<Seq<real>> {
    Seq::new(a.len(), |y: int| combined_line(p, a[y], q, b[y]))
}

/// A weight times a combination.
proof fn lemma_weighed_combination(w: real, p: real, x: real, q: real, y: real)
    ensures
        (p * x + q * y) * w == p * (x * w) + q * (y * w),
        w * (p * x + q * y) == p * (w * x) + q * (w * y),
{
    lemma_dist(w, p * x, q * y);
    lemma_assoc(p, x, w);
    lemma_assoc(q, y, w);
    lemma_comm(w, p * x + q * y);
    lemma_comm(w, x);
    lemma_comm(w, y);
}

/// The sum of three combinations.
proof fn lemma_sum_of_combinations(p: real, a: real, b: real, c: real, q: real, d: real, e: real, f: real)
    ensures
        (p * a + q * d) + (p * b + q * e) + (p * c + q * f) == p * (a + b + c) + q * (d + e + f),
{
    lemma_dist(p, a + b, c);
    lemma_dist(p, a, b);
    lemma_dist(q, d + e, f);
    lemma_dist(q, d, e);
}

proof fn lemma_line_is_linear(k: Kernel<real>, p: real, a: Seq<real>, q: real, b: Seq<real>, j: int)
    requires
        a.len() == b.len(),
        0 <= j < a.len(),
    ensures
        blurred_at(exact_ring(), k, combined_line(p, a, q, b), j) == p * blurred_at(exact_ring(), k, a, j) + q
            * blurred_at(exact_ring(), k, b, j),
{
    let n = a.len() as int;
    let line = combined_line(p, a, q, b);
    if j == 0 {
        let (i1, i2) = (clamped(1, n), clamped(2, n));
        lemma_weighed_combination(k.edge_center, p, a[0], q, b[0]);
        lemma_weighed_combination(k.edge_near, p, a[i1], q, b[i1]);
        lemma_weighed_combination(k.edge_far, p, a[i2], q, b[i2]);
        lemma_sum_of_combinations(
            p,
            k.edge_center * a[0],
            k.edge_near * a[i1],
            k.edge_far * a[i2],
            q,
            k.edge_center * b[0],
            k.edge_near * b[i1],
            k.edge_far * b[i2],
        );
    } else if j == n - 1 {
        let i0 = clamped(n - 3, n);
        lemma_weighed_combination(k.edge_far, p, a[i0], q, b[i0]);
        lemma_weighed_combination(k.edge_near, p, a[n - 2], q, b[n - 2]);
        lemma_weighed_combination(k.edge_center, p, a[n - 1], q, b[n - 1]);
        lemma_sum_of_combinations(
            p,
            k.edge_far * a[i0],
            k.edge_near * a[n - 2],
            k.edge_center * a[n - 1],
            q,
            k.edge_far * b[i0],
            k.edge_near * b[n - 2],
            k.edge_center * b[n - 1],
        );
    } else {
        let (m2, m1, p1, p2) = (clamped(j - 2, n), clamped(j - 1, n), clamped(j + 1, n), clamped(j + 2, n));
        lemma_dist(p, a[m2], a[p2]);
        lemma_dist(q, b[m2], b[p2]);
        lemma_dist(p, a[m1], a[p1]);
        lemma_dist(q, b[m1], b[p1]);
        assert(line[m2] + line[p2] == p * (a[m2] + a[p2]) + q * (b[m2] + b[p2]));
        assert(line[m1] + line[p1] == p * (a[m1] + a[p1]) + q * (b[m1] + b[p1]));
        lemma_weighed_combination(k.outer, p, a[m2] + a[p2], q, b[m2] + b[p2]);
        lemma_weighed_combination(k.inner, p, a[m1] + a[p1], q, b[m1] + b[p1]);
        lemma_weighed_combination(k.mid, p, a[j], q, b[j]);
        lemma_sum_of_combinations(
            p,
            (a[m2] + a[p2]) * k.outer,
            (a[m1] + a[p1]) * k.inner,
            a[j] * k.mid,
            q,
            (b[m2] + b[p2]) * k.outer,
            (b[m1] + b[p1]) * k.inner,
            b[j] * k.mid,
        );
    }
}

/// The blur is linear, whatever the weights.
pub proof fn law_blur_is_linear(
    k: Kernel<real>,
    p: real,
    a: Seq<Seq<real>>,
    q: real,
    b: Seq<Seq<real>>,
    width: nat,
)
    requires
        is_rectangle(a, width),
        is_rectangle(b, width),
        a.len() == b.len(),
    ensures
        blur_image(exact_ring(), k, combined(p, a, q, b)) == combined(
            p,
            blur_image(exact_ring(), k, a),
            q,
            blur_image(exact_ring(), k, b),
        ),
{
    let r = exact_ring();
    let (across_a, across_b) = (blur_rows(r, k, a), blur_rows(r, k, b));
    let across = blur_rows(r, k, combined(p, a, q, b));
    assert forall|y: int| 0 <= y < a.len() implies across[y] == combined_line(p, across_a[y], q, across_b[y]) by {
        assert(a[y].len() == width && b[y].len() == width);
        assert forall|x: int| 0 <= x < width implies across[y][x] == combined_line(p, across_a[y], q, across_b[y])[x] by {
            lemma_line_is_linear(k, p, a[y], q, b[y], x);
        }
        assert(across[y] =~= combined_line(p, across_a[y], q, across_b[y]));
    }
    assert(across =~= combined(p, across_a, q, across_b));
    let image = blur_columns(r, k, across);
    let goal = combined(p, blur_columns(r, k, across_a), q, blur_columns(r, k, across_b));
    assert forall|y: int| 0 <= y < a.len() implies image[y] == goal[y] by {
        assert(a[y].len() == width && b[y].len() == width);
        assert forall|x: int| 0 <= x < width implies image[y][x] == goal[y][x] by {
            let (col_a, col_b) = (column(across_a, x), column(across_b, x));
            assert forall|v: int| 0 <= v < a.len() implies column(across, x)[v] == combined_line(p, col_a, q, col_b)[v] by {
                assert(a[v].len() == width && b[v].len() == width);
                assert(across[v] == combined_line(p, across_a[v], q, across_b[v]));
            }
            assert(column(across, x) =~= combined_line(p, col_a, q, col_b));
            lemma_line_is_linear(k, p, col_a, q, col_b, y);
        }
        assert(image[y] =~= goal[y]);
    }
    assert(image =~= goal);
}

/// An image of one value.
pub open spec fn flat(width: nat, height: nat, v: real) -> Seq<Seq<real>> {
    Seq::new(height, |y: int| Seq::new(width, |x: int| v))
}

/// The sum of all weights of the exact Gaussian's blur.
pub open spec fn total_weight() -> real {
    let sum = exact_ratio()(K_SIDE, K_UNIT) + exact_ratio()(K_CENTER, K_UNIT) + exact_ratio()(K_SIDE, K_UNIT);
    sum * (sum * (sum * sum))
}

proof fn lemma_total_weight()
    ensures
        1real <= total_weight() <= 1real + 5real / 1_000_000real,
{
    let sum = exact_ratio()(K_SIDE, K_UNIT) + exact_ratio()(K_CENTER, K_UNIT) + exact_ratio()(K_SIDE, K_UNIT);
    law_gaussian_weights();
    assert(exact_ratio()(1, 1_000_000) == 1real / 1_000_000real);
    assert(1real <= sum * (sum * (sum * sum)) <= 1real + 5real / 1_000_000real) by (nonlinear_arith)
        requires
            1real <= sum <= 1real + 1real / 1_000_000real,
    ;
}

proof fn lemma_flat_blurred(width: nat, height: nat, v: real, x: int, y: int)
    requires
        0 <= x < width,
        0 <= y < height,
    ensures
        exact_blur(flat(width, height, v))[y][x] == total_weight() * v,
{
    let (side, center) = (exact_ratio()(K_SIDE, K_UNIT), exact_ratio()(K_CENTER, K_UNIT));
    let sum = side + center + side;
    let rows = flat(width, height, v);
    assert(is_rectangle(rows, width));
    assert(is_constant(rows, v));
    law_gaussian_weights();
    law_constant_image(side, center, rows, width, v);
    assert(exact_blur(rows)[y].len() == width);
    assert(exact_blur(rows)[y][x] == sum * (sum * (sum * (sum * v))));
    lemma_assoc(sum, sum, v);
    lemma_assoc(sum, sum * sum, v);
    lemma_assoc(sum, sum * (sum * sum), v);
}

/// A local variance is not negative: in an image of samples from minus one to one, the square of a
/// blurred sample is at most the blurred square, and 1/100000 more because the weights do not sum
/// to one exactly.
pub proof fn law_variance_is_not_negative(a: Seq<Seq<real>>, width: nat, x: int, y: int)
    requires
        is_rectangle(a, width),
        in_order(at_most(), flat(width, a.len(), -1real), a),
        in_order(at_most(), a, flat(width, a.len(), 1real)),
        0 <= x < width,
        0 <= y < a.len(),
    ensures
        ({
            let mean = exact_blur(a)[y][x];
            let square = exact_blur(product_image(exact_ring(), a, a))[y][x];
            &&& square >= 0real
            &&& mean * mean <= square + 1real / 100_000real
        }),
{
    let h = a.len();
    let squares = product_image(exact_ring(), a, a);
    let m = exact_blur(a)[y][x];
    let s = exact_blur(squares)[y][x];
    let w = total_weight();
    let ones = flat(width, h, 1real);
    lemma_total_weight();
    assert forall|v: int| 0 <= v < h implies (#[trigger] squares[v]).len() == width by {
        assert(a[v].len() == width);
    }
    assert(is_rectangle(squares, width));

    // The mean is no larger than the largest sample, times the sum of the weights.
    let low = flat(width, h, -1real);
    law_blur_is_monotone(low, a, width);
    law_blur_is_monotone(a, ones, width);
    lemma_flat_blurred(width, h, -1real, x, y);
    lemma_flat_blurred(width, h, 1real, x, y);
    lemma_at(exact_blur(low), exact_blur(a), x, y);
    lemma_at(exact_blur(a), exact_blur(ones), x, y);

    // The blurred squares, and the blurred squares of the distances from the mean.
    let zero = flat(width, h, 0real);
    lemma_flat_blurred(width, h, 0real, x, y);
    assert(w * 0real == 0real) by (nonlinear_arith);
    assert forall|v: int| 0 <= v < h implies lines_in_order(at_most(), #[trigger] zero[v], squares[v]) by {
        assert(a[v].len() == width);
        assert forall|u: int| 0 <= u < width implies at_most()(#[trigger] zero[v][u], squares[v][u]) by {
            let t = a[v][u];
            assert(t * t >= 0real) by (nonlinear_arith);
        }
    }
    law_blur_is_monotone(zero, squares, width);
    lemma_at(exact_blur(zero), exact_blur(squares), x, y);

    let k = gaussian(exact_ring(), exact_ratio());
    let part = combined(1real, squares, -2real * m, a);
    let distances = combined(1real, part, m * m, ones);
    assert forall|v: int| 0 <= v < h implies (#[trigger] part[v]).len() == width by {
        assert(squares[v].len() == width);
    }
    assert(is_rectangle(part, width));
    assert forall|v: int| 0 <= v < h implies (#[trigger] distances[v]).len() == width by {
        assert(part[v].len() == width);
    }
    assert(is_rectangle(distances, width));
    assert forall|v: int| 0 <= v < h implies lines_in_order(at_most(), #[trigger] zero[v], distances[v]) by {
        assert(a[v].len() == width);
        assert forall|u: int| 0 <= u < width implies at_most()(#[trigger] zero[v][u], distances[v][u]) by {
            let t = a[v][u];
            assert(distances[v][u] == 1real * (1real * (t * t) + (-2real * m) * t) + (m * m) * 1real);
            assert(1real * (1real * (t * t) + (-2real * m) * t) + (m * m) * 1real >= 0real) by (nonlinear_arith) {
                assert(1real * (1real * (t * t) + (-2real * m) * t) + (m * m) * 1real == (t - m) * (t - m));
            }
        }
    }
    law_blur_is_monotone(zero, distances, width);
    lemma_at(exact_blur(zero), exact_blur(distances), x, y);
    law_blur_is_linear(k, 1real, part, m * m, ones, width);
    law_blur_is_linear(k, 1real, squares, -2real * m, a, width);
    assert(exact_blur(squares)[y].len() == width && exact_blur(part)[y].len() == width) by {
        assert(squares[y].len() == width && part[y].len() == width);
    }
    assert(exact_blur(part)[y][x] == 1real * s + (-2real * m) * m);
    assert(exact_blur(distances)[y][x] == 1real * (1real * s + (-2real * m) * m) + (m * m) * w);
    assert(m * m <= s + 1real / 100_000real) by (nonlinear_arith)
        requires
            1real * (1real * s + (-2real * m) * m) + (m * m) * w >= 0real,
            1real <= w <= 1real + 5real / 1_000_000real,
            -w <= m <= w,
    ;
}

/// What the order of two images says of one place.
proof fn lemma_at(a: Seq<Seq<real>>, b: Seq<Seq<real>>, x: int, y: int)
    requires
        in_order(at_most(), a, b),
        0 <= y < a.len(),
        0 <= x < a[y].len(),
    ensures
        a[y][x] <= b[y][x],
{
    assert(lines_in_order(at_most(), a[y], b[y]));
    assert(at_most()(a[y][x], b[y][x]));
}

/// An image of samples between two numbers from zero to one stays between them, within 1/100000.
pub proof fn law_blur_stays_in_range(a: Seq<Seq<real>>, width: nat, lo: real, hi: real, x: int, y: int)
    requires
        is_rectangle(a, width),
        0real <= lo <= hi <= 1real,
        in_order(at_most(), flat(width, a.len(), lo), a),
        in_order(at_most(), a, flat(width, a.len(), hi)),
        0 <= x < width,
        0 <= y < a.len(),
    ensures
        lo - 1real / 100_000real <= exact_blur(a)[y][x] <= hi + 1real / 100_000real,
{
    let (low, high) = (flat(width, a.len(), lo), flat(width, a.len(), hi));
    law_blur_is_monotone(low, a, width);
    law_blur_is_monotone(a, high, width);
    lemma_flat_blurred(width, a.len(), lo, x, y);
    lemma_flat_blurred(width, a.len(), hi, x, y);
    assert(low[y].len() == width && a[y].len() == width);
    lemma_at(exact_blur(low), exact_blur(a), x, y);
    lemma_at(exact_blur(a), exact_blur(high), x, y);
    lemma_total_weight();
    let w = total_weight();
    assert(lo <= w * lo && w * hi <= hi + 1real / 100_000real) by (nonlinear_arith)
        requires
            1real <= w <= 1real + 5real / 1_000_000real,
            0real <= lo,
            0real <= hi <= 1real,
    ;
}

} // verus!
