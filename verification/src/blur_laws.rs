//! What the blur does, in exact arithmetic.
//!
//! The laws read the formulas of [`crate::blur`] over the real numbers. A sample type that
//! rounds meets them up to its rounding.
use crate::arith::{exact_ratio, exact_ring, ring, Sample};
use crate::blur::{
    blur_columns, blur_image, blur_line, blur_rows, blurred_at, clamped, column, first_edge,
    last_edge, tap5,
};
use crate::kernel::{fused, gaussian, Kernel, K_CENTER, K_SIDE, K_UNIT};
use crate::plane::{is_rectangle, rows_of, Plane};
use crate::reals::{lemma_assoc, lemma_comm, lemma_dist, lemma_weighed_sum};
use vstd::prelude::*;

verus! {

/// Sample `j` of a line after one pass with the weights `side`, `center`, `side`. A tap that
/// falls outside reads the line's first or last sample.
pub open spec fn three_tap_at(side: real, center: real, line: Seq<real>, j: int) -> real {
    let n = line.len() as int;
    side * line[clamped(j - 1, n)] + center * line[j] + side * line[clamped(j + 1, n)]
}

/// A line after one three-tap pass.
pub open spec fn three_tap(side: real, center: real, line: Seq<real>) -> Seq<real> {
    Seq::new(line.len(), |j: int| three_tap_at(side, center, line, j))
}

/// Every row after one three-tap pass.
pub open spec fn three_tap_rows(side: real, center: real, rows: Seq<Seq<real>>) -> Seq<Seq<real>> {
    Seq::new(rows.len(), |y: int| three_tap(side, center, rows[y]))
}

/// Every column after one three-tap pass.
pub open spec fn three_tap_columns(side: real, center: real, rows: Seq<Seq<real>>) -> Seq<Seq<real>> {
    Seq::new(
        rows.len(),
        |y: int|
            Seq::new(rows[y].len(), |x: int| three_tap_at(side, center, column(rows, x), y)),
    )
}

/// A sample of an image, or the nearest one where the place is outside.
pub open spec fn nearest(rows: Seq<Seq<real>>, x: int, y: int) -> real {
    let row = rows[clamped(y, rows.len() as int)];
    row[clamped(x, row.len() as int)]
}

/// The 3×3 Gaussian at a place: corners weigh `side * side`, the other neighbours
/// `side * center`, the sample itself `center * center`.
pub open spec fn gaussian3_at(side: real, center: real, rows: Seq<Seq<real>>, x: int, y: int) -> real {
    side * side * (nearest(rows, x - 1, y - 1) + nearest(rows, x + 1, y - 1) + nearest(
        rows,
        x - 1,
        y + 1,
    ) + nearest(rows, x + 1, y + 1)) + side * center * (nearest(rows, x, y - 1) + nearest(
        rows,
        x - 1,
        y,
    ) + nearest(rows, x + 1, y) + nearest(rows, x, y + 1)) + center * center * nearest(rows, x, y)
}

/// An image blurred by the 3×3 Gaussian.
pub open spec fn gaussian3(side: real, center: real, rows: Seq<Seq<real>>) -> Seq<Seq<real>> {
    Seq::new(
        rows.len(),
        |y: int| Seq::new(rows[y].len(), |x: int| gaussian3_at(side, center, rows, x, y)),
    )
}

/// The weights of two passes, in exact arithmetic.
pub open spec fn exact_kernel(side: real, center: real) -> Kernel<real> {
    fused(exact_ring(), side, center, 2real)
}

/// One five-tap pass over a line is two clamped three-tap passes, whatever the line's length.
pub proof fn law_line_is_two_three_tap_passes(side: real, center: real, line: Seq<real>)
    requires
        line.len() >= 1,
    ensures
        blur_line(exact_ring(), exact_kernel(side, center), line) == three_tap(
            side,
            center,
            three_tap(side, center, line),
        ),
{
    assert forall|j: int| 0 <= j < line.len() implies blurred_at(
        exact_ring(),
        exact_kernel(side, center),
        line,
        j,
    ) == three_tap_at(side, center, three_tap(side, center, line), j) by {
        lemma_sample_is_two_three_tap_passes(side, center, line, j);
    }
    assert(blur_line(exact_ring(), exact_kernel(side, center), line) =~= three_tap(
        side,
        center,
        three_tap(side, center, line),
    ));
}

/// The weights of two passes, as multiples of the products of the weights of one.
proof fn lemma_exact_kernel(s: real, c: real)
    ensures
        exact_kernel(s, c).outer == s * s,
        exact_kernel(s, c).inner == 2real * (s * c),
        exact_kernel(s, c).mid == 2real * (s * s) + c * c,
        exact_kernel(s, c).edge_center == 2real * (s * s) + c * c + 2real * (s * c),
        exact_kernel(s, c).edge_near == s * s + 2real * (s * c),
        exact_kernel(s, c).edge_far == s * s,
        c * s == s * c,
{
    lemma_assoc(2real, s, c);
    lemma_assoc(2real, s, s);
    lemma_comm(c, s);
}

/// The five-tap weights away from the ends of a line are those of two passes.
proof fn lemma_tap5(s: real, c: real, a: real, b: real, m: real, d: real, e: real)
    ensures
        tap5(exact_ring(), exact_kernel(s, c), a, b, m, d, e) == s * (s * a + c * b + s * m) + c * (
        s * b + c * m + s * d) + s * (s * m + c * d + s * e),
{
    let (ss, sc, cc) = (s * s, s * c, c * c);
    lemma_exact_kernel(s, c);
    lemma_dist(ss, a, e);
    lemma_dist(2real * sc, b, d);
    lemma_assoc(2real, sc, b);
    lemma_assoc(2real, sc, d);
    lemma_dist(m, 2real * ss, cc);
    lemma_comm(m, 2real * ss);
    lemma_comm(m, cc);
    lemma_assoc(2real, ss, m);
    lemma_comm(a, ss);
    lemma_comm(e, ss);
    lemma_comm(b, 2real * sc);
    lemma_comm(d, 2real * sc);
    lemma_weighed_sum(s, s, a, c, b, s, m);
    lemma_weighed_sum(c, s, b, c, m, s, d);
    lemma_weighed_sum(s, s, m, c, d, s, e);
}

/// The weights at the end of a line are those of two passes.
proof fn lemma_edge(s: real, c: real, p0: real, p1: real, p2: real)
    ensures
        first_edge(exact_ring(), exact_kernel(s, c), p0, p1, p2) == s * (s * p0 + c * p0 + s * p1)
            + c * (s * p0 + c * p0 + s * p1) + s * (s * p0 + c * p1 + s * p2),
        last_edge(exact_ring(), exact_kernel(s, c), p2, p1, p0) == s * (s * p2 + c * p1 + s * p0) + c
            * (s * p1 + c * p0 + s * p0) + s * (s * p1 + c * p0 + s * p0),
{
    let (ss, sc, cc) = (s * s, s * c, c * c);
    lemma_exact_kernel(s, c);
    lemma_dist(p0, 2real * ss + cc, 2real * sc);
    lemma_dist(p0, 2real * ss, cc);
    lemma_assoc(2real, ss, p0);
    lemma_assoc(2real, sc, p0);
    lemma_dist(p1, ss, 2real * sc);
    lemma_assoc(2real, sc, p1);
    lemma_weighed_sum(s, s, p0, c, p0, s, p1);
    lemma_weighed_sum(c, s, p0, c, p0, s, p1);
    lemma_weighed_sum(s, s, p0, c, p1, s, p2);
    lemma_weighed_sum(s, s, p2, c, p1, s, p0);
    lemma_weighed_sum(c, s, p1, c, p0, s, p0);
    lemma_weighed_sum(s, s, p1, c, p0, s, p0);
}

proof fn lemma_sample_is_two_three_tap_passes(side: real, center: real, line: Seq<real>, j: int)
    requires
        0 <= j < line.len(),
    ensures
        blurred_at(exact_ring(), exact_kernel(side, center), line, j) == three_tap_at(
            side,
            center,
            three_tap(side, center, line),
            j,
        ),
{
    let n = line.len() as int;
    let once = three_tap(side, center, line);
    let before = clamped(j - 1, n);
    let after = clamped(j + 1, n);
    assert(once[before] == three_tap_at(side, center, line, before));
    assert(once[j] == three_tap_at(side, center, line, j));
    assert(once[after] == three_tap_at(side, center, line, after));
    if j == 0 {
        lemma_edge(side, center, line[0], line[clamped(1, n)], line[clamped(2, n)]);
    } else if j == n - 1 {
        lemma_edge(side, center, line[n - 1], line[n - 2], line[clamped(n - 3, n)]);
    } else {
        lemma_tap5(
            side,
            center,
            line[clamped(j - 2, n)],
            line[clamped(j - 1, n)],
            line[j],
            line[clamped(j + 1, n)],
            line[clamped(j + 2, n)],
        );
    }
}

/// Three-tap passes over nine samples, along the rows and then along the columns or the other
/// way round, are the 3×3 Gaussian.
proof fn lemma_nine(
    s: real,
    c: real,
    a0: real,
    a1: real,
    a2: real,
    b0: real,
    b1: real,
    b2: real,
    d0: real,
    d1: real,
    d2: real,
)
    ensures
        s * (s * a0 + c * a1 + s * a2) + c * (s * b0 + c * b1 + s * b2) + s * (s * d0 + c * d1 + s
            * d2) == s * s * (a0 + a2 + d0 + d2) + s * c * (a1 + b0 + b2 + d1) + c * c * b1,
        s * (s * a0 + c * b0 + s * d0) + c * (s * a1 + c * b1 + s * d1) + s * (s * a2 + c * b2 + s
            * d2) == s * s * (a0 + a2 + d0 + d2) + s * c * (a1 + b0 + b2 + d1) + c * c * b1,
{
    let (ss, sc, cc) = (s * s, s * c, c * c);
    lemma_comm(c, s);
    lemma_weighed_sum(s, s, a0, c, a1, s, a2);
    lemma_weighed_sum(c, s, b0, c, b1, s, b2);
    lemma_weighed_sum(s, s, d0, c, d1, s, d2);
    lemma_weighed_sum(s, s, a0, c, b0, s, d0);
    lemma_weighed_sum(c, s, a1, c, b1, s, d1);
    lemma_weighed_sum(s, s, a2, c, b2, s, d2);
    lemma_dist(ss, a0 + a2 + d0, d2);
    lemma_dist(ss, a0 + a2, d0);
    lemma_dist(ss, a0, a2);
    lemma_dist(sc, a1 + b0 + b2, d1);
    lemma_dist(sc, a1 + b0, b2);
    lemma_dist(sc, a1, b0);
}

/// One pass along the rows and one along the columns are the 3×3 Gaussian at every place.
proof fn lemma_passes_at(side: real, center: real, rows: Seq<Seq<real>>, width: nat, x: int, y: int)
    requires
        is_rectangle(rows, width),
        0 <= x < width,
        0 <= y < rows.len(),
    ensures
        three_tap_columns(side, center, three_tap_rows(side, center, rows))[y][x] == gaussian3_at(
            side,
            center,
            rows,
            x,
            y,
        ),
        three_tap_rows(side, center, three_tap_columns(side, center, rows))[y][x] == gaussian3_at(
            side,
            center,
            rows,
            x,
            y,
        ),
{
    let h = rows.len() as int;
    let w = width as int;
    let across = three_tap_rows(side, center, rows);
    let down = three_tap_columns(side, center, rows);
    let (x0, x2) = (clamped(x - 1, w), clamped(x + 1, w));
    let (y0, y2) = (clamped(y - 1, h), clamped(y + 1, h));
    assert(rows[y0].len() == w && rows[y].len() == w && rows[y2].len() == w);
    lemma_nine(
        side,
        center,
        rows[y0][x0],
        rows[y0][x],
        rows[y0][x2],
        rows[y][x0],
        rows[y][x],
        rows[y][x2],
        rows[y2][x0],
        rows[y2][x],
        rows[y2][x2],
    );
    assert(column(across, x)[y0] == three_tap_at(side, center, rows[y0], x));
    assert(column(across, x)[y] == three_tap_at(side, center, rows[y], x));
    assert(column(across, x)[y2] == three_tap_at(side, center, rows[y2], x));
    assert(down[y][x0] == three_tap_at(side, center, column(rows, x0), y));
    assert(down[y][x] == three_tap_at(side, center, column(rows, x), y));
    assert(down[y][x2] == three_tap_at(side, center, column(rows, x2), y));
}

/// One pass along the rows and one along the columns are the 3×3 Gaussian, in either order.
proof fn lemma_passes_are_gaussian3(side: real, center: real, rows: Seq<Seq<real>>, width: nat)
    requires
        is_rectangle(rows, width),
    ensures
        three_tap_columns(side, center, three_tap_rows(side, center, rows)) == gaussian3(
            side,
            center,
            rows,
        ),
        three_tap_rows(side, center, three_tap_columns(side, center, rows)) == gaussian3(
            side,
            center,
            rows,
        ),
{
    let across_down = three_tap_columns(side, center, three_tap_rows(side, center, rows));
    let down_across = three_tap_rows(side, center, three_tap_columns(side, center, rows));
    let goal = gaussian3(side, center, rows);
    assert forall|y: int| 0 <= y < rows.len() implies across_down[y] == goal[y] && down_across[y]
        == goal[y] by {
        assert(rows[y].len() == width);
        assert forall|x: int| 0 <= x < width implies across_down[y][x] == goal[y][x]
            && down_across[y][x] == goal[y][x] by {
            lemma_passes_at(side, center, rows, width, x, y);
        }
        assert(across_down[y] =~= goal[y]);
        assert(down_across[y] =~= goal[y]);
    }
    assert(across_down =~= goal);
    assert(down_across =~= goal);
}

/// One five-tap pass over every row is two three-tap passes over every row.
proof fn lemma_rows_are_two_passes(side: real, center: real, rows: Seq<Seq<real>>, width: nat)
    requires
        is_rectangle(rows, width),
        width >= 1,
    ensures
        blur_rows(exact_ring(), exact_kernel(side, center), rows) == three_tap_rows(
            side,
            center,
            three_tap_rows(side, center, rows),
        ),
{
    assert forall|y: int| 0 <= y < rows.len() implies blur_line(
        exact_ring(),
        exact_kernel(side, center),
        #[trigger] rows[y],
    ) == three_tap(side, center, three_tap(side, center, rows[y])) by {
        law_line_is_two_three_tap_passes(side, center, rows[y]);
    }
    assert(blur_rows(exact_ring(), exact_kernel(side, center), rows) =~= three_tap_rows(
        side,
        center,
        three_tap_rows(side, center, rows),
    ));
}

/// One five-tap pass over every column is two three-tap passes over every column.
proof fn lemma_columns_are_two_passes(side: real, center: real, rows: Seq<Seq<real>>, width: nat)
    requires
        is_rectangle(rows, width),
    ensures
        blur_columns(exact_ring(), exact_kernel(side, center), rows) == three_tap_columns(
            side,
            center,
            three_tap_columns(side, center, rows),
        ),
{
    let once = three_tap_columns(side, center, rows);
    let twice = three_tap_columns(side, center, once);
    let blurred = blur_columns(exact_ring(), exact_kernel(side, center), rows);
    assert forall|y: int| 0 <= y < rows.len() implies blurred[y] == twice[y] by {
        assert(rows[y].len() == width);
        assert(once[y].len() == width);
        assert forall|x: int| 0 <= x < width implies blurred[y][x] == twice[y][x] by {
            lemma_sample_is_two_three_tap_passes(side, center, column(rows, x), y);
            assert forall|v: int| 0 <= v < rows.len() implies column(once, x)[v] == three_tap(
                side,
                center,
                column(rows, x),
            )[v] by {
                assert(rows[v].len() == width);
            }
            assert(column(once, x) =~= three_tap(side, center, column(rows, x)));
        }
        assert(blurred[y] =~= twice[y]);
    }
    assert(blurred =~= twice);
}

/// Blurring an image is blurring it twice by the 3×3 Gaussian whose factor is
/// `side`, `center`, `side`.
pub proof fn law_blur_is_two_gaussians(side: real, center: real, rows: Seq<Seq<real>>, width: nat)
    requires
        is_rectangle(rows, width),
        width >= 1,
    ensures
        blur_image(exact_ring(), exact_kernel(side, center), rows) == gaussian3(
            side,
            center,
            gaussian3(side, center, rows),
        ),
{
    let across = three_tap_rows(side, center, rows);
    let across2 = three_tap_rows(side, center, across);
    assert forall|y: int| 0 <= y < rows.len() implies (#[trigger] across[y]).len() == width
        && across2[y].len() == width by {
        assert(rows[y].len() == width);
    }
    assert(is_rectangle(across, width));
    assert forall|y: int| 0 <= y < rows.len() implies (#[trigger] across2[y]).len() == width by {
        assert(across[y].len() == width);
    }
    assert(is_rectangle(across2, width));
    lemma_rows_are_two_passes(side, center, rows, width);
    lemma_columns_are_two_passes(side, center, across2, width);
    // Of the four passes, the second and the third change places.
    lemma_passes_are_gaussian3(side, center, across, width);
    lemma_passes_are_gaussian3(side, center, rows, width);
    let once = gaussian3(side, center, rows);
    assert forall|y: int| 0 <= y < rows.len() implies (#[trigger] once[y]).len() == width by {
        assert(rows[y].len() == width);
    }
    assert(is_rectangle(once, width));
    lemma_passes_are_gaussian3(side, center, once, width);
}

/// A line read backwards.
pub open spec fn mirrored(line: Seq<real>) -> Seq<real> {
    Seq::new(line.len(), |j: int| line[line.len() - 1 - j])
}

/// The blur has no direction: the two ends of a line are treated alike.
pub proof fn law_mirrored_line(side: real, center: real, line: Seq<real>)
    requires
        line.len() >= 1,
    ensures
        blur_line(exact_ring(), exact_kernel(side, center), mirrored(line)) == mirrored(
            blur_line(exact_ring(), exact_kernel(side, center), line),
        ),
{
    let once = three_tap(side, center, line);
    assert(three_tap(side, center, mirrored(line)) =~= mirrored(once));
    assert(three_tap(side, center, mirrored(once)) =~= mirrored(three_tap(side, center, once)));
    law_line_is_two_three_tap_passes(side, center, line);
    law_line_is_two_three_tap_passes(side, center, mirrored(line));
}

/// All samples of an image are `v`.
pub open spec fn is_constant(rows: Seq<Seq<real>>, v: real) -> bool {
    forall|y: int, x: int| 0 <= y < rows.len() && 0 <= x < rows[y].len() ==> #[trigger] rows[y][x] == v
}

/// A constant image stays constant: each of the four passes scales it by the sum of the weights.
pub proof fn law_constant_image(side: real, center: real, rows: Seq<Seq<real>>, width: nat, v: real)
    requires
        is_rectangle(rows, width),
        width >= 1,
        is_constant(rows, v),
    ensures
        is_rectangle(blur_image(exact_ring(), exact_kernel(side, center), rows), width),
        ({
            let sum = side + center + side;
            is_constant(
                blur_image(exact_ring(), exact_kernel(side, center), rows),
                sum * (sum * (sum * (sum * v))),
            )
        }),
{
    let sum = side + center + side;
    let across = blur_rows(exact_ring(), exact_kernel(side, center), rows);
    let image = blur_columns(exact_ring(), exact_kernel(side, center), across);
    assert forall|y: int| 0 <= y < rows.len() implies (#[trigger] across[y]).len() == width by {
        assert(rows[y].len() == width);
    }
    assert forall|y: int, x: int| 0 <= y < rows.len() && 0 <= x < width implies #[trigger] across[y][x]
        == sum * (sum * v) by {
        assert(rows[y].len() == width);
        lemma_constant_line(side, center, rows[y], v, x);
    }
    assert forall|y: int| 0 <= y < rows.len() implies (#[trigger] image[y]).len() == width by {
        assert(across[y].len() == width);
    }
    assert forall|y: int, x: int| 0 <= y < rows.len() && 0 <= x < width implies #[trigger] image[y][x]
        == sum * (sum * (sum * (sum * v))) by {
        assert(across[y].len() == width);
        let line = column(across, x);
        assert forall|j: int| 0 <= j < line.len() implies #[trigger] line[j] == sum * (sum * v) by {
            assert(across[j].len() == width);
            assert(line[j] == across[j][x]);
        }
        lemma_constant_line(side, center, line, sum * (sum * v), y);
    }
}

proof fn lemma_constant_line(side: real, center: real, line: Seq<real>, v: real, j: int)
    requires
        0 <= j < line.len(),
        forall|i: int| 0 <= i < line.len() ==> #[trigger] line[i] == v,
    ensures
        ({
            let sum = side + center + side;
            blurred_at(exact_ring(), exact_kernel(side, center), line, j) == sum * (sum * v)
        }),
{
    let sum = side + center + side;
    let once = three_tap(side, center, line);
    assert forall|i: int| 0 <= i < line.len() implies #[trigger] once[i] == sum * v by {
        lemma_dist(v, side + center, side);
        lemma_dist(v, side, center);
    }
    lemma_dist(sum * v, side + center, side);
    lemma_dist(sum * v, side, center);
    lemma_sample_is_two_three_tap_passes(side, center, line, j);
}

/// The weights of the Gaussian sum to one within a millionth, and they are the factor of the
/// 3×3 Gaussian with the weights 0.095332, 0.118095 and 0.146293.
pub proof fn law_gaussian_weights()
    ensures
        ({
            let side = exact_ratio()(K_SIDE, K_UNIT);
            let center = exact_ratio()(K_CENTER, K_UNIT);
            let millionth = exact_ratio()(1, 1_000_000);
            &&& gaussian(exact_ring(), exact_ratio()) == exact_kernel(side, center)
            &&& 100_000_000real * side == 30_875_886real && 100_000_000real * center == 38_248_280real
            &&& 1real <= side + center + side <= 1real + millionth
            &&& near(side * side, exact_ratio()(95_332, 1_000_000), millionth)
            &&& near(side * center, exact_ratio()(118_095, 1_000_000), millionth)
            &&& near(center * center, exact_ratio()(146_293, 1_000_000), millionth)
        }),
{
    let side = exact_ratio()(K_SIDE, K_UNIT);
    let center = exact_ratio()(K_CENTER, K_UNIT);
    assert(side == 30_875_886real / 100_000_000real);
    assert(center == 38_248_280real / 100_000_000real);
    assert(exact_ratio()(2, 1) == 2real / 1real);
    assert(side * side == 30_875_886real / 100_000_000real * (30_875_886real / 100_000_000real));
    assert(side * center == 30_875_886real / 100_000_000real * (38_248_280real / 100_000_000real));
    assert(center * center == 38_248_280real / 100_000_000real * (38_248_280real / 100_000_000real));
    assert(exact_ratio()(1, 1_000_000) == 1real / 1_000_000real);
    assert(exact_ratio()(95_332, 1_000_000) == 95_332real / 1_000_000real);
    assert(exact_ratio()(118_095, 1_000_000) == 118_095real / 1_000_000real);
    assert(exact_ratio()(146_293, 1_000_000) == 146_293real / 1_000_000real);
}

/// Two numbers are no farther apart than `distance`.
pub open spec fn near(a: real, b: real, distance: real) -> bool {
    a - b <= distance && b - a <= distance
}

/// A number without its sign.
pub open spec fn magnitude(v: real) -> real {
    if v < 0real {
        -v
    } else {
        v
    }
}

/// A constant image keeps its value, within three millionths of it.
pub proof fn law_constant_image_is_kept(rows: Seq<Seq<real>>, width: nat, v: real)
    requires
        is_rectangle(rows, width),
        width >= 1,
        is_constant(rows, v),
    ensures
        ({
            let image = blur_image(exact_ring(), gaussian(exact_ring(), exact_ratio()), rows);
            &&& is_rectangle(image, width)
            &&& forall|y: int, x: int|
                0 <= y < rows.len() && 0 <= x < width ==> near(
                    #[trigger] image[y][x],
                    v,
                    exact_ratio()(3, 1_000_000) * magnitude(v),
                )
        }),
{
    let side = exact_ratio()(K_SIDE, K_UNIT);
    let center = exact_ratio()(K_CENTER, K_UNIT);
    let sum = side + center + side;
    law_gaussian_weights();
    law_constant_image(side, center, rows, width, v);
    assert(side == 30_875_886real / 100_000_000real);
    assert(center == 38_248_280real / 100_000_000real);
    assert(sum == 100_000_052real / 100_000_000real);
    assert(exact_ratio()(3, 1_000_000) == 3real / 1_000_000real);
    assert(sum * v == 100_000_052real / 100_000_000real * v);
    assert(sum * (sum * v) == 100_000_052real / 100_000_000real * (sum * v));
    assert(sum * (sum * (sum * v)) == 100_000_052real / 100_000_000real * (sum * (sum * v)));
    assert(sum * (sum * (sum * (sum * v))) == 100_000_052real / 100_000_000real * (sum * (sum * (sum * v))));
    assert(exact_ratio()(3, 1_000_000) * magnitude(v) == 3real / 1_000_000real * magnitude(v));
}

/// Blurring in place gives the samples that blurring into a new plane gives.
pub proof fn law_in_place_is_blur<T: Sample>(
    k: Kernel<T>,
    before: Seq<T>,
    after: Seq<T>,
    width: int,
    height: int,
    stride: int,
    out: Plane<T>,
)
    requires
        rows_of(after, width, height, stride) == blur_image(
            ring::<T>(),
            k,
            rows_of(before, width, height, stride),
        ),
        out.view() == blur_image(ring::<T>(), k, rows_of(before, width, height, stride)),
    ensures
        rows_of(after, width, height, stride) == out.view(),
{
}

} // verus!
