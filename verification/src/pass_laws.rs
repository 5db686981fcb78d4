//! How the passes of the blur relate to each other, in any arithmetic.
use crate::arith::Ring;
use crate::blur::{
    blur_columns, blur_image, blur_line, blur_rows, blurrable, clamped, column, product_image, product_line,
    scratch_used,
};
use crate::kernel::Kernel;
use crate::plane::{fits, is_rectangle, lemma_row_in_bounds, lemma_tight_fits, row_of, rows_of};
use vstd::prelude::*;

verus! {

/// The columns of an image as rows.
pub open spec fn transposed<T>(rows: Seq<Seq<T>>, width: nat) -> Seq<Seq<T>> {
    Seq::new(width, |x: int| column(rows, x))
}

/// The pass over the columns is the pass over the rows of the transposed image, ends of the lines
/// and all.
pub proof fn law_columns_are_transposed_rows<T>(r: Ring<T>, k: Kernel<T>, rows: Seq<Seq<T>>, width: nat)
    requires
        is_rectangle(rows, width),
    ensures
        blur_columns(r, k, rows) == transposed(blur_rows(r, k, transposed(rows, width)), rows.len()),
{
    let goal = transposed(blur_rows(r, k, transposed(rows, width)), rows.len());
    let down = blur_columns(r, k, rows);
    assert forall|y: int| 0 <= y < rows.len() implies down[y] == goal[y] by {
        assert(rows[y].len() == width);
        assert forall|x: int| 0 <= x < width implies down[y][x] == goal[y][x] by {
            assert(transposed(rows, width)[x] == column(rows, x));
            assert(blur_rows(r, k, transposed(rows, width))[x] == blur_line(r, k, column(rows, x)));
        }
        assert(down[y] =~= goal[y]);
    }
    assert(down =~= goal);
}

/// Buffers whose rows follow each other without padding have the same cells if they have the same
/// rows.
proof fn lemma_same_rows_same_cells<T>(a: Seq<T>, b: Seq<T>, width: int, height: int)
    requires
        width > 0,
        height >= 0,
        width * height <= a.len(),
        width * height <= b.len(),
        rows_of(a, width, height, width) == rows_of(b, width, height, width),
    ensures
        forall|i: int| 0 <= i < width * height ==> #[trigger] a[i] == b[i],
{
    assert forall|i: int| 0 <= i < width * height implies #[trigger] a[i] == b[i] by {
        let y = i / width;
        let x = i % width;
        vstd::arithmetic::div_mod::lemma_fundamental_div_mod(i, width);
        assert(0 <= x < width) by (nonlinear_arith)
            requires
                x == i % width,
                width > 0,
        ;
        assert(0 <= y < height) by (nonlinear_arith)
            requires
                i == width * y + x,
                0 <= x < width,
                0 <= i < width * height,
                width > 0,
        ;
        assert(width * y == y * width) by (nonlinear_arith);
        lemma_tight_fits(a.len(), width, height);
        lemma_tight_fits(b.len(), width, height);
        lemma_row_in_bounds(a.len(), width, height, width, y);
        lemma_row_in_bounds(b.len(), width, height, width, y);
        assert(rows_of(a, width, height, width)[y] == rows_of(b, width, height, width)[y]);
        assert(row_of(a, width, width, y)[x] == row_of(b, width, width, y)[x]);
    }
}

/// The cell of row `y` at `x`.
pub open spec fn cell<T>(buf: Seq<T>, stride: int, x: int, y: int) -> T {
    buf[y * stride + x]
}

/// The same, cell by cell: the second pass over an image and the first pass over the transposed
/// image fill their buffers with the same samples, at transposed places.
pub proof fn law_second_pass_is_transposed_first<T>(
    r: Ring<T>,
    k: Kernel<T>,
    src: Seq<T>,
    src_t: Seq<T>,
    width: int,
    height: int,
    down: Seq<T>,
    across: Seq<T>,
)
    requires
        width > 0,
        height > 0,
        width * height <= src.len(),
        width * height <= src_t.len(),
        width * height <= down.len(),
        width * height <= across.len(),
        forall|x: int, y: int|
            0 <= x < width && 0 <= y < height ==> #[trigger] cell(src_t, height, y, x) == cell(src, width, x, y),
        rows_of(down, width, height, width) == blur_columns(r, k, rows_of(src, width, height, width)),
        rows_of(across, height, width, height) == blur_rows(r, k, rows_of(src_t, height, width, height)),
    ensures
        forall|x: int, y: int|
            0 <= x < width && 0 <= y < height ==> #[trigger] cell(down, width, x, y) == cell(across, height, y, x),
{
    let rows = rows_of(src, width, height, width);
    let rows_t = rows_of(src_t, height, width, height);
    assert(width * height == height * width) by (nonlinear_arith);
    lemma_tight_fits(src.len(), width, height);
    lemma_tight_fits(down.len(), width, height);
    lemma_tight_fits(src_t.len(), height, width);
    lemma_tight_fits(across.len(), height, width);
    assert forall|y: int| 0 <= y < height implies (#[trigger] rows[y]).len() == width by {
        lemma_row_in_bounds(src.len(), width, height, width, y);
    }
    assert(is_rectangle(rows, width as nat));
    law_columns_are_transposed_rows(r, k, rows, width as nat);
    assert forall|x: int| 0 <= x < width implies rows_t[x] == transposed(rows, width as nat)[x] by {
        lemma_row_in_bounds(src_t.len(), height, width, height, x);
        assert forall|y: int| 0 <= y < height implies rows_t[x][y] == column(rows, x)[y] by {
            lemma_row_in_bounds(src.len(), width, height, width, y);
            assert(rows_t[x][y] == cell(src_t, height, y, x));
            assert(rows[y][x] == cell(src, width, x, y));
        }
        assert(rows_t[x] =~= column(rows, x));
    }
    assert(rows_t =~= transposed(rows, width as nat));
    assert forall|x: int, y: int| 0 <= x < width && 0 <= y < height implies #[trigger] cell(down, width, x, y)
        == cell(across, height, y, x) by {
        lemma_row_in_bounds(down.len(), width, height, width, y);
        lemma_row_in_bounds(across.len(), height, width, height, x);
        assert(rows_of(down, width, height, width)[y][x] == cell(down, width, x, y));
        assert(rows_of(across, height, width, height)[x][y] == cell(across, height, y, x));
        assert(transposed(blur_rows(r, k, rows_t), height as nat)[y][x] == blur_rows(r, k, rows_t)[x][y]);
    }
}

/// `products` holds, without padding, the products of the samples at the same place of two images.
pub open spec fn are_products<T>(
    r: Ring<T>,
    products: Seq<T>,
    src1: Seq<T>,
    stride1: int,
    src2: Seq<T>,
    stride2: int,
    width: int,
    height: int,
) -> bool {
    forall|x: int, y: int|
        0 <= x < width && 0 <= y < height ==> #[trigger] cell(products, width, x, y) == (r.times)(
            cell(src1, stride1, x, y),
            cell(src2, stride2, x, y),
        )
}

/// The pass over the rows of the products of two images fills a buffer with the same cells as the
/// plain pass over the image of those products; and so it is with the whole blur.
pub proof fn law_product_pass_is_pass_on_products<T>(
    r: Ring<T>,
    k: Kernel<T>,
    src1: Seq<T>,
    stride1: int,
    src2: Seq<T>,
    stride2: int,
    products: Seq<T>,
    width: int,
    height: int,
    dst: Seq<T>,
    plain: Seq<T>,
)
    requires
        width > 0,
        fits(src1.len(), width, height, stride1),
        fits(src2.len(), width, height, stride2),
        width * height <= products.len(),
        are_products(r, products, src1, stride1, src2, stride2, width, height),
        width * height <= dst.len(),
        width * height <= plain.len(),
        rows_of(dst, width, height, width) == blur_rows(
            r,
            k,
            product_image(
                r,
                rows_of(src1, width, height, stride1),
                rows_of(src2, width, height, stride2),
            ),
        ),
        rows_of(plain, width, height, width) == blur_rows(
            r,
            k,
            rows_of(products, width, height, width),
        ),
    ensures
        forall|i: int| 0 <= i < width * height ==> #[trigger] dst[i] == plain[i],
        blur_image(
            r,
            k,
            product_image(
                r,
                rows_of(src1, width, height, stride1),
                rows_of(src2, width, height, stride2),
            ),
        ) == blur_image(r, k, rows_of(products, width, height, width)),
{
    let rows1 = rows_of(src1, width, height, stride1);
    let rows2 = rows_of(src2, width, height, stride2);
    let goal = product_image(r, rows1, rows2);
    let rows = rows_of(products, width, height, width);
    lemma_tight_fits(products.len(), width, height);
    assert forall|y: int| 0 <= y < height implies rows[y] == goal[y] by {
        lemma_row_in_bounds(products.len(), width, height, width, y);
        lemma_row_in_bounds(src1.len(), width, height, stride1, y);
        lemma_row_in_bounds(src2.len(), width, height, stride2, y);
        assert forall|x: int| 0 <= x < width implies rows[y][x] == goal[y][x] by {
            assert(rows[y][x] == cell(products, width, x, y));
            assert(rows1[y][x] == cell(src1, stride1, x, y));
            assert(rows2[y][x] == cell(src2, stride2, x, y));
        }
        assert(rows[y] =~= goal[y]);
    }
    assert(rows =~= goal);
    lemma_same_rows_same_cells(dst, plain, width, height);
}

/// A row of the first pass depends on the same row of the image alone: not on the other rows, and
/// not on the padding.
pub proof fn law_row_pass_is_local<T>(
    r: Ring<T>,
    k: Kernel<T>,
    a: Seq<T>,
    b: Seq<T>,
    width: int,
    height: int,
    stride: int,
    y: int,
    dst_a: Seq<T>,
    dst_b: Seq<T>,
)
    requires
        width > 0,
        0 <= y < height,
        fits(a.len(), width, height, stride),
        fits(b.len(), width, height, stride),
        forall|x: int| 0 <= x < width ==> #[trigger] cell(a, stride, x, y) == cell(b, stride, x, y),
        rows_of(dst_a, width, height, width) == blur_rows(r, k, rows_of(a, width, height, stride)),
        rows_of(dst_b, width, height, width) == blur_rows(r, k, rows_of(b, width, height, stride)),
    ensures
        row_of(dst_a, width, width, y) == row_of(dst_b, width, width, y),
{
    lemma_row_in_bounds(a.len(), width, height, stride, y);
    lemma_row_in_bounds(b.len(), width, height, stride, y);
    let row_a = row_of(a, width, stride, y);
    let row_b = row_of(b, width, stride, y);
    assert forall|x: int| 0 <= x < width implies row_a[x] == row_b[x] by {
        assert(cell(a, stride, x, y) == cell(b, stride, x, y));
    }
    assert(row_a =~= row_b);
    assert(rows_of(dst_a, width, height, width)[y] == blur_line(r, k, row_a));
    assert(rows_of(dst_b, width, height, width)[y] == blur_line(r, k, row_b));
}

/// Where multiplication commutes, the blurred products of two images are the same whichever of the
/// two comes first.
pub proof fn law_product_blur_is_symmetric<T>(
    r: Ring<T>,
    k: Kernel<T>,
    a: Seq<Seq<T>>,
    b: Seq<Seq<T>>,
    width: int,
    height: int,
    out_ab: Seq<T>,
    out_ba: Seq<T>,
)
    requires
        forall|p: T, q: T| #[trigger] (r.times)(p, q) == (r.times)(q, p),
        width > 0,
        height >= 0,
        a.len() == b.len(),
        is_rectangle(a, width as nat),
        is_rectangle(b, width as nat),
        width * height <= out_ab.len(),
        width * height <= out_ba.len(),
        rows_of(out_ab, width, height, width) == blur_image(r, k, product_image(r, a, b)),
        rows_of(out_ba, width, height, width) == blur_image(r, k, product_image(r, b, a)),
    ensures
        forall|i: int| 0 <= i < width * height ==> #[trigger] out_ab[i] == out_ba[i],
{
    assert forall|y: int| 0 <= y < a.len() implies product_line(r, #[trigger] a[y], b[y]) == product_line(r, b[y], a[y]) by {
        assert(a[y].len() == width && b[y].len() == width);
        assert(product_line(r, a[y], b[y]) =~= product_line(r, b[y], a[y]));
    }
    assert(product_image(r, a, b) =~= product_image(r, b, a));
    lemma_same_rows_same_cells(out_ab, out_ba, width, height);
}

/// A place outside of a line is moved to the nearest one that is inside.
pub proof fn law_clamped(i: int, n: int, other: int)
    requires
        0 <= other < n,
    ensures
        0 <= clamped(i, n) < n,
        0 <= i < n ==> clamped(i, n) == i,
        i < 0 ==> clamped(i, n) - i <= other - i,
        i >= n ==> i - clamped(i, n) <= i - other,
{
}

/// Every sample of a blurred line: the first and the last are made of three samples, all the others of
/// five, two on each side, of which those outside the line are its first or last.
pub proof fn law_line_samples<T>(r: Ring<T>, k: Kernel<T>, line: Seq<T>, j: int)
    requires
        0 <= j < line.len(),
    ensures
        blur_line(r, k, line).len() == line.len(),
        ({
            let n = line.len() as int;
            let p0 = line[0];
            let p1 = line[if n > 1 { 1int } else { 0 }];
            let p2 = line[if n > 2 { 2int } else { n - 1 }];
            j == 0 ==> blur_line(r, k, line)[j] == (r.plus)(
                (r.plus)((r.times)(k.edge_center, p0), (r.times)(k.edge_near, p1)),
                (r.times)(k.edge_far, p2),
            )
        }),
        ({
            let n = line.len() as int;
            let p2 = line[if n > 2 { n - 3 } else { 0 }];
            0 < j == n - 1 ==> blur_line(r, k, line)[j] == (r.plus)(
                (r.plus)((r.times)(k.edge_far, p2), (r.times)(k.edge_near, line[n - 2])),
                (r.times)(k.edge_center, line[n - 1]),
            )
        }),
        ({
            let n = line.len() as int;
            let before = line[if j > 1 { j - 2 } else { 0 }];
            let after = line[if j + 2 < n { j + 2 } else { n - 1 }];
            0 < j < n - 1 ==> blur_line(r, k, line)[j] == (r.plus)(
                (r.plus)(
                    (r.times)((r.plus)(before, after), k.outer),
                    (r.times)((r.plus)(line[j - 1], line[j + 1]), k.inner),
                ),
                (r.times)(line[j], k.mid),
            )
        }),
{
}

/// Every sample of a blurred image: the rows are blurred as lines, and then the columns of the blurred
/// rows.
pub proof fn law_image_samples<T>(r: Ring<T>, k: Kernel<T>, rows: Seq<Seq<T>>, width: nat, x: int, y: int)
    requires
        is_rectangle(rows, width),
        0 <= y < rows.len(),
        0 <= x < width,
    ensures
        blur_image(r, k, rows).len() == rows.len(),
        blur_image(r, k, rows)[y].len() == width,
        blur_image(r, k, rows)[y][x] == blur_line(
            r,
            k,
            Seq::new(rows.len(), |v: int| blur_line(r, k, rows[v])[x]),
        )[y],
{
    let across = blur_rows(r, k, rows);
    assert(rows[y].len() == width);
    assert(column(across, x) =~= Seq::new(rows.len(), |v: int| blur_line(r, k, rows[v])[x]));
}

/// Away from the ends of a line, a sample depends on the five samples around it alone and not on its
/// place: where the same five stand, in the same line or in another, the result is the same.
pub proof fn law_same_window_same_sample<T>(r: Ring<T>, k: Kernel<T>, a: Seq<T>, i: int, b: Seq<T>, j: int)
    requires
        2 <= i < a.len() - 2,
        2 <= j < b.len() - 2,
        a.subrange(i - 2, i + 3) == b.subrange(j - 2, j + 3),
    ensures
        blur_line(r, k, a)[i] == blur_line(r, k, b)[j],
{
    let (s, t) = (a.subrange(i - 2, i + 3), b.subrange(j - 2, j + 3));
    assert(a[i - 2] == s[0] && a[i - 1] == s[1] && a[i] == s[2] && a[i + 1] == s[3] && a[i + 2] == s[4]);
    assert(b[j - 2] == t[0] && b[j - 1] == t[1] && b[j] == t[2] && b[j + 1] == t[3] && b[j + 2] == t[4]);
    law_line_samples(r, k, a, i);
    law_line_samples(r, k, b, j);
}

/// The product of two images has at every place the product of the samples there.
pub proof fn law_products_are_pointwise<T>(r: Ring<T>, a: Seq<Seq<T>>, b: Seq<Seq<T>>, x: int, y: int)
    requires
        0 <= y < a.len(),
        0 <= x < a[y].len(),
    ensures
        product_image(r, a, b).len() == a.len(),
        product_image(r, a, b)[y].len() == a[y].len(),
        product_image(r, a, b)[y][x] == (r.times)(a[y][x], b[y][x]),
{
}

/// Every image with sides from 1 to 2^24 - 1 can be blurred.
pub proof fn law_blurrable(width: int, height: int)
    requires
        1 <= width <= 16_777_215,
        1 <= height <= 16_777_215,
    ensures
        blurrable(width, height),
{
}

/// The buffer for the first pass is as long as before, has the blurred rows in its first cells, one for
/// each sample, and holds behind them what it held.
pub proof fn law_scratch<T>(before: Seq<T>, after: Seq<T>, rows: Seq<Seq<T>>, width: int, height: int, i: int)
    requires
        scratch_used(before, after, rows, width, height),
        0 < width,
        0 <= height,
        width * height <= before.len(),
        0 <= i < before.len(),
    ensures
        after.len() == before.len(),
        i >= width * height ==> after[i] == before[i],
        i < width * height ==> after[i] == rows[i / width][i % width],
{
    if i < width * height {
        let (y, x) = (i / width, i % width);
        vstd::arithmetic::div_mod::lemma_fundamental_div_mod(i, width);
        assert(0 <= x < width && 0 <= y < height && width * y == y * width) by (nonlinear_arith)
            requires
                x == i % width,
                i == width * y + x,
                0 <= i < width * height,
                width > 0,
        ;
        lemma_tight_fits(after.len(), width, height);
        lemma_row_in_bounds(after.len(), width, height, width, y);
        assert(rows_of(after, width, height, width)[y][x] == after[y * width + x]);
    }
}

} // verus!
