//! Gaussian blur of a plane.
//!
//! A line is blurred by one five-tap pass with the weights of two clamped three-tap passes (see
//! [`crate::kernel`]). Away from its ends a line's own samples are weighed; a tap that falls
//! outside reads the line's first or last sample. The first and the last sample have weights of
//! their own: with those of the inner samples they would count once too often.
use crate::arith::{ring, ring_total, Ring, Sample};
use crate::kernel::Kernel;
use crate::plane::{
    fits, in_rows, lemma_row_in_bounds, lemma_row_written,
    lemma_tight_fits, row_of, rows_of, window_mut, Plane, PlaneMut, PlaneRef,
};
use vstd::prelude::*;

verus! {

/// Five samples in a row, weighed.
pub open spec fn tap5<T>(r: Ring<T>, k: Kernel<T>, m2: T, m1: T, c: T, p1: T, p2: T) -> T {
    (r.plus)(
        (r.plus)((r.times)((r.plus)(m2, p2), k.outer), (r.times)((r.plus)(m1, p1), k.inner)),
        (r.times)(c, k.mid),
    )
}

/// The first three samples of a line, weighed for the first.
pub open spec fn first_edge<T>(r: Ring<T>, k: Kernel<T>, p0: T, p1: T, p2: T) -> T {
    (r.plus)(
        (r.plus)((r.times)(k.edge_center, p0), (r.times)(k.edge_near, p1)),
        (r.times)(k.edge_far, p2),
    )
}

/// The last three samples of a line, weighed for the last.
pub open spec fn last_edge<T>(r: Ring<T>, k: Kernel<T>, p2: T, p1: T, p0: T) -> T {
    (r.plus)(
        (r.plus)((r.times)(k.edge_far, p2), (r.times)(k.edge_near, p1)),
        (r.times)(k.edge_center, p0),
    )
}

/// The index nearest to `i` in a line of `n`.
pub open spec fn clamped(i: int, n: int) -> int {
    if i < 0 {
        0
    } else if i >= n {
        n - 1
    } else {
        i
    }
}

/// Sample `j` of the blurred line.
pub open spec fn blurred_at<T>(r: Ring<T>, k: Kernel<T>, line: Seq<T>, j: int) -> T {
    let n = line.len() as int;
    if j == 0 {
        first_edge(r, k, line[0], line[clamped(1, n)], line[clamped(2, n)])
    } else if j == n - 1 {
        last_edge(r, k, line[clamped(n - 3, n)], line[n - 2], line[n - 1])
    } else {
        tap5(
            r,
            k,
            line[clamped(j - 2, n)],
            line[clamped(j - 1, n)],
            line[j],
            line[clamped(j + 1, n)],
            line[clamped(j + 2, n)],
        )
    }
}

/// The blurred line.
pub open spec fn blur_line<T>(r: Ring<T>, k: Kernel<T>, line: Seq<T>) -> Seq<T> {
    Seq::new(line.len(), |j: int| blurred_at(r, k, line, j))
}

/// Column `x` of a rectangle.
pub open spec fn column<T>(rows: Seq<Seq<T>>, x: int) -> Seq<T> {
    Seq::new(rows.len(), |y: int| rows[y][x])
}

/// Every row blurred.
pub open spec fn blur_rows<T>(r: Ring<T>, k: Kernel<T>, rows: Seq<Seq<T>>) -> Seq<Seq<T>> {
    Seq::new(rows.len(), |y: int| blur_line(r, k, rows[y]))
}

/// Every column blurred.
pub open spec fn blur_columns<T>(r: Ring<T>, k: Kernel<T>, rows: Seq<Seq<T>>) -> Seq<Seq<T>> {
    Seq::new(
        rows.len(),
        |y: int| Seq::new(rows[y].len(), |x: int| blurred_at(r, k, column(rows, x), y)),
    )
}

/// The blurred image.
pub open spec fn blur_image<T>(r: Ring<T>, k: Kernel<T>, rows: Seq<Seq<T>>) -> Seq<Seq<T>> {
    blur_columns(r, k, blur_rows(r, k, rows))
}

/// The products of samples at the same place of two lines.
pub open spec fn product_line<T>(r: Ring<T>, a: Seq<T>, b: Seq<T>) -> Seq<T> {
    Seq::new(a.len(), |x: int| (r.times)(a[x], b[x]))
}

/// The products of samples at the same place of two images.
pub open spec fn product_image<T>(r: Ring<T>, a: Seq<Seq<T>>, b: Seq<Seq<T>>) -> Seq<Seq<T>> {
    Seq::new(a.len(), |y: int| product_line(r, a[y], b[y]))
}

/// The smaller of two indices.
fn at_most(i: usize, last: usize) -> (m: usize)
    ensures
        m == clamped(i as int, last + 1),
{
    if i < last {
        i
    } else {
        last
    }
}

/// Weighs five lines of samples, place by place.
fn blur5_inner<T: Sample>(k: &Kernel<T>, m2: &[T], m1: &[T], c: &[T], p1: &[T], p2: &[T], out: &mut [T])
    requires
        ring_total::<T>(),
        m2@.len() >= old(out)@.len(),
        m1@.len() >= old(out)@.len(),
        c@.len() >= old(out)@.len(),
        p1@.len() >= old(out)@.len(),
        p2@.len() >= old(out)@.len(),
    ensures
        final(out)@ == Seq::new(
            old(out)@.len(),
            |i: int| tap5(ring::<T>(), *k, m2@[i], m1@[i], c@[i], p1@[i], p2@[i]),
        ),
{
    let n: usize = out.len();
    for i in 0..n
        invariant
            ring_total::<T>(),
            out@.len() == n,
            m2@.len() >= n,
            m1@.len() >= n,
            c@.len() >= n,
            p1@.len() >= n,
            p2@.len() >= n,
            forall|j: int|
                0 <= j < i ==> #[trigger] out@[j] == tap5(
                    ring::<T>(),
                    *k,
                    m2@[j],
                    m1@[j],
                    c@[j],
                    p1@[j],
                    p2@[j],
                ),
    {
        out[i] = (m2[i] + p2[i]) * k.outer + (m1[i] + p1[i]) * k.inner + c[i] * k.mid;
    }
}

/// Weighs the products of five pairs of lines of samples, place by place.
fn blur5_inner_mul<T: Sample>(
    k: &Kernel<T>,
    a_m2: &[T],
    a_m1: &[T],
    a_c: &[T],
    a_p1: &[T],
    a_p2: &[T],
    b_m2: &[T],
    b_m1: &[T],
    b_c: &[T],
    b_p1: &[T],
    b_p2: &[T],
    out: &mut [T],
)
    requires
        ring_total::<T>(),
        a_m2@.len() >= old(out)@.len(),
        a_m1@.len() >= old(out)@.len(),
        a_c@.len() >= old(out)@.len(),
        a_p1@.len() >= old(out)@.len(),
        a_p2@.len() >= old(out)@.len(),
        b_m2@.len() >= old(out)@.len(),
        b_m1@.len() >= old(out)@.len(),
        b_c@.len() >= old(out)@.len(),
        b_p1@.len() >= old(out)@.len(),
        b_p2@.len() >= old(out)@.len(),
    ensures
        final(out)@ == Seq::new(
            old(out)@.len(),
            |i: int|
                tap5(
                    ring::<T>(),
                    *k,
                    (ring::<T>().times)(a_m2@[i], b_m2@[i]),
                    (ring::<T>().times)(a_m1@[i], b_m1@[i]),
                    (ring::<T>().times)(a_c@[i], b_c@[i]),
                    (ring::<T>().times)(a_p1@[i], b_p1@[i]),
                    (ring::<T>().times)(a_p2@[i], b_p2@[i]),
                ),
        ),
{
    let n: usize = out.len();
    for i in 0..n
        invariant
            ring_total::<T>(),
            out@.len() == n,
            a_m2@.len() >= n,
            a_m1@.len() >= n,
            a_c@.len() >= n,
            a_p1@.len() >= n,
            a_p2@.len() >= n,
            b_m2@.len() >= n,
            b_m1@.len() >= n,
            b_c@.len() >= n,
            b_p1@.len() >= n,
            b_p2@.len() >= n,
            forall|j: int|
                0 <= j < i ==> #[trigger] out@[j] == tap5(
                    ring::<T>(),
                    *k,
                    (ring::<T>().times)(a_m2@[j], b_m2@[j]),
                    (ring::<T>().times)(a_m1@[j], b_m1@[j]),
                    (ring::<T>().times)(a_c@[j], b_c@[j]),
                    (ring::<T>().times)(a_p1@[j], b_p1@[j]),
                    (ring::<T>().times)(a_p2@[j], b_p2@[j]),
                ),
    {
        let pm2 = a_m2[i] * b_m2[i];
        let pm1 = a_m1[i] * b_m1[i];
        let pc = a_c[i] * b_c[i];
        let pp1 = a_p1[i] * b_p1[i];
        let pp2 = a_p2[i] * b_p2[i];
        out[i] = (pm2 + pp2) * k.outer + (pm1 + pp1) * k.inner + pc * k.mid;
    }
}

/// Blurs one row.
fn blur_h5_row<T: Sample>(k: &Kernel<T>, row: &[T], out: &mut [T])
    requires
        ring_total::<T>(),
        row@.len() >= 1,
        old(out)@.len() == row@.len(),
    ensures
        final(out)@ == blur_line(ring::<T>(), *k, row@),
{
    let width: usize = row.len();
    let last: usize = width - 1;

    let p0 = row[0];
    let p1 = row[at_most(1, last)];
    let p2 = row[at_most(2, last)];
    out[0] = k.edge_center * p0 + k.edge_near * p1 + k.edge_far * p2;

    if width >= 2 {
        let pl = row[last];
        let pl1 = row[last - 1];
        let pl2 = row[last.saturating_sub(2)];
        out[last] = k.edge_far * pl2 + k.edge_near * pl1 + k.edge_center * pl;
    }

    // The samples next to the ends: taps that fall outside read the end.
    if width >= 3 {
        let m2 = row[0];
        let m1 = row[0];
        let c = row[1];
        let p1n = row[at_most(2, last)];
        let p2n = row[at_most(3, last)];
        out[1] = (m2 + p2n) * k.outer + (m1 + p1n) * k.inner + c * k.mid;
    }
    if width >= 4 {
        let i: usize = last - 1;
        let m2 = row[i - 2];
        let m1 = row[i - 1];
        let c = row[i];
        let p1n = row[i + 1];
        let p2n = row[at_most(i + 2, last)];
        out[i] = (m2 + p2n) * k.outer + (m1 + p1n) * k.inner + c * k.mid;
    }

    // All the others have five samples of their own.
    if width >= 5 {
        let inner_len: usize = width - 4;
        let r_m2 = vstd::slice::slice_subrange(row, 0, inner_len);
        let r_m1 = vstd::slice::slice_subrange(row, 1, 1 + inner_len);
        let r_c = vstd::slice::slice_subrange(row, 2, 2 + inner_len);
        let r_p1 = vstd::slice::slice_subrange(row, 3, 3 + inner_len);
        let r_p2 = vstd::slice::slice_subrange(row, 4, 4 + inner_len);
        let out_inner = window_mut(out, 2, inner_len);
        blur5_inner(k, r_m2, r_m1, r_c, r_p1, r_p2, out_inner);
    }
    assert(out@ =~= blur_line(ring::<T>(), *k, row@));
}

/// Blurs one row of the products of two.
fn blur_h5_mul_row<T: Sample>(k: &Kernel<T>, r1: &[T], r2: &[T], out: &mut [T])
    requires
        ring_total::<T>(),
        r1@.len() >= 1,
        r2@.len() == r1@.len(),
        old(out)@.len() == r1@.len(),
    ensures
        final(out)@ == blur_line(ring::<T>(), *k, product_line(ring::<T>(), r1@, r2@)),
{
    let width: usize = r1.len();
    let last: usize = width - 1;

    let q0 = product_at(r1, r2, 0);
    let q1 = product_at(r1, r2, at_most(1, last));
    let q2 = product_at(r1, r2, at_most(2, last));
    out[0] = k.edge_center * q0 + k.edge_near * q1 + k.edge_far * q2;

    if width >= 2 {
        let ql = product_at(r1, r2, last);
        let ql1 = product_at(r1, r2, last - 1);
        let ql2 = product_at(r1, r2, last.saturating_sub(2));
        out[last] = k.edge_far * ql2 + k.edge_near * ql1 + k.edge_center * ql;
    }

    // The samples next to the ends: taps that fall outside read the end.
    if width >= 3 {
        let m2 = product_at(r1, r2, 0);
        let m1 = product_at(r1, r2, 0);
        let c = product_at(r1, r2, 1);
        let p1n = product_at(r1, r2, at_most(2, last));
        let p2n = product_at(r1, r2, at_most(3, last));
        out[1] = (m2 + p2n) * k.outer + (m1 + p1n) * k.inner + c * k.mid;
    }
    if width >= 4 {
        let i: usize = last - 1;
        let m2 = product_at(r1, r2, i - 2);
        let m1 = product_at(r1, r2, i - 1);
        let c = product_at(r1, r2, i);
        let p1n = product_at(r1, r2, i + 1);
        let p2n = product_at(r1, r2, at_most(i + 2, last));
        out[i] = (m2 + p2n) * k.outer + (m1 + p1n) * k.inner + c * k.mid;
    }

    // All the others have five products of their own.
    if width >= 5 {
        let inner_len: usize = width - 4;
        let s1_m2 = vstd::slice::slice_subrange(r1, 0, inner_len);
        let s1_m1 = vstd::slice::slice_subrange(r1, 1, 1 + inner_len);
        let s1_c = vstd::slice::slice_subrange(r1, 2, 2 + inner_len);
        let s1_p1 = vstd::slice::slice_subrange(r1, 3, 3 + inner_len);
        let s1_p2 = vstd::slice::slice_subrange(r1, 4, 4 + inner_len);
        let s2_m2 = vstd::slice::slice_subrange(r2, 0, inner_len);
        let s2_m1 = vstd::slice::slice_subrange(r2, 1, 1 + inner_len);
        let s2_c = vstd::slice::slice_subrange(r2, 2, 2 + inner_len);
        let s2_p1 = vstd::slice::slice_subrange(r2, 3, 3 + inner_len);
        let s2_p2 = vstd::slice::slice_subrange(r2, 4, 4 + inner_len);
        let out_inner = window_mut(out, 2, inner_len);
        blur5_inner_mul(
            k,
            s1_m2,
            s1_m1,
            s1_c,
            s1_p1,
            s1_p2,
            s2_m2,
            s2_m1,
            s2_c,
            s2_p1,
            s2_p2,
            out_inner,
        );
    }
    assert(out@ =~= blur_line(ring::<T>(), *k, product_line(ring::<T>(), r1@, r2@)));
}

/// The product of two samples at the same place.
fn product_at<T: Sample>(r1: &[T], r2: &[T], i: usize) -> (q: T)
    requires
        ring_total::<T>(),
        i < r1@.len(),
        i < r2@.len(),
    ensures
        q == product_line(ring::<T>(), r1@, r2@)[i as int],
{
    r1[i] * r2[i]
}

/// Blurs every row of a plane into a buffer without padding.
pub fn blur_h5<T: Sample>(k: &Kernel<T>, src: &[T], dst: &mut [T], width: usize, height: usize, src_stride: usize)
    requires
        ring_total::<T>(),
        width >= 1,
        fits(src@.len(), width as int, height as int, src_stride as int),
        width * height <= old(dst)@.len(),
    ensures
        final(dst)@.len() == old(dst)@.len(),
        rows_of(final(dst)@, width as int, height as int, width as int) == blur_rows(
            ring::<T>(),
            *k,
            rows_of(src@, width as int, height as int, src_stride as int),
        ),
        forall|i: int|
            width * height <= i < old(dst)@.len() ==> #[trigger] final(dst)@[i] == old(dst)@[i],
{
    let ghost before = dst@;
    let src_len: usize = src.len();
    let dst_len: usize = dst.len();
    let ghost rows = rows_of(src@, width as int, height as int, src_stride as int);
    proof {
        lemma_tight_fits(dst_len as nat, width as int, height as int);
    }
    for y in 0..height
        invariant
            ring_total::<T>(),
            width >= 1,
            fits(before.len(), width as int, height as int, width as int),
            fits(src@.len(), width as int, height as int, src_stride as int),
            src_len == src@.len(),
            dst_len == before.len(),
            dst@.len() == before.len(),
            width * height <= before.len(),
            rows == rows_of(src@, width as int, height as int, src_stride as int),
            forall|j: int|
                0 <= j < y ==> #[trigger] row_of(dst@, width as int, width as int, j) == blur_line(
                    ring::<T>(),
                    *k,
                    rows[j],
                ),
            forall|i: int| width * height <= i < before.len() ==> #[trigger] dst@[i] == before[i],
    {
        proof {
            lemma_row_in_bounds(src_len as nat, width as int, height as int, src_stride as int, y as int);
            lemma_row_in_bounds(dst_len as nat, width as int, height as int, width as int, y as int);
            assert((y + 1) * width == y * width + width) by (nonlinear_arith);
            assert(y * width + width <= width * height) by (nonlinear_arith)
                requires
                    y + 1 <= height,
                    0 <= width,
            ;
        }
        let row = vstd::slice::slice_subrange(src, y * src_stride, y * src_stride + width);
        let ghost prior = dst@;
        let out = window_mut(dst, y * width, width);
        blur_h5_row(k, row, out);
        proof {
            lemma_row_written(
                prior,
                dst@,
                blur_line(ring::<T>(), *k, rows[y as int]),
                width as int,
                height as int,
                width as int,
                y as int,
            );
        }
    }
    assert(rows_of(dst@, width as int, height as int, width as int) =~= blur_rows(
        ring::<T>(),
        *k,
        rows,
    ));
}

/// Blurs every row of the products of two planes into a buffer without padding.
pub fn blur_h5_mul<T: Sample>(
    k: &Kernel<T>,
    src1: &[T],
    src2: &[T],
    dst: &mut [T],
    width: usize,
    height: usize,
    stride1: usize,
    stride2: usize,
)
    requires
        ring_total::<T>(),
        width >= 1,
        fits(src1@.len(), width as int, height as int, stride1 as int),
        fits(src2@.len(), width as int, height as int, stride2 as int),
        width * height <= old(dst)@.len(),
    ensures
        final(dst)@.len() == old(dst)@.len(),
        rows_of(final(dst)@, width as int, height as int, width as int) == blur_rows(
            ring::<T>(),
            *k,
            product_image(
                ring::<T>(),
                rows_of(src1@, width as int, height as int, stride1 as int),
                rows_of(src2@, width as int, height as int, stride2 as int),
            ),
        ),
        forall|i: int|
            width * height <= i < old(dst)@.len() ==> #[trigger] final(dst)@[i] == old(dst)@[i],
{
    let ghost before = dst@;
    let src1_len: usize = src1.len();
    let src2_len: usize = src2.len();
    let dst_len: usize = dst.len();
    let ghost rows1 = rows_of(src1@, width as int, height as int, stride1 as int);
    let ghost rows2 = rows_of(src2@, width as int, height as int, stride2 as int);
    let ghost rows = product_image(ring::<T>(), rows1, rows2);
    proof {
        lemma_tight_fits(dst_len as nat, width as int, height as int);
    }
    for y in 0..height
        invariant
            ring_total::<T>(),
            width >= 1,
            fits(before.len(), width as int, height as int, width as int),
            fits(src1@.len(), width as int, height as int, stride1 as int),
            fits(src2@.len(), width as int, height as int, stride2 as int),
            src1_len == src1@.len(),
            src2_len == src2@.len(),
            dst_len == before.len(),
            dst@.len() == before.len(),
            width * height <= before.len(),
            rows1 == rows_of(src1@, width as int, height as int, stride1 as int),
            rows2 == rows_of(src2@, width as int, height as int, stride2 as int),
            rows == product_image(ring::<T>(), rows1, rows2),
            forall|j: int|
                0 <= j < y ==> #[trigger] row_of(dst@, width as int, width as int, j) == blur_line(
                    ring::<T>(),
                    *k,
                    rows[j],
                ),
            forall|i: int| width * height <= i < before.len() ==> #[trigger] dst@[i] == before[i],
    {
        proof {
            lemma_row_in_bounds(src1_len as nat, width as int, height as int, stride1 as int, y as int);
            lemma_row_in_bounds(src2_len as nat, width as int, height as int, stride2 as int, y as int);
            lemma_row_in_bounds(dst_len as nat, width as int, height as int, width as int, y as int);
            assert((y + 1) * width == y * width + width) by (nonlinear_arith);
            assert(y * width + width <= width * height) by (nonlinear_arith)
                requires
                    y + 1 <= height,
                    0 <= width,
            ;
        }
        let r1 = vstd::slice::slice_subrange(src1, y * stride1, y * stride1 + width);
        let r2 = vstd::slice::slice_subrange(src2, y * stride2, y * stride2 + width);
        let ghost prior = dst@;
        let out = window_mut(dst, y * width, width);
        blur_h5_mul_row(k, r1, r2, out);
        proof {
            lemma_row_written(
                prior,
                dst@,
                blur_line(ring::<T>(), *k, rows[y as int]),
                width as int,
                height as int,
                width as int,
                y as int,
            );
        }
    }
    assert(rows_of(dst@, width as int, height as int, width as int) =~= blur_rows(
        ring::<T>(),
        *k,
        rows,
    ));
}

/// Weighs three lines of samples, place by place, for a first row.
fn first_edge_inner<T: Sample>(k: &Kernel<T>, r0: &[T], r1: &[T], r2: &[T], out: &mut [T])
    requires
        ring_total::<T>(),
        r0@.len() >= old(out)@.len(),
        r1@.len() >= old(out)@.len(),
        r2@.len() >= old(out)@.len(),
    ensures
        final(out)@ == Seq::new(
            old(out)@.len(),
            |x: int| first_edge(ring::<T>(), *k, r0@[x], r1@[x], r2@[x]),
        ),
{
    let n: usize = out.len();
    for x in 0..n
        invariant
            ring_total::<T>(),
            out@.len() == n,
            r0@.len() >= n,
            r1@.len() >= n,
            r2@.len() >= n,
            forall|j: int|
                0 <= j < x ==> #[trigger] out@[j] == first_edge(
                    ring::<T>(),
                    *k,
                    r0@[j],
                    r1@[j],
                    r2@[j],
                ),
    {
        out[x] = k.edge_center * r0[x] + k.edge_near * r1[x] + k.edge_far * r2[x];
    }
}

/// Weighs three lines of samples, place by place, for a last row.
fn last_edge_inner<T: Sample>(k: &Kernel<T>, rl2: &[T], rl1: &[T], rl: &[T], out: &mut [T])
    requires
        ring_total::<T>(),
        rl2@.len() >= old(out)@.len(),
        rl1@.len() >= old(out)@.len(),
        rl@.len() >= old(out)@.len(),
    ensures
        final(out)@ == Seq::new(
            old(out)@.len(),
            |x: int| last_edge(ring::<T>(), *k, rl2@[x], rl1@[x], rl@[x]),
        ),
{
    let n: usize = out.len();
    for x in 0..n
        invariant
            ring_total::<T>(),
            out@.len() == n,
            rl2@.len() >= n,
            rl1@.len() >= n,
            rl@.len() >= n,
            forall|j: int|
                0 <= j < x ==> #[trigger] out@[j] == last_edge(
                    ring::<T>(),
                    *k,
                    rl2@[j],
                    rl1@[j],
                    rl@[j],
                ),
    {
        out[x] = k.edge_far * rl2[x] + k.edge_near * rl1[x] + k.edge_center * rl[x];
    }
}

/// Row `y` of a buffer without padding.
fn tight_row<'a, T>(src: &'a [T], width: usize, height: usize, y: usize) -> (row: &'a [T])
    requires
        width >= 1,
        fits(src@.len(), width as int, height as int, width as int),
        y < height,
    ensures
        row@ == rows_of(src@, width as int, height as int, width as int)[y as int],
        row@.len() == width,
{
    PlaneRef { buf: src, width, height, stride: width }.row(y)
}

/// Blurs every column of a buffer without padding into the rows of another.
pub fn blur_v5<T: Sample>(k: &Kernel<T>, src: &[T], dst: &mut [T], width: usize, height: usize, dst_stride: usize)
    requires
        ring_total::<T>(),
        width >= 1,
        height >= 1,
        width * height <= src@.len(),
        fits(old(dst)@.len(), width as int, height as int, dst_stride as int),
    ensures
        final(dst)@.len() == old(dst)@.len(),
        rows_of(final(dst)@, width as int, height as int, dst_stride as int) == blur_columns(
            ring::<T>(),
            *k,
            rows_of(src@, width as int, height as int, width as int),
        ),
        forall|i: int|
            0 <= i < old(dst)@.len() && !in_rows(i, width as int, height as int, dst_stride as int)
                ==> #[trigger] final(dst)@[i] == old(dst)@[i],
{
    let ghost before = dst@;
    let dst_len: usize = dst.len();
    let last_y: usize = height - 1;
    let ghost w = width as int;
    let ghost h = height as int;
    let ghost s = dst_stride as int;
    let ghost rows = rows_of(src@, w, h, w);
    let ghost goal = blur_columns(ring::<T>(), *k, rows);
    proof {
        lemma_tight_fits(src@.len(), w, h);
        lemma_row_in_bounds(dst_len as nat, w, h, s, 0);
        lemma_row_in_bounds(dst_len as nat, w, h, s, last_y as int);
    }

    {
        let r0 = tight_row(src, width, height, 0);
        let r1 = tight_row(src, width, height, at_most(1, last_y));
        let r2 = tight_row(src, width, height, at_most(2, last_y));
        let ghost prior = dst@;
        let out = window_mut(dst, 0, width);
        first_edge_inner(k, r0, r1, r2, out);
        assert(out@ =~= goal[0]);
        proof {
            lemma_row_written(prior, dst@, goal[0], w, h, s, 0);
        }
    }

    if height >= 2 {
        let rl = tight_row(src, width, height, last_y);
        let rl1 = tight_row(src, width, height, last_y - 1);
        let rl2 = tight_row(src, width, height, last_y.saturating_sub(2));
        let ghost prior = dst@;
        let out = window_mut(dst, last_y * dst_stride, width);
        last_edge_inner(k, rl2, rl1, rl, out);
        assert(out@ =~= goal[last_y as int]);
        proof {
            lemma_row_written(prior, dst@, goal[last_y as int], w, h, s, last_y as int);
        }
    }

    // The rows next to the ends: taps that fall outside read the end.
    if height >= 3 {
        let rm = tight_row(src, width, height, 0);
        let rc = tight_row(src, width, height, 1);
        let rp1 = tight_row(src, width, height, at_most(2, last_y));
        let rp2 = tight_row(src, width, height, at_most(3, last_y));
        let ghost prior = dst@;
        proof {
            lemma_row_in_bounds(dst_len as nat, w, h, s, 1);
        }
        let out = window_mut(dst, dst_stride, width);
        blur5_inner(k, rm, rm, rc, rp1, rp2, out);
        assert(out@ =~= goal[1]);
        proof {
            lemma_row_written(prior, dst@, goal[1], w, h, s, 1);
        }
    }
    if height >= 4 {
        let y: usize = last_y - 1;
        let rm2 = tight_row(src, width, height, y - 2);
        let rm1 = tight_row(src, width, height, y - 1);
        let rc = tight_row(src, width, height, y);
        let rp1 = tight_row(src, width, height, y + 1);
        let rp2 = tight_row(src, width, height, at_most(y + 2, last_y));
        let ghost prior = dst@;
        proof {
            lemma_row_in_bounds(dst_len as nat, w, h, s, y as int);
        }
        let out = window_mut(dst, y * dst_stride, width);
        blur5_inner(k, rm2, rm1, rc, rp1, rp2, out);
        assert(out@ =~= goal[y as int]);
        proof {
            lemma_row_written(prior, dst@, goal[y as int], w, h, s, y as int);
        }
    }

    // All the others have five rows of their own.
    if height >= 5 {
        for y in 2..height - 2
            invariant
                ring_total::<T>(),
                width >= 1,
                height >= 5,
                last_y == height - 1,
                w == width,
                h == height,
                s == dst_stride,
                fits(src@.len(), w, h, w),
                fits(dst_len as nat, w, h, s),
                dst_len == before.len(),
                dst@.len() == before.len(),
                rows == rows_of(src@, w, h, w),
                goal == blur_columns(ring::<T>(), *k, rows),
                forall|j: int|
                    0 <= j < y || h - 2 <= j < h ==> #[trigger] row_of(dst@, w, s, j) == goal[j],
                forall|i: int|
                    0 <= i < before.len() && !in_rows(i, w, h, s) ==> #[trigger] dst@[i]
                        == before[i],
        {
            let rm2 = tight_row(src, width, height, y - 2);
            let rm1 = tight_row(src, width, height, y - 1);
            let rc = tight_row(src, width, height, y);
            let rp1 = tight_row(src, width, height, y + 1);
            let rp2 = tight_row(src, width, height, y + 2);
            let ghost prior = dst@;
            proof {
                lemma_row_in_bounds(dst_len as nat, w, h, s, y as int);
            }
            let out = window_mut(dst, y * dst_stride, width);
            blur5_inner(k, rm2, rm1, rc, rp1, rp2, out);
            assert(out@ =~= goal[y as int]);
            proof {
                lemma_row_written(prior, dst@, goal[y as int], w, h, s, y as int);
            }
        }
    }
    assert(rows_of(dst@, w, h, s) =~= goal);
}

/// The sides of an image that can be blurred.
pub open spec fn blurrable(width: int, height: int) -> bool {
    0 < width < 0x100_0000 && 0 < height < 0x100_0000
}

/// The buffer for the first pass, once it was used: its first `width * height` cells hold the
/// blurred rows, and the others what they held.
pub open spec fn scratch_used<T>(before: Seq<T>, after: Seq<T>, rows: Seq<Seq<T>>, width: int, height: int) -> bool {
    &&& after.len() == before.len()
    &&& rows_of(after, width, height, width) == rows
    &&& forall|i: int| width * height <= i < before.len() ==> #[trigger] after[i] == before[i]
}

/// Blurs a plane.
///
/// `tmp` is for the first of the two passes. It needs a cell for every sample.
pub fn blur<T: Sample>(src: PlaneRef<'_, T>, tmp: &mut [T], k: &Kernel<T>) -> (out: Plane<T>)
    requires
        ring_total::<T>(),
        src.wf(),
        blurrable(src.width as int, src.height as int),
        src.width * src.height <= old(tmp)@.len(),
    ensures
        out.wf(),
        out.width == src.width,
        out.height == src.height,
        out.stride == src.width,
        out.buf@.len() == src.width * src.height,
        out.view() == blur_image(ring::<T>(), *k, src.view()),
        scratch_used(
            old(tmp)@,
            final(tmp)@,
            blur_rows(ring::<T>(), *k, src.view()),
            src.width as int,
            src.height as int,
        ),
{
    let width: usize = src.width;
    let height: usize = src.height;
    let tmp_len: usize = tmp.len();
    proof {
        lemma_tight_fits(tmp_len as nat, width as int, height as int);
        lemma_tight_fits((width * height) as nat, width as int, height as int);
        assert(0 <= width * height) by (nonlinear_arith);
    }
    let pixels: usize = width * height;

    blur_h5(k, src.buf, tmp, width, height, src.stride);
    let mut dst: Vec<T> = vstd::slice::slice_to_vec(vstd::slice::slice_subrange(tmp, 0, pixels));
    blur_v5(k, tmp, dst.as_mut_slice(), width, height, width);
    Plane { buf: dst, width, height, stride: width }
}

/// Blurs a plane in the buffer where it stands. The padding keeps what it holds.
///
/// `tmp` is for the first of the two passes. It needs a cell for every sample.
pub fn blur_in_place<T: Sample>(srcdst: PlaneMut<'_, T>, tmp: &mut [T], k: &Kernel<T>)
    requires
        ring_total::<T>(),
        fits(old(srcdst.buf)@.len(), srcdst.width as int, srcdst.height as int, srcdst.stride as int),
        blurrable(srcdst.width as int, srcdst.height as int),
        srcdst.width * srcdst.height <= old(tmp)@.len(),
    ensures
        final(srcdst.buf)@.len() == old(srcdst.buf)@.len(),
        rows_of(
            final(srcdst.buf)@,
            srcdst.width as int,
            srcdst.height as int,
            srcdst.stride as int,
        ) == blur_image(
            ring::<T>(),
            *k,
            rows_of(
                old(srcdst.buf)@,
                srcdst.width as int,
                srcdst.height as int,
                srcdst.stride as int,
            ),
        ),
        forall|i: int|
            0 <= i < old(srcdst.buf)@.len() && !in_rows(
                i,
                srcdst.width as int,
                srcdst.height as int,
                srcdst.stride as int,
            ) ==> #[trigger] final(srcdst.buf)@[i] == old(srcdst.buf)@[i],
        scratch_used(
            old(tmp)@,
            final(tmp)@,
            blur_rows(
                ring::<T>(),
                *k,
                rows_of(
                    old(srcdst.buf)@,
                    srcdst.width as int,
                    srcdst.height as int,
                    srcdst.stride as int,
                ),
            ),
            srcdst.width as int,
            srcdst.height as int,
        ),
{
    let PlaneMut { buf, width, height, stride } = srcdst;
    blur_h5(k, buf, tmp, width, height, stride);
    blur_v5(k, tmp, buf, width, height, stride);
}

/// Blurs the products of the samples of two planes.
///
/// `tmp` is for the first of the two passes. It needs a cell for every sample.
pub fn blur_mul<T: Sample>(
    src1: PlaneRef<'_, T>,
    src2: PlaneRef<'_, T>,
    tmp: &mut [T],
    k: &Kernel<T>,
) -> (out: Vec<T>)
    requires
        ring_total::<T>(),
        src1.wf(),
        src2.wf(),
        src1.width == src2.width,
        src1.height == src2.height,
        blurrable(src1.width as int, src1.height as int),
        src1.width * src1.height <= old(tmp)@.len(),
    ensures
        out@.len() == src1.width * src1.height,
        rows_of(out@, src1.width as int, src1.height as int, src1.width as int) == blur_image(
            ring::<T>(),
            *k,
            product_image(ring::<T>(), src1.view(), src2.view()),
        ),
        scratch_used(
            old(tmp)@,
            final(tmp)@,
            blur_rows(ring::<T>(), *k, product_image(ring::<T>(), src1.view(), src2.view())),
            src1.width as int,
            src1.height as int,
        ),
{
    let width: usize = src1.width;
    let height: usize = src1.height;
    let tmp_len: usize = tmp.len();
    proof {
        lemma_tight_fits(tmp_len as nat, width as int, height as int);
        lemma_tight_fits((width * height) as nat, width as int, height as int);
        assert(0 <= width * height) by (nonlinear_arith);
    }
    let pixels: usize = width * height;

    blur_h5_mul(k, src1.buf, src2.buf, tmp, width, height, src1.stride, src2.stride);
    let mut dst: Vec<T> = vstd::slice::slice_to_vec(vstd::slice::slice_subrange(tmp, 0, pixels));
    blur_v5(k, tmp, dst.as_mut_slice(), width, height, width);
    dst
}

} // verus!
