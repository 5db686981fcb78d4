//! Where the samples of a plane stand in its buffer.
use crate::plane::{fits, in_rows, lemma_cell_of_row, lemma_row_in_bounds, row_of, rows_of, Plane, PlaneRef};
use vstd::prelude::*;

verus! {

/// The sample of column `x` in row `y` of a buffer's rows is the buffer's cell `y * stride + x`.
pub proof fn law_rows_of_buffer<T>(buf: Seq<T>, width: int, height: int, stride: int)
    requires
        fits(buf.len(), width, height, stride),
        width > 0,
    ensures
        rows_of(buf, width, height, stride).len() == height,
        forall|y: int| 0 <= y < height ==> (#[trigger] rows_of(buf, width, height, stride)[y]).len() == width,
        forall|x: int, y: int|
            0 <= x < width && 0 <= y < height ==> #[trigger] rows_of(buf, width, height, stride)[y][x]
                == buf[y * stride + x],
{
    assert forall|y: int| 0 <= y < height implies (#[trigger] rows_of(buf, width, height, stride)[y]).len() == width by {
        lemma_row_in_bounds(buf.len(), width, height, stride, y);
    }
    assert forall|x: int, y: int| 0 <= x < width && 0 <= y < height implies #[trigger] rows_of(
        buf,
        width,
        height,
        stride,
    )[y][x] == buf[y * stride + x] by {
        lemma_row_in_bounds(buf.len(), width, height, stride, y);
    }
}

/// The samples of a row follow each other in the buffer.
pub proof fn law_row_of_buffer<T>(buf: Seq<T>, width: int, height: int, stride: int, x: int, y: int)
    requires
        fits(buf.len(), width, height, stride),
        0 <= x < width,
        0 <= y < height,
    ensures
        row_of(buf, width, stride, y).len() == width,
        row_of(buf, width, stride, y)[x] == buf[y * stride + x],
{
    lemma_row_in_bounds(buf.len(), width, height, stride, y);
}

/// What a plane shows: at column `x` of row `y` the cell `y * stride + x` of its buffer.
pub proof fn law_plane_view<T>(plane: Plane<T>)
    requires
        plane.wf(),
        plane.width > 0,
    ensures
        plane.view().len() == plane.height,
        forall|y: int| 0 <= y < plane.height ==> (#[trigger] plane.view()[y]).len() == plane.width,
        forall|x: int, y: int|
            0 <= x < plane.width && 0 <= y < plane.height ==> #[trigger] plane.view()[y][x]
                == plane.buf@[y * plane.stride + x],
{
    law_rows_of_buffer(plane.buf@, plane.width as int, plane.height as int, plane.stride as int);
}

/// What a borrowed plane shows: at column `x` of row `y` the cell `y * stride + x` of its buffer.
pub proof fn law_plane_ref_view<'a, T>(plane: PlaneRef<'a, T>)
    requires
        plane.wf(),
        plane.width > 0,
    ensures
        plane.view().len() == plane.height,
        forall|y: int| 0 <= y < plane.height ==> (#[trigger] plane.view()[y]).len() == plane.width,
        forall|x: int, y: int|
            0 <= x < plane.width && 0 <= y < plane.height ==> #[trigger] plane.view()[y][x]
                == plane.buf@[y * plane.stride + x],
{
    law_rows_of_buffer(plane.buf@, plane.width as int, plane.height as int, plane.stride as int);
}

/// A rectangle fits into a buffer if and only if the last of its cells stands in the buffer.
pub proof fn law_fits(len: nat, width: int, height: int, stride: int)
    requires
        0 < width <= stride,
        0 < height,
    ensures
        fits(len, width, height, stride) <==> (height - 1) * stride + (width - 1) < len,
{
}

/// A rectangle without cells fits into any buffer.
pub proof fn law_empty_fits(len: nat, width: int, height: int, stride: int)
    requires
        0 <= width <= stride,
        0 < stride,
        0 <= height,
        width == 0 || height == 0,
    ensures
        fits(len, width, height, stride),
{
}

/// The cells of the rows are those that stand in the `width` cells from `y * stride` on, for some row
/// `y`; all the others are padding.
pub proof fn law_cells_of_rows(cell: int, width: int, height: int, stride: int)
    requires
        0 < width <= stride,
        0 <= cell,
    ensures
        in_rows(cell, width, height, stride) <==> exists|y: int|
            0 <= y < height && #[trigger] (y * stride) <= cell < y * stride + width,
{
    if in_rows(cell, width, height, stride) {
        let (x, y) = (cell % stride, cell / stride);
        vstd::arithmetic::div_mod::lemma_fundamental_div_mod(cell, stride);
        assert(y * stride == stride * y) by (nonlinear_arith);
        assert(0 <= x && 0 <= y) by (nonlinear_arith)
            requires
                x == cell % stride,
                y == cell / stride,
                0 <= cell,
                0 < stride,
        ;
        assert(y * stride <= cell < y * stride + width);
    }
    if exists|y: int| 0 <= y < height && #[trigger] (y * stride) <= cell < y * stride + width {
        let y = choose|y: int| 0 <= y < height && #[trigger] (y * stride) <= cell < y * stride + width;
        lemma_cell_of_row(cell, width, height, stride, y);
    }
}

} // verus!
