//! Rectangles of samples in a flat buffer.
//!
//! A plane's rows start `stride` cells apart and are `width` cells long. What lies between the
//! end of a row and the start of the next is padding, which nothing here reads or writes.
//! The view of a plane is the sequence of its rows.
use vstd::prelude::*;

verus! {

/// The last cell of a `width` by `height` rectangle stands within `len` cells.
pub open spec fn fits(len: nat, width: int, height: int, stride: int) -> bool {
    &&& 0 <= width <= stride
    &&& 0 < stride
    &&& 0 <= height
    &&& width == 0 || height == 0 || (height - 1) * stride + width <= len
}

/// Row `y` of a buffer.
pub open spec fn row_of<T>(buf: Seq<T>, width: int, stride: int, y: int) -> Seq<T> {
    buf.subrange(y * stride, y * stride + width)
}

/// The rows of a buffer, from the top.
pub open spec fn rows_of<T>(buf: Seq<T>, width: int, height: int, stride: int) -> Seq<Seq<T>> {
    Seq::new(height as nat, |y: int| row_of(buf, width, stride, y))
}

/// The cell of a buffer belongs to one of the rows.
pub open spec fn in_rows(cell: int, width: int, height: int, stride: int) -> bool {
    cell % stride < width && cell / stride < height
}

/// All rows are `width` long.
pub open spec fn is_rectangle<T>(rows: Seq<Seq<T>>, width: nat) -> bool {
    forall|y: int| 0 <= y < rows.len() ==> (#[trigger] rows[y]).len() == width
}

/// A plane that owns its samples.
pub struct Plane<T> {
    pub buf: Vec<T>,
    pub width: usize,
    pub height: usize,
    pub stride: usize,
}

/// A plane in a borrowed buffer.
pub struct PlaneRef<'a, T> {
    pub buf: &'a [T],
    pub width: usize,
    pub height: usize,
    pub stride: usize,
}

/// A plane in a buffer that is borrowed for writing.
pub struct PlaneMut<'a, T> {
    pub buf: &'a mut [T],
    pub width: usize,
    pub height: usize,
    pub stride: usize,
}

impl<T> Plane<T> {
    /// The buffer holds every row.
    pub open spec fn wf(&self) -> bool {
        fits(self.buf@.len(), self.width as int, self.height as int, self.stride as int)
    }

    /// The rows of the plane.
    pub open spec fn view(&self) -> Seq<Seq<T>> {
        rows_of(self.buf@, self.width as int, self.height as int, self.stride as int)
    }

    /// A plane whose rows follow each other without padding.
    pub fn new(buf: Vec<T>, width: usize, height: usize) -> (plane: Self)
        requires
            fits(buf@.len(), width as int, height as int, width as int),
        ensures
            plane.wf(),
            plane == (Plane { buf, width, height, stride: width }),
    {
        Plane { buf, width, height, stride: width }
    }

    /// A plane whose rows start `stride` cells apart.
    pub fn new_stride(buf: Vec<T>, width: usize, height: usize, stride: usize) -> (plane: Self)
        requires
            fits(buf@.len(), width as int, height as int, stride as int),
        ensures
            plane.wf(),
            plane == (Plane { buf, width, height, stride }),
    {
        Plane { buf, width, height, stride }
    }

    /// The same plane, borrowed.
    pub fn as_ref(&self) -> (plane: PlaneRef<'_, T>)
        requires
            self.wf(),
        ensures
            plane.wf(),
            plane.buf@ == self.buf@,
            plane.width == self.width,
            plane.height == self.height,
            plane.stride == self.stride,
            plane.view() == self.view(),
    {
        PlaneRef {
            buf: self.buf.as_slice(),
            width: self.width,
            height: self.height,
            stride: self.stride,
        }
    }
}

impl<'a, T> PlaneRef<'a, T> {
    /// The buffer holds every row.
    pub open spec fn wf(&self) -> bool {
        fits(self.buf@.len(), self.width as int, self.height as int, self.stride as int)
    }

    /// The rows of the plane.
    pub open spec fn view(&self) -> Seq<Seq<T>> {
        rows_of(self.buf@, self.width as int, self.height as int, self.stride as int)
    }

    /// A plane whose rows follow each other without padding.
    pub fn new(buf: &'a [T], width: usize, height: usize) -> (plane: Self)
        requires
            fits(buf@.len(), width as int, height as int, width as int),
        ensures
            plane.wf(),
            plane == (PlaneRef { buf, width, height, stride: width }),
    {
        PlaneRef { buf, width, height, stride: width }
    }

    /// The samples of row `y`.
    pub fn row(&self, y: usize) -> (row: &'a [T])
        requires
            self.wf(),
            self.width > 0,
            y < self.height,
        ensures
            row@ == self.view()[y as int],
            row@.len() == self.width,
    {
        let len: usize = self.buf.len();
        proof {
            lemma_row_in_bounds(len as nat, self.width as int, self.height as int, self.stride as int, y as int);
        }
        vstd::slice::slice_subrange(self.buf, y * self.stride, y * self.stride + self.width)
    }
}

impl<'a, T> PlaneMut<'a, T> {
    /// A plane whose rows follow each other without padding.
    pub fn new(buf: &'a mut [T], width: usize, height: usize) -> (plane: Self)
        requires
            fits(old(buf)@.len(), width as int, height as int, width as int),
        ensures
            plane.buf@ == old(buf)@,
            final(plane.buf)@ == final(buf)@,
            plane.width == width,
            plane.height == height,
            plane.stride == width,
    {
        PlaneMut { buf, width, height, stride: width }
    }
}

/// A row stands within the buffer.
pub proof fn lemma_row_in_bounds(len: nat, width: int, height: int, stride: int, y: int)
    requires
        fits(len, width, height, stride),
        0 < width,
        0 <= y < height,
    ensures
        0 <= y * stride,
        y * stride + width <= len,
{
    assert(0 <= y * stride <= (height - 1) * stride) by (nonlinear_arith)
        requires
            0 <= y <= height - 1,
            0 < stride,
    ;
}

/// Rows without padding fit into a buffer that is long enough for all cells.
pub proof fn lemma_tight_fits(len: nat, width: int, height: int)
    requires
        width * height <= len,
        0 < width,
        0 <= height,
    ensures
        fits(len, width, height, width),
{
    assert((height - 1) * width + width == width * height) by (nonlinear_arith);
}

/// Cells of different rows differ.
pub proof fn lemma_rows_apart(width: int, stride: int, y: int, other: int)
    requires
        width <= stride,
        0 < stride,
        y != other,
    ensures
        other * stride + width <= y * stride || y * stride + width <= other * stride,
{
    if other < y {
        assert(other * stride + stride <= y * stride) by (nonlinear_arith)
            requires
                other + 1 <= y,
                0 < stride,
        ;
    } else {
        assert(y * stride + stride <= other * stride) by (nonlinear_arith)
            requires
                y + 1 <= other,
                0 < stride,
        ;
    }
}

/// The cells of row `y` are cells of the rows.
pub proof fn lemma_cell_of_row(cell: int, width: int, height: int, stride: int, y: int)
    requires
        0 < stride,
        width <= stride,
        0 <= y < height,
        y * stride <= cell < y * stride + width,
    ensures
        in_rows(cell, width, height, stride),
{
    vstd::arithmetic::div_mod::lemma_fundamental_div_mod_converse(cell, stride, y, cell - y * stride);
}

/// What a buffer holds once a row was written over.
pub proof fn lemma_row_written<T>(
    before: Seq<T>,
    after: Seq<T>,
    row: Seq<T>,
    width: int,
    height: int,
    stride: int,
    y: int,
)
    requires
        fits(before.len(), width, height, stride),
        0 < width,
        0 <= y < height,
        row.len() == width,
        after == before.subrange(0, y * stride) + row + before.subrange(
            y * stride + width,
            before.len() as int,
        ),
    ensures
        after.len() == before.len(),
        row_of(after, width, stride, y) == row,
        forall|j: int|
            0 <= j < height && j != y ==> #[trigger] row_of(
                after,
                width,
                stride,
                j,
            ) == row_of(before, width, stride, j),
        forall|i: int|
            0 <= i < before.len() && !(y * stride <= i < y * stride + width)
                ==> #[trigger] after[i] == before[i],
        forall|i: int|
            0 <= i < before.len() && !in_rows(i, width, height, stride) ==> #[trigger] after[i]
                == before[i],
{
    lemma_row_in_bounds(before.len(), width, height, stride, y);
    assert(row_of(after, width, stride, y) =~= row);
    assert forall|j: int| 0 <= j < height && j != y implies #[trigger] row_of(
        after,
        width,
        stride,
        j,
    ) == row_of(before, width, stride, j) by {
        lemma_rows_apart(width, stride, y, j);
        lemma_row_in_bounds(before.len(), width, height, stride, j);
        assert(row_of(after, width, stride, j) =~= row_of(before, width, stride, j));
    }
    assert forall|i: int|
        0 <= i < before.len() && !in_rows(i, width, height, stride) implies #[trigger] after[i]
        == before[i] by {
        if y * stride <= i < y * stride + width {
            lemma_cell_of_row(i, width, height, stride, y);
        }
    }
}

/// Rows without padding, after one more row was appended.
pub proof fn lemma_row_appended<T>(before: Seq<T>, row: Seq<T>, width: int, y: int)
    requires
        0 < width,
        0 <= y,
        before.len() == y * width,
        row.len() == width,
    ensures
        (before + row).len() == (y + 1) * width,
        row_of(before + row, width, width, y) == row,
        forall|j: int| 0 <= j < y ==> #[trigger] row_of(before + row, width, width, j) == row_of(before, width, width, j),
{
    assert((y + 1) * width == y * width + width) by (nonlinear_arith);
    assert(row_of(before + row, width, width, y) =~= row);
    assert forall|j: int| 0 <= j < y implies #[trigger] row_of(before + row, width, width, j) == row_of(
        before,
        width,
        width,
        j,
    ) by {
        lemma_rows_apart(width, width, y, j);
        assert(0 <= j * width && j * width + width <= y * width) by (nonlinear_arith)
            requires
                0 <= j <= y - 1,
                0 < width,
        ;
        assert(row_of(before + row, width, width, j) =~= row_of(before, width, width, j));
    }
}

/// `len` cells from `start` on, for writing.
pub(crate) fn window_mut<'a, T>(buf: &'a mut [T], start: usize, len: usize) -> (window: &'a mut [T])
    requires
        start + len <= old(buf)@.len(),
    ensures
        window@ == old(buf)@.subrange(start as int, start + len),
        final(buf)@ == old(buf)@.subrange(0, start as int) + final(window)@ + old(buf)@.subrange(start + len, old(buf)@.len() as int),
{
    let (_, rest) = buf.split_at_mut(start);
    let (window, _) = rest.split_at_mut(len);
    window
}

} // verus!
