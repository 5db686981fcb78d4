//! Images to planes of L\*a\*b\*.
use crate::arith::{computes2, field, function2, law_function2, law_function3, returned2, returned3, ColorSample, Field};
use crate::buffer::{appended, call2, grown, is_appended, is_cleared, lemma_grown_once_more, lemma_not_grown};
use crate::lab::{gray_l, lab_a, lab_b, lab_l, LabSpace, LabWeights, Rgb};
use crate::plane::{lemma_row_appended, lemma_tight_fits, row_of, rows_of, window_mut, Plane, PlaneRef};
use crate::pool::{gave, reports, took, DssimPool, PoolState};
use crate::pool_laws::{law_give, law_give_then_take};
use vstd::prelude::*;

verus! {

/// The number by which a pixel's transparency is dithered: a pattern over the image.
pub open spec fn dither(x: int, y: int) -> usize {
    ((x + 11) as usize) ^ ((y + 11) as usize)
}

/// The pixels of row `y` as linear light.
pub open spec fn rgb_row<P, T>(to_rgb: spec_fn(P, usize) -> Rgb<T>, row: Seq<P>, y: int) -> Seq<Rgb<T>> {
    Seq::new(row.len(), |x: int| to_rgb(row[x], dither(x, y)))
}

/// The pixels of an image as linear light.
pub open spec fn rgb_rows<P, T>(to_rgb: spec_fn(P, usize) -> Rgb<T>, rows: Seq<Seq<P>>) -> Seq<Seq<Rgb<T>>> {
    Seq::new(rows.len(), |y: int| rgb_row(to_rgb, rows[y], y))
}

/// The lightness of a line of pixels.
pub open spec fn l_line<T>(f: Field<T>, w: LabWeights<T>, line: Seq<Rgb<T>>) -> Seq<T> {
    Seq::new(line.len(), |x: int| lab_l(f, w, line[x]))
}

/// The first colour axis of a line of pixels.
pub open spec fn a_line<T>(f: Field<T>, w: LabWeights<T>, line: Seq<Rgb<T>>) -> Seq<T> {
    Seq::new(line.len(), |x: int| lab_a(f, w, line[x]))
}

/// The second colour axis of a line of pixels.
pub open spec fn b_line<T>(f: Field<T>, w: LabWeights<T>, line: Seq<Rgb<T>>) -> Seq<T> {
    Seq::new(line.len(), |x: int| lab_b(f, w, line[x]))
}

/// The lightness of a line of gray samples.
pub open spec fn gray_line<T>(f: Field<T>, w: LabWeights<T>, line: Seq<T>) -> Seq<T> {
    Seq::new(line.len(), |x: int| gray_l(f, w, line[x]))
}

/// The three planes of a colour image: L, a and b.
pub open spec fn color_planes<T>(f: Field<T>, w: LabWeights<T>, rows: Seq<Seq<Rgb<T>>>) -> Seq<Seq<Seq<T>>> {
    seq![
        Seq::new(rows.len(), |y: int| l_line(f, w, rows[y])),
        Seq::new(rows.len(), |y: int| a_line(f, w, rows[y])),
        Seq::new(rows.len(), |y: int| b_line(f, w, rows[y])),
    ]
}

/// The one plane of a grayscale image.
pub open spec fn gray_planes<T>(f: Field<T>, w: LabWeights<T>, rows: Seq<Seq<T>>) -> Seq<Seq<Seq<T>>> {
    seq![Seq::new(rows.len(), |y: int| gray_line(f, w, rows[y]))]
}

/// The planes are well-formed, and their rows are these.
pub open spec fn are_planes<T>(planes: Seq<Plane<T>>, rows: Seq<Seq<Seq<T>>>) -> bool {
    &&& planes.len() == rows.len()
    &&& forall|i: int| 0 <= i < planes.len() ==> (#[trigger] planes[i]).wf() && planes[i].view() == rows[i]
}

/// Planes of the size of an image can be made: their samples can be counted and stored.
pub open spec fn area_fits<T>(width: int, height: int) -> bool {
    &&& 0 < width
    &&& width * height <= usize::MAX
    &&& width * height * vstd::layout::size_of::<T>() <= isize::MAX
}

/// Every pixel of an image has a number to dither it by.
pub open spec fn can_dither(width: int, height: int) -> bool {
    height > 0 ==> width + 11 <= usize::MAX && height + 11 <= usize::MAX
}

/// Appends the L, a and b of one row of pixels to three planes. `to_rgb` gives the linear light
/// of a pixel, dithered by a number.
pub fn rgb_row_to_lab<P: Copy, T: ColorSample, F: Fn(T, T, T) -> T, G: Fn(P, usize) -> Rgb<T>>(
    lab: &LabSpace<T, F>,
    in_row: &[P],
    y: usize,
    to_rgb: &G,
    out_l: &mut Vec<T>,
    out_a: &mut Vec<T>,
    out_b: &mut Vec<T>,
)
    requires
        lab.wf(),
        function2(*to_rgb),
        in_row@.len() + 11 <= usize::MAX,
        y + 11 <= usize::MAX,
    ensures
        forall|f: Field<T>, g: spec_fn(P, usize) -> Rgb<T>| #[trigger]
            lab.computes(f) && #[trigger] computes2(*to_rgb, g) ==> {
                let pixels = rgb_row(g, in_row@, y as int);
                &&& final(out_l)@ == old(out_l)@ + l_line(f, lab.weights, pixels)
                &&& final(out_a)@ == old(out_a)@ + a_line(f, lab.weights, pixels)
                &&& final(out_b)@ == old(out_b)@ + b_line(f, lab.weights, pixels)
            },
{
    let width: usize = in_row.len();
    let ghost (l0, a0, b0) = (out_l@, out_a@, out_b@);
    let start_l: usize = out_l.len();
    let start_a: usize = out_a.len();
    let start_b: usize = out_b.len();
    let ghost mut pixels = Seq::<Rgb<T>>::empty();

    // First the linear light, then its conversion where it stands.
    for x in 0..width
        invariant
            function2(*to_rgb),
            width == in_row@.len(),
            in_row@.len() + 11 <= usize::MAX,
            y + 11 <= usize::MAX,
            pixels.len() == x,
            forall|i: int|
                0 <= i < x ==> to_rgb.ensures(
                    (in_row@[i], dither(i, y as int)),
                    #[trigger] pixels[i],
                ),
            out_l@ == l0 + Seq::new(x as nat, |i: int| pixels[i].r),
            out_a@ == a0 + Seq::new(x as nat, |i: int| pixels[i].g),
            out_b@ == b0 + Seq::new(x as nat, |i: int| pixels[i].b),
    {
        let n: usize = (x + 11) ^ (y + 11);
        let rgb = to_rgb(in_row[x], n);
        out_l.push(rgb.r);
        out_a.push(rgb.g);
        out_b.push(rgb.b);
        proof {
            pixels = pixels.push(rgb);
        }
        assert(out_l@ =~= l0 + Seq::new((x + 1) as nat, |i: int| pixels[i].r));
        assert(out_a@ =~= a0 + Seq::new((x + 1) as nat, |i: int| pixels[i].g));
        assert(out_b@ =~= b0 + Seq::new((x + 1) as nat, |i: int| pixels[i].b));
    }
    let r = window_mut(out_l.as_mut_slice(), start_l, width);
    let g = window_mut(out_a.as_mut_slice(), start_a, width);
    let b = window_mut(out_b.as_mut_slice(), start_b, width);
    assert(r@ =~= Seq::new(width as nat, |i: int| pixels[i].r));
    assert(g@ =~= Seq::new(width as nat, |i: int| pixels[i].g));
    assert(b@ =~= Seq::new(width as nat, |i: int| pixels[i].b));
    lab.lab_transform_scalar(r, g, b);
    let ghost (l, a, b) = (r@, g@, b@);
    assert(out_l@ =~= l0 + l);
    assert(out_a@ =~= a0 + a);
    assert(out_b@ =~= b0 + b);
    proof {
        assert forall|f: Field<T>, m: spec_fn(P, usize) -> Rgb<T>| #[trigger]
            lab.computes(f) && #[trigger] computes2(*to_rgb, m) implies {
            let pixels = rgb_row(m, in_row@, y as int);
            &&& l == l_line(f, lab.weights, pixels)
            &&& a == a_line(f, lab.weights, pixels)
            &&& b == b_line(f, lab.weights, pixels)
        } by {
            assert(pixels =~= rgb_row(m, in_row@, y as int));
            assert(l =~= l_line(f, lab.weights, pixels));
            assert(a =~= a_line(f, lab.weights, pixels));
            assert(b =~= b_line(f, lab.weights, pixels));
        }
    }
}

/// Appends the lightness of one row of gray samples to a plane.
pub fn gray_row_to_lab<T: ColorSample, F: Fn(T, T, T) -> T>(lab: &LabSpace<T, F>, in_row: &[T], out: &mut Vec<T>)
    requires
        lab.wf(),
    ensures
        forall|f: Field<T>| #[trigger]
            lab.computes(f) ==> final(out)@ == old(out)@ + gray_line(f, lab.weights, in_row@),
{
    let width: usize = in_row.len();
    let ghost out0 = out@;
    let start: usize = out.len();
    for x in 0..width
        invariant
            width == in_row@.len(),
            out@ == out0 + in_row@.subrange(0, x as int),
    {
        out.push(in_row[x]);
        assert(out@ =~= out0 + in_row@.subrange(0, x + 1));
    }
    let row = window_mut(out.as_mut_slice(), start, width);
    assert(row@ =~= in_row@);
    lab.gray_lab_scalar(row);
    let ghost line = row@;
    assert(out@ =~= out0 + line);
    proof {
        assert forall|f: Field<T>| #[trigger] lab.computes(f) implies line == gray_line(
            f,
            lab.weights,
            in_row@,
        ) by {
            assert(line =~= gray_line(f, lab.weights, in_row@));
        }
    }
}

/// The planes are `width` by `height`, without padding.
pub open spec fn are_tight<T>(planes: Seq<Plane<T>>, width: usize, height: usize) -> bool {
    forall|i: int|
        0 <= i < planes.len() ==> (#[trigger] planes[i]).width == width && planes[i].height == height
            && planes[i].stride == width && planes[i].buf@.len() == width * height
}

/// A plane stands in a buffer that was taken from a pool for it: row by row its samples were appended
/// to that buffer, which had room for all of them.
pub open spec fn is_drawn<T>(before: PoolState<T>, after: PoolState<T>, plane: Plane<T>) -> bool {
    exists|taken: Vec<T>| #[trigger]
        took(before, after, taken, (plane.width * plane.height) as usize) && grown(
            taken,
            plane.buf,
            plane.height as nat,
        )
}

/// Three planes stand in buffers that were taken from a pool for them, one after the other.
pub open spec fn are_drawn<T>(before: PoolState<T>, after: PoolState<T>, planes: Seq<Plane<T>>) -> bool {
    let area = (planes[0].width * planes[0].height) as usize;
    let one = before.after_take(area);
    let two = one.after_take(area);
    &&& is_drawn(before, one, planes[0])
    &&& is_drawn(one, two, planes[1])
    &&& is_drawn(two, after, planes[2])
}

/// The L, a and b planes of an image, in buffers of a pool. `to_rgb` gives the linear light of a
/// pixel, dithered by a number.
pub fn rgb_to_lab<P: Copy, T: ColorSample, F: Fn(T, T, T) -> T, G: Fn(P, usize) -> Rgb<T>>(
    lab: &LabSpace<T, F>,
    img: PlaneRef<'_, P>,
    to_rgb: &G,
    pool: &mut DssimPool<T>,
) -> (planes: Vec<Plane<T>>)
    requires
        lab.wf(),
        function2(*to_rgb),
        img.wf(),
        area_fits::<T>(img.width as int, img.height as int),
        can_dither(img.width as int, img.height as int),
        old(pool).wf(),
    ensures
        final(pool).wf(),
        ({
            let area = (img.width * img.height) as usize;
            final(pool)@ == old(pool)@.after_take(area).after_take(area).after_take(area)
        }),
        planes@.len() == 3,
        forall|f: Field<T>, g: spec_fn(P, usize) -> Rgb<T>| #[trigger]
            lab.computes(f) && #[trigger] computes2(*to_rgb, g) ==> are_planes(
                planes@,
                color_planes(f, lab.weights, rgb_rows(g, img.view())),
            ),
        are_tight(planes@, img.width, img.height),
        are_drawn(old(pool)@, final(pool)@, planes@),
{
    let width: usize = img.width;
    let height: usize = img.height;
    let area: usize = width * height;

    let mut out_l = pool.take(area);
    let mut out_a = pool.take(area);
    let mut out_b = pool.take(area);
    let ghost (taken_l, taken_a, taken_b) = (out_l, out_a, out_b);
    let mut row_l: Vec<T> = Vec::new();
    let mut row_a: Vec<T> = Vec::new();
    let mut row_b: Vec<T> = Vec::new();
    let ghost w = lab.weights;
    let ghost f0 = field(returned3(lab.mul_add));
    let ghost g0 = returned2(*to_rgb);
    proof {
        law_function3(lab.mul_add);
        law_function2(*to_rgb);
        lemma_not_grown(out_l);
        lemma_not_grown(out_a);
        lemma_not_grown(out_b);
        assert(0 * width == 0);
    }
    for y in 0..height
        invariant
            lab.wf(),
            function2(*to_rgb),
            img.wf(),
            area_fits::<T>(img.width as int, img.height as int),
            can_dither(img.width as int, img.height as int),
            width == img.width,
            height == img.height,
            w == lab.weights,
            lab.computes(f0),
            computes2(*to_rgb, g0),
            row_l@.len() == 0,
            row_a@.len() == 0,
            row_b@.len() == 0,
            grown(taken_l, out_l, y as nat),
            grown(taken_a, out_a, y as nat),
            grown(taken_b, out_b, y as nat),
            out_l@.len() == y * width,
            out_a@.len() == y * width,
            out_b@.len() == y * width,
            forall|f: Field<T>, g: spec_fn(P, usize) -> Rgb<T>, j: int| #[trigger]
                lab.computes(f) && #[trigger] computes2(*to_rgb, g) && 0 <= j < y ==> #[trigger] row_of(
                    out_l@,
                    width as int,
                    width as int,
                    j,
                ) == l_line(f, w, rgb_row(g, img.view()[j], j)),
            forall|f: Field<T>, g: spec_fn(P, usize) -> Rgb<T>, j: int| #[trigger]
                lab.computes(f) && #[trigger] computes2(*to_rgb, g) && 0 <= j < y ==> #[trigger] row_of(
                    out_a@,
                    width as int,
                    width as int,
                    j,
                ) == a_line(f, w, rgb_row(g, img.view()[j], j)),
            forall|f: Field<T>, g: spec_fn(P, usize) -> Rgb<T>, j: int| #[trigger]
                lab.computes(f) && #[trigger] computes2(*to_rgb, g) && 0 <= j < y ==> #[trigger] row_of(
                    out_b@,
                    width as int,
                    width as int,
                    j,
                ) == b_line(f, w, rgb_row(g, img.view()[j], j)),
    {
        let in_row = img.row(y);
        let ghost (l0, a0, b0) = (out_l@, out_a@, out_b@);
        let ghost (mid_l, mid_a, mid_b) = (out_l, out_a, out_b);
        rgb_row_to_lab(lab, in_row, y, to_rgb, &mut row_l, &mut row_a, &mut row_b);
        let ghost (new_l, new_a, new_b) = (row_l@, row_a@, row_b@);
        let joined_l = call2(appended::<T>, out_l, row_l);
        out_l = joined_l.0;
        row_l = joined_l.1;
        let joined_a = call2(appended::<T>, out_a, row_a);
        out_a = joined_a.0;
        row_a = joined_a.1;
        let joined_b = call2(appended::<T>, out_b, row_b);
        out_b = joined_b.0;
        row_b = joined_b.1;
        proof {
            assert(is_appended(mid_l, out_l) && is_appended(mid_a, out_a) && is_appended(mid_b, out_b));
            lemma_grown_once_more(taken_l, mid_l, out_l, y as nat);
            lemma_grown_once_more(taken_a, mid_a, out_a, y as nat);
            lemma_grown_once_more(taken_b, mid_b, out_b, y as nat);
            let pixels0 = rgb_row(g0, in_row@, y as int);
            assert(new_l =~= l_line(f0, w, pixels0));
            assert(new_a =~= a_line(f0, w, pixels0));
            assert(new_b =~= b_line(f0, w, pixels0));
            lemma_row_appended(l0, l_line(f0, w, pixels0), width as int, y as int);
            lemma_row_appended(a0, a_line(f0, w, pixels0), width as int, y as int);
            lemma_row_appended(b0, b_line(f0, w, pixels0), width as int, y as int);
            assert forall|f: Field<T>, g: spec_fn(P, usize) -> Rgb<T>| #[trigger]
                lab.computes(f) && #[trigger] computes2(*to_rgb, g) implies {
                let pixels = rgb_row(g, in_row@, y as int);
                &&& l_line(f, w, pixels) == l_line(f0, w, pixels0)
                &&& a_line(f, w, pixels) == a_line(f0, w, pixels0)
                &&& b_line(f, w, pixels) == b_line(f0, w, pixels0)
            } by {
                let pixels = rgb_row(g, in_row@, y as int);
                assert(new_l =~= l_line(f, w, pixels));
                assert(new_a =~= a_line(f, w, pixels));
                assert(new_b =~= b_line(f, w, pixels));
            }
        }
    }
    proof {
        assert(height * width == width * height) by (nonlinear_arith);
        lemma_tight_fits((width * height) as nat, width as int, height as int);
        assert forall|f: Field<T>, g: spec_fn(P, usize) -> Rgb<T>| #[trigger]
            lab.computes(f) && #[trigger] computes2(*to_rgb, g) implies {
            let goal = color_planes(f, w, rgb_rows(g, img.view()));
            &&& rows_of(out_l@, width as int, height as int, width as int) == goal[0]
            &&& rows_of(out_a@, width as int, height as int, width as int) == goal[1]
            &&& rows_of(out_b@, width as int, height as int, width as int) == goal[2]
        } by {
            let goal = color_planes(f, w, rgb_rows(g, img.view()));
            assert(rows_of(out_l@, width as int, height as int, width as int) =~= goal[0]);
            assert(rows_of(out_a@, width as int, height as int, width as int) =~= goal[1]);
            assert(rows_of(out_b@, width as int, height as int, width as int) =~= goal[2]);
        }
    }
    vec![
        Plane::new(out_l, width, height),
        Plane::new(out_a, width, height),
        Plane::new(out_b, width, height),
    ]
}

/// The lightness plane of a grayscale image, in a buffer of a pool.
pub fn gray_to_lab<T: ColorSample, F: Fn(T, T, T) -> T>(
    lab: &LabSpace<T, F>,
    img: PlaneRef<'_, T>,
    pool: &mut DssimPool<T>,
) -> (planes: Vec<Plane<T>>)
    requires
        lab.wf(),
        img.wf(),
        area_fits::<T>(img.width as int, img.height as int),
        old(pool).wf(),
    ensures
        final(pool).wf(),
        final(pool)@ == old(pool)@.after_take((img.width * img.height) as usize),
        planes@.len() == 1,
        forall|f: Field<T>| #[trigger]
            lab.computes(f) ==> are_planes(planes@, gray_planes(f, lab.weights, img.view())),
        are_tight(planes@, img.width, img.height),
        is_drawn(old(pool)@, final(pool)@, planes@[0]),
{
    let width: usize = img.width;
    let height: usize = img.height;
    let area: usize = width * height;

    let mut out = pool.take(area);
    let ghost taken = out;
    let mut row: Vec<T> = Vec::new();
    let ghost w = lab.weights;
    let ghost f0 = field(returned3(lab.mul_add));
    proof {
        law_function3(lab.mul_add);
        lemma_not_grown(out);
        assert(0 * width == 0);
    }
    for y in 0..height
        invariant
            lab.wf(),
            img.wf(),
            area_fits::<T>(img.width as int, img.height as int),
            width == img.width,
            height == img.height,
            w == lab.weights,
            lab.computes(f0),
            row@.len() == 0,
            grown(taken, out, y as nat),
            out@.len() == y * width,
            forall|f: Field<T>, j: int| #[trigger]
                lab.computes(f) && 0 <= j < y ==> #[trigger] row_of(out@, width as int, width as int, j)
                    == gray_line(f, w, img.view()[j]),
    {
        let in_row = img.row(y);
        let ghost out0 = out@;
        let ghost mid = out;
        gray_row_to_lab(lab, in_row, &mut row);
        let ghost new = row@;
        let joined = call2(appended::<T>, out, row);
        out = joined.0;
        row = joined.1;
        proof {
            assert(is_appended(mid, out));
            lemma_grown_once_more(taken, mid, out, y as nat);
            assert(new =~= gray_line(f0, w, in_row@));
            lemma_row_appended(out0, gray_line(f0, w, in_row@), width as int, y as int);
            assert forall|f: Field<T>| #[trigger] lab.computes(f) implies gray_line(f, w, in_row@)
                == gray_line(f0, w, in_row@) by {
                assert(new =~= gray_line(f, w, in_row@));
            }
        }
    }
    proof {
        assert(height * width == width * height) by (nonlinear_arith);
        lemma_tight_fits((width * height) as nat, width as int, height as int);
        assert forall|f: Field<T>| #[trigger] lab.computes(f) implies rows_of(
            out@,
            width as int,
            height as int,
            width as int,
        ) == gray_planes(f, w, img.view())[0] by {
            assert(rows_of(out@, width as int, height as int, width as int) =~= gray_planes(f, w, img.view())[0]);
        }
    }
    vec![Plane::new(out, width, height)]
}

/// An image that can be converted to planes of L\*a\*b\*: one for a gray image, three for one in
/// colour.
pub trait ToLABBitmap<T: ColorSample> {
    /// The image can be converted.
    spec fn convertible(&self) -> bool;

    /// The rows of the planes.
    spec fn lab_rows(&self, f: Field<T>, w: LabWeights<T>) -> Seq<Seq<Seq<T>>>;

    fn to_lab<F: Fn(T, T, T) -> T>(&self, lab: &LabSpace<T, F>) -> (planes: Vec<Plane<T>>)
        requires
            self.convertible(),
            lab.wf(),
        ensures
            planes@.len() == 1 || planes@.len() == 3,
            forall|f: Field<T>| #[trigger]
                lab.computes(f) ==> are_planes(planes@, self.lab_rows(f, lab.weights)),
    ;

    /// Like [`ToLABBitmap::to_lab`], but draws the buffers of the planes from a pool, so that they
    /// are used again. Unless an image does so, the pool is left alone.
    fn to_lab_pooled<F: Fn(T, T, T) -> T>(
        &self,
        lab: &LabSpace<T, F>,
        pool: &mut DssimPool<T>,
    ) -> (planes: Vec<Plane<T>>)
        requires
            self.convertible(),
            lab.wf(),
            old(pool).wf(),
        ensures
            final(pool).wf(),
            planes@.len() == 1 || planes@.len() == 3,
            forall|f: Field<T>| #[trigger]
                lab.computes(f) ==> are_planes(planes@, self.lab_rows(f, lab.weights)),
        default_ensures
            final(pool)@ == old(pool)@,
    {
        self.to_lab(lab)
    }
}

impl<'a, T: ColorSample> ToLABBitmap<T> for PlaneRef<'a, Rgb<T>> {
    open spec fn convertible(&self) -> bool {
        &&& self.wf()
        &&& area_fits::<T>(self.width as int, self.height as int)
        &&& can_dither(self.width as int, self.height as int)
    }

    open spec fn lab_rows(&self, f: Field<T>, w: LabWeights<T>) -> Seq<Seq<Seq<T>>> {
        color_planes(f, w, self.view())
    }

    fn to_lab<F: Fn(T, T, T) -> T>(&self, lab: &LabSpace<T, F>) -> (planes: Vec<Plane<T>>)
        ensures
            are_tight(planes@, self.width, self.height),
    {
        let mut pool = DssimPool::new();
        self.to_lab_pooled(lab, &mut pool)
    }

    fn to_lab_pooled<F: Fn(T, T, T) -> T>(
        &self,
        lab: &LabSpace<T, F>,
        pool: &mut DssimPool<T>,
    ) -> (planes: Vec<Plane<T>>)
        ensures
            ({
                let area = (self.width * self.height) as usize;
                final(pool)@ == old(pool)@.after_take(area).after_take(area).after_take(area)
            }),
            are_drawn(old(pool)@, final(pool)@, planes@),
            are_tight(planes@, self.width, self.height),
    {
        let to_rgb = |px: Rgb<T>, n: usize| -> (rgb: Rgb<T>)
            ensures
                rgb == px,
            { px };
        let img = PlaneRef { buf: self.buf, width: self.width, height: self.height, stride: self.stride };
        let planes = rgb_to_lab(lab, img, &to_rgb, pool);
        proof {
            let rows = self.view();
            let g = |px: Rgb<T>, n: usize| px;
            assert(computes2(to_rgb, g));
            assert forall|y: int| 0 <= y < rows.len() implies rgb_row(g, #[trigger] rows[y], y)
                == rows[y] by {
                assert(rgb_row(g, rows[y], y) =~= rows[y]);
            }
            assert(rgb_rows(g, rows) =~= rows);
        }
        planes
    }
}

impl<T: ColorSample> ToLABBitmap<T> for Plane<Rgb<T>> {
    open spec fn convertible(&self) -> bool {
        &&& self.wf()
        &&& area_fits::<T>(self.width as int, self.height as int)
        &&& can_dither(self.width as int, self.height as int)
    }

    open spec fn lab_rows(&self, f: Field<T>, w: LabWeights<T>) -> Seq<Seq<Seq<T>>> {
        color_planes(f, w, self.view())
    }

    fn to_lab<F: Fn(T, T, T) -> T>(&self, lab: &LabSpace<T, F>) -> (planes: Vec<Plane<T>>)
        ensures
            are_tight(planes@, self.width, self.height),
    {
        self.as_ref().to_lab(lab)
    }

    fn to_lab_pooled<F: Fn(T, T, T) -> T>(
        &self,
        lab: &LabSpace<T, F>,
        pool: &mut DssimPool<T>,
    ) -> (planes: Vec<Plane<T>>)
        ensures
            ({
                let area = (self.width * self.height) as usize;
                final(pool)@ == old(pool)@.after_take(area).after_take(area).after_take(area)
            }),
            are_drawn(old(pool)@, final(pool)@, planes@),
            are_tight(planes@, self.width, self.height),
    {
        self.as_ref().to_lab_pooled(lab, pool)
    }
}

impl<T: ColorSample> ToLABBitmap<T> for Plane<T> {
    open spec fn convertible(&self) -> bool {
        self.wf() && area_fits::<T>(self.width as int, self.height as int)
    }

    open spec fn lab_rows(&self, f: Field<T>, w: LabWeights<T>) -> Seq<Seq<Seq<T>>> {
        gray_planes(f, w, self.view())
    }

    fn to_lab<F: Fn(T, T, T) -> T>(&self, lab: &LabSpace<T, F>) -> (planes: Vec<Plane<T>>)
        ensures
            are_tight(planes@, self.width, self.height),
    {
        let mut pool = DssimPool::new();
        self.to_lab_pooled(lab, &mut pool)
    }

    fn to_lab_pooled<F: Fn(T, T, T) -> T>(
        &self,
        lab: &LabSpace<T, F>,
        pool: &mut DssimPool<T>,
    ) -> (planes: Vec<Plane<T>>)
        ensures
            final(pool)@ == old(pool)@.after_take((self.width * self.height) as usize),
            is_drawn(old(pool)@, final(pool)@, planes@[0]),
            are_tight(planes@, self.width, self.height),
    {
        gray_to_lab(lab, self.as_ref(), pool)
    }
}

/// An image of pixels that are not linear light themselves: `to_rgb` gives the linear light of a
/// pixel, dithered by a number where the pixel is not opaque.
pub struct DitheredRef<'a, P, G> {
    pub img: PlaneRef<'a, P>,
    pub to_rgb: G,
}

impl<'a, P: Copy, T: ColorSample, G: Fn(P, usize) -> Rgb<T>> ToLABBitmap<T> for DitheredRef<'a, P, G> {
    open spec fn convertible(&self) -> bool {
        &&& self.img.wf()
        &&& area_fits::<T>(self.img.width as int, self.img.height as int)
        &&& can_dither(self.img.width as int, self.img.height as int)
        &&& function2(self.to_rgb)
    }

    open spec fn lab_rows(&self, f: Field<T>, w: LabWeights<T>) -> Seq<Seq<Seq<T>>> {
        color_planes(f, w, rgb_rows(returned2(self.to_rgb), self.img.view()))
    }

    fn to_lab<F: Fn(T, T, T) -> T>(&self, lab: &LabSpace<T, F>) -> (planes: Vec<Plane<T>>)
        ensures
            forall|f: Field<T>, g: spec_fn(P, usize) -> Rgb<T>| #[trigger]
                lab.computes(f) && #[trigger] computes2(self.to_rgb, g) ==> are_planes(
                    planes@,
                    color_planes(f, lab.weights, rgb_rows(g, self.img.view())),
                ),
            are_tight(planes@, self.img.width, self.img.height),
    {
        let mut pool = DssimPool::new();
        self.to_lab_pooled(lab, &mut pool)
    }

    fn to_lab_pooled<F: Fn(T, T, T) -> T>(
        &self,
        lab: &LabSpace<T, F>,
        pool: &mut DssimPool<T>,
    ) -> (planes: Vec<Plane<T>>)
        ensures
            ({
                let area = (self.img.width * self.img.height) as usize;
                final(pool)@ == old(pool)@.after_take(area).after_take(area).after_take(area)
            }),
            are_drawn(old(pool)@, final(pool)@, planes@),
            forall|f: Field<T>, g: spec_fn(P, usize) -> Rgb<T>| #[trigger]
                lab.computes(f) && #[trigger] computes2(self.to_rgb, g) ==> are_planes(
                    planes@,
                    color_planes(f, lab.weights, rgb_rows(g, self.img.view())),
                ),
            are_tight(planes@, self.img.width, self.img.height),
    {
        let img = PlaneRef {
            buf: self.img.buf,
            width: self.img.width,
            height: self.img.height,
            stride: self.img.stride,
        };
        proof {
            law_function2(self.to_rgb);
        }
        rgb_to_lab(lab, img, &self.to_rgb, pool)
    }
}

/// The planes of an image are the same whether their buffers come from a pool or not.
pub proof fn law_pooled_planes<T: ColorSample, I: ToLABBitmap<T>>(
    image: I,
    f: Field<T>,
    w: LabWeights<T>,
    planes: Seq<Plane<T>>,
    pooled: Seq<Plane<T>>,
)
    requires
        are_planes(planes, image.lab_rows(f, w)),
        are_planes(pooled, image.lab_rows(f, w)),
    ensures
        planes.len() == pooled.len(),
        forall|i: int| 0 <= i < planes.len() ==> (#[trigger] planes[i]).view() == pooled[i].view(),
{
}

/// A plane that is drawn from a pool stands in the buffer that was given back to the pool before, if
/// the pool kept that buffer and no other fits better.
pub proof fn law_plane_stands_in_given_buffer<T>(
    before: PoolState<T>,
    between: PoolState<T>,
    after: PoolState<T>,
    given: Vec<T>,
    cap: usize,
    plane: Plane<T>,
)
    requires
        before.valid(),
        gave(before, between, given, cap),
        before.held_bytes() + cap * vstd::layout::size_of::<T>() <= before.cap_bytes,
        0 < plane.width * plane.height <= cap,
        forall|other: usize|
            #[trigger] before.free.contains_key(other) && other >= plane.width * plane.height ==> cap <= other,
        is_drawn(between, after, plane),
    ensures
        exists|taken: Vec<T>| #[trigger] is_cleared(given, taken) && grown(taken, plane.buf, plane.height as nat),
        after == before,
{
    let area = (plane.width * plane.height) as usize;
    let taken = choose|taken: Vec<T>| #[trigger]
        took(between, after, taken, area) && grown(taken, plane.buf, plane.height as nat);
    law_give_then_take(before, between, after, given, cap, taken, area);
}

/// The three planes that are drawn from a pool stand in three buffers of equal room that were given back
/// before, the last one first, if the pool kept them and no other fits better.
pub proof fn law_planes_stand_in_given_buffers<T>(
    before: PoolState<T>,
    one: PoolState<T>,
    two: PoolState<T>,
    three: PoolState<T>,
    after: PoolState<T>,
    given: (Vec<T>, Vec<T>, Vec<T>),
    cap: usize,
    planes: Seq<Plane<T>>,
    width: usize,
    height: usize,
)
    requires
        before.valid(),
        reports(given.0, cap),
        reports(given.1, cap),
        reports(given.2, cap),
        gave(before, one, given.0, cap),
        gave(one, two, given.1, cap),
        gave(two, three, given.2, cap),
        before.held_bytes() + 3 * (cap * vstd::layout::size_of::<T>()) <= before.cap_bytes,
        0 < width * height <= cap,
        forall|other: usize| #[trigger] before.free.contains_key(other) && other >= width * height ==> cap <= other,
        planes.len() == 3,
        are_tight(planes, width, height),
        are_drawn(three, after, planes),
    ensures
        exists|taken: Vec<T>| #[trigger] is_cleared(given.2, taken) && grown(taken, planes[0].buf, height as nat),
        exists|taken: Vec<T>| #[trigger] is_cleared(given.1, taken) && grown(taken, planes[1].buf, height as nat),
        exists|taken: Vec<T>| #[trigger] is_cleared(given.0, taken) && grown(taken, planes[2].buf, height as nat),
        after == before,
{
    assert(cap * vstd::layout::size_of::<T>() >= 0) by (nonlinear_arith);
    law_give(before, one, given.0, cap);
    law_give(one, two, given.1, cap);
    law_give(two, three, given.2, cap);
    let area = (width * height) as usize;
    assert(planes[0].width == width && planes[0].height == height);
    assert(planes[1].width == width && planes[1].height == height);
    assert(planes[2].width == width && planes[2].height == height);
    let (first, second) = (three.after_take(area), three.after_take(area).after_take(area));
    law_plane_stands_in_given_buffer(two, three, first, given.2, cap, planes[0]);
    law_plane_stands_in_given_buffer(one, two, second, given.1, cap, planes[1]);
    law_plane_stands_in_given_buffer(before, one, after, given.0, cap, planes[2]);
}

} // verus!
