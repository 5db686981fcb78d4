//! What holds of every image that is converted, wherever in it a pixel stands.
use crate::arith::{exact_field, function2, returned2, ColorSample, Field};
use crate::cbrt_laws::exact_weights;
use crate::lab::{gray_l, lab_a, lab_b, lab_f, lab_l, LabWeights, Rgb};
use crate::lab_laws::{
    in_gamut, is_on_true_curve, law_axes_are_positive, law_curve_follows_true_one, law_lab_follows_true_one,
    law_lab_of_gray, law_lab_of_pixel, law_lightness_range,
};
use crate::plane::{Plane, PlaneRef};
use crate::plane_laws::{law_plane_ref_view, law_plane_view};
use crate::tolab::{
    a_line, are_planes, are_tight, area_fits, b_line, can_dither, color_planes, dither, gray_line,
    gray_planes, l_line, rgb_row, rgb_rows, DitheredRef, ToLABBitmap,
};
use vstd::prelude::*;

verus! {

/// The number that a pixel is dithered by is the exclusive or of its column and its row, both counted
/// from eleven: with either of the two it gives the other back.
pub proof fn law_dither(x: usize, y: usize)
    requires
        x + 11 <= usize::MAX,
        y + 11 <= usize::MAX,
    ensures
        dither(x as int, y as int) ^ ((y + 11) as usize) == x + 11,
        dither(x as int, y as int) ^ ((x + 11) as usize) == y + 11,
        dither(x as int, y as int) == dither(y as int, x as int),
        dither(x as int, x as int) == 0,
{
    let a = (x + 11) as usize;
    let b = (y + 11) as usize;
    assert((a ^ b) ^ b == a) by (bit_vector);
    assert((a ^ b) ^ a == b) by (bit_vector);
    assert(a ^ b == b ^ a) by (bit_vector);
    assert(a ^ a == 0usize) by (bit_vector);
}

/// No two pixels of a row, and no two of a column, are dithered by the same number.
pub proof fn law_dither_differs(x: usize, other: usize, y: usize)
    requires
        x + 11 <= usize::MAX,
        other + 11 <= usize::MAX,
        y + 11 <= usize::MAX,
        x != other,
    ensures
        dither(x as int, y as int) != dither(other as int, y as int),
        dither(y as int, x as int) != dither(y as int, other as int),
{
    law_dither(x, y);
    law_dither(other, y);
}

/// Every pixel of a line goes through the same conversion, whatever its place.
pub proof fn law_lines_are_pointwise<T>(f: Field<T>, w: LabWeights<T>, line: Seq<Rgb<T>>, x: int)
    requires
        0 <= x < line.len(),
    ensures
        l_line(f, w, line).len() == line.len(),
        a_line(f, w, line).len() == line.len(),
        b_line(f, w, line).len() == line.len(),
        l_line(f, w, line)[x] == lab_l(f, w, line[x]),
        a_line(f, w, line)[x] == lab_a(f, w, line[x]),
        b_line(f, w, line)[x] == lab_b(f, w, line[x]),
        l_line(f, w, line)[x] == l_line(f, w, seq![line[x]])[0],
        a_line(f, w, line)[x] == a_line(f, w, seq![line[x]])[0],
        b_line(f, w, line)[x] == b_line(f, w, seq![line[x]])[0],
{
}

/// Every sample of a gray line goes through the same conversion, whatever its place.
pub proof fn law_gray_line_is_pointwise<T>(f: Field<T>, w: LabWeights<T>, line: Seq<T>, x: int)
    requires
        0 <= x < line.len(),
    ensures
        gray_line(f, w, line).len() == line.len(),
        gray_line(f, w, line)[x] == gray_l(f, w, line[x]),
        gray_line(f, w, line)[x] == gray_line(f, w, seq![line[x]])[0],
{
}

/// The linear light of a pixel in a row depends on that pixel and on the exclusive or of its column
/// and its row, both counted from eleven.
pub proof fn law_light_of_row<P, T>(g: spec_fn(P, usize) -> Rgb<T>, row: Seq<P>, x: int, y: int)
    requires
        0 <= x < row.len(),
    ensures
        rgb_row(g, row, y).len() == row.len(),
        rgb_row(g, row, y)[x] == g(row[x], ((x + 11) as usize) ^ ((y + 11) as usize)),
{
}

/// Of a colour image, the three samples at a place are those of the image of one pixel that stands at
/// that place; so pixels that are alike are converted alike, wherever they stand.
pub proof fn law_conversion_is_pointwise<T>(f: Field<T>, w: LabWeights<T>, rows: Seq<Seq<Rgb<T>>>, x: int, y: int)
    requires
        0 <= y < rows.len(),
        0 <= x < rows[y].len(),
    ensures
        ({
            let planes = color_planes(f, w, rows);
            let one = color_planes(f, w, seq![seq![rows[y][x]]]);
            &&& planes.len() == 3 && one.len() == 3
            &&& forall|i: int| 0 <= i < 3 ==> (#[trigger] planes[i]).len() == rows.len() && planes[i][y].len()
                == rows[y].len() && planes[i][y][x] == one[i][0][0]
            &&& planes[0][y][x] == lab_l(f, w, rows[y][x])
            &&& planes[1][y][x] == lab_a(f, w, rows[y][x])
            &&& planes[2][y][x] == lab_b(f, w, rows[y][x])
        }),
{
    let planes = color_planes(f, w, rows);
    let one = color_planes(f, w, seq![seq![rows[y][x]]]);
    law_lines_are_pointwise(f, w, rows[y], x);
    law_lines_are_pointwise(f, w, seq![rows[y][x]], 0);
    assert(planes[0][y] == l_line(f, w, rows[y]) && one[0][0] == l_line(f, w, seq![rows[y][x]]));
    assert(planes[1][y] == a_line(f, w, rows[y]) && one[1][0] == a_line(f, w, seq![rows[y][x]]));
    assert(planes[2][y] == b_line(f, w, rows[y]) && one[2][0] == b_line(f, w, seq![rows[y][x]]));
}

/// Of a gray image, the sample at a place is that of the image of one sample that stands at that
/// place.
pub proof fn law_gray_conversion_is_pointwise<T>(f: Field<T>, w: LabWeights<T>, rows: Seq<Seq<T>>, x: int, y: int)
    requires
        0 <= y < rows.len(),
        0 <= x < rows[y].len(),
    ensures
        ({
            let planes = gray_planes(f, w, rows);
            &&& planes.len() == 1
            &&& planes[0].len() == rows.len() && planes[0][y].len() == rows[y].len()
            &&& planes[0][y][x] == gray_planes(f, w, seq![seq![rows[y][x]]])[0][0][0]
            &&& planes[0][y][x] == gray_l(f, w, rows[y][x])
        }),
{
    law_gray_line_is_pointwise(f, w, rows[y], x);
    law_gray_line_is_pointwise(f, w, seq![rows[y][x]], 0);
    assert(gray_planes(f, w, rows)[0][y] == gray_line(f, w, rows[y]));
    assert(gray_planes(f, w, seq![seq![rows[y][x]]])[0][0] == gray_line(f, w, seq![rows[y][x]]));
}

/// The three planes hold, at column `x` of row `y`, the L, a and b of `px`.
pub open spec fn holds_lab<T>(
    f: Field<T>,
    w: LabWeights<T>,
    planes: Seq<Plane<T>>,
    width: int,
    x: int,
    y: int,
    px: Rgb<T>,
) -> bool {
    &&& planes[0].buf@[y * width + x] == lab_l(f, w, px)
    &&& planes[1].buf@[y * width + x] == lab_a(f, w, px)
    &&& planes[2].buf@[y * width + x] == lab_b(f, w, px)
}

/// Planes with the rows of a conversion hold in their buffers what the rows hold.
proof fn lemma_color_cells<T>(
    f: Field<T>,
    w: LabWeights<T>,
    rows: Seq<Seq<Rgb<T>>>,
    width: usize,
    height: usize,
    planes: Seq<Plane<T>>,
    x: int,
    y: int,
)
    requires
        width > 0,
        rows.len() == height,
        are_planes(planes, color_planes(f, w, rows)),
        are_tight(planes, width, height),
        0 <= x < width,
        0 <= y < height,
        rows[y].len() == width,
    ensures
        planes.len() == 3,
        holds_lab(f, w, planes, width as int, x, y, rows[y][x]),
{
    law_conversion_is_pointwise(f, w, rows, x, y);
    let goal = color_planes(f, w, rows);
    assert forall|i: int| 0 <= i < 3 implies (#[trigger] planes[i]).buf@[y * width + x] == goal[i][y][x] by {
        law_plane_view(planes[i]);
        assert(planes[i].view()[y][x] == planes[i].buf@[y * planes[i].stride + x]);
    }
    assert(planes[0].buf@[y * width + x] == goal[0][y][x]);
    assert(planes[1].buf@[y * width + x] == goal[1][y][x]);
    assert(planes[2].buf@[y * width + x] == goal[2][y][x]);
}

/// The planes of a borrowed colour image: as wide and as high as it is, without padding, and at every
/// place the L, a and b of the pixel at the same place of the image's buffer.
pub proof fn law_color_image_ref<'a, T: ColorSample>(
    img: PlaneRef<'a, Rgb<T>>,
    f: Field<T>,
    w: LabWeights<T>,
    planes: Seq<Plane<T>>,
)
    requires
        img.convertible(),
        are_planes(planes, img.lab_rows(f, w)),
        are_tight(planes, img.width, img.height),
    ensures
        planes.len() == 3,
        forall|i: int| 0 <= i < 3 ==> (#[trigger] planes[i]).width == img.width && planes[i].height == img.height
            && planes[i].buf@.len() == img.width * img.height,
        forall|x: int, y: int|
            0 <= x < img.width && 0 <= y < img.height ==> #[trigger] holds_lab(
                f,
                w,
                planes,
                img.width as int,
                x,
                y,
                img.buf@[y * img.stride + x],
            ),
{
    law_plane_ref_view(img);
    assert(planes.len() == 3) by {
        assert(img.lab_rows(f, w).len() == 3);
    }
    assert forall|x: int, y: int| 0 <= x < img.width && 0 <= y < img.height implies #[trigger] holds_lab(
        f,
        w,
        planes,
        img.width as int,
        x,
        y,
        img.buf@[y * img.stride + x],
    ) by {
        assert(img.view()[y].len() == img.width);
        assert(img.view()[y][x] == img.buf@[y * img.stride + x]);
        lemma_color_cells(f, w, img.view(), img.width, img.height, planes, x, y);
    }
}

/// The planes of a colour image: as wide and as high as it is, without padding, and at every place the
/// L, a and b of the pixel at the same place of the image's buffer.
pub proof fn law_color_image<T: ColorSample>(img: Plane<Rgb<T>>, f: Field<T>, w: LabWeights<T>, planes: Seq<Plane<T>>)
    requires
        img.convertible(),
        are_planes(planes, img.lab_rows(f, w)),
        are_tight(planes, img.width, img.height),
    ensures
        planes.len() == 3,
        forall|i: int| 0 <= i < 3 ==> (#[trigger] planes[i]).width == img.width && planes[i].height == img.height
            && planes[i].buf@.len() == img.width * img.height,
        forall|x: int, y: int|
            0 <= x < img.width && 0 <= y < img.height ==> #[trigger] holds_lab(
                f,
                w,
                planes,
                img.width as int,
                x,
                y,
                img.buf@[y * img.stride + x],
            ),
{
    law_plane_view(img);
    assert(planes.len() == 3) by {
        assert(img.lab_rows(f, w).len() == 3);
    }
    assert forall|x: int, y: int| 0 <= x < img.width && 0 <= y < img.height implies #[trigger] holds_lab(
        f,
        w,
        planes,
        img.width as int,
        x,
        y,
        img.buf@[y * img.stride + x],
    ) by {
        assert(img.view()[y].len() == img.width);
        assert(img.view()[y][x] == img.buf@[y * img.stride + x]);
        lemma_color_cells(f, w, img.view(), img.width, img.height, planes, x, y);
    }
}

/// The plane of a gray image: as wide and as high as it is, without padding, and at every place the
/// lightness of the sample at the same place of the image's buffer.
pub proof fn law_gray_image<T: ColorSample>(img: Plane<T>, f: Field<T>, w: LabWeights<T>, planes: Seq<Plane<T>>)
    requires
        <Plane<T> as ToLABBitmap<T>>::convertible(&img),
        are_planes(planes, <Plane<T> as ToLABBitmap<T>>::lab_rows(&img, f, w)),
        are_tight(planes, img.width, img.height),
    ensures
        planes.len() == 1,
        planes[0].width == img.width && planes[0].height == img.height,
        planes[0].buf@.len() == img.width * img.height,
        forall|x: int, y: int|
            0 <= x < img.width && 0 <= y < img.height ==> #[trigger] planes[0].view()[y][x] == gray_l(
                f,
                w,
                img.buf@[y * img.stride + x],
            ) && planes[0].buf@[y * img.width + x] == planes[0].view()[y][x],
{
    law_plane_view(img);
    let goal = gray_planes(f, w, img.view());
    assert(planes.len() == goal.len());
    law_plane_view(planes[0]);
    assert forall|x: int, y: int| 0 <= x < img.width && 0 <= y < img.height implies #[trigger] planes[0].view()[y][x]
        == gray_l(f, w, img.buf@[y * img.stride + x]) && planes[0].buf@[y * img.width + x]
        == planes[0].view()[y][x] by {
        assert(img.view()[y].len() == img.width);
        assert(img.view()[y][x] == img.buf@[y * img.stride + x]);
        law_gray_conversion_is_pointwise(f, w, img.view(), x, y);
    }
}

/// The planes of an image whose pixels are dithered: at every place the L, a and b of the linear light
/// of the pixel at the same place, dithered by the exclusive or of column and row, both counted from
/// eleven.
pub proof fn law_dithered_image<'a, P, T>(
    img: PlaneRef<'a, P>,
    g: spec_fn(P, usize) -> Rgb<T>,
    f: Field<T>,
    w: LabWeights<T>,
    planes: Seq<Plane<T>>,
)
    requires
        img.wf(),
        img.width > 0,
        are_planes(planes, color_planes(f, w, rgb_rows(g, img.view()))),
        are_tight(planes, img.width, img.height),
    ensures
        planes.len() == 3,
        forall|i: int| 0 <= i < 3 ==> (#[trigger] planes[i]).width == img.width && planes[i].height == img.height
            && planes[i].buf@.len() == img.width * img.height,
        forall|x: int, y: int|
            0 <= x < img.width && 0 <= y < img.height ==> #[trigger] holds_lab(
                f,
                w,
                planes,
                img.width as int,
                x,
                y,
                g(img.buf@[y * img.stride + x], ((x + 11) as usize) ^ ((y + 11) as usize)),
            ),
{
    law_plane_ref_view(img);
    let rows = rgb_rows(g, img.view());
    assert(planes.len() == color_planes(f, w, rows).len());
    assert forall|x: int, y: int| 0 <= x < img.width && 0 <= y < img.height implies #[trigger] holds_lab(
        f,
        w,
        planes,
        img.width as int,
        x,
        y,
        g(img.buf@[y * img.stride + x], ((x + 11) as usize) ^ ((y + 11) as usize)),
    ) by {
        assert(img.view()[y].len() == img.width);
        assert(img.view()[y][x] == img.buf@[y * img.stride + x]);
        law_light_of_row(g, img.view()[y], x, y);
        assert(rows[y] == rgb_row(g, img.view()[y], y));
        lemma_color_cells(f, w, rows, img.width, img.height, planes, x, y);
    }
}

/// The same of an image that brings its own conversion to linear light along.
pub proof fn law_dithered_ref<'a, P: Copy, T: ColorSample, G: Fn(P, usize) -> Rgb<T>>(
    image: DitheredRef<'a, P, G>,
    f: Field<T>,
    w: LabWeights<T>,
    planes: Seq<Plane<T>>,
)
    requires
        <DitheredRef<'a, P, G> as ToLABBitmap<T>>::convertible(&image),
        are_planes(planes, <DitheredRef<'a, P, G> as ToLABBitmap<T>>::lab_rows(&image, f, w)),
        are_tight(planes, image.img.width, image.img.height),
    ensures
        planes.len() == 3,
        forall|x: int, y: int|
            0 <= x < image.img.width && 0 <= y < image.img.height ==> #[trigger] holds_lab(
                f,
                w,
                planes,
                image.img.width as int,
                x,
                y,
                returned2(image.to_rgb)(
                    image.img.buf@[y * image.img.stride + x],
                    ((x + 11) as usize) ^ ((y + 11) as usize),
                ),
            ),
{
    law_dithered_image(image.img, returned2(image.to_rgb), f, w, planes);
}

/// Every image that has a width and whose planes can be counted and stored can be converted.
pub proof fn law_convertible<'a, T: ColorSample>(img: PlaneRef<'a, Rgb<T>>, gray: Plane<T>)
    requires
        img.wf(),
        0 < img.width && img.width + 11 <= usize::MAX && img.height + 11 <= usize::MAX,
        img.width * img.height <= usize::MAX,
        img.width * img.height * vstd::layout::size_of::<T>() <= isize::MAX,
        gray.wf(),
        0 < gray.width,
        gray.width * gray.height <= usize::MAX,
        gray.width * gray.height * vstd::layout::size_of::<T>() <= isize::MAX,
    ensures
        img.convertible(),
        <Plane<T> as ToLABBitmap<T>>::convertible(&gray),
        area_fits::<T>(img.width as int, img.height as int),
        can_dither(img.width as int, img.height as int),
{
}

/// The same of an image that owns its pixels, and of one that brings its own conversion to linear light
/// along.
pub proof fn law_convertible_too<'a, P: Copy, T: ColorSample, G: Fn(P, usize) -> Rgb<T>>(
    img: Plane<Rgb<T>>,
    image: DitheredRef<'a, P, G>,
)
    requires
        img.wf(),
        0 < img.width && img.width + 11 <= usize::MAX && img.height + 11 <= usize::MAX,
        img.width * img.height <= usize::MAX,
        img.width * img.height * vstd::layout::size_of::<T>() <= isize::MAX,
        image.img.wf(),
        0 < image.img.width && image.img.width + 11 <= usize::MAX && image.img.height + 11 <= usize::MAX,
        image.img.width * image.img.height <= usize::MAX,
        image.img.width * image.img.height * vstd::layout::size_of::<T>() <= isize::MAX,
        function2(image.to_rgb),
    ensures
        img.convertible(),
        <DitheredRef<'a, P, G> as ToLABBitmap<T>>::convertible(&image),
{
}

/// In exact arithmetic a pixel without colour has both colour axes at their offsets, 86.2/220 and
/// 107.9/220, and 1.05 times its curve as lightness, wherever it stands.
pub proof fn law_neutral_pixel_anywhere(rows: Seq<Seq<Rgb<real>>>, x: int, y: int, v: real)
    requires
        0 <= y < rows.len(),
        0 <= x < rows[y].len(),
        rows[y][x].r == v,
        rows[y][x].g == v,
        rows[y][x].b == v,
    ensures
        ({
            let planes = color_planes(exact_field(), exact_weights(), rows);
            &&& 100real * planes[0][y][x] == 105real * lab_f(exact_field(), exact_weights(), v)
            &&& 2200real * planes[1][y][x] == 862real
            &&& 2200real * planes[2][y][x] == 1079real
        }),
{
    law_conversion_is_pointwise(exact_field(), exact_weights(), rows, x, y);
    law_lab_of_pixel(rows[y][x], v, v, v);
}

/// In exact arithmetic the planes of an image whose pixels are in range hold, at every place, values
/// near those that the true curve gives for the X, Y and Z of the pixel there; its lightness is from
/// zero to one and its colour axes are positive.
pub proof fn law_color_planes_follow_true_curve(
    rows: Seq<Seq<Rgb<real>>>,
    x: int,
    y: int,
    xyz: (real, real, real),
    curved: (real, real, real),
)
    requires
        0 <= y < rows.len(),
        0 <= x < rows[y].len(),
        in_gamut(rows[y][x]),
        9505real * xyz.0 == 4124real * rows[y][x].r + 3576real * rows[y][x].g + 1805real * rows[y][x].b,
        10_000real * xyz.1 == 2126real * rows[y][x].r + 7152real * rows[y][x].g + 722real * rows[y][x].b,
        10_890real * xyz.2 == 193real * rows[y][x].r + 1192real * rows[y][x].g + 9505real * rows[y][x].b,
        is_on_true_curve(xyz.0, curved.0),
        is_on_true_curve(xyz.1, curved.1),
        is_on_true_curve(xyz.2, curved.2),
    ensures
        ({
            let planes = color_planes(exact_field(), exact_weights(), rows);
            let (l, a, b) = (planes[0][y][x], planes[1][y][x], planes[2][y][x]);
            &&& -2real <= 100_000real * (l - 105real / 100real * curved.1) <= 2real
            &&& -5real <= 100_000real * (a - (500real / 220real * (curved.0 - curved.1) + 862real / 2200real)) <= 5real
            &&& -2real <= 100_000real * (b - (200real / 220real * (curved.1 - curved.2) + 1079real / 2200real)) <= 2real
            &&& 0real <= l <= 1real
            &&& a > 0real && b > 0real
        }),
{
    law_conversion_is_pointwise(exact_field(), exact_weights(), rows, x, y);
    law_lab_follows_true_one(rows[y][x], xyz.0, xyz.1, xyz.2, curved.0, curved.1, curved.2);
    law_lightness_range(rows[y][x]);
    law_axes_are_positive(rows[y][x]);
}

/// In exact arithmetic the plane of a gray image holds, at every place, 1.16 times the true curve of the
/// sample there, within 1.16/100000.
pub proof fn law_gray_plane_follows_true_curve(rows: Seq<Seq<real>>, x: int, y: int, curved: real)
    requires
        0 <= y < rows.len(),
        0 <= x < rows[y].len(),
        0real <= rows[y][x] <= 1real,
        is_on_true_curve(rows[y][x], curved),
    ensures
        ({
            let v = gray_planes(exact_field(), exact_weights(), rows)[0][y][x];
            -116real <= 10_000_000real * (v - 116real / 100real * curved) <= 116real
        }),
{
    law_gray_conversion_is_pointwise(exact_field(), exact_weights(), rows, x, y);
    law_lab_of_gray(rows[y][x]);
    law_curve_follows_true_one(rows[y][x], curved);
}

} // verus!
