//! From linear RGB to L\*a\*b\*.
//!
//! The lightness is scaled by 1.05 in place of the usual 1.16, which gives colour more weight,
//! and the two colour axes are moved so that they stay positive.
use crate::arith::{computes2, computes3, field, field_total, function2, function3, ColorSample, Field};
use vstd::prelude::*;

verus! {

/// The constants of the conversion.
#[derive(Clone, Copy, Debug, PartialEq)]
pub struct LabWeights<T> {
    /// The polynomial that a cube root is first guessed by, from the constant term on.
    pub guess0: T,
    pub guess1: T,
    pub guess2: T,
    pub two: T,
    /// Up to here the curve is a straight line.
    pub epsilon: T,
    /// The slope of that line.
    pub slope: T,
    /// What is taken off a cube root.
    pub offset: T,
    /// RGB to XYZ, relative to the D65 white point.
    pub x_r: T,
    pub x_g: T,
    pub x_b: T,
    pub y_r: T,
    pub y_g: T,
    pub y_b: T,
    pub z_r: T,
    pub z_g: T,
    pub z_b: T,
    pub l_scale: T,
    pub a_scale: T,
    pub a_offset: T,
    pub b_scale: T,
    pub b_offset: T,
    /// The scale of a grayscale image, and its slope up to `epsilon`.
    pub gray_scale: T,
    pub gray_slope: T,
}

/// The constants of the conversion. `ratio` gives the number that stands for a fraction.
pub open spec fn lab_weights<T>(f: Field<T>, ratio: spec_fn(i64, i64) -> T) -> LabWeights<T> {
    let white_x = ratio(9505, 10000);
    let white_y = ratio(1, 1);
    let white_z = ratio(1089, 1000);
    let slope = (f.over)(ratio(24389, 1), (f.times)(ratio(27, 1), ratio(116, 1)));
    let gray_scale = ratio(116, 100);
    LabWeights {
        guess0: ratio(2, 10),
        guess1: ratio(151, 100),
        guess2: ratio((-5) as i64, 10),
        two: ratio(2, 1),
        epsilon: (f.over)(ratio(216, 1), ratio(24389, 1)),
        slope,
        offset: (f.over)(ratio(16, 1), ratio(116, 1)),
        x_r: (f.over)(ratio(4124, 10000), white_x),
        x_g: (f.over)(ratio(3576, 10000), white_x),
        x_b: (f.over)(ratio(1805, 10000), white_x),
        y_r: (f.over)(ratio(2126, 10000), white_y),
        y_g: (f.over)(ratio(7152, 10000), white_y),
        y_b: (f.over)(ratio(722, 10000), white_y),
        z_r: (f.over)(ratio(193, 10000), white_z),
        z_g: (f.over)(ratio(1192, 10000), white_z),
        z_b: (f.over)(ratio(9505, 10000), white_z),
        l_scale: ratio(105, 100),
        a_scale: (f.over)(ratio(500, 1), ratio(220, 1)),
        a_offset: (f.over)(ratio(862, 10), ratio(220, 1)),
        b_scale: (f.over)(ratio(200, 1), ratio(220, 1)),
        b_offset: (f.over)(ratio(1079, 10), ratio(220, 1)),
        gray_scale,
        gray_slope: (f.times)(slope, gray_scale),
    }
}

/// The red, green and blue of a pixel, as linear light.
#[derive(Clone, Copy, Debug, PartialEq)]
pub struct Rgb<T> {
    pub r: T,
    pub g: T,
    pub b: T,
}

/// A weighed sum of three.
pub open spec fn fma_matrix<T>(f: Field<T>, r: T, rx: T, g: T, gx: T, b: T, bx: T) -> T {
    (f.mul_add)(b, bx, (f.mul_add)(g, gx, (f.times)(r, rx)))
}

/// One step of Halley's method from `y` towards the cube root of `x`.
pub open spec fn halley<T>(f: Field<T>, two: T, x: T, y: T) -> T {
    let y3 = (f.times)((f.times)(y, y), y);
    (f.over)((f.times)(y, (f.mul_add)(two, x, y3)), (f.mul_add)(two, y3, x))
}

/// The first guess at the cube root of `x`.
pub open spec fn cbrt_guess<T>(f: Field<T>, w: LabWeights<T>, x: T) -> T {
    (f.mul_add)((f.mul_add)(w.guess2, x, w.guess1), x, w.guess0)
}

/// About the cube root of `x`, for `x` from zero to one: a guess and two steps.
pub open spec fn cbrt_poly<T>(f: Field<T>, w: LabWeights<T>, x: T) -> T {
    halley(f, w.two, x, halley(f, w.two, x, cbrt_guess(f, w, x)))
}

/// The curve that each of X, Y and Z goes through.
pub open spec fn lab_f<T>(f: Field<T>, w: LabWeights<T>, t: T) -> T {
    if (f.above)(t, w.epsilon) {
        (f.minus)(cbrt_poly(f, w, t), w.offset)
    } else {
        (f.times)(w.slope, t)
    }
}

/// X of a pixel, through the curve.
pub open spec fn curved_x<T>(f: Field<T>, w: LabWeights<T>, px: Rgb<T>) -> T {
    lab_f(f, w, fma_matrix(f, px.r, w.x_r, px.g, w.x_g, px.b, w.x_b))
}

/// Y of a pixel, through the curve.
pub open spec fn curved_y<T>(f: Field<T>, w: LabWeights<T>, px: Rgb<T>) -> T {
    lab_f(f, w, fma_matrix(f, px.r, w.y_r, px.g, w.y_g, px.b, w.y_b))
}

/// Z of a pixel, through the curve.
pub open spec fn curved_z<T>(f: Field<T>, w: LabWeights<T>, px: Rgb<T>) -> T {
    lab_f(f, w, fma_matrix(f, px.r, w.z_r, px.g, w.z_g, px.b, w.z_b))
}

/// The lightness of a pixel.
pub open spec fn lab_l<T>(f: Field<T>, w: LabWeights<T>, px: Rgb<T>) -> T {
    (f.times)(curved_y(f, w, px), w.l_scale)
}

/// How red or green a pixel is.
pub open spec fn lab_a<T>(f: Field<T>, w: LabWeights<T>, px: Rgb<T>) -> T {
    (f.mul_add)(w.a_scale, (f.minus)(curved_x(f, w, px), curved_y(f, w, px)), w.a_offset)
}

/// How yellow or blue a pixel is.
pub open spec fn lab_b<T>(f: Field<T>, w: LabWeights<T>, px: Rgb<T>) -> T {
    (f.mul_add)(w.b_scale, (f.minus)(curved_y(f, w, px), curved_z(f, w, px)), w.b_offset)
}

/// The lightness of a sample of a grayscale image.
pub open spec fn gray_l<T>(f: Field<T>, w: LabWeights<T>, v: T) -> T {
    if (f.above)(v, w.epsilon) {
        (f.times)((f.minus)(cbrt_poly(f, w, v), w.offset), w.gray_scale)
    } else {
        (f.times)(w.gray_slope, v)
    }
}

/// The conversion to L\*a\*b\* in the arithmetic of one sample type.
pub struct LabSpace<T, F> {
    pub weights: LabWeights<T>,
    /// `mul_add(a, b, c)` is `a * b + c`, rounded once.
    pub mul_add: F,
}

impl<T: ColorSample, F: Fn(T, T, T) -> T> LabSpace<T, F> {
    /// The conversion computes in this arithmetic.
    pub open spec fn computes(&self, f: Field<T>) -> bool {
        f == field(f.mul_add) && computes3(self.mul_add, f.mul_add)
    }

    /// All operations of the conversion take any operands, and their results are functions of
    /// them.
    pub open spec fn wf(&self) -> bool {
        field_total::<T>() && function3(self.mul_add)
    }

    /// The conversion with its usual constants. `ratio` gives the sample that stands for a
    /// fraction.
    pub fn new<L: Fn(i64, i64) -> T>(ratio: &L, mul_add: F) -> (lab: Self)
        requires
            field_total::<T>(),
            function2(*ratio),
            function3(mul_add),
        ensures
            lab.wf(),
            lab.mul_add == mul_add,
            forall|f: Field<T>, literal: spec_fn(i64, i64) -> T| #[trigger]
                lab.computes(f) && #[trigger] computes2(*ratio, literal) ==> lab.weights == lab_weights(
                    f,
                    literal,
                ),
    {
        let white_x = ratio(9505, 10000);
        let white_y = ratio(1, 1);
        let white_z = ratio(1089, 1000);
        let slope = ratio(24389, 1) / (ratio(27, 1) * ratio(116, 1));
        let gray_scale = ratio(116, 100);
        let weights = LabWeights {
            guess0: ratio(2, 10),
            guess1: ratio(151, 100),
            guess2: ratio(-5, 10),
            two: ratio(2, 1),
            epsilon: ratio(216, 1) / ratio(24389, 1),
            slope,
            offset: ratio(16, 1) / ratio(116, 1),
            x_r: ratio(4124, 10000) / white_x,
            x_g: ratio(3576, 10000) / white_x,
            x_b: ratio(1805, 10000) / white_x,
            y_r: ratio(2126, 10000) / white_y,
            y_g: ratio(7152, 10000) / white_y,
            y_b: ratio(722, 10000) / white_y,
            z_r: ratio(193, 10000) / white_z,
            z_g: ratio(1192, 10000) / white_z,
            z_b: ratio(9505, 10000) / white_z,
            l_scale: ratio(105, 100),
            a_scale: ratio(500, 1) / ratio(220, 1),
            a_offset: ratio(862, 10) / ratio(220, 1),
            b_scale: ratio(200, 1) / ratio(220, 1),
            b_offset: ratio(1079, 10) / ratio(220, 1),
            gray_scale,
            gray_slope: slope * gray_scale,
        };
        LabSpace { weights, mul_add }
    }

    fn fma_matrix(&self, r: T, rx: T, g: T, gx: T, b: T, bx: T) -> (sum: T)
        requires
            self.wf(),
        ensures
            forall|f: Field<T>| #[trigger] self.computes(f) ==> sum == fma_matrix(f, r, rx, g, gx, b, bx),
    {
        (self.mul_add)(b, bx, (self.mul_add)(g, gx, r * rx))
    }

    /// About the cube root of `x`, for `x` from zero to one.
    pub fn cbrt_poly(&self, x: T) -> (root: T)
        requires
            self.wf(),
        ensures
            forall|f: Field<T>| #[trigger] self.computes(f) ==> root == cbrt_poly(f, self.weights, x),
    {
        let w = &self.weights;
        let y = (self.mul_add)((self.mul_add)(w.guess2, x, w.guess1), x, w.guess0);

        let y3 = y * y * y;
        let y = y * (self.mul_add)(w.two, x, y3) / (self.mul_add)(w.two, y3, x);
        let y3 = y * y * y;
        let y = y * (self.mul_add)(w.two, x, y3) / (self.mul_add)(w.two, y3, x);
        y
    }

    /// The curve that each of X, Y and Z goes through. Both of its parts are computed, so that
    /// a loop over it has no branch.
    fn lab_f(&self, t: T) -> (v: T)
        requires
            self.wf(),
        ensures
            forall|f: Field<T>| #[trigger] self.computes(f) ==> v == lab_f(f, self.weights, t),
    {
        let cbrt = self.cbrt_poly(t) - self.weights.offset;
        let lin = self.weights.slope * t;
        if t > self.weights.epsilon {
            cbrt
        } else {
            lin
        }
    }

    /// Converts planar samples where they stand: red, green and blue become L, a and b.
    pub fn lab_transform_scalar(&self, r: &mut [T], g: &mut [T], b: &mut [T])
        requires
            self.wf(),
            old(g)@.len() >= old(r)@.len(),
            old(b)@.len() >= old(r)@.len(),
        ensures
            final(r)@.len() == old(r)@.len(),
            final(g)@.len() == old(g)@.len(),
            final(b)@.len() == old(b)@.len(),
            forall|f: Field<T>, i: int| #[trigger]
                self.computes(f) && 0 <= i < old(r)@.len() ==> #[trigger] final(r)@[i] == lab_l(
                    f,
                    self.weights,
                    (Rgb { r: old(r)@[i], g: old(g)@[i], b: old(b)@[i] }),
                ),
            forall|f: Field<T>, i: int| #[trigger]
                self.computes(f) && 0 <= i < old(r)@.len() ==> #[trigger] final(g)@[i] == lab_a(
                    f,
                    self.weights,
                    (Rgb { r: old(r)@[i], g: old(g)@[i], b: old(b)@[i] }),
                ),
            forall|f: Field<T>, i: int| #[trigger]
                self.computes(f) && 0 <= i < old(r)@.len() ==> #[trigger] final(b)@[i] == lab_b(
                    f,
                    self.weights,
                    (Rgb { r: old(r)@[i], g: old(g)@[i], b: old(b)@[i] }),
                ),
            forall|i: int|
                old(r)@.len() <= i < old(g)@.len() ==> #[trigger] final(g)@[i] == old(g)@[i],
            forall|i: int|
                old(r)@.len() <= i < old(b)@.len() ==> #[trigger] final(b)@[i] == old(b)@[i],
    {
        let ghost (r0, g0, b0) = (r@, g@, b@);
        let n: usize = r.len();
        for i in 0..n
            invariant
                self.wf(),
                n == r0.len(),
                r@.len() == r0.len(),
                g@.len() == g0.len(),
                b@.len() == b0.len(),
                g0.len() >= n,
                b0.len() >= n,
                forall|f: Field<T>, j: int| #[trigger]
                    self.computes(f) && 0 <= j < i ==> #[trigger] r@[j] == lab_l(
                        f,
                        self.weights,
                        (Rgb { r: r0[j], g: g0[j], b: b0[j] }),
                    ),
                forall|f: Field<T>, j: int| #[trigger]
                    self.computes(f) && 0 <= j < i ==> #[trigger] g@[j] == lab_a(
                        f,
                        self.weights,
                        (Rgb { r: r0[j], g: g0[j], b: b0[j] }),
                    ),
                forall|f: Field<T>, j: int| #[trigger]
                    self.computes(f) && 0 <= j < i ==> #[trigger] b@[j] == lab_b(
                        f,
                        self.weights,
                        (Rgb { r: r0[j], g: g0[j], b: b0[j] }),
                    ),
                forall|j: int| i <= j < r0.len() ==> #[trigger] r@[j] == r0[j],
                forall|j: int| i <= j < g0.len() ==> #[trigger] g@[j] == g0[j],
                forall|j: int| i <= j < b0.len() ==> #[trigger] b@[j] == b0[j],
        {
            let (rr, gg, bb) = (r[i], g[i], b[i]);
            let w = &self.weights;
            let fx = self.fma_matrix(rr, w.x_r, gg, w.x_g, bb, w.x_b);
            let fy = self.fma_matrix(rr, w.y_r, gg, w.y_g, bb, w.y_b);
            let fz = self.fma_matrix(rr, w.z_r, gg, w.z_g, bb, w.z_b);
            let x = self.lab_f(fx);
            let y = self.lab_f(fy);
            let z = self.lab_f(fz);
            r[i] = y * w.l_scale;
            g[i] = (self.mul_add)(w.a_scale, x - y, w.a_offset);
            b[i] = (self.mul_add)(w.b_scale, y - z, w.b_offset);
        }
    }

    /// Converts the samples of a grayscale image where they stand.
    pub fn gray_lab_scalar(&self, v: &mut [T])
        requires
            self.wf(),
        ensures
            final(v)@.len() == old(v)@.len(),
            forall|f: Field<T>, i: int| #[trigger]
                self.computes(f) && 0 <= i < old(v)@.len() ==> #[trigger] final(v)@[i] == gray_l(
                    f,
                    self.weights,
                    old(v)@[i],
                ),
    {
        let ghost v0 = v@;
        let n: usize = v.len();
        for i in 0..n
            invariant
                self.wf(),
                n == v0.len(),
                v@.len() == v0.len(),
                forall|f: Field<T>, j: int| #[trigger]
                    self.computes(f) && 0 <= j < i ==> #[trigger] v@[j] == gray_l(
                        f,
                        self.weights,
                        v0[j],
                    ),
                forall|j: int| i <= j < v0.len() ==> #[trigger] v@[j] == v0[j],
        {
            let w = &self.weights;
            let fy = v[i];
            let cbrt = (self.cbrt_poly(fy) - w.offset) * w.gray_scale;
            let lin = w.gray_slope * fy;
            v[i] = if fy > w.epsilon {
                cbrt
            } else {
                lin
            };
        }
    }
}

/// A conversion computes in the arithmetic of the operators and of whatever is the value of all results
/// of its function that multiplies and adds.
pub proof fn law_lab_computes<T: ColorSample, F: Fn(T, T, T) -> T>(lab: LabSpace<T, F>, m: spec_fn(T, T, T) -> T)
    requires
        forall|a: T, b: T, c: T, r: T| #[trigger] lab.mul_add.ensures((a, b, c), r) ==> r == m(a, b, c),
    ensures
        lab.computes(field(m)),
        field_total::<T>() && function3(lab.mul_add) ==> lab.wf(),
{
}

} // verus!
