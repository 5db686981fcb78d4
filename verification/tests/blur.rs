use dssim_core::blur::{blur, blur_h5, blur_h5_mul, blur_in_place, blur_mul, blur_v5};
use dssim_core::kernel::{Kernel, K_CENTER, K_SIDE, K_UNIT};
use dssim_core::plane::{Plane, PlaneMut, PlaneRef};

const SIDE: f32 = 0.308_758_86;
const CENTER: f32 = 0.382_482_8;

fn ratio(n: i64, d: i64) -> f32 {
    (n as f64 / d as f64) as f32
}

fn kernel() -> Kernel<f32> {
    Kernel::gaussian(&ratio)
}

fn pixels(plane: &Plane<f32>) -> Vec<f32> {
    let mut out = Vec::new();
    for y in 0..plane.height {
        out.extend_from_slice(&plane.buf[y * plane.stride..][..plane.width]);
    }
    out
}

fn in_place(plane: &mut Plane<f32>, tmp: &mut [f32]) {
    let (width, height, stride) = (plane.width, plane.height, plane.stride);
    blur_in_place(PlaneMut { buf: &mut plane.buf, width, height, stride }, tmp, &kernel());
}

fn copy(plane: &Plane<f32>) -> Plane<f32> {
    Plane { buf: plane.buf.clone(), width: plane.width, height: plane.height, stride: plane.stride }
}

#[test]
fn blur_zero() {
    let src = vec![0.25];
    let mut src2 = src.clone();

    let mut tmp = vec![f32::NAN; 1];
    let dst = blur(PlaneRef::new(&src[..], 1, 1), &mut tmp[..], &kernel());
    blur_in_place(PlaneMut::new(&mut src2[..], 1, 1), &mut tmp[..], &kernel());

    assert_eq!(&src2, &dst.buf);
    assert!((0.25 - dst.buf[0]).abs() < 0.00001);
}

#[test]
fn blur_one() {
    blur_one_compare(Plane::new(vec![
        0.,0.,0.,0.,0.,
        0.,0.,0.,0.,0.,
        0.,0.,1.,0.,0.,
        0.,0.,0.,0.,0.,
        0.,0.,0.,0.,0.,
    ], 5, 5));
}

#[test]
fn blur_one_stride() {
    let nan = 1./0.;
    blur_one_compare(Plane::new_stride(vec![
        0.,0.,0.,0.,0., nan, -11.,
        0.,0.,0.,0.,0., 333., nan,
        0.,0.,1.,0.,0., nan, -11.,
        0.,0.,0.,0.,0., 333., nan,
        0.,0.,0.,0.,0., nan,
    ], 5, 5, 7));
}

fn blur_one_compare(src: Plane<f32>) {
    let mut src2 = copy(&src);

    let mut tmp = vec![f32::NAN; 5 * 5];
    let dst = blur(src.as_ref(), &mut tmp[..], &kernel());
    in_place(&mut src2, &mut tmp[..]);

    assert_eq!(&pixels(&src2), &dst.buf);

    assert!((1. / 110. - dst.buf[0]).abs() < 0.0001, "{:?}", dst.buf);
    assert!((1. / 110. - dst.buf[5 * 5 - 1]).abs() < 0.0001, "{:?}", dst.buf);
    assert!((0.11354011 - dst.buf[2 * 5 + 2]).abs() < 0.0001);
}

#[test]
fn blur_1x1() {
    let src = vec![1.];
    let mut src2 = src.clone();

    let mut tmp = vec![f32::NAN; 1];
    let dst = blur(PlaneRef::new(&src[..], 1, 1), &mut tmp[..], &kernel());
    blur_in_place(PlaneMut::new(&mut src2[..], 1, 1), &mut tmp[..], &kernel());

    assert!((dst.buf[0] - 1.).abs() < 0.00001);
    assert!((src2[0] - 1.).abs() < 0.00001);
}

#[test]
fn blur_two() {
    let src = vec![
        0., 1., 1., 1.,
        1., 1., 1., 1.,
        1., 1., 1., 1.,
        1., 1., 1., 1.,
    ];
    let mut src2 = src.clone();

    let mut tmp = vec![f32::NAN; 4 * 4];
    let dst = blur(PlaneRef::new(&src[..], 4, 4), &mut tmp[..], &kernel());
    blur_in_place(PlaneMut::new(&mut src2[..], 4, 4), &mut tmp[..], &kernel());

    assert_eq!(&src2, &dst.buf);

    // The far corners stay at one.
    assert!((1. - dst.buf[3]).abs() < 0.0001, "{}", dst.buf[3]);
    assert!((1. - dst.buf[3 * 4]).abs() < 0.0001, "{}", dst.buf[3 * 4]);
    assert!((1. - dst.buf[4 * 4 - 1]).abs() < 0.0001, "{}", dst.buf[4 * 4 - 1]);

    // What two clamped passes of three taps each give.
    let expected = 0.671_504_5_f32;
    assert!(
        (f64::from(expected) - f64::from(dst.buf[0])).abs() < 0.0001,
        "expected {expected}, got {}",
        dst.buf[0]
    );
}

#[test]
fn kernel_holds_the_weights_of_two_passes() {
    let k = kernel();
    assert_eq!(ratio(K_SIDE, K_UNIT).to_bits(), SIDE.to_bits());
    assert_eq!(ratio(K_CENTER, K_UNIT).to_bits(), CENTER.to_bits());
    let outer = SIDE * SIDE;
    let inner = 2.0 * SIDE * CENTER;
    let mid = 2.0 * SIDE * SIDE + CENTER * CENTER;
    assert_eq!(
        k,
        Kernel { outer, inner, mid, edge_center: mid + inner, edge_near: outer + inner, edge_far: outer }
    );
    assert_eq!(k, Kernel::fused(SIDE, CENTER, 2.0));
}

/// Random samples that are the same in every run.
fn noise(len: usize, seed: u32) -> Vec<f32> {
    let mut s = seed | 1;
    let mut out = Vec::new();
    for _ in 0..len {
        s ^= s << 13;
        s ^= s >> 17;
        s ^= s << 5;
        out.push((s >> 8) as f32 / (1u32 << 24) as f32);
    }
    out
}

/// One sample of the 3×3 Gaussian, outside of the image the nearest sample.
fn gaussian3(src: &[f64], w: usize, h: usize) -> Vec<f64> {
    let at = |x: isize, y: isize| {
        src[y.clamp(0, h as isize - 1) as usize * w + x.clamp(0, w as isize - 1) as usize]
    };
    let weight = [f64::from(SIDE), f64::from(CENTER), f64::from(SIDE)];
    let mut out = Vec::new();
    for y in 0..h as isize {
        for x in 0..w as isize {
            let mut sum = 0.;
            for dy in 0..3 {
                for dx in 0..3 {
                    sum += weight[dy] * weight[dx] * at(x + dx as isize - 1, y + dy as isize - 1);
                }
            }
            out.push(sum);
        }
    }
    out
}

#[test]
fn blur_is_two_gaussians_at_every_size() {
    for w in 1..=8 {
        for h in 1..=8 {
            let src = noise(w * h, (w * 100 + h) as u32);
            let exact: Vec<f64> = src.iter().map(|&v| f64::from(v)).collect();
            let expected = gaussian3(&gaussian3(&exact, w, h), w, h);
            let mut tmp = vec![f32::NAN; w * h];
            let dst = blur(PlaneRef::new(&src, w, h), &mut tmp, &kernel());
            assert_eq!((dst.width, dst.height, dst.stride), (w, h, w));
            assert_eq!(dst.buf.len(), w * h);
            for i in 0..w * h {
                assert!((f64::from(dst.buf[i]) - expected[i]).abs() < 0.000_001, "{w}x{h} {i}");
            }
        }
    }
}

#[test]
fn in_place_is_blur_and_leaves_padding_alone() {
    for w in 1..=6 {
        for h in 1..=6 {
            let stride = w + 3;
            let mut buf = noise(stride * h, 77);
            for y in 0..h {
                for x in w..stride {
                    buf[y * stride + x] = -1000. - (y * stride + x) as f32;
                }
            }
            let src = Plane::new_stride(buf, w, h, stride);
            let mut src2 = copy(&src);
            let mut tmp = vec![f32::NAN; w * h];
            let dst = blur(src.as_ref(), &mut tmp, &kernel());
            in_place(&mut src2, &mut tmp);
            assert_eq!(pixels(&src2), dst.buf);
            for y in 0..h {
                for x in w..stride {
                    assert_eq!(src2.buf[y * stride + x], -1000. - (y * stride + x) as f32);
                }
            }
        }
    }
}

#[test]
fn scratch_beyond_the_image_is_left_alone() {
    let src = noise(6, 5);
    let mut tmp = vec![7.5; 9];
    blur(PlaneRef::new(&src, 3, 2), &mut tmp, &kernel());
    assert_eq!(tmp[6..], [7.5; 3]);
}

#[test]
fn blur_mul_is_blur_of_the_product() {
    for w in 1..=7 {
        for h in 1..=7 {
            let a = Plane::new_stride(noise((w + 1) * h, 3), w, h, w + 1);
            let b = Plane::new_stride(noise((w + 2) * h, 9), w, h, w + 2);
            let mut product = Vec::new();
            for y in 0..h {
                for x in 0..w {
                    product.push(a.buf[y * a.stride + x] * b.buf[y * b.stride + x]);
                }
            }
            let mut tmp = vec![f32::NAN; w * h];
            let expected = blur(PlaneRef::new(&product, w, h), &mut tmp, &kernel());
            let got = blur_mul(a.as_ref(), b.as_ref(), &mut tmp, &kernel());
            assert_eq!(got, expected.buf);
        }
    }
}

#[test]
fn blur_of_one_row_is_exact() {
    let k = kernel();
    let p = [0.5f32, 0.25, 0.125, 1.0, 0.75, 0.0];
    let mut tmp = vec![0.; 6];
    let dst = blur(PlaneRef::new(&p, 6, 1), &mut tmp, &k);
    let across = [
        k.edge_center * p[0] + k.edge_near * p[1] + k.edge_far * p[2],
        (p[0] + p[3]) * k.outer + (p[0] + p[2]) * k.inner + p[1] * k.mid,
        (p[0] + p[4]) * k.outer + (p[1] + p[3]) * k.inner + p[2] * k.mid,
        (p[1] + p[5]) * k.outer + (p[2] + p[4]) * k.inner + p[3] * k.mid,
        (p[2] + p[5]) * k.outer + (p[3] + p[5]) * k.inner + p[4] * k.mid,
        k.edge_far * p[3] + k.edge_near * p[4] + k.edge_center * p[5],
    ];
    assert_eq!(tmp, across);
    for x in 0..6 {
        let v = across[x];
        assert_eq!(dst.buf[x], k.edge_center * v + k.edge_near * v + k.edge_far * v);
    }
}

#[test]
fn blur_has_no_direction() {
    let src = noise(7, 21);
    let mirrored: Vec<f32> = src.iter().rev().copied().collect();
    let mut tmp = vec![0.; 7];
    let a = blur(PlaneRef::new(&src, 7, 1), &mut tmp, &kernel());
    let b = blur(PlaneRef::new(&mirrored, 7, 1), &mut tmp, &kernel());
    for x in 0..7 {
        assert!((a.buf[x] - b.buf[6 - x]).abs() < 0.000_001);
    }
}

#[test]
fn constant_image_keeps_its_value() {
    for v in [0.0f32, 0.3, 1.0, -2.0] {
        let src = vec![v; 5 * 6];
        let mut tmp = vec![0.; 5 * 6];
        let dst = blur(PlaneRef::new(&src, 5, 6), &mut tmp, &kernel());
        for &p in &dst.buf {
            assert!((p - v).abs() <= 0.000_003 * v.abs(), "{p} {v}");
        }
    }
}

#[test]
fn weights_sum_to_one() {
    let unit = K_UNIT as f64;
    let (side, center) = (K_SIDE as f64 / unit, K_CENTER as f64 / unit);
    assert!((2. * side + center - 1.).abs() < 0.000_001);
    assert!((side * side - 0.095332).abs() < 0.000_001);
    assert!((side * center - 0.118095).abs() < 0.000_001);
    assert!((center * center - 0.146293).abs() < 0.000_001);
    let k = kernel();
    assert!((2. * k.outer + 2. * k.inner + k.mid - 1.).abs() < 0.000_002);
    assert!((k.edge_center + k.edge_near + k.edge_far - 1.).abs() < 0.000_002);
}

fn transpose(src: &[f32], w: usize, h: usize) -> Vec<f32> {
    let mut out = Vec::new();
    for x in 0..w {
        for y in 0..h {
            out.push(src[y * w + x]);
        }
    }
    out
}

#[test]
fn columns_are_blurred_as_rows_are() {
    for (w, h) in [(1, 6), (2, 5), (5, 2), (7, 4)] {
        let src = noise(w * h, 31);
        let mut tmp = vec![0.; w * h];
        let a = blur(PlaneRef::new(&src, w, h), &mut tmp, &kernel());
        let b = blur(PlaneRef::new(&transpose(&src, w, h), h, w), &mut tmp, &kernel());
        let back = transpose(&b.buf, h, w);
        for i in 0..w * h {
            assert!((a.buf[i] - back[i]).abs() < 0.000_001);
        }
    }
}

#[test]
fn a_row_of_the_first_pass_depends_on_that_row() {
    let a = noise(8 * 4, 4);
    let mut b = noise(8 * 4, 8);
    b[16..22].copy_from_slice(&a[16..22]);
    let (mut tmp_a, mut tmp_b) = (vec![0.; 6 * 4], vec![1.; 6 * 4]);
    blur(PlaneRef { buf: &a, width: 6, height: 4, stride: 8 }, &mut tmp_a, &kernel());
    blur(PlaneRef { buf: &b, width: 6, height: 4, stride: 8 }, &mut tmp_b, &kernel());
    assert_eq!(tmp_a[12..18], tmp_b[12..18]);
    assert_ne!(tmp_a[0..6], tmp_b[0..6]);
}

#[test]
fn products_have_no_order() {
    let a = Plane::new_stride(noise(7 * 5, 3), 6, 5, 7);
    let b = Plane::new_stride(noise(9 * 5, 8), 6, 5, 9);
    let mut tmp = vec![0.; 30];
    let ab = blur_mul(a.as_ref(), b.as_ref(), &mut tmp, &kernel());
    let ba = blur_mul(b.as_ref(), a.as_ref(), &mut tmp, &kernel());
    assert_eq!(ab, ba);
}

#[test]
fn variance_is_not_negative() {
    let a: Vec<f32> = noise(9 * 7, 12).iter().map(|v| v * 2. - 1.).collect();
    let mut tmp = vec![0.; 63];
    let mean = blur(PlaneRef::new(&a, 9, 7), &mut tmp, &kernel());
    let square = blur_mul(PlaneRef::new(&a, 9, 7), PlaneRef::new(&a, 9, 7), &mut tmp, &kernel());
    for i in 0..63 {
        assert!(square[i] >= 0. && mean.buf[i] * mean.buf[i] <= square[i] + 0.00001);
    }
}

#[test]
fn blur_keeps_order() {
    let a = noise(8 * 8, 1);
    let b: Vec<f32> = a.iter().zip(noise(8 * 8, 2)).map(|(v, d)| v + d * 0.001).collect();
    let mut tmp = vec![0.; 64];
    let blurred_a = blur(PlaneRef::new(&a, 8, 8), &mut tmp, &kernel());
    let blurred_b = blur(PlaneRef::new(&b, 8, 8), &mut tmp, &kernel());
    for i in 0..64 {
        assert!(blurred_a.buf[i] <= blurred_b.buf[i]);
    }
}

#[test]
fn blur_is_linear() {
    let (a, b) = (noise(6 * 6, 7), noise(6 * 6, 9));
    let c: Vec<f32> = (0..36).map(|i| 0.5 * a[i] - 2. * b[i]).collect();
    let mut tmp = vec![0.; 36];
    let blurred = |v: &[f32], tmp: &mut [f32]| blur(PlaneRef::new(v, 6, 6), tmp, &kernel()).buf;
    let (x, y, z) = (blurred(&a, &mut tmp), blurred(&b, &mut tmp), blurred(&c, &mut tmp));
    for i in 0..36 {
        assert!((z[i] - (0.5 * x[i] - 2. * y[i])).abs() < 0.000_001);
    }
}

#[test]
fn second_pass_is_the_first_of_the_transposed_image() {
    for w in 1..=7 {
        for h in 1..=7 {
            let src = noise(w * h, 17);
            let (mut down, mut across) = (vec![0.; w * h], vec![0.; w * h]);
            blur_v5(&kernel(), &src, &mut down, w, h, w);
            blur_h5(&kernel(), &transpose(&src, w, h), &mut across, h, w, h);
            assert_eq!(down, transpose(&across, h, w));
        }
    }
}

#[test]
fn product_pass_is_the_pass_on_the_products() {
    for w in 1..=7 {
        let (a, b) = (noise((w + 1) * 3, 3), noise((w + 2) * 3, 9));
        let mut product = Vec::new();
        for y in 0..3 {
            for x in 0..w {
                product.push(a[y * (w + 1) + x] * b[y * (w + 2) + x]);
            }
        }
        let (mut got, mut expected) = (vec![7.; w * 3 + 2], vec![7.; w * 3 + 2]);
        blur_h5_mul(&kernel(), &a, &b, &mut got, w, 3, w + 1, w + 2);
        blur_h5(&kernel(), &product, &mut expected, w, 3, w);
        assert_eq!(got, expected);
        assert_eq!(got[w * 3..], [7., 7.]);
    }
}

#[test]
fn blur_stays_in_range() {
    let a: Vec<f32> = noise(9 * 9, 41).iter().map(|v| 0.25 + v * 0.5).collect();
    let mut tmp = vec![0.; 81];
    for v in blur(PlaneRef::new(&a, 9, 9), &mut tmp, &kernel()).buf {
        assert!((0.25 - 0.00001..=0.75 + 0.00001).contains(&v));
    }
}
