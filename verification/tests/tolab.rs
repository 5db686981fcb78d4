use dssim_core::lab::{LabSpace, LabWeights, Rgb};
use dssim_core::plane::{Plane, PlaneRef};
use dssim_core::pool::DssimPool;
use dssim_core::tolab::{gray_row_to_lab, rgb_row_to_lab, rgb_to_lab, DitheredRef, ToLABBitmap};

fn ratio(n: i64, d: i64) -> f32 {
    (n as f64 / d as f64) as f32
}

fn mul_add(a: f32, b: f32, c: f32) -> f32 {
    a.mul_add(b, c)
}

fn lab() -> LabSpace<f32, impl Fn(f32, f32, f32) -> f32> {
    LabSpace::new(&ratio, mul_add)
}

fn cbrt_poly(x: f32) -> f32 {
    lab().cbrt_poly(x)
}

#[test]
fn cbrts1() {
    let mut totaldiff = 0.;
    let mut maxdiff: f64 = 0.;
    for i in (0..=10001).rev() {
        let x = (f64::from(i) / 10001.) as f32;
        let a = cbrt_poly(x);
        let actual = a * a * a;
        let expected = x;
        let absdiff = (f64::from(expected) - f64::from(actual)).abs();
        assert!(absdiff < 0.0002, "{expected} - {actual} = {} @ {x}", expected - actual);
        if i % 400 == 0 {
            println!("{:+0.3}", (expected - actual) * 255.);
        }
        totaldiff += absdiff;
        maxdiff = maxdiff.max(absdiff);
    }
    println!("1={totaldiff:0.6}; {maxdiff:0.8}");
    assert!(totaldiff < 0.0025, "{totaldiff}");
}

#[test]
fn cbrts2() {
    let mut totaldiff = 0.;
    let mut maxdiff: f64 = 0.;
    for i in (2000..=10001).rev() {
        let x = f64::from(i) / 10001.;
        let actual = f64::from(cbrt_poly(x as f32));
        let expected = x.cbrt();
        let absdiff = (expected - actual).abs();
        totaldiff += absdiff;
        maxdiff = maxdiff.max(absdiff);
        assert!(absdiff < 0.0000005, "{expected} - {actual} = {} @ {x}", expected - actual);
    }
    println!("2={totaldiff:0.6}; {maxdiff:0.8}");
    assert!(totaldiff < 0.0025, "{totaldiff}");
}

const EPSILON: f32 = 216. / 24389.;
const K: f32 = 24389. / (27. * 116.);

fn root(x: f32) -> f32 {
    let y = (-0.5f32).mul_add(x, 1.51).mul_add(x, 0.2);
    let y3 = y * y * y;
    let y = y * 2.0f32.mul_add(x, y3) / 2.0f32.mul_add(y3, x);
    let y3 = y * y * y;
    y * 2.0f32.mul_add(x, y3) / 2.0f32.mul_add(y3, x)
}

fn curve(t: f32) -> f32 {
    if t > EPSILON {
        root(t) - 16. / 116.
    } else {
        K * t
    }
}

fn expected_lab(r: f32, g: f32, b: f32) -> [f32; 3] {
    let sum = |x: f32, y: f32, z: f32| b.mul_add(z, g.mul_add(y, r * x));
    let x = curve(sum(0.4124 / 0.9505, 0.3576 / 0.9505, 0.1805 / 0.9505));
    let y = curve(sum(0.2126 / 1.0, 0.7152 / 1.0, 0.0722 / 1.0));
    let z = curve(sum(0.0193 / 1.089, 0.1192 / 1.089, 0.9505 / 1.089));
    [
        y * 1.05,
        (500.0 / 220.0f32).mul_add(x - y, 86.2 / 220.0f32),
        (200.0 / 220.0f32).mul_add(y - z, 107.9 / 220.0f32),
    ]
}

fn expected_gray(v: f32) -> f32 {
    if v > EPSILON {
        (root(v) - 16. / 116.) * 1.16
    } else {
        (K * 1.16) * v
    }
}

fn colors() -> Vec<Rgb<f32>> {
    let levels = [0.0, 0.001, EPSILON, 0.009, 0.05, 0.2, 0.5, 0.75, 1.0];
    let mut out = Vec::new();
    for r in levels {
        for g in levels {
            for b in levels {
                out.push(Rgb { r, g, b });
            }
        }
    }
    out
}

#[test]
fn weights_are_the_constants() {
    let white_z = 1.089f32;
    assert_eq!(
        lab().weights,
        LabWeights {
            guess0: 0.2f32,
            guess1: 1.51,
            guess2: -0.5,
            two: 2.0,
            epsilon: 216. / 24389.,
            slope: 24389. / (27. * 116.),
            offset: 16. / 116.,
            x_r: 0.4124 / 0.9505,
            x_g: 0.3576 / 0.9505,
            x_b: 0.1805 / 0.9505,
            y_r: 0.2126,
            y_g: 0.7152,
            y_b: 0.0722,
            z_r: 0.0193 / white_z,
            z_g: 0.1192 / white_z,
            z_b: 0.9505 / white_z,
            l_scale: 1.05,
            a_scale: 500. / 220.,
            a_offset: 86.2 / 220.,
            b_scale: 200. / 220.,
            b_offset: 107.9 / 220.,
            gray_scale: 1.16,
            gray_slope: (24389. / (27. * 116.)) * 1.16,
        }
    );
}

#[test]
fn pixels_are_converted_where_they_stand() {
    let px = colors();
    let mut r: Vec<f32> = px.iter().map(|p| p.r).collect();
    let mut g: Vec<f32> = px.iter().map(|p| p.g).collect();
    let mut b: Vec<f32> = px.iter().map(|p| p.b).collect();
    g.push(9.0);
    b.push(8.0);
    lab().lab_transform_scalar(&mut r, &mut g, &mut b);
    for (i, p) in px.iter().enumerate() {
        assert_eq!([r[i], g[i], b[i]], expected_lab(p.r, p.g, p.b));
    }
    // Beyond the first plane's length nothing is converted.
    assert_eq!((g[px.len()], b[px.len()]), (9.0, 8.0));
}

#[test]
fn gray_samples_are_converted_where_they_stand() {
    let src = [0.0, 0.001, EPSILON, 0.00886, 0.009, 0.05, 0.2, 0.5, 1.0];
    let mut v = src;
    lab().gray_lab_scalar(&mut v);
    for i in 0..src.len() {
        assert_eq!(v[i], expected_gray(src[i]));
    }
    assert_eq!(v[0], 0.0);
    // White is one less what the curve takes off, times the scale.
    assert!((v[8] - (1. - 16. / 116.) * 1.16).abs() < 0.000_001);
}

#[test]
fn white_and_black_have_no_color() {
    let space = lab();
    for v in [0.0f32, 0.004, 0.3, 1.0] {
        let (mut l, mut a, mut b) = ([v], [v], [v]);
        space.lab_transform_scalar(&mut l, &mut a, &mut b);
        assert!((l[0] - curve(v) * 1.05).abs() < 0.000_001);
        assert!((a[0] - 86.2 / 220.).abs() < 0.000_001);
        assert!((b[0] - 107.9 / 220.).abs() < 0.000_001);
    }
}

fn converted(px: Rgb<f32>) -> [f32; 3] {
    let (mut l, mut a, mut b) = ([px.r], [px.g], [px.b]);
    lab().lab_transform_scalar(&mut l, &mut a, &mut b);
    [l[0], a[0], b[0]]
}

fn gray(v: f32) -> f32 {
    let mut buf = [v];
    lab().gray_lab_scalar(&mut buf);
    buf[0]
}

#[test]
fn lightness_is_in_range_and_axes_are_positive() {
    for p in colors() {
        let [l, a, b] = converted(p);
        assert!((0.0..=1.0).contains(&l), "{p:?}");
        assert!(a > 0.0 && b > 0.0, "{p:?}");
    }
    // The nearest that the axes come to zero: pure green and pure blue.
    assert!(converted(Rgb { r: 0., g: 1., b: 0. })[1] < 0.0001);
    assert!(converted(Rgb { r: 0., g: 0., b: 1. })[2] < 0.001);
}

#[test]
fn curve_has_no_step() {
    let below = gray(EPSILON);
    let above = gray(f32::from_bits(EPSILON.to_bits() + 1));
    assert!((below - above).abs() < 0.000_001);
    assert!((below - (6. / 29. - 16. / 116.) * 1.16).abs() < 0.000_001);
}

#[test]
fn curve_is_near_the_true_one() {
    for i in 9..=1000 {
        let t = i as f32 / 1000.;
        let truth = (f64::from(t).cbrt() - 16. / 116.) * 1.16;
        assert!((f64::from(gray(t)) - truth).abs() < 0.00002, "{t}");
    }
}

#[test]
fn cube_root_is_finite_and_in_range() {
    for i in 0..=1000 {
        let x = i as f32 / 1000.;
        let y = cbrt_poly(x);
        assert!(y.is_finite() && y > 0. && y < 1.001);
        assert!(x < EPSILON || y >= 16. / 116.);
        assert_eq!(y, root(x));
    }
    // At zero each step halves the guess.
    assert!((cbrt_poly(0.) - 0.05).abs() < 0.000_001);
}

#[test]
fn an_image_in_color_has_three_planes() {
    let px = colors();
    let img = Plane::new(px.clone(), 81, 9);
    let planes = img.to_lab(&lab());
    assert_eq!(planes.len(), 3);
    for plane in &planes {
        assert_eq!((plane.width, plane.height, plane.stride, plane.buf.len()), (81, 9, 81, 729));
    }
    for (i, p) in px.iter().enumerate() {
        let got = [planes[0].buf[i], planes[1].buf[i], planes[2].buf[i]];
        assert_eq!(got, expected_lab(p.r, p.g, p.b));
    }
}

#[test]
fn padding_is_not_converted() {
    let px = colors();
    let img = PlaneRef { buf: &px, width: 80, height: 9, stride: 81 };
    let planes = img.to_lab(&lab());
    for y in 0..9 {
        for x in 0..80 {
            let p = px[y * 81 + x];
            assert_eq!(planes[0].buf[y * 80 + x], expected_lab(p.r, p.g, p.b)[0]);
            assert_eq!(planes[1].buf[y * 80 + x], expected_lab(p.r, p.g, p.b)[1]);
            assert_eq!(planes[2].buf[y * 80 + x], expected_lab(p.r, p.g, p.b)[2]);
        }
    }
    assert_eq!(planes[0].buf.len(), 720);
}

#[test]
fn a_gray_image_has_one_plane() {
    let img = Plane::new_stride(vec![0.1f32, 0.2, -1., 0.003, 1.0], 2, 2, 3);
    let planes = img.to_lab(&lab());
    assert_eq!(planes.len(), 1);
    assert_eq!((planes[0].width, planes[0].height, planes[0].stride), (2, 2, 2));
    let expected = [expected_gray(0.1), expected_gray(0.2), expected_gray(0.003), expected_gray(1.0)];
    assert_eq!(planes[0].buf, expected);
}

#[test]
fn planes_are_drawn_from_the_pool() {
    let mut pool = DssimPool::<f32>::new();
    let buffers: Vec<Vec<f32>> = vec![Vec::with_capacity(12), Vec::with_capacity(12), Vec::with_capacity(12)];
    let mut pointers = Vec::new();
    for mut buf in buffers {
        buf.push(5.0);
        pointers.push(buf.as_ptr());
        pool.give(buf);
    }
    let img = Plane::new(colors()[..12].to_vec(), 4, 3);
    let pooled = img.to_lab_pooled(&lab(), &mut pool);
    assert_eq!(pool.held_bytes(), 0);
    let fresh = img.to_lab(&lab());
    for i in 0..3 {
        // The buffer that came last goes first.
        assert_eq!(pooled[i].buf.as_ptr(), pointers[2 - i]);
        assert_eq!(pooled[i].buf, fresh[i].buf);
    }
}

#[test]
fn a_gray_plane_is_drawn_from_the_pool() {
    let mut pool = DssimPool::<f32>::new();
    pool.give(Vec::with_capacity(4));
    pool.give(Vec::with_capacity(9));
    let img = Plane::new(vec![0.5f32; 4], 2, 2);
    let pooled = img.to_lab_pooled(&lab(), &mut pool);
    assert_eq!(pool.held_bytes(), 9 * 4);
    assert_eq!(pooled[0].buf, img.to_lab(&lab())[0].buf);
}

#[derive(Clone, Copy)]
struct Pixel {
    v: f32,
    alpha: f32,
}

fn over_pattern(px: Pixel, n: usize) -> Rgb<f32> {
    let back = if n & 4 == 0 { 0.0 } else { 1.0 };
    let v = px.v + (1. - px.alpha) * back;
    Rgb { r: v, g: px.v, b: (n % 16) as f32 / 16. }
}

#[test]
fn transparency_is_dithered_by_place() {
    let buf: Vec<Pixel> = (0..30).map(|i| Pixel { v: i as f32 / 60., alpha: 0.5 }).collect();
    let img = PlaneRef { buf: &buf, width: 5, height: 5, stride: 6 };
    let mut pool = DssimPool::new();
    let planes = rgb_to_lab(&lab(), img, &over_pattern, &mut pool);
    let dithered = DitheredRef {
        img: PlaneRef { buf: &buf, width: 5, height: 5, stride: 6 },
        to_rgb: over_pattern,
    };
    let same = dithered.to_lab(&lab());
    let pooled = dithered.to_lab_pooled(&lab(), &mut pool);
    for y in 0..5usize {
        for x in 0..5usize {
            let rgb = over_pattern(buf[y * 6 + x], (x + 11) ^ (y + 11));
            for (i, v) in expected_lab(rgb.r, rgb.g, rgb.b).into_iter().enumerate() {
                assert_eq!(planes[i].buf[y * 5 + x], v);
                assert_eq!(same[i].buf[y * 5 + x], v);
                assert_eq!(pooled[i].buf[y * 5 + x], v);
            }
        }
    }
}

#[test]
fn rows_are_appended() {
    let space = lab();
    let px = colors();
    let (mut l, mut a, mut b) = (vec![1.0f32], vec![], vec![2.0f32, 3.0]);
    rgb_row_to_lab(&space, &px[..3], 0, &|p: Rgb<f32>, _n: usize| p, &mut l, &mut a, &mut b);
    assert_eq!((l.len(), a.len(), b.len()), (4, 3, 5));
    assert_eq!((l[0], b[0], b[1]), (1.0, 2.0, 3.0));
    for i in 0..3 {
        assert_eq!([l[i + 1], a[i], b[i + 2]], expected_lab(px[i].r, px[i].g, px[i].b));
    }
    let mut gray = vec![4.0f32];
    gray_row_to_lab(&space, &[0.25, 0.75], &mut gray);
    assert_eq!(gray, [4.0, expected_gray(0.25), expected_gray(0.75)]);
}

#[test]
fn an_image_without_rows_has_empty_planes() {
    let img: Plane<Rgb<f32>> = Plane::new(vec![], 3, 0);
    let planes = img.to_lab(&lab());
    assert_eq!(planes.len(), 3);
    assert!(planes.iter().all(|p| p.buf.is_empty() && p.width == 3 && p.height == 0));
}

#[test]
fn cube_root_grows() {
    for i in 0..2000 {
        let (x, z) = (i as f32 / 2000., (i + 1) as f32 / 2000.);
        assert!(cbrt_poly(x) <= cbrt_poly(z), "{x}");
    }
}

#[test]
fn a_plane_stands_in_the_buffer_that_was_given() {
    let mut pool = DssimPool::<f32>::new();
    let buf = Vec::with_capacity(100);
    let ptr = buf.as_ptr();
    pool.give(buf);
    let img = Plane::new(vec![0.0f32; 25], 5, 5);
    let planes = img.to_lab_pooled(&lab(), &mut pool);
    assert_eq!(planes.len(), 1);
    assert_eq!((planes[0].width, planes[0].height), (5, 5));
    assert_eq!(planes[0].buf, [0.0; 25]);
    assert_eq!(planes[0].buf.as_ptr(), ptr);
    assert_eq!(pool.held_bytes(), 0);
}
