//! The errors of the cube root over many arguments, in exact arithmetic.
use crate::arith::exact_field;
use crate::cbrt_laws::{exact_weights, law_cbrt_error, law_cbrt_near_root, lemma_guess_low, lemma_two_steps, steps_reach};
use crate::lab::{cbrt_guess, cbrt_poly};
use crate::reals::cube;
use vstd::prelude::*;

verus! {

/// How far two numbers are apart.
pub open spec fn distance(a: real, b: real) -> real {
    if a < b {
        b - a
    } else {
        a - b
    }
}

/// How far the cube of the cube root of `x` is from `x`.
pub open spec fn cube_error(x: real) -> real {
    distance(cube(cbrt_poly(exact_field(), exact_weights(), x)), x)
}

/// The sum of the errors at the first `i` of the points 0, 1/n, 2/n and so on.
pub open spec fn cube_error_sum(n: nat, i: nat) -> real
    decreases i,
{
    if i == 0 {
        0real
    } else {
        cube_error_sum(n, (i - 1) as nat) + cube_error(((i - 1) as real) / (n as real))
    }
}

/// How far the cube roots are from the true ones, added up.
pub open spec fn root_error_sum(roots: Seq<real>) -> real
    decreases roots.len(),
{
    if roots.len() == 0 {
        0real
    } else {
        root_error_sum(roots.drop_last()) + distance(
            cbrt_poly(exact_field(), exact_weights(), cube(roots.last())),
            roots.last(),
        )
    }
}

/// The errors of any number of cube roots, of arguments from about a fifth on, add up to no more
/// than 1/10000000 for each: to less than 0.0025 for 8002 of them.
pub proof fn law_root_errors(roots: Seq<real>)
    requires
        forall|i: int|
            0 <= i < roots.len() ==> (#[trigger] roots[i]) >= 0real && 1999real / 10_000real <= cube(roots[i])
                <= 1real,
    ensures
        root_error_sum(roots) <= (roots.len() as real) / 10_000_000real,
        roots.len() <= 8002 ==> root_error_sum(roots) < 25real / 10_000real,
    decreases roots.len(),
{
    if roots.len() > 0 {
        let rest = roots.drop_last();
        assert forall|i: int| 0 <= i < rest.len() implies (#[trigger] rest[i]) >= 0real && 1999real / 10_000real
            <= cube(rest[i]) <= 1real by {
            assert(rest[i] == roots[i]);
        }
        law_root_errors(rest);
        assert(roots.last() == roots[roots.len() - 1]);
        law_cbrt_near_root(cube(roots.last()), roots.last());
    }
}

/// The number of the points 0, 1/n, 2/n and so on that are at most `p` hundred-thousandths.
spec fn points_up_to(n: nat, p: int) -> nat {
    ((p * n) / 100_000 + 1) as nat
}

/// If no error in a range of points is above `bound`, the errors there add up to no more than that
/// many times `bound`.
proof fn lemma_range(n: nat, i: nat, j: nat, bound: real)
    requires
        i <= j,
        forall|k: int| i <= k < j ==> cube_error(#[trigger] point(n, k)) <= bound,
    ensures
        cube_error_sum(n, j) <= cube_error_sum(n, i) + bound * ((j - i) as real),
    decreases j - i,
{
    if i < j {
        lemma_range(n, i, (j - 1) as nat, bound);
        assert(cube_error(point(n, j - 1)) <= bound);
        let d = (j - 1 - i) as real;
        assert((j - i) as real == d + 1real);
        assert(bound * (d + 1real) == bound * d + bound) by (nonlinear_arith);
    } else {
        assert(bound * 0real == 0real) by (nonlinear_arith);
    }
}

/// The point `k / n`.
spec fn point(n: nat, k: int) -> real {
    (k as real) / (n as real)
}

/// Points that are counted up to `to` but not up to `from` are between the two, and there are no
/// more of them than the distance allows.
proof fn lemma_points(n: nat, from: int, to: int)
    requires
        n >= 1,
        0 <= from <= to,
    ensures
        points_up_to(n, from) <= points_up_to(n, to),
        forall|k: int|
            points_up_to(n, from) <= k < points_up_to(n, to) ==> (from as real) / 100_000real <= #[trigger] point(n, k)
                <= (to as real) / 100_000real,
        forall|k: int|
            0 <= k < points_up_to(n, to) ==> 0real <= #[trigger] point(n, k) <= (to as real) / 100_000real,
        (points_up_to(n, to) - points_up_to(n, from)) as real <= ((to - from) as real) / 100_000real * (n as real) + 1real,
        points_up_to(n, to) as real <= (to as real) / 100_000real * (n as real) + 1real,
{
    assert(0 <= from * n <= to * n) by (nonlinear_arith)
        requires
            0 <= from <= to,
    ;
    let (a, b) = ((from * n) / 100_000, (to * n) / 100_000);
    let m = n as real;
    assert forall|k: int| 0 <= k < points_up_to(n, to) implies 0real <= #[trigger] point(n, k) <= (to as real)
        / 100_000real by {
        assert(k * 100_000 <= to * n);
        lemma_real_product(to, n);
        let t = k as real;
        lemma_quotient_at_most(t, m, to as real);
    }
    assert forall|k: int| points_up_to(n, from) <= k < points_up_to(n, to) implies (from as real) / 100_000real
        <= #[trigger] point(n, k) by {
        assert(k * 100_000 >= from * n);
        lemma_real_product(from, n);
        lemma_quotient_at_least(k as real, m, from as real);
    }
    assert((b - a) * 100_000 <= to * n - from * n + 100_000);
    lemma_real_product(to, n);
    lemma_real_product(from, n);
    let (f, t) = (from as real, to as real);
    assert(((t - f) / 100_000real) * m * 100_000real == t * m - f * m) by (nonlinear_arith);
    assert((t / 100_000real) * m * 100_000real == t * m) by (nonlinear_arith);
}

proof fn lemma_real_product(p: int, n: nat)
    ensures
        (p * n) as real == (p as real) * (n as real),
    decreases n,
{
    if n > 0 {
        lemma_real_product(p, (n - 1) as nat);
        let (q, m) = (p as real, (n - 1) as real);
        assert(p * n == p * (n - 1) + p) by (nonlinear_arith);
        assert(n as real == m + 1real);
        assert(q * (m + 1real) == q * m + q) by (nonlinear_arith);
    } else {
        let q = p as real;
        assert(p * 0 == 0);
        assert(q * 0real == 0real) by (nonlinear_arith);
    }
}

proof fn lemma_quotient_at_most(k: real, n: real, p: real)
    requires
        n > 0real,
        0real <= k,
        k * 100_000real <= p * n,
    ensures
        0real <= k / n <= p / 100_000real,
{
    let q = k / n;
    assert(q * n == k) by (nonlinear_arith)
        requires
            n > 0real,
            q == k / n,
    ;
    assert(0real <= q && q * 100_000real <= p) by (nonlinear_arith)
        requires
            n > 0real,
            0real <= q * n,
            (q * n) * 100_000real <= p * n,
    ;
}

proof fn lemma_quotient_at_least(k: real, n: real, p: real)
    requires
        n > 0real,
        k * 100_000real >= p * n,
    ensures
        p / 100_000real <= k / n,
{
    let q = k / n;
    assert(q * n == k) by (nonlinear_arith)
        requires
            n > 0real,
            q == k / n,
    ;
    assert(q * 100_000real >= p) by (nonlinear_arith)
        requires
            n > 0real,
            (q * n) * 100_000real >= p * n,
    ;
}

/// A stretch of arguments, in hundred-thousandths. The cube of the first guess is between `low` and
/// `high` times the argument there, the first step comes between `low1` and `high1` times it, and
/// the second within `within` times it.
struct Stretch {
    from: int,
    to: int,
    low: real,
    low1: real,
    high: real,
    high1: real,
    within: real,
    /// What the errors add up to is at most `slope` times the number of points from zero to one,
    /// and `most` more.
    slope: real,
    most: real,
}

impl Stretch {
    spec fn wf(self) -> bool {
        &&& 0 < self.from < self.to <= 100_000
        &&& steps_reach(self.low, self.low1, self.high, self.high1, self.within)
        &&& 0real <= self.within
        &&& self.within * ((self.to as real) / 100_000real) <= self.most
        &&& self.most * (((self.to - self.from) as real) / 100_000real) <= self.slope
    }

    spec fn holds(self, x: real) -> bool {
        (self.from as real) / 100_000real <= x <= (self.to as real) / 100_000real
    }
}

/// The errors of a stretch.
proof fn lemma_stretch(n: nat, s: Stretch)
    requires
        n >= 1,
        s.wf(),
        forall|x: real| #[trigger] s.holds(x) ==> s.low * x <= cube(cbrt_guess(exact_field(), exact_weights(), x)) <= s.high * x,
    ensures
        cube_error_sum(n, points_up_to(n, s.to)) <= cube_error_sum(n, points_up_to(n, s.from)) + s.slope * (n as real) + s.most,
{
    let (i, j) = (points_up_to(n, s.from), points_up_to(n, s.to));
    lemma_points(n, s.from, s.to);
    let top = (s.to as real) / 100_000real;
    assert(0real < (s.from as real) / 100_000real && top <= 1real);
    assert forall|k: int| i <= k < j implies cube_error(#[trigger] point(n, k)) <= s.most by {
        let x = point(n, k);
        assert(s.holds(x));
        lemma_two_steps(x, s.low, s.low1, s.high, s.high1, s.within);
        assert(s.within * x <= s.within * top) by (nonlinear_arith)
            requires
                x <= top,
                0real <= s.within,
        ;
    }
    lemma_range(n, i, j, s.most);
    let m = n as real;
    let width = ((s.to - s.from) as real) / 100_000real;
    let count = (j - i) as real;
    assert(0real <= s.within * top) by (nonlinear_arith)
        requires
            0real <= s.within,
            0real <= top,
    ;
    assert(s.most * count <= s.slope * m + s.most) by (nonlinear_arith)
        requires
            0real <= s.within * top <= s.most,
            s.most * width <= s.slope,
            count <= width * m + 1real,
            m >= 0real,
    {
        assert(s.most * count <= s.most * (width * m + 1real));
        assert(s.most * (width * m + 1real) == (s.most * width) * m + s.most);
        assert((s.most * width) * m <= s.slope * m);
    }
}

/// The errors of the smallest arguments.
proof fn lemma_first_stretch(n: nat)
    requires
        n >= 1,
    ensures
        cube_error_sum(n, points_up_to(n, 40)) <= (1real / 20_000_000real) * (n as real) + 1real / 8000real,
{
    let j = points_up_to(n, 40);
    lemma_points(n, 0, 40);
    assert forall|k: int| 0 <= k < j implies cube_error(#[trigger] point(n, k)) <= 1real / 8000real by {
        law_cbrt_error(point(n, k));
    }
    lemma_range(n, 0, j, 1real / 8000real);
}

/// The errors of arguments up to 4/1000.
proof fn lemma_small_arguments(n: nat)
    requires
        n >= 1,
    ensures
        cube_error_sum(n, points_up_to(n, 400)) <= cube_error_sum(n, points_up_to(n, 40)) + (30_501real / 1_000_000_000_000real) * (n as real) + 1_407_990real / 10_000_000_000real,
{
    let s0 = Stretch {
        from: 40,
        to: 55,
        low: 1real,
        low1: 1real,
        high: 5047real / 250real,
        high1: 7783real / 2500real,
        within: 103real / 1000real,
        slope: 8498real / 1_000_000_000_000real,
        most: 566_500real / 10_000_000_000real,
    };
    assert(steps_reach(1real, 1real, 5047real / 250real, 7783real / 2500real, 103real / 1000real)) by (nonlinear_arith);
    assert forall|x: real| #[trigger] s0.holds(x) implies s0.low * x <= cube(cbrt_guess(exact_field(), exact_weights(), x))
        <= s0.high * x by {
        lemma_guess_low(x);
        let y = cbrt_guess(exact_field(), exact_weights(), x);
        assert((1real) * x <= y * y * y <= (5047real / 250real) * x) by (nonlinear_arith)
            requires
                y == (151real / 100real - x / 2real) * x + 1real / 5real,
                40real / 100_000real <= x <= 55real / 100_000real,
        ;
    }
    lemma_stretch(n, s0);
    let s1 = Stretch {
        from: 55,
        to: 75,
        low: 1real,
        low1: 1real,
        high: 3683real / 250real,
        high1: 24_409real / 10_000real,
        within: 253real / 5000real,
        slope: 7590real / 1_000_000_000_000real,
        most: 379_500real / 10_000_000_000real,
    };
    assert(steps_reach(1real, 1real, 3683real / 250real, 24_409real / 10_000real, 253real / 5000real)) by (nonlinear_arith);
    assert forall|x: real| #[trigger] s1.holds(x) implies s1.low * x <= cube(cbrt_guess(exact_field(), exact_weights(), x))
        <= s1.high * x by {
        lemma_guess_low(x);
        let y = cbrt_guess(exact_field(), exact_weights(), x);
        assert((1real) * x <= y * y * y <= (3683real / 250real) * x) by (nonlinear_arith)
            requires
                y == (151real / 100real - x / 2real) * x + 1real / 5real,
                55real / 100_000real <= x <= 75real / 100_000real,
        ;
    }
    lemma_stretch(n, s1);
    let s2 = Stretch {
        from: 75,
        to: 95,
        low: 1real,
        low1: 1real,
        high: 10_853real / 1000real,
        high1: 9843real / 5000real,
        within: 9real / 400real,
        slope: 4275real / 1_000_000_000_000real,
        most: 213_750real / 10_000_000_000real,
    };
    assert(steps_reach(1real, 1real, 10_853real / 1000real, 9843real / 5000real, 9real / 400real)) by (nonlinear_arith);
    assert forall|x: real| #[trigger] s2.holds(x) implies s2.low * x <= cube(cbrt_guess(exact_field(), exact_weights(), x))
        <= s2.high * x by {
        lemma_guess_low(x);
        let y = cbrt_guess(exact_field(), exact_weights(), x);
        assert((1real) * x <= y * y * y <= (10_853real / 1000real) * x) by (nonlinear_arith)
            requires
                y == (151real / 100real - x / 2real) * x + 1real / 5real,
                75real / 100_000real <= x <= 95real / 100_000real,
        ;
    }
    lemma_stretch(n, s2);
    let s3 = Stretch {
        from: 95,
        to: 120,
        low: 1real,
        low1: 1real,
        high: 8607real / 1000real,
        high1: 16_999real / 10_000real,
        within: 109real / 10_000real,
        slope: 3270real / 1_000_000_000_000real,
        most: 130_800real / 10_000_000_000real,
    };
    assert(steps_reach(1real, 1real, 8607real / 1000real, 16_999real / 10_000real, 109real / 10_000real)) by (nonlinear_arith);
    assert forall|x: real| #[trigger] s3.holds(x) implies s3.low * x <= cube(cbrt_guess(exact_field(), exact_weights(), x))
        <= s3.high * x by {
        lemma_guess_low(x);
        let y = cbrt_guess(exact_field(), exact_weights(), x);
        assert((1real) * x <= y * y * y <= (8607real / 1000real) * x) by (nonlinear_arith)
            requires
                y == (151real / 100real - x / 2real) * x + 1real / 5real,
                95real / 100_000real <= x <= 120real / 100_000real,
        ;
    }
    lemma_stretch(n, s3);
    let s4 = Stretch {
        from: 120,
        to: 160,
        low: 1real,
        low1: 1real,
        high: 1713real / 250real,
        high1: 299real / 200real,
        within: 477real / 100_000real,
        slope: 3053real / 1_000_000_000_000real,
        most: 76_320real / 10_000_000_000real,
    };
    assert(steps_reach(1real, 1real, 1713real / 250real, 299real / 200real, 477real / 100_000real)) by (nonlinear_arith);
    assert forall|x: real| #[trigger] s4.holds(x) implies s4.low * x <= cube(cbrt_guess(exact_field(), exact_weights(), x))
        <= s4.high * x by {
        lemma_guess_low(x);
        let y = cbrt_guess(exact_field(), exact_weights(), x);
        assert((1real) * x <= y * y * y <= (1713real / 250real) * x) by (nonlinear_arith)
            requires
                y == (151real / 100real - x / 2real) * x + 1real / 5real,
                120real / 100_000real <= x <= 160real / 100_000real,
        ;
    }
    lemma_stretch(n, s4);
    let s5 = Stretch {
        from: 160,
        to: 240,
        low: 1real,
        low1: 1real,
        high: 1037real / 200real,
        high1: 2617real / 2000real,
        within: 9real / 6250real,
        slope: 2765real / 1_000_000_000_000real,
        most: 34_560real / 10_000_000_000real,
    };
    assert(steps_reach(1real, 1real, 1037real / 200real, 2617real / 2000real, 9real / 6250real)) by (nonlinear_arith);
    assert forall|x: real| #[trigger] s5.holds(x) implies s5.low * x <= cube(cbrt_guess(exact_field(), exact_weights(), x))
        <= s5.high * x by {
        lemma_guess_low(x);
        let y = cbrt_guess(exact_field(), exact_weights(), x);
        assert((1real) * x <= y * y * y <= (1037real / 200real) * x) by (nonlinear_arith)
            requires
                y == (151real / 100real - x / 2real) * x + 1real / 5real,
                160real / 100_000real <= x <= 240real / 100_000real,
        ;
    }
    lemma_stretch(n, s5);
    let s6 = Stretch {
        from: 240,
        to: 400,
        low: 1real,
        low1: 1real,
        high: 3519real / 1000real,
        high1: 11_391real / 10_000real,
        within: 41real / 250_000real,
        slope: 1050real / 1_000_000_000_000real,
        most: 6560real / 10_000_000_000real,
    };
    assert(steps_reach(1real, 1real, 3519real / 1000real, 11_391real / 10_000real, 41real / 250_000real)) by (nonlinear_arith);
    assert forall|x: real| #[trigger] s6.holds(x) implies s6.low * x <= cube(cbrt_guess(exact_field(), exact_weights(), x))
        <= s6.high * x by {
        lemma_guess_low(x);
        let y = cbrt_guess(exact_field(), exact_weights(), x);
        assert((1real) * x <= y * y * y <= (3519real / 1000real) * x) by (nonlinear_arith)
            requires
                y == (151real / 100real - x / 2real) * x + 1real / 5real,
                240real / 100_000real <= x <= 400real / 100_000real,
        ;
    }
    lemma_stretch(n, s6);
}

/// The errors of arguments up to a tenth.
proof fn lemma_low_arguments(n: nat)
    requires
        n >= 1,
    ensures
        cube_error_sum(n, points_up_to(n, 10_000)) <= cube_error_sum(n, points_up_to(n, 400)) + (56_263real / 1_000_000_000_000real) * (n as real) + 33_110real / 10_000_000_000real,
{
    let s0 = Stretch {
        from: 400,
        to: 3500,
        low: 4583real / 10_000real,
        low1: 96_707real / 100_000real,
        high: 547real / 250real,
        high1: 2069real / 2000real,
        within: 29real / 10_000_000real,
        slope: 3147real / 1_000_000_000_000real,
        most: 1015real / 10_000_000_000real,
    };
    assert(steps_reach(4583real / 10_000real, 96_707real / 100_000real, 547real / 250real, 2069real / 2000real, 29real / 10_000_000real)) by (nonlinear_arith);
    assert forall|x: real| #[trigger] s0.holds(x) implies s0.low * x <= cube(cbrt_guess(exact_field(), exact_weights(), x))
        <= s0.high * x by {
        lemma_guess_low(x);
        let y = cbrt_guess(exact_field(), exact_weights(), x);
        assert((4583real / 10_000real) * x <= y * y * y <= (547real / 250real) * x) by (nonlinear_arith)
            requires
                y == (151real / 100real - x / 2real) * x + 1real / 5real,
                400real / 100_000real <= x <= 3500real / 100_000real,
        ;
    }
    lemma_stretch(n, s0);
    let s1 = Stretch {
        from: 3500,
        to: 5000,
        low: 1031real / 2500real,
        low1: 23_821real / 25_000real,
        high: 1real,
        high1: 1real,
        within: 167real / 20_000_000real,
        slope: 6263real / 1_000_000_000_000real,
        most: 4175real / 10_000_000_000real,
    };
    assert(steps_reach(1031real / 2500real, 23_821real / 25_000real, 1real, 1real, 167real / 20_000_000real)) by (nonlinear_arith);
    assert forall|x: real| #[trigger] s1.holds(x) implies s1.low * x <= cube(cbrt_guess(exact_field(), exact_weights(), x))
        <= s1.high * x by {
        lemma_guess_low(x);
        let y = cbrt_guess(exact_field(), exact_weights(), x);
        assert((1031real / 2500real) * x <= y * y * y <= (1real) * x) by (nonlinear_arith)
            requires
                y == (151real / 100real - x / 2real) * x + 1real / 5real,
                3500real / 100_000real <= x <= 5000real / 100_000real,
        ;
    }
    lemma_stretch(n, s1);
    let s2 = Stretch {
        from: 5000,
        to: 6500,
        low: 399real / 1000real,
        low1: 3791real / 4000real,
        high: 1real,
        high1: 1real,
        within: 23real / 2_000_000real,
        slope: 11_213real / 1_000_000_000_000real,
        most: 7475real / 10_000_000_000real,
    };
    assert(steps_reach(399real / 1000real, 3791real / 4000real, 1real, 1real, 23real / 2_000_000real)) by (nonlinear_arith);
    assert forall|x: real| #[trigger] s2.holds(x) implies s2.low * x <= cube(cbrt_guess(exact_field(), exact_weights(), x))
        <= s2.high * x by {
        lemma_guess_low(x);
        let y = cbrt_guess(exact_field(), exact_weights(), x);
        assert((399real / 1000real) * x <= y * y * y <= (1real) * x) by (nonlinear_arith)
            requires
                y == (151real / 100real - x / 2real) * x + 1real / 5real,
                5000real / 100_000real <= x <= 6500real / 100_000real,
        ;
    }
    lemma_stretch(n, s2);
    let s3 = Stretch {
        from: 6500,
        to: 8500,
        low: 1991real / 5000real,
        low1: 94_743real / 100_000real,
        high: 1real,
        high1: 1real,
        within: 117real / 10_000_000real,
        slope: 19_890real / 1_000_000_000_000real,
        most: 9945real / 10_000_000_000real,
    };
    assert(steps_reach(1991real / 5000real, 94_743real / 100_000real, 1real, 1real, 117real / 10_000_000real)) by (nonlinear_arith);
    assert forall|x: real| #[trigger] s3.holds(x) implies s3.low * x <= cube(cbrt_guess(exact_field(), exact_weights(), x))
        <= s3.high * x by {
        lemma_guess_low(x);
        let y = cbrt_guess(exact_field(), exact_weights(), x);
        assert((1991real / 5000real) * x <= y * y * y <= (1real) * x) by (nonlinear_arith)
            requires
                y == (151real / 100real - x / 2real) * x + 1real / 5real,
                6500real / 100_000real <= x <= 8500real / 100_000real,
        ;
    }
    lemma_stretch(n, s3);
    let s4 = Stretch {
        from: 8500,
        to: 10_000,
        low: 4027real / 10_000real,
        low1: 2373real / 2500real,
        high: 1real,
        high1: 1real,
        within: 21real / 2_000_000real,
        slope: 15_750real / 1_000_000_000_000real,
        most: 10_500real / 10_000_000_000real,
    };
    assert(steps_reach(4027real / 10_000real, 2373real / 2500real, 1real, 1real, 21real / 2_000_000real)) by (nonlinear_arith);
    assert forall|x: real| #[trigger] s4.holds(x) implies s4.low * x <= cube(cbrt_guess(exact_field(), exact_weights(), x))
        <= s4.high * x by {
        lemma_guess_low(x);
        let y = cbrt_guess(exact_field(), exact_weights(), x);
        assert((4027real / 10_000real) * x <= y * y * y <= (1real) * x) by (nonlinear_arith)
            requires
                y == (151real / 100real - x / 2real) * x + 1real / 5real,
                8500real / 100_000real <= x <= 10_000real / 100_000real,
        ;
    }
    lemma_stretch(n, s4);
}

/// The errors of arguments up to three tenths.
proof fn lemma_middle_arguments(n: nat)
    requires
        n >= 1,
    ensures
        cube_error_sum(n, points_up_to(n, 30_000)) <= cube_error_sum(n, points_up_to(n, 10_000)) + (46_320real / 1_000_000_000_000real) * (n as real) + 30_815real / 10_000_000_000real,
{
    let s0 = Stretch {
        from: 10_000,
        to: 11_000,
        low: 207real / 500real,
        low1: 95_341real / 100_000real,
        high: 1real,
        high1: 1real,
        within: 161real / 20_000_000real,
        slope: 8855real / 1_000_000_000_000real,
        most: 8855real / 10_000_000_000real,
    };
    assert(steps_reach(207real / 500real, 95_341real / 100_000real, 1real, 1real, 161real / 20_000_000real)) by (nonlinear_arith);
    assert forall|x: real| #[trigger] s0.holds(x) implies s0.low * x <= cube(cbrt_guess(exact_field(), exact_weights(), x))
        <= s0.high * x by {
        lemma_guess_low(x);
        let y = cbrt_guess(exact_field(), exact_weights(), x);
        assert((207real / 500real) * x <= y * y * y <= (1real) * x) by (nonlinear_arith)
            requires
                y == (151real / 100real - x / 2real) * x + 1real / 5real,
                10_000real / 100_000real <= x <= 11_000real / 100_000real,
        ;
    }
    lemma_stretch(n, s0);
    let s1 = Stretch {
        from: 11_000,
        to: 12_500,
        low: 4241real / 10_000real,
        low1: 95_691real / 100_000real,
        high: 1real,
        high1: 1real,
        within: 633real / 100_000_000real,
        slope: 11_870real / 1_000_000_000_000real,
        most: 7913real / 10_000_000_000real,
    };
    assert(steps_reach(4241real / 10_000real, 95_691real / 100_000real, 1real, 1real, 633real / 100_000_000real)) by (nonlinear_arith);
    assert forall|x: real| #[trigger] s1.holds(x) implies s1.low * x <= cube(cbrt_guess(exact_field(), exact_weights(), x))
        <= s1.high * x by {
        lemma_guess_low(x);
        let y = cbrt_guess(exact_field(), exact_weights(), x);
        assert((4241real / 10_000real) * x <= y * y * y <= (1real) * x) by (nonlinear_arith)
            requires
                y == (151real / 100real - x / 2real) * x + 1real / 5real,
                11_000real / 100_000real <= x <= 12_500real / 100_000real,
        ;
    }
    lemma_stretch(n, s1);
    let s2 = Stretch {
        from: 12_500,
        to: 14_000,
        low: 4421real / 10_000real,
        low1: 3008real / 3125real,
        high: 1real,
        high1: 1real,
        within: 103real / 25_000_000real,
        slope: 8652real / 1_000_000_000_000real,
        most: 5768real / 10_000_000_000real,
    };
    assert(steps_reach(4421real / 10_000real, 3008real / 3125real, 1real, 1real, 103real / 25_000_000real)) by (nonlinear_arith);
    assert forall|x: real| #[trigger] s2.holds(x) implies s2.low * x <= cube(cbrt_guess(exact_field(), exact_weights(), x))
        <= s2.high * x by {
        lemma_guess_low(x);
        let y = cbrt_guess(exact_field(), exact_weights(), x);
        assert((4421real / 10_000real) * x <= y * y * y <= (1real) * x) by (nonlinear_arith)
            requires
                y == (151real / 100real - x / 2real) * x + 1real / 5real,
                12_500real / 100_000real <= x <= 14_000real / 100_000real,
        ;
    }
    lemma_stretch(n, s2);
    let s3 = Stretch {
        from: 14_000,
        to: 15_500,
        low: 37real / 80real,
        low1: 6051real / 6250real,
        high: 1real,
        high1: 1real,
        within: 251real / 100_000_000real,
        slope: 5837real / 1_000_000_000_000real,
        most: 3891real / 10_000_000_000real,
    };
    assert(steps_reach(37real / 80real, 6051real / 6250real, 1real, 1real, 251real / 100_000_000real)) by (nonlinear_arith);
    assert forall|x: real| #[trigger] s3.holds(x) implies s3.low * x <= cube(cbrt_guess(exact_field(), exact_weights(), x))
        <= s3.high * x by {
        lemma_guess_low(x);
        let y = cbrt_guess(exact_field(), exact_weights(), x);
        assert((37real / 80real) * x <= y * y * y <= (1real) * x) by (nonlinear_arith)
            requires
                y == (151real / 100real - x / 2real) * x + 1real / 5real,
                14_000real / 100_000real <= x <= 15_500real / 100_000real,
        ;
    }
    lemma_stretch(n, s3);
    let s4 = Stretch {
        from: 15_500,
        to: 17_500,
        low: 303real / 625real,
        low1: 48_671real / 50_000real,
        high: 1real,
        high1: 1real,
        within: 29real / 20_000_000real,
        slope: 5076real / 1_000_000_000_000real,
        most: 2538real / 10_000_000_000real,
    };
    assert(steps_reach(303real / 625real, 48_671real / 50_000real, 1real, 1real, 29real / 20_000_000real)) by (nonlinear_arith);
    assert forall|x: real| #[trigger] s4.holds(x) implies s4.low * x <= cube(cbrt_guess(exact_field(), exact_weights(), x))
        <= s4.high * x by {
        lemma_guess_low(x);
        let y = cbrt_guess(exact_field(), exact_weights(), x);
        assert((303real / 625real) * x <= y * y * y <= (1real) * x) by (nonlinear_arith)
            requires
                y == (151real / 100real - x / 2real) * x + 1real / 5real,
                15_500real / 100_000real <= x <= 17_500real / 100_000real,
        ;
    }
    lemma_stretch(n, s4);
    let s5 = Stretch {
        from: 17_500,
        to: 20_000,
        low: 323real / 625real,
        low1: 19_593real / 20_000real,
        high: 1real,
        high1: 1real,
        within: 161real / 250_000_000real,
        slope: 3220real / 1_000_000_000_000real,
        most: 1288real / 10_000_000_000real,
    };
    assert(steps_reach(323real / 625real, 19_593real / 20_000real, 1real, 1real, 161real / 250_000_000real)) by (nonlinear_arith);
    assert forall|x: real| #[trigger] s5.holds(x) implies s5.low * x <= cube(cbrt_guess(exact_field(), exact_weights(), x))
        <= s5.high * x by {
        lemma_guess_low(x);
        let y = cbrt_guess(exact_field(), exact_weights(), x);
        assert((323real / 625real) * x <= y * y * y <= (1real) * x) by (nonlinear_arith)
            requires
                y == (151real / 100real - x / 2real) * x + 1real / 5real,
                17_500real / 100_000real <= x <= 20_000real / 100_000real,
        ;
    }
    lemma_stretch(n, s5);
    let s6 = Stretch {
        from: 20_000,
        to: 25_000,
        low: 5597real / 10_000real,
        low1: 98_601real / 100_000real,
        high: 1real,
        high1: 1real,
        within: 13real / 62_500_000real,
        slope: 2600real / 1_000_000_000_000real,
        most: 520real / 10_000_000_000real,
    };
    assert(steps_reach(5597real / 10_000real, 98_601real / 100_000real, 1real, 1real, 13real / 62_500_000real)) by (nonlinear_arith);
    assert forall|x: real| #[trigger] s6.holds(x) implies s6.low * x <= cube(cbrt_guess(exact_field(), exact_weights(), x))
        <= s6.high * x by {
        lemma_guess_low(x);
        let y = cbrt_guess(exact_field(), exact_weights(), x);
        assert((5597real / 10_000real) * x <= y * y * y <= (1real) * x) by (nonlinear_arith)
            requires
                y == (151real / 100real - x / 2real) * x + 1real / 5real,
                20_000real / 100_000real <= x <= 25_000real / 100_000real,
        ;
    }
    lemma_stretch(n, s6);
    let s7 = Stretch {
        from: 25_000,
        to: 30_000,
        low: 6517real / 10_000real,
        low1: 24_857real / 25_000real,
        high: 1real,
        high1: 1real,
        within: 7real / 500_000_000real,
        slope: 210real / 1_000_000_000_000real,
        most: 42real / 10_000_000_000real,
    };
    assert(steps_reach(6517real / 10_000real, 24_857real / 25_000real, 1real, 1real, 7real / 500_000_000real)) by (nonlinear_arith);
    assert forall|x: real| #[trigger] s7.holds(x) implies s7.low * x <= cube(cbrt_guess(exact_field(), exact_weights(), x))
        <= s7.high * x by {
        lemma_guess_low(x);
        let y = cbrt_guess(exact_field(), exact_weights(), x);
        assert((6517real / 10_000real) * x <= y * y * y <= (1real) * x) by (nonlinear_arith)
            requires
                y == (151real / 100real - x / 2real) * x + 1real / 5real,
                25_000real / 100_000real <= x <= 30_000real / 100_000real,
        ;
    }
    lemma_stretch(n, s7);
}

/// The errors of arguments up to one.
proof fn lemma_high_arguments(n: nat)
    requires
        n >= 1,
    ensures
        cube_error_sum(n, points_up_to(n, 100_000)) <= cube_error_sum(n, points_up_to(n, 30_000)) + (28_365real / 1_000_000_000_000real) * (n as real) + 4896real / 10_000_000_000real,
{
    let s0 = Stretch {
        from: 30_000,
        to: 65_000,
        low: 7489real / 10_000real,
        low1: 49_911real / 50_000real,
        high: 703real / 500real,
        high1: 1003real / 1000real,
        within: 1real / 500_000_000real,
        slope: 455real / 1_000_000_000_000real,
        most: 13real / 10_000_000_000real,
    };
    assert(steps_reach(7489real / 10_000real, 49_911real / 50_000real, 703real / 500real, 1003real / 1000real, 1real / 500_000_000real)) by (nonlinear_arith);
    assert forall|x: real| #[trigger] s0.holds(x) implies s0.low * x <= cube(cbrt_guess(exact_field(), exact_weights(), x))
        <= s0.high * x by {
        lemma_guess_low(x);
        let y = cbrt_guess(exact_field(), exact_weights(), x);
        assert((7489real / 10_000real) * x <= y * y * y <= (703real / 500real) * x) by (nonlinear_arith)
            requires
                y == (151real / 100real - x / 2real) * x + 1real / 5real,
                30_000real / 100_000real <= x <= 65_000real / 100_000real,
        ;
    }
    lemma_stretch(n, s0);
    let s1 = Stretch {
        from: 65_000,
        to: 75_000,
        low: 1real,
        low1: 1real,
        high: 31real / 20real,
        high1: 5031real / 5000real,
        within: 7real / 400_000_000real,
        slope: 1320real / 1_000_000_000_000real,
        most: 132real / 10_000_000_000real,
    };
    assert(steps_reach(1real, 1real, 31real / 20real, 5031real / 5000real, 7real / 400_000_000real)) by (nonlinear_arith);
    assert forall|x: real| #[trigger] s1.holds(x) implies s1.low * x <= cube(cbrt_guess(exact_field(), exact_weights(), x))
        <= s1.high * x by {
        lemma_guess_low(x);
        let y = cbrt_guess(exact_field(), exact_weights(), x);
        assert((1real) * x <= y * y * y <= (31real / 20real) * x) by (nonlinear_arith)
            requires
                y == (151real / 100real - x / 2real) * x + 1real / 5real,
                65_000real / 100_000real <= x <= 75_000real / 100_000real,
        ;
    }
    lemma_stretch(n, s1);
    let s2 = Stretch {
        from: 75_000,
        to: 85_000,
        low: 1real,
        low1: 1real,
        high: 208real / 125real,
        high1: 10_097real / 10_000real,
        within: 667real / 10_000_000_000real,
        slope: 5670real / 1_000_000_000_000real,
        most: 567real / 10_000_000_000real,
    };
    assert(steps_reach(1real, 1real, 208real / 125real, 10_097real / 10_000real, 667real / 10_000_000_000real)) by (nonlinear_arith);
    assert forall|x: real| #[trigger] s2.holds(x) implies s2.low * x <= cube(cbrt_guess(exact_field(), exact_weights(), x))
        <= s2.high * x by {
        lemma_guess_low(x);
        let y = cbrt_guess(exact_field(), exact_weights(), x);
        assert((1real) * x <= y * y * y <= (208real / 125real) * x) by (nonlinear_arith)
            requires
                y == (151real / 100real - x / 2real) * x + 1real / 5real,
                75_000real / 100_000real <= x <= 85_000real / 100_000real,
        ;
    }
    lemma_stretch(n, s2);
    let s3 = Stretch {
        from: 85_000,
        to: 90_000,
        low: 1real,
        low1: 1real,
        high: 1709real / 1000real,
        high1: 632real / 625real,
        within: 103real / 1_000_000_000real,
        slope: 4635real / 1_000_000_000_000real,
        most: 927real / 10_000_000_000real,
    };
    assert(steps_reach(1real, 1real, 1709real / 1000real, 632real / 625real, 103real / 1_000_000_000real)) by (nonlinear_arith);
    assert forall|x: real| #[trigger] s3.holds(x) implies s3.low * x <= cube(cbrt_guess(exact_field(), exact_weights(), x))
        <= s3.high * x by {
        lemma_guess_low(x);
        let y = cbrt_guess(exact_field(), exact_weights(), x);
        assert((1real) * x <= y * y * y <= (1709real / 1000real) * x) by (nonlinear_arith)
            requires
                y == (151real / 100real - x / 2real) * x + 1real / 5real,
                85_000real / 100_000real <= x <= 90_000real / 100_000real,
        ;
    }
    lemma_stretch(n, s3);
    let s4 = Stretch {
        from: 90_000,
        to: 95_000,
        low: 1real,
        low1: 1real,
        high: 349real / 200real,
        high1: 5063real / 5000real,
        within: 73real / 500_000_000real,
        slope: 6935real / 1_000_000_000_000real,
        most: 1387real / 10_000_000_000real,
    };
    assert(steps_reach(1real, 1real, 349real / 200real, 5063real / 5000real, 73real / 500_000_000real)) by (nonlinear_arith);
    assert forall|x: real| #[trigger] s4.holds(x) implies s4.low * x <= cube(cbrt_guess(exact_field(), exact_weights(), x))
        <= s4.high * x by {
        lemma_guess_low(x);
        let y = cbrt_guess(exact_field(), exact_weights(), x);
        assert((1real) * x <= y * y * y <= (349real / 200real) * x) by (nonlinear_arith)
            requires
                y == (151real / 100real - x / 2real) * x + 1real / 5real,
                90_000real / 100_000real <= x <= 95_000real / 100_000real,
        ;
    }
    lemma_stretch(n, s4);
    let s5 = Stretch {
        from: 95_000,
        to: 100_000,
        low: 1real,
        low1: 1real,
        high: 1773real / 1000real,
        high1: 10_137real / 10_000real,
        within: 187real / 1_000_000_000real,
        slope: 9350real / 1_000_000_000_000real,
        most: 1870real / 10_000_000_000real,
    };
    assert(steps_reach(1real, 1real, 1773real / 1000real, 10_137real / 10_000real, 187real / 1_000_000_000real)) by (nonlinear_arith);
    assert forall|x: real| #[trigger] s5.holds(x) implies s5.low * x <= cube(cbrt_guess(exact_field(), exact_weights(), x))
        <= s5.high * x by {
        lemma_guess_low(x);
        let y = cbrt_guess(exact_field(), exact_weights(), x);
        assert((1real) * x <= y * y * y <= (1773real / 1000real) * x) by (nonlinear_arith)
            requires
                y == (151real / 100real - x / 2real) * x + 1real / 5real,
                95_000real / 100_000real <= x <= 100_000real / 100_000real,
        ;
    }
    lemma_stretch(n, s5);
}

/// The errors of the cubes at n + 1 evenly spaced arguments from zero to one add up to no more than
/// 22/100000000 for each, and 28/100000 more: to less than 0.0025 for spaces of 1/10001.
pub proof fn law_cube_errors(n: nat)
    requires
        n >= 1,
    ensures
        cube_error_sum(n, n + 1) <= (22real / 100_000_000real) * (n as real) + 28real / 100_000real,
        n == 10_001 ==> cube_error_sum(n, n + 1) < 25real / 10_000real,
{
    lemma_first_stretch(n);
    lemma_small_arguments(n);
    lemma_low_arguments(n);
    lemma_middle_arguments(n);
    lemma_high_arguments(n);
    assert(points_up_to(n, 100_000) == n + 1);
}

} // verus!
