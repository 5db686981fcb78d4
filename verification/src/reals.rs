//! Identities of real arithmetic.
use vstd::prelude::*;

verus! {

pub proof fn lemma_comm(a: real, b: real)
    ensures
        a * b == b * a,
{
    assert(a * b == b * a) by (nonlinear_arith);
}

pub proof fn lemma_assoc(a: real, b: real, c: real)
    ensures
        (a * b) * c == a * (b * c),
{
    assert((a * b) * c == a * (b * c)) by (nonlinear_arith);
}

pub proof fn lemma_dist(a: real, b: real, c: real)
    ensures
        a * (b + c) == a * b + a * c,
        (b + c) * a == b * a + c * a,
{
    assert(a * (b + c) == a * b + a * c) by (nonlinear_arith);
    assert((b + c) * a == b * a + c * a) by (nonlinear_arith);
}

/// A weight times a weighed sum of three.
pub proof fn lemma_weighed_sum(s: real, u: real, a: real, v: real, b: real, w: real, c: real)
    ensures
        s * (u * a + v * b + w * c) == (s * u) * a + (s * v) * b + (s * w) * c,
{
    lemma_dist(s, u * a + v * b, w * c);
    lemma_dist(s, u * a, v * b);
    lemma_assoc(s, u, a);
    lemma_assoc(s, v, b);
    lemma_assoc(s, w, c);
}

pub open spec fn cube(y: real) -> real {
    y * y * y
}

pub proof fn lemma_cube_mul(p: real, q: real)
    ensures
        cube(p * q) == cube(p) * cube(q),
{
    assert((p * q) * (p * q) * (p * q) == (p * p * p) * (q * q * q)) by (nonlinear_arith);
}

pub proof fn lemma_cancel(p: real, r: real, q: real)
    requires
        q != 0real,
        p * q == r * q,
    ensures
        p == r,
{
    assert(p == r) by (nonlinear_arith)
        requires
            q != 0real,
            p * q == r * q,
    ;
}

pub proof fn lemma_divided(p: real, q: real)
    requires
        q != 0real,
    ensures
        (p / q) * q == p,
{
    assert((p / q) * q == p) by (nonlinear_arith)
        requires
            q != 0real,
    ;
}

pub proof fn lemma_cube_positive(y: real)
    requires
        y > 0real,
    ensures
        cube(y) > 0real,
{
    assert(y * y * y > 0real) by (nonlinear_arith)
        requires
            y > 0real,
    ;
}

pub proof fn lemma_cube_monotone(p: real, q: real)
    requires
        0real <= p <= q,
    ensures
        cube(p) <= cube(q),
{
    assert(p * p * p <= q * q * q) by (nonlinear_arith)
        requires
            0real <= p <= q,
    ;
}

pub proof fn lemma_cube_not_negative(y: real)
    requires
        y >= 0real,
    ensures
        cube(y) >= 0real,
{
    assert(y * y * y >= 0real) by (nonlinear_arith)
        requires
            y >= 0real,
    ;
}

pub proof fn lemma_square_monotone(p: real, q: real)
    requires
        0real <= p <= q,
    ensures
        p * p <= q * q,
{
    assert(p * p <= q * q) by (nonlinear_arith)
        requires
            0real <= p <= q,
    ;
}

pub proof fn lemma_product_monotone(p: real, q: real, a: real, b: real)
    requires
        p <= q,
        0real <= q,
        0real <= a <= b,
    ensures
        p * a <= q * b,
{
    assert(p * a <= q * b) by (nonlinear_arith)
        requires
            p <= q,
            0real <= q,
            0real <= a <= b,
    ;
}

/// A fraction of fractions.
pub proof fn lemma_fraction(n: real, d: real, m: real, e: real, k: real, l: real)
    requires
        d != 0real,
        m != 0real,
        e != 0real,
        k * (n * e) == l * (m * d),
    ensures
        k * ((n / d) / (m / e)) == l,
{
    let p = n / d;
    let q = m / e;
    lemma_divided(n, d);
    lemma_divided(m, e);
    assert(q != 0real) by (nonlinear_arith)
        requires
            q * e == m,
            m != 0real,
    ;
    lemma_divided(p, q);
    let r = p / q;
    assert(r * (m * d) == n * e) by (nonlinear_arith)
        requires
            q * e == m,
            r * q == p,
            p * d == n,
    ;
    assert((k * r) * (m * d) == l * (m * d)) by (nonlinear_arith)
        requires
            r * (m * d) == n * e,
            k * (n * e) == l * (m * d),
    ;
    assert(m * d != 0real) by (nonlinear_arith)
        requires
            m != 0real,
            d != 0real,
    ;
    lemma_cancel(k * r, l, m * d);
}

} // verus!
