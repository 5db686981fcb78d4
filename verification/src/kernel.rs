//! The weights of the blur.
//!
//! One clamped three-tap pass weighs a sample's neighbours by [`K_SIDE`] and the sample itself
//! by [`K_CENTER`]: the one-dimensional factor of the 3×3 Gaussian
//! `0.095332 0.118095 0.095332 / 0.118095 0.146293 0.118095 / 0.095332 0.118095 0.095332`.
//! A [`Kernel`] holds the weights of two such passes at once.
use crate::arith::{computes2, function2, ring, ring_total, Ring, Sample};
use vstd::prelude::*;

verus! {

/// Weight of a sample's neighbour in one three-tap pass, in units of 1 / [`K_UNIT`].
pub const K_SIDE: i64 = 30_875_886;

/// Weight of the sample itself in one three-tap pass, in units of 1 / [`K_UNIT`].
pub const K_CENTER: i64 = 38_248_280;

/// The denominator of the weights.
pub const K_UNIT: i64 = 100_000_000;

/// The weights of two three-tap passes fused into one five-tap pass, from the farthest sample
/// to the middle one, and those of the first and the last sample of a line.
#[derive(Clone, Copy, Debug, PartialEq)]
pub struct Kernel<T> {
    pub outer: T,
    pub inner: T,
    pub mid: T,
    pub edge_center: T,
    pub edge_near: T,
    pub edge_far: T,
}

/// The fused weights of two passes with the weights `side`, `center`, `side`.
pub open spec fn fused<T>(r: Ring<T>, side: T, center: T, two: T) -> Kernel<T> {
    let outer = (r.times)(side, side);
    let inner = (r.times)((r.times)(two, side), center);
    let mid = (r.plus)((r.times)((r.times)(two, side), side), (r.times)(center, center));
    Kernel {
        outer,
        inner,
        mid,
        edge_center: (r.plus)(mid, inner),
        edge_near: (r.plus)(outer, inner),
        edge_far: outer,
    }
}

/// The weights of the Gaussian. `ratio` gives the number that stands for a fraction.
pub open spec fn gaussian<T>(r: Ring<T>, ratio: spec_fn(i64, i64) -> T) -> Kernel<T> {
    fused(r, ratio(K_SIDE, K_UNIT), ratio(K_CENTER, K_UNIT), ratio(2, 1))
}

impl<T: Sample> Kernel<T> {
    /// The weights of two passes with the weights `side`, `center`, `side`; `two` is the
    /// number 2.
    pub fn fused(side: T, center: T, two: T) -> (kernel: Self)
        requires
            ring_total::<T>(),
        ensures
            kernel == fused(ring::<T>(), side, center, two),
    {
        let outer = side * side;
        let inner = two * side * center;
        let mid = two * side * side + center * center;
        Kernel {
            outer,
            inner,
            mid,
            edge_center: mid + inner,
            edge_near: outer + inner,
            edge_far: outer,
        }
    }

    /// The weights of the Gaussian. `ratio` gives the sample that stands for a fraction.
    pub fn gaussian<L: Fn(i64, i64) -> T>(ratio: &L) -> (kernel: Self)
        requires
            ring_total::<T>(),
            function2(*ratio),
        ensures
            forall|literal: spec_fn(i64, i64) -> T| #[trigger] computes2(*ratio, literal) ==> kernel == gaussian(
                ring::<T>(),
                literal,
            ),
    {
        Kernel::fused(ratio(K_SIDE, K_UNIT), ratio(K_CENTER, K_UNIT), ratio(2, 1))
    }
}

} // verus!
