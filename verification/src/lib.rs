//! The core of an image comparison: blurring, conversion to L\*a\*b\*, and reuse of buffers.
//!
//! - [`plane`]: rectangles of samples in a flat buffer.
//! - [`kernel`] and [`blur`]: a Gaussian blur of two passes in one.
//! - [`lab`] and [`tolab`]: linear light to L\*a\*b\*, for a pixel and for an image.
//! - [`pool`] and [`buffer`]: buffers that are kept for the next comparison.
//! - [`blur_laws`], [`pass_laws`], [`average_laws`], [`cbrt_laws`], [`cbrt_sum_laws`], [`lab_laws`],
//!   [`plane_laws`], [`pool_laws`], [`tolab_laws`]: what follows from the contracts.
//! - [`arith`] and [`reals`]: the arithmetic that the contracts and laws speak of.

pub mod arith;
pub mod average_laws;
pub mod blur;
pub mod blur_laws;
pub mod buffer;
pub mod cbrt_laws;
pub mod cbrt_sum_laws;
pub mod kernel;
pub mod lab;
pub mod lab_laws;
pub mod pass_laws;
pub mod plane;
pub mod plane_laws;
pub mod pool;
pub mod pool_laws;
pub mod reals;
pub mod tolab;
pub mod tolab_laws;
