//! What the contracts know of arithmetic on samples.
//!
//! The library is generic in its sample type. A contract speaks of the value that a sequence
//! of operations gives through a record of functions: [`ring`] holds those of a sample type, and
//! [`exact_ring`] those of the real numbers. One formula can so be read both as what the code
//! computes and as what it would be without rounding.
use core::ops::Add;
use core::ops::Div;
use core::ops::Mul;
use core::ops::Sub;
use vstd::prelude::*;

verus! {

/// A sample that can be blurred.
pub trait Sample: Copy + Add<Output = Self> + Mul<Output = Self> {

}

impl<T: Copy + Add<Output = T> + Mul<Output = T>> Sample for T {

}

/// A sample that can be converted to another colour space.
pub trait ColorSample: Sample + Sub<Output = Self> + Div<Output = Self> + PartialOrd {

}

impl<T: Sample + Sub<Output = T> + Div<Output = T> + PartialOrd> ColorSample for T {

}

/// Addition and multiplication.
#[verifier::reject_recursive_types(T)]
pub struct Ring<T> {
    pub plus: spec_fn(T, T) -> T,
    pub times: spec_fn(T, T) -> T,
}

/// The operators `+` and `*` of a sample type.
pub open spec fn ring<T: Sample>() -> Ring<T> {
    Ring {
        plus: |a: T, b: T| vstd::std_specs::ops::AddSpec::add_spec(a, b),
        times: |a: T, b: T| vstd::std_specs::ops::MulSpec::mul_spec(a, b),
    }
}

/// Addition and multiplication of real numbers.
pub open spec fn exact_ring() -> Ring<real> {
    Ring { plus: |a: real, b: real| a + b, times: |a: real, b: real| a * b }
}

/// The operators `+` and `*` of `T` take any two operands, and their results are functions of
/// them.
///
/// The floating-point types are such types but for the bits of a NaN, which the language leaves
/// open.
pub open spec fn ring_total<T: Sample>() -> bool {
    &&& <T as vstd::std_specs::ops::AddSpec>::obeys_add_spec()
    &&& <T as vstd::std_specs::ops::MulSpec>::obeys_mul_spec()
    &&& forall|a: T, b: T| #[trigger] vstd::std_specs::ops::AddSpec::add_req(a, b)
    &&& forall|a: T, b: T| #[trigger] vstd::std_specs::ops::MulSpec::mul_req(a, b)
}

/// The arithmetic of a colour conversion: the four operations, the multiplication and addition
/// in one step, and the order.
#[verifier::reject_recursive_types(T)]
pub struct Field<T> {
    pub plus: spec_fn(T, T) -> T,
    pub minus: spec_fn(T, T) -> T,
    pub times: spec_fn(T, T) -> T,
    pub over: spec_fn(T, T) -> T,
    /// `mul_add(a, b, c)` is `a * b + c`, rounded once where the arithmetic rounds.
    pub mul_add: spec_fn(T, T, T) -> T,
    /// Whether the first operand is greater than the second.
    pub above: spec_fn(T, T) -> bool,
}

/// The operators of a sample type, with `mul_add` as the multiplication and addition in one
/// step.
pub open spec fn field<T: ColorSample>(mul_add: spec_fn(T, T, T) -> T) -> Field<T> {
    Field {
        plus: |a: T, b: T| vstd::std_specs::ops::AddSpec::add_spec(a, b),
        minus: |a: T, b: T| vstd::std_specs::ops::SubSpec::sub_spec(a, b),
        times: |a: T, b: T| vstd::std_specs::ops::MulSpec::mul_spec(a, b),
        over: |a: T, b: T| vstd::std_specs::ops::DivSpec::div_spec(a, b),
        mul_add,
        above: |a: T, b: T| is_above(a, b),
    }
}

/// The arithmetic of real numbers.
pub open spec fn exact_field() -> Field<real> {
    Field {
        plus: |a: real, b: real| a + b,
        minus: |a: real, b: real| a - b,
        times: |a: real, b: real| a * b,
        over: |a: real, b: real| a / b,
        mul_add: |a: real, b: real, c: real| a * b + c,
        above: |a: real, b: real| a > b,
    }
}

/// Whether `a > b`.
pub open spec fn is_above<T: PartialOrd>(a: T, b: T) -> bool {
    vstd::std_specs::cmp::PartialOrdSpec::partial_cmp_spec(&a, &b) == Some(core::cmp::Ordering::Greater)
}

/// Comparing two samples gives a function of them.
pub open spec fn order_total<T: vstd::std_specs::cmp::PartialOrdSpec>() -> bool {
    T::obeys_partial_cmp_spec()
}

/// The operators of `T` take any two operands, and their results are functions of them (see
/// [`ring_total`]).
pub open spec fn field_total<T: ColorSample>() -> bool {
    &&& ring_total::<T>()
    &&& <T as vstd::std_specs::ops::SubSpec>::obeys_sub_spec()
    &&& <T as vstd::std_specs::ops::DivSpec>::obeys_div_spec()
    &&& order_total::<T>()
    &&& forall|a: T, b: T| #[trigger] vstd::std_specs::ops::SubSpec::sub_req(a, b)
    &&& forall|a: T, b: T| #[trigger] vstd::std_specs::ops::DivSpec::div_req(a, b)
}

/// `f` takes any two arguments, and what it returns is a function of them.
pub open spec fn function2<A, B, R, F: Fn(A, B) -> R>(f: F) -> bool {
    &&& forall|a: A, b: B| #[trigger] f.requires((a, b))
    &&& forall|a: A, b: B, r: R, s: R| #[trigger] f.ensures((a, b), r) && #[trigger] f.ensures((a, b), s) ==> r == s
}

/// `f` computes `m`: what it returns for two arguments is the value of `m` there.
pub open spec fn computes2<A, B, R, F: Fn(A, B) -> R>(f: F, m: spec_fn(A, B) -> R) -> bool {
    forall|a: A, b: B, r: R| #[trigger] f.ensures((a, b), r) ==> r == m(a, b)
}

/// `f` takes any three arguments, and what it returns is a function of them.
pub open spec fn function3<A, B, C, R, F: Fn(A, B, C) -> R>(f: F) -> bool {
    &&& forall|a: A, b: B, c: C| #[trigger] f.requires((a, b, c))
    &&& forall|a: A, b: B, c: C, r: R, s: R| #[trigger] f.ensures((a, b, c), r) && #[trigger] f.ensures((a, b, c), s) ==> r == s
}

/// `f` computes `m`: what it returns for three arguments is the value of `m` there.
pub open spec fn computes3<A, B, C, R, F: Fn(A, B, C) -> R>(f: F, m: spec_fn(A, B, C) -> R) -> bool {
    forall|a: A, b: B, c: C, r: R| #[trigger] f.ensures((a, b, c), r) ==> r == m(a, b, c)
}

/// What `f` returns for two arguments.
pub open spec fn returned2<A, B, R, F: Fn(A, B) -> R>(f: F) -> spec_fn(A, B) -> R {
    |a: A, b: B| choose|r: R| f.ensures((a, b), r)
}

/// What `f` returns for three arguments.
pub open spec fn returned3<A, B, C, R, F: Fn(A, B, C) -> R>(f: F) -> spec_fn(A, B, C) -> R {
    |a: A, b: B, c: C| choose|r: R| f.ensures((a, b, c), r)
}

/// A function of two arguments computes something, namely what it returns.
pub proof fn law_function2<A, B, R, F: Fn(A, B) -> R>(f: F)
    requires
        function2(f),
    ensures
        computes2(f, returned2(f)),
{
}

/// A function of three arguments computes something, namely what it returns.
pub proof fn law_function3<A, B, C, R, F: Fn(A, B, C) -> R>(f: F)
    requires
        function3(f),
    ensures
        computes3(f, returned3(f)),
{
}

/// The arithmetic that the contracts of the blur speak of is that of the operators.
pub proof fn law_ring<T: Sample>(a: T, b: T)
    ensures
        (ring::<T>().plus)(a, b) == vstd::std_specs::ops::AddSpec::add_spec(a, b),
        (ring::<T>().times)(a, b) == vstd::std_specs::ops::MulSpec::mul_spec(a, b),
{
}

/// The arithmetic that the contracts of the colour conversion speak of is that of the operators, and of
/// the function that multiplies and adds.
pub proof fn law_field<T: ColorSample>(mul_add: spec_fn(T, T, T) -> T, a: T, b: T, c: T)
    ensures
        (field(mul_add).plus)(a, b) == vstd::std_specs::ops::AddSpec::add_spec(a, b),
        (field(mul_add).minus)(a, b) == vstd::std_specs::ops::SubSpec::sub_spec(a, b),
        (field(mul_add).times)(a, b) == vstd::std_specs::ops::MulSpec::mul_spec(a, b),
        (field(mul_add).over)(a, b) == vstd::std_specs::ops::DivSpec::div_spec(a, b),
        (field(mul_add).mul_add)(a, b, c) == mul_add(a, b, c),
        (field(mul_add).above)(a, b) == (vstd::std_specs::cmp::PartialOrdSpec::partial_cmp_spec(&a, &b) == Some(
            core::cmp::Ordering::Greater,
        )),
{
}

/// Which sample types can be blurred: those whose addition and multiplication take any operands and give
/// functions of them.
pub proof fn law_ring_total<T: Sample>()
    requires
        <T as vstd::std_specs::ops::AddSpec>::obeys_add_spec(),
        <T as vstd::std_specs::ops::MulSpec>::obeys_mul_spec(),
        forall|a: T, b: T| #[trigger] vstd::std_specs::ops::AddSpec::add_req(a, b),
        forall|a: T, b: T| #[trigger] vstd::std_specs::ops::MulSpec::mul_req(a, b),
    ensures
        ring_total::<T>(),
{
}

/// Which sample types can be converted: those that can be blurred and whose subtraction, division and
/// comparison take any operands and give functions of them.
pub proof fn law_field_total<T: ColorSample>()
    requires
        ring_total::<T>(),
        <T as vstd::std_specs::ops::SubSpec>::obeys_sub_spec(),
        <T as vstd::std_specs::ops::DivSpec>::obeys_div_spec(),
        order_total::<T>(),
        forall|a: T, b: T| #[trigger] vstd::std_specs::ops::SubSpec::sub_req(a, b),
        forall|a: T, b: T| #[trigger] vstd::std_specs::ops::DivSpec::div_req(a, b),
    ensures
        field_total::<T>(),
{
}

/// A function that takes any arguments and never gives two results for the same is a function of them.
pub proof fn law_is_function2<A, B, R, F: Fn(A, B) -> R>(f: F)
    requires
        forall|a: A, b: B| #[trigger] f.requires((a, b)),
        forall|a: A, b: B, r: R, s: R| #[trigger] f.ensures((a, b), r) && #[trigger] f.ensures((a, b), s) ==> r == s,
    ensures
        function2(f),
{
}

/// The same of a function of three arguments.
pub proof fn law_is_function3<A, B, C, R, F: Fn(A, B, C) -> R>(f: F)
    requires
        forall|a: A, b: B, c: C| #[trigger] f.requires((a, b, c)),
        forall|a: A, b: B, c: C, r: R, s: R| #[trigger] f.ensures((a, b, c), r) && #[trigger] f.ensures((a, b, c), s) ==> r == s,
    ensures
        function3(f),
{
}

/// A function computes whatever is the value of all its results.
pub proof fn law_computed2<A, B, R, F: Fn(A, B) -> R>(f: F, m: spec_fn(A, B) -> R)
    requires
        forall|a: A, b: B, r: R| #[trigger] f.ensures((a, b), r) ==> r == m(a, b),
    ensures
        computes2(f, m),
{
}

/// The fractions as real numbers.
pub open spec fn exact_ratio() -> spec_fn(i64, i64) -> real {
    |numerator: i64, denominator: i64| (numerator as int as real) / (denominator as int as real)
}

} // verus!
