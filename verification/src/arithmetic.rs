//! The operations on complex coordinates that the renderer asks of its caller.
//!
//! The renderer fixes which operation is applied to which values and in what
//! order; the number type `Z` and its arithmetic at a chosen precision are the
//! caller's. Contracts speak of an operation through what it may return.

use vstd::prelude::*;

verus! {

/// How the squared magnitude of a coordinate compares with a bound.
#[derive(Clone, Copy, Debug, PartialEq, Eq, Structural)]
pub enum NormOrder {
    /// `|z|^2` is less than the bound.
    Below,
    /// `|z|^2` is the bound exactly.
    Equal,
    /// `|z|^2` is greater than the bound.
    Above,
    /// `|z|^2` is not a number.
    Unordered,
}

/// The five operations on coordinates of type `Z`.
pub struct Arithmetic<O, M, A, Q, N> {
    /// `zero(c)` is zero at the precision of `c`.
    pub zero: O,
    /// `times(k, z)` is `k * z`.
    pub times: M,
    /// `plus(a, b)` is `a + b`.
    pub plus: A,
    /// `square(z)` is `z * z`.
    pub square: Q,
    /// `norm_order(z, bound)` compares `|z|^2` with `bound`.
    pub norm_order: N,
}

/// Every operation may be called on every argument.
pub open spec fn ready<Z, O, M, A, Q, N>(ops: Arithmetic<O, M, A, Q, N>) -> bool where
    O: Fn(&Z) -> Z,
    M: Fn(i32, &Z) -> Z,
    A: Fn(Z, &Z) -> Z,
    Q: Fn(Z) -> Z,
    N: Fn(&Z, u32) -> NormOrder,
 {
    &&& forall|c: Z| #[trigger] ops.zero.requires((&c,))
    &&& forall|k: i32, z: Z| #[trigger] ops.times.requires((k, &z))
    &&& forall|a: Z, b: Z| #[trigger] ops.plus.requires((a, &b))
    &&& forall|z: Z| #[trigger] ops.square.requires((z,))
    &&& forall|z: Z, bound: u32| #[trigger] ops.norm_order.requires((&z, bound))
}

/// Every operation has one result only for each argument.
pub open spec fn deterministic<Z, O, M, A, Q, N>(ops: Arithmetic<O, M, A, Q, N>) -> bool where
    O: Fn(&Z) -> Z,
    M: Fn(i32, &Z) -> Z,
    A: Fn(Z, &Z) -> Z,
    Q: Fn(Z) -> Z,
    N: Fn(&Z, u32) -> NormOrder,
 {
    &&& forall|c: Z, r1: Z, r2: Z|
        #[trigger] ops.zero.ensures((&c,), r1) && #[trigger] ops.zero.ensures((&c,), r2) ==> r1
            == r2
    &&& forall|k: i32, z: Z, r1: Z, r2: Z|
        #[trigger] ops.times.ensures((k, &z), r1) && #[trigger] ops.times.ensures((k, &z), r2)
            ==> r1 == r2
    &&& forall|a: Z, b: Z, r1: Z, r2: Z|
        #[trigger] ops.plus.ensures((a, &b), r1) && #[trigger] ops.plus.ensures((a, &b), r2)
            ==> r1 == r2
    &&& forall|z: Z, r1: Z, r2: Z|
        #[trigger] ops.square.ensures((z,), r1) && #[trigger] ops.square.ensures((z,), r2) ==> r1
            == r2
    &&& forall|z: Z, bound: u32, r1: NormOrder, r2: NormOrder|
        #[trigger] ops.norm_order.ensures((&z, bound), r1) && #[trigger] ops.norm_order.ensures(
            (&z, bound),
            r2,
        ) ==> r1 == r2
}

} // verus!
