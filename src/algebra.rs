use vstd::prelude::*;

verus! {

/// A scalar type.
///
/// Scalars are used for things like knot locations, weights, parameter values,
/// and the scalar components of vector types.
///
/// Each operation is described by a spec function that a verified
/// implementation defines (the defaults leave the value unspecified); the
/// algorithms of this crate are proved against those functions. The order is
/// that of an integer rank, so it is a total preorder: implementations for
/// floating-point types meet this on every value but NaN.
pub trait ScalarT: Sized + Copy {
    /// The position of the value in the order of the type: `a <= b` holds
    /// exactly when `a.rank() <= b.rank()`.
    open spec fn rank(self) -> int {
        arbitrary()
    }

    /// The value of `self + other`.
    open spec fn add_spec(self, other: Self) -> Self {
        arbitrary()
    }

    /// The value of `self - other`.
    open spec fn sub_spec(self, other: Self) -> Self {
        arbitrary()
    }

    /// The value of `self * other`.
    open spec fn mul_spec(self, other: Self) -> Self {
        arbitrary()
    }

    /// The value of `self / other`.
    open spec fn div_spec(self, other: Self) -> Self {
        arbitrary()
    }

    /// The multiplicative identity.
    open spec fn one_spec() -> Self {
        arbitrary()
    }

    /// Tests `self <= other`.
    fn le(&self, other: &Self) -> (r: bool)
        ensures
            r == (self.rank() <= other.rank()),
    ;

    /// Tests `self < other`.
    fn lt(&self, other: &Self) -> (r: bool)
        ensures
            r == (self.rank() < other.rank()),
    ;

    fn add(self, other: Self) -> (r: Self)
        ensures
            r == self.add_spec(other),
    ;

    fn sub(self, other: Self) -> (r: Self)
        ensures
            r == self.sub_spec(other),
    ;

    fn mul(self, other: Self) -> (r: Self)
        ensures
            r == self.mul_spec(other),
    ;

    fn div(self, other: Self) -> (r: Self)
        ensures
            r == self.div_spec(other),
    ;

    fn one() -> (r: Self)
        ensures
            r == Self::one_spec(),
    ;
}

/// `a <= b` in the order of the scalar type.
pub open spec fn le<N: ScalarT>(a: N, b: N) -> bool {
    a.rank() <= b.rank()
}

/// `a < b` in the order of the scalar type.
pub open spec fn lt<N: ScalarT>(a: N, b: N) -> bool {
    a.rank() < b.rank()
}

/// `a` and `b` hold the same place in the order of the scalar type.
pub open spec fn equiv<N: ScalarT>(a: N, b: N) -> bool {
    a.rank() == b.rank()
}

/// The additive identity, as `1 - 1`.
pub open spec fn zero<N: ScalarT>() -> N {
    N::one_spec().sub_spec(N::one_spec())
}

/// The laws of exact arithmetic that the results on curve end points and on
/// scaling rest on: the order is antisymmetric, and the operations obey the
/// identities of an ordered field (with `0 / a == 0` for every `a`) and of a
/// vector space over it that these results use.
///
/// Exact number types meet them; floating-point types meet them only up to
/// rounding.
#[verifier::opaque]
pub open spec fn exact_arithmetic<N: ScalarT, V: VectorT<Field = N>>() -> bool {
    let one = N::one_spec();
    let zero = zero::<N>();
    &&& forall|a: N, b: N| #![trigger a.rank(), b.rank()] equiv(a, b) ==> a == b
    &&& forall|a: N| #[trigger] a.sub_spec(a) == zero
    &&& forall|a: N, b: N| lt(a, b) ==> #[trigger] b.sub_spec(a) != zero
    &&& forall|a: N| #[trigger] zero.div_spec(a) == zero
    &&& forall|a: N| a != zero ==> #[trigger] a.div_spec(a) == one
    &&& one.sub_spec(zero) == one
    &&& forall|a: N| #[trigger] a.mul_spec(one) == a
    &&& forall|a: N, b: N| #[trigger] a.add_spec(b.mul_spec(zero)) == a
    &&& forall|a: N, b: N| #[trigger] b.mul_spec(zero).add_spec(a) == a
    &&& forall|p: V| #[trigger] p.scale_spec(one) == p
    &&& forall|p: V, q: V| #[trigger] p.add_spec(q.scale_spec(zero)) == p
    &&& forall|p: V, q: V| #[trigger] q.scale_spec(zero).add_spec(p) == p
    &&& forall|p: V, a: N| a != zero ==> #[trigger] p.scale_spec(a).scale_spec(one.div_spec(a)) == p
}

/// A vector type.
///
/// Vectors are used for locations like control points and points on curves
/// or surfaces. Their dimension is a matter of the implementing type.
pub trait VectorT: Sized + Copy {
    type Field: ScalarT;

    /// The value of `self + other`.
    open spec fn add_spec(self, other: Self) -> Self {
        arbitrary()
    }

    /// The value of `self * s`, the vector scaled by a scalar.
    open spec fn scale_spec(self, s: Self::Field) -> Self {
        arbitrary()
    }

    fn add(self, other: Self) -> (r: Self)
        ensures
            r == self.add_spec(other),
    ;

    fn scale(self, s: Self::Field) -> (r: Self)
        ensures
            r == self.scale_spec(s),
    ;
}

} // verus!
