use vstd::prelude::*;

verus! {

/// A matrix as the sequence of its rows, for contracts.
pub type Matrix<T> = Seq<Seq<T>>;

/// The rows of a table, as sequences.
pub open spec fn rows<T>(m: Seq<Vec<T>>) -> Seq<Seq<T>> {
    m.map_values(|r: Vec<T>| r@)
}

/// The numbers a model computes with: the ring operations and the inverse of a
/// square matrix. Each operation is a function of its arguments, named by a
/// spec function, so that contracts can say which value a computation yields.
pub trait Scalar: Copy + Sized {
    /// The additive identity.
    spec fn spec_zero() -> Self;

    /// The multiplicative identity.
    spec fn spec_one() -> Self;

    /// The sum of `self` and `other`.
    spec fn spec_plus(self, other: Self) -> Self;

    /// `self` less `other`.
    spec fn spec_minus(self, other: Self) -> Self;

    /// The product of `self` and `other`.
    spec fn spec_times(self, other: Self) -> Self;

    /// The inverse of the square matrix `m`, given as rows; `None` when `m` is
    /// singular.
    spec fn spec_inverse(m: Matrix<Self>) -> Option<Matrix<Self>>;

    fn zero() -> (r: Self)
        ensures
            r == Self::spec_zero(),
    ;

    fn one() -> (r: Self)
        ensures
            r == Self::spec_one(),
    ;

    fn plus(self, other: Self) -> (r: Self)
        ensures
            r == self.spec_plus(other),
    ;

    fn minus(self, other: Self) -> (r: Self)
        ensures
            r == self.spec_minus(other),
    ;

    fn times(self, other: Self) -> (r: Self)
        ensures
            r == self.spec_times(other),
    ;

    fn inverse(m: &Vec<Vec<Self>>) -> (r: Option<Vec<Vec<Self>>>)
        ensures
            r is Some <==> Self::spec_inverse(rows(m@)) is Some,
            r matches Some(v) ==> rows(v@) == Self::spec_inverse(rows(m@))->Some_0,
    ;
}

} // verus!
