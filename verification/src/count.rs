//! Cardinality of a type's value space, and the algebra that combines
//! cardinalities of alternatives (sums) and of fields (products).

use vstd::prelude::*;

verus! {

/// How many values a type has, as far as generation cares: none, finitely
/// many, or at least countably many.
///
/// A type with one value and a type with a billion values are both `Finite`:
/// what matters is whether building a value can recurse without bound.
#[derive(Clone, Copy, Debug, PartialEq, Eq, Structural)]
pub enum Cardinality {
    /// No values at all: the type cannot be instantiated.
    Empty,
    /// Finitely many values: the type is a leaf of generation.
    Finite,
    /// At least countably infinitely many values: the type is an internal
    /// node of generation and consumes size budget.
    Infinite,
}

impl Cardinality {
    /// Cardinality of a type with alternatives of cardinalities `self` and
    /// `other`: `Empty` is the identity, `Infinite` absorbs, and two finite
    /// alternatives stay finite.
    pub open spec fn spec_sum(self, other: Self) -> Self {
        match (self, other) {
            (Cardinality::Empty, _) => other,
            (_, Cardinality::Empty) => self,
            (Cardinality::Infinite, _) => Cardinality::Infinite,
            (_, Cardinality::Infinite) => Cardinality::Infinite,
            (Cardinality::Finite, Cardinality::Finite) => Cardinality::Finite,
        }
    }

    /// Cardinality of a type with fields of cardinalities `self` and
    /// `other`: `Empty` absorbs (one empty field empties the whole type),
    /// otherwise `Infinite` absorbs, otherwise the product is finite.
    pub open spec fn spec_prod(self, other: Self) -> Self {
        match (self, other) {
            (Cardinality::Empty, _) => Cardinality::Empty,
            (_, Cardinality::Empty) => Cardinality::Empty,
            (Cardinality::Infinite, _) => Cardinality::Infinite,
            (_, Cardinality::Infinite) => Cardinality::Infinite,
            (Cardinality::Finite, Cardinality::Finite) => Cardinality::Finite,
        }
    }

    /// Whether the type has no values.
    pub fn is_empty(self) -> (b: bool)
        ensures
            b == (self == Cardinality::Empty),
    {
        match self {
            Cardinality::Empty => true,
            _ => false,
        }
    }

    /// Whether the type has finitely many values, and at least one.
    pub fn is_finite(self) -> (b: bool)
        ensures
            b == (self == Cardinality::Finite),
    {
        match self {
            Cardinality::Finite => true,
            _ => false,
        }
    }

    /// Whether the type has infinitely many values.
    pub fn is_infinite(self) -> (b: bool)
        ensures
            b == (self == Cardinality::Infinite),
    {
        match self {
            Cardinality::Infinite => true,
            _ => false,
        }
    }

    /// Combine the cardinalities of two alternatives of a sum type.
    #[must_use]
    pub fn sum(self, other: Self) -> (c: Self)
        ensures
            c == self.spec_sum(other),
    {
        match self {
            Cardinality::Empty => other,
            Cardinality::Infinite => Cardinality::Infinite,
            Cardinality::Finite => match other {
                Cardinality::Empty | Cardinality::Finite => Cardinality::Finite,
                Cardinality::Infinite => Cardinality::Infinite,
            },
        }
    }

    /// Combine the cardinalities of two fields of a product type.
    #[must_use]
    pub fn prod(self, other: Self) -> (c: Self)
        ensures
            c == self.spec_prod(other),
    {
        match self {
            Cardinality::Empty => Cardinality::Empty,
            Cardinality::Infinite => match other {
                Cardinality::Empty => Cardinality::Empty,
                Cardinality::Finite | Cardinality::Infinite => Cardinality::Infinite,
            },
            Cardinality::Finite => other,
        }
    }

    /// Same as [`Cardinality::sum`].
    #[must_use]
    pub fn of_sum(self, other: Self) -> (c: Self)
        ensures
            c == self.spec_sum(other),
    {
        self.sum(other)
    }

    /// Same as [`Cardinality::prod`].
    #[must_use]
    pub fn of_prod(self, other: Self) -> (c: Self)
        ensures
            c == self.spec_prod(other),
    {
        self.prod(other)
    }
}

/// The sum of cardinalities is commutative and associative, with `Empty` as
/// its identity.
pub proof fn lemma_sum_monoid(a: Cardinality, b: Cardinality, c: Cardinality)
    ensures
        a.spec_sum(b) == b.spec_sum(a),
        a.spec_sum(b).spec_sum(c) == a.spec_sum(b.spec_sum(c)),
        Cardinality::Empty.spec_sum(a) == a,
        a.spec_sum(Cardinality::Empty) == a,
{
}

/// The product of cardinalities is commutative and associative, with
/// `Finite` as its identity and `Empty` as its zero.
pub proof fn lemma_prod_monoid(a: Cardinality, b: Cardinality, c: Cardinality)
    ensures
        a.spec_prod(b) == b.spec_prod(a),
        a.spec_prod(b).spec_prod(c) == a.spec_prod(b.spec_prod(c)),
        Cardinality::Finite.spec_prod(a) == a,
        a.spec_prod(Cardinality::Finite) == a,
        Cardinality::Empty.spec_prod(a) == Cardinality::Empty,
{
}

/// A sum is empty exactly when both alternatives are; a product is empty
/// exactly when some field is.
pub proof fn lemma_empty_sum_prod(a: Cardinality, b: Cardinality)
    ensures
        a.spec_sum(b) == Cardinality::Empty <==> (a == Cardinality::Empty && b
            == Cardinality::Empty),
        a.spec_prod(b) == Cardinality::Empty <==> (a == Cardinality::Empty || b
            == Cardinality::Empty),
{
}

/// Types whose value space has a known cardinality.
pub trait Count: Sized {
    /// The cardinality of `Self`.
    spec fn spec_cardinality() -> Cardinality;

    /// The cardinality of `Self`, computed.
    fn cardinality() -> (c: Cardinality)
        ensures
            c == Self::spec_cardinality(),
    ;
}

} // verus!
