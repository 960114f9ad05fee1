//! The generation protocol: how a type makes a value from a seed, which
//! corner cases it offers, and which alternatives it is made of.

use crate::count::{Cardinality, Count};
use crate::seed::Seed;
use crate::term::{models, Term};
use vstd::prelude::*;

verus! {

/// Error: the type has no value that fits in finite memory.
#[derive(Clone, Copy, Debug, PartialEq, Eq, Hash, Structural)]
pub struct Uninstantiable;

/// The model of what generation returned.
pub open spec fn made_model<T: Term>(made: Result<T, Uninstantiable>) -> Result<
    T::Model,
    Uninstantiable,
> {
    match made {
        Ok(term) => Ok(term.model()),
        Err(error) => Err(error),
    }
}

/// Types that can deterministically generate a value from a seed.
///
/// Every alternative of the type (every variant of an enum; the one shape of
/// a struct) is described by its cardinality, in declaration order, and can
/// be built by its index.
pub trait Conjure: Count + Term {
    /// The value that `conjure` makes from a seed.
    spec fn spec_conjure(seed: Seed) -> Result<Self::Model, Uninstantiable>;

    /// The value that `leaf` makes from a seed.
    spec fn spec_leaf(seed: Seed) -> Result<Self::Model, Uninstantiable>;

    /// The corner cases of this type, in order.
    spec fn spec_corners() -> Seq<Self::Model>;

    /// The cardinality of each alternative of this type, in declaration
    /// order.
    spec fn spec_variants() -> Seq<Cardinality>;

    /// The value that `build` makes of the alternative `index` from a seed.
    spec fn spec_build(index: int, seed: Seed) -> Result<Self::Model, Uninstantiable>;

    /// Deterministically generate an arbitrary term of type `Self`.
    ///
    /// Fails if and only if the type is empty, whatever the seed.
    fn conjure(seed: Seed) -> (made: Result<Self, Uninstantiable>)
        ensures
            made is Err <==> Self::spec_cardinality() == Cardinality::Empty,
            made_model(made) == Self::spec_conjure(seed),
    ;

    /// Deterministically generate an arbitrary term using only alternatives
    /// of finite cardinality, so that generation cannot recurse.
    ///
    /// Fails if and only if the type is empty, whatever the seed.
    fn leaf(seed: Seed) -> (made: Result<Self, Uninstantiable>)
        ensures
            made is Err <==> Self::spec_cardinality() == Cardinality::Empty,
            made_model(made) == Self::spec_leaf(seed),
    ;

    /// The full list of corner cases of this type.
    fn corners() -> (all: Vec<Self>)
        ensures
            models(all@) == Self::spec_corners(),
    ;

    /// The cardinality of each alternative of this type, in declaration
    /// order.
    fn variants() -> (all: Vec<Cardinality>)
        ensures
            all@ == Self::spec_variants(),
    ;

    /// Generate a term of the alternative `index`.
    ///
    /// Fails if and only if there is no such alternative, or it is empty.
    fn build(index: usize, seed: Seed) -> (made: Result<Self, Uninstantiable>)
        ensures
            made is Err <==> (index >= Self::spec_variants().len() || Self::spec_variants()[index as int]
                == Cardinality::Empty),
            made_model(made) == Self::spec_build(index as int, seed),
    ;
}

/// The alternatives of a type, by index, partitioned into those of infinite
/// cardinality (internal nodes) and those of finite cardinality (leaves).
/// Empty alternatives are in neither list.
#[derive(Debug)]
pub struct Variants {
    /// Indices of the alternatives of infinite cardinality, ascending.
    pub internal_nodes: Vec<usize>,
    /// Indices of the alternatives of finite cardinality, ascending.
    pub leaves: Vec<usize>,
}

/// The indices at which `kind` stands in `all`, ascending.
pub open spec fn indices_of(all: Seq<Cardinality>, kind: Cardinality) -> Seq<usize>
    decreases all.len(),
{
    if all.len() == 0 {
        Seq::empty()
    } else if all.last() == kind {
        indices_of(all.drop_last(), kind).push((all.len() - 1) as usize)
    } else {
        indices_of(all.drop_last(), kind)
    }
}

/// Every index that `indices_of` lists is a place in `all` at which `kind`
/// stands.
pub proof fn lemma_indices_of(all: Seq<Cardinality>, kind: Cardinality)
    requires
        all.len() <= usize::MAX,
    ensures
        indices_of(all, kind).len() <= all.len(),
        forall|i: int|
            0 <= i < indices_of(all, kind).len() ==> (#[trigger] indices_of(all, kind)[i])
                < all.len() && all[indices_of(all, kind)[i] as int] == kind,
        forall|at: int|
            0 <= at < all.len() && all[at] == kind ==> indices_of(all, kind).contains(
                at as usize,
            ),
    decreases all.len(),
{
    if all.len() > 0 {
        let front = all.drop_last();
        lemma_indices_of(front, kind);
        let found = indices_of(all, kind);
        assert forall|at: int| 0 <= at < all.len() && all[at] == kind implies found.contains(
            at as usize,
        ) by {
            if at < all.len() - 1 {
                assert(front[at] == kind);
                let i = choose|i: int|
                    0 <= i < indices_of(front, kind).len() && indices_of(front, kind)[i]
                        == at as usize;
                assert(found[i] == at as usize);
            } else {
                assert(found[found.len() - 1] == at as usize);
            }
        }
    }
}

/// The indices at which `kind` stands in `all`, ascending.
fn select(all: &Vec<Cardinality>, kind: Cardinality) -> (found: Vec<usize>)
    ensures
        found@ == indices_of(all@, kind),
{
    let mut found: Vec<usize> = Vec::new();
    let mut at: usize = 0;
    while at < all.len()
        invariant
            at <= all.len(),
            found@ == indices_of(all@.take(at as int), kind),
        decreases all.len() - at,
    {
        proof {
            assert(all@.take(at + 1).drop_last() =~= all@.take(at as int));
        }
        if all[at] == kind {
            found.push(at);
        }
        at += 1;
    }
    assert(all@.take(at as int) =~= all@);
    found
}

/// The alternatives of `T` of infinite cardinality, by index.
pub fn internal_nodes<T: Conjure>() -> (found: Vec<usize>)
    ensures
        found@ == indices_of(T::spec_variants(), Cardinality::Infinite),
        forall|i: int|
            0 <= i < found@.len() ==> (#[trigger] found@[i]) < T::spec_variants().len()
                && T::spec_variants()[found@[i] as int] == Cardinality::Infinite,
{
    let all = T::variants();
    let count = all.len();
    proof {
        lemma_indices_of(all@, Cardinality::Infinite);
    }
    select(&all, Cardinality::Infinite)
}

/// The alternatives of `T` of finite cardinality, by index.
pub fn leaves<T: Conjure>() -> (found: Vec<usize>)
    ensures
        found@ == indices_of(T::spec_variants(), Cardinality::Finite),
        forall|i: int|
            0 <= i < found@.len() ==> (#[trigger] found@[i]) < T::spec_variants().len()
                && T::spec_variants()[found@[i] as int] == Cardinality::Finite,
{
    let all = T::variants();
    let count = all.len();
    proof {
        lemma_indices_of(all@, Cardinality::Finite);
    }
    select(&all, Cardinality::Finite)
}

/// The alternatives of `T`, partitioned into internal nodes and leaves.
pub fn variants<T: Conjure>() -> (found: Variants)
    ensures
        found.internal_nodes@ == indices_of(T::spec_variants(), Cardinality::Infinite),
        found.leaves@ == indices_of(T::spec_variants(), Cardinality::Finite),
        forall|i: int|
            0 <= i < found.internal_nodes@.len() ==> (#[trigger] found.internal_nodes@[i])
                < T::spec_variants().len() && T::spec_variants()[found.internal_nodes@[i] as int]
                == Cardinality::Infinite,
        forall|i: int|
            0 <= i < found.leaves@.len() ==> (#[trigger] found.leaves@[i])
                < T::spec_variants().len() && T::spec_variants()[found.leaves@[i] as int]
                == Cardinality::Finite,
{
    let all = T::variants();
    let count = all.len();
    proof {
        lemma_indices_of(all@, Cardinality::Infinite);
        lemma_indices_of(all@, Cardinality::Finite);
    }
    let internal_nodes = select(&all, Cardinality::Infinite);
    let leaves = select(&all, Cardinality::Finite);
    Variants { internal_nodes, leaves }
}

/// Whether the alternatives of `T` agree with its cardinality: an empty type
/// has no alternative to offer, and any other has a finite one.
pub open spec fn has_leaf_iff_instantiable<T: Conjure>() -> bool {
    let leaves = indices_of(T::spec_variants(), Cardinality::Finite);
    let internal_nodes = indices_of(T::spec_variants(), Cardinality::Infinite);
    if T::spec_cardinality() == Cardinality::Empty {
        leaves.len() == 0 && internal_nodes.len() == 0
    } else {
        leaves.len() > 0
    }
}

/// What `leaf_by_variants` makes: a finite alternative chosen by the first
/// number drawn, built from the seed that the draw leaves behind.
pub open spec fn spec_leaf_by_variants<T: Conjure>(seed: Seed) -> Result<
    T::Model,
    Uninstantiable,
> {
    let leaves = indices_of(T::spec_variants(), Cardinality::Finite);
    if leaves.len() == 0 {
        Err(Uninstantiable)
    } else {
        let choice = seed.output() as int % leaves.len() as int;
        T::spec_build(leaves[choice] as int, seed.next())
    }
}

/// What `conjure_by_variants` makes.
///
/// Where the seed says to recurse, an infinite alternative is chosen by the
/// next number drawn, or a finite one if there is no infinite one. Where it
/// says to stop, the type's own `leaf` is made.
pub open spec fn spec_conjure_by_variants<T: Conjure>(seed: Seed) -> Result<
    T::Model,
    Uninstantiable,
> {
    let (recurse, rest) = seed.spec_should_recurse();
    let internal_nodes = indices_of(T::spec_variants(), Cardinality::Infinite);
    if !recurse {
        T::spec_leaf(rest)
    } else if internal_nodes.len() == 0 {
        spec_leaf_by_variants::<T>(rest)
    } else {
        let choice = rest.output() as int % internal_nodes.len() as int;
        T::spec_build(internal_nodes[choice] as int, rest.next())
    }
}

/// Generate a term of `T` from one of its finite alternatives, chosen
/// uniformly.
pub fn leaf_by_variants<T: Conjure>(seed: Seed) -> (made: Result<T, Uninstantiable>)
    ensures
        made_model(made) == spec_leaf_by_variants::<T>(seed),
        made is Err <==> indices_of(T::spec_variants(), Cardinality::Finite).len() == 0,
{
    let mut seed = seed;
    let leaves = leaves::<T>();
    if leaves.len() == 0 {
        return Err(Uninstantiable);
    }
    let choice = seed.prng_below(leaves.len());
    T::build(leaves[choice], seed)
}

/// Generate a term of `T` by dispatch over its alternatives: with the chance
/// that the seed's size budget gives, an internal node (an alternative of
/// infinite cardinality, chosen uniformly), otherwise a leaf.
pub fn conjure_by_variants<T: Conjure>(seed: Seed) -> (made: Result<T, Uninstantiable>)
    ensures
        made_model(made) == spec_conjure_by_variants::<T>(seed),
        has_leaf_iff_instantiable::<T>() ==> (made is Err <==> T::spec_cardinality()
            == Cardinality::Empty),
{
    let mut seed = seed;
    if seed.should_recurse() {
        let found = variants::<T>();
        if found.internal_nodes.len() == 0 {
            return leaf_by_variants::<T>(seed);
        }
        let choice = seed.prng_below(found.internal_nodes.len());
        T::build(found.internal_nodes[choice], seed)
    } else {
        T::leaf(seed)
    }
}

} // verus!
