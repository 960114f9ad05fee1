//! Implementations for seeds themselves: a value may hold a seed, to be
//! used later.

use crate::conjure::{Conjure, Uninstantiable};
use crate::count::{Cardinality, Count};
use crate::seed::Seed;
use crate::term::{models, Term};
use vstd::prelude::*;

verus! {

impl Term for Seed {
    type Model = Seed;

    open spec fn model(&self) -> Seed {
        *self
    }

    /// A generated seed is a value like any other, and is copied as one.
    /// Generation never copies the seed that it uses up.
    fn dup(&self) -> (copy: Self) {
        Seed { state: self.state, size: self.size }
    }

    fn same(&self, other: &Self) -> (equal: bool) {
        self.state == other.state && self.size == other.size
    }
}

impl Count for Seed {
    open spec fn spec_cardinality() -> Cardinality {
        Cardinality::Finite
    }

    fn cardinality() -> (c: Cardinality) {
        Cardinality::Finite
    }
}

/// The seed with the given state and size budget.
pub open spec fn spec_seed_of(parts: (u64, usize)) -> Seed {
    Seed { state: parts.0, size: parts.1 }
}

impl Conjure for Seed {
    /// The seed itself, exactly.
    open spec fn spec_conjure(seed: Seed) -> Result<Seed, Uninstantiable> {
        Ok(seed)
    }

    /// A seed whose state and size budget are a leaf of a pair of numbers.
    open spec fn spec_leaf(seed: Seed) -> Result<Seed, Uninstantiable> {
        match <(u64, usize) as Conjure>::spec_leaf(seed) {
            Ok(parts) => Ok(spec_seed_of(parts)),
            Err(error) => Err(error),
        }
    }

    /// A seed for every corner case of a pair of a state and a size budget.
    open spec fn spec_corners() -> Seq<Seed> {
        Seq::new(
            <(u64, usize) as Conjure>::spec_corners().len(),
            |i: int| spec_seed_of(<(u64, usize) as Conjure>::spec_corners()[i]),
        )
    }

    open spec fn spec_variants() -> Seq<Cardinality> {
        seq![Cardinality::Finite]
    }

    open spec fn spec_build(index: int, seed: Seed) -> Result<Seed, Uninstantiable> {
        if index == 0 {
            Self::spec_conjure(seed)
        } else {
            Err(Uninstantiable)
        }
    }

    fn conjure(seed: Seed) -> (made: Result<Self, Uninstantiable>) {
        Ok(seed)
    }

    fn leaf(seed: Seed) -> (made: Result<Self, Uninstantiable>) {
        match <(u64, usize) as Conjure>::leaf(seed) {
            Ok(parts) => Ok(Seed { state: parts.0, size: parts.1 }),
            Err(error) => Err(error),
        }
    }

    fn corners() -> (all: Vec<Self>) {
        let parts = <(u64, usize) as Conjure>::corners();
        let mut all: Vec<Seed> = Vec::with_capacity(parts.len());
        let mut i: usize = 0;
        while i < parts.len()
            invariant
                i <= parts.len(),
                all.len() == i,
                forall|j: int| 0 <= j < i ==> all@[j] == spec_seed_of(parts@[j]),
            decreases parts.len() - i,
        {
            all.push(Seed { state: parts[i].0, size: parts[i].1 });
            i += 1;
        }
        assert(models(all@) =~= Self::spec_corners());
        all
    }

    fn variants() -> (all: Vec<Cardinality>) {
        let mut all = Vec::new();
        all.push(Cardinality::Finite);
        assert(all@ =~= seq![Cardinality::Finite]);
        all
    }

    fn build(index: usize, seed: Seed) -> (made: Result<Self, Uninstantiable>) {
        if index == 0 {
            Self::conjure(seed)
        } else {
            Err(Uninstantiable)
        }
    }
}

} // verus!
