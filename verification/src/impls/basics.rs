//! Implementations for the unit type and `bool`.

use crate::conjure::{Conjure, Uninstantiable};
use crate::count::{Cardinality, Count};
use crate::seed::Seed;
use crate::shrink::Shrink;
use crate::term::models;
use vstd::prelude::*;

verus! {

impl Count for () {
    open spec fn spec_cardinality() -> Cardinality {
        Cardinality::Finite
    }

    fn cardinality() -> (c: Cardinality) {
        Cardinality::Finite
    }
}

impl Conjure for () {
    open spec fn spec_conjure(seed: Seed) -> Result<(), Uninstantiable> {
        Ok(())
    }

    open spec fn spec_leaf(seed: Seed) -> Result<(), Uninstantiable> {
        Ok(())
    }

    open spec fn spec_corners() -> Seq<()> {
        seq![()]
    }

    open spec fn spec_variants() -> Seq<Cardinality> {
        seq![Cardinality::Finite]
    }

    open spec fn spec_build(index: int, seed: Seed) -> Result<(), Uninstantiable> {
        if index == 0 {
            Self::spec_conjure(seed)
        } else {
            Err(Uninstantiable)
        }
    }

    fn conjure(seed: Seed) -> (made: Result<Self, Uninstantiable>) {
        Ok(())
    }

    fn leaf(seed: Seed) -> (made: Result<Self, Uninstantiable>) {
        Ok(())
    }

    fn corners() -> (all: Vec<Self>) {
        let mut all = Vec::new();
        all.push(());
        assert(models(all@) =~= seq![()]);
        all
    }

    fn variants() -> (all: Vec<Cardinality>) {
        let mut all = Vec::new();
        all.push(Cardinality::Finite);
        assert(all@ =~= seq![Cardinality::Finite]);
        all
    }

    fn build(index: usize, seed: Seed) -> (made: Result<Self, Uninstantiable>) {
        if index == 0 {
            Self::conjure(seed)
        } else {
            Err(Uninstantiable)
        }
    }
}

impl Shrink for () {
    open spec fn measure(model: ()) -> nat {
        0
    }

    open spec fn spec_step(model: (), meaning: spec_fn(()) -> bool) -> Option<()> {
        None
    }

    proof fn lemma_step(model: (), meaning: spec_fn(()) -> bool) {
    }

    fn step<P: Fn(&Self) -> bool>(&self, property: &P) -> (smaller: Option<Self>) {
        None
    }
}

impl Count for bool {
    open spec fn spec_cardinality() -> Cardinality {
        Cardinality::Finite
    }

    fn cardinality() -> (c: Cardinality) {
        Cardinality::Finite
    }
}

impl Conjure for bool {
    open spec fn spec_conjure(seed: Seed) -> Result<bool, Uninstantiable> {
        Ok((seed.output() & 1) != 0)
    }

    open spec fn spec_leaf(seed: Seed) -> Result<bool, Uninstantiable> {
        Ok((seed.output() & 1) != 0)
    }

    open spec fn spec_corners() -> Seq<bool> {
        seq![false, true]
    }

    open spec fn spec_variants() -> Seq<Cardinality> {
        seq![Cardinality::Finite]
    }

    open spec fn spec_build(index: int, seed: Seed) -> Result<bool, Uninstantiable> {
        if index == 0 {
            Self::spec_conjure(seed)
        } else {
            Err(Uninstantiable)
        }
    }

    fn conjure(seed: Seed) -> (made: Result<Self, Uninstantiable>) {
        let mut seed = seed;
        Ok(seed.prng_bool())
    }

    fn leaf(seed: Seed) -> (made: Result<Self, Uninstantiable>) {
        let mut seed = seed;
        Ok(seed.prng_bool())
    }

    fn corners() -> (all: Vec<Self>) {
        let mut all = Vec::new();
        all.push(false);
        all.push(true);
        assert(models(all@) =~= seq![false, true]);
        all
    }

    fn variants() -> (all: Vec<Cardinality>) {
        let mut all = Vec::new();
        all.push(Cardinality::Finite);
        assert(all@ =~= seq![Cardinality::Finite]);
        all
    }

    fn build(index: usize, seed: Seed) -> (made: Result<Self, Uninstantiable>) {
        if index == 0 {
            Self::conjure(seed)
        } else {
            Err(Uninstantiable)
        }
    }
}

impl Shrink for bool {
    open spec fn measure(model: bool) -> nat {
        if model {
            1
        } else {
            0
        }
    }

    /// `true` steps to `false` if the property still holds there.
    open spec fn spec_step(model: bool, meaning: spec_fn(bool) -> bool) -> Option<bool> {
        if model && meaning(false) {
            Some(false)
        } else {
            None
        }
    }

    proof fn lemma_step(model: bool, meaning: spec_fn(bool) -> bool) {
    }

    fn step<P: Fn(&Self) -> bool>(&self, property: &P) -> (smaller: Option<Self>) {
        if *self && property(&false) {
            Some(false)
        } else {
            None
        }
    }
}

} // verus!
