//! Implementations for boxed values (`Box<_>`).

use crate::conjure::{Conjure, Uninstantiable};
use crate::count::{Cardinality, Count};
use crate::seed::Seed;
use crate::shrink::{agrees, answers, Shrink};
use crate::term::{models, Term};
use vstd::prelude::*;

verus! {

impl<T: Count> Count for Box<T> {
    open spec fn spec_cardinality() -> Cardinality {
        T::spec_cardinality()
    }

    fn cardinality() -> (c: Cardinality) {
        T::cardinality()
    }
}

/// Put every term of a vector in a box of its own.
fn box_all<T: Term>(terms: Vec<T>) -> (boxes: Vec<Box<T>>)
    ensures
        models(boxes@) == models(terms@),
{
    let mut boxes: Vec<Box<T>> = Vec::with_capacity(terms.len());
    let mut i: usize = 0;
    while i < terms.len()
        invariant
            i <= terms.len(),
            boxes.len() == i,
            forall|j: int| 0 <= j < i ==> boxes@[j].model() == terms@[j].model(),
        decreases terms.len() - i,
    {
        boxes.push(Box::new(terms[i].dup()));
        i += 1;
    }
    assert(models(boxes@) =~= models(terms@));
    boxes
}

impl<T: Conjure> Conjure for Box<T> {
    open spec fn spec_conjure(seed: Seed) -> Result<T::Model, Uninstantiable> {
        T::spec_conjure(seed)
    }

    open spec fn spec_leaf(seed: Seed) -> Result<T::Model, Uninstantiable> {
        T::spec_leaf(seed)
    }

    open spec fn spec_corners() -> Seq<T::Model> {
        T::spec_corners()
    }

    /// A box has one shape.
    open spec fn spec_variants() -> Seq<Cardinality> {
        seq![T::spec_cardinality()]
    }

    open spec fn spec_build(index: int, seed: Seed) -> Result<T::Model, Uninstantiable> {
        if index == 0 {
            Self::spec_conjure(seed)
        } else {
            Err(Uninstantiable)
        }
    }

    fn conjure(seed: Seed) -> (made: Result<Self, Uninstantiable>) {
        match T::conjure(seed) {
            Ok(inner) => Ok(Box::new(inner)),
            Err(error) => Err(error),
        }
    }

    fn leaf(seed: Seed) -> (made: Result<Self, Uninstantiable>) {
        match T::leaf(seed) {
            Ok(inner) => Ok(Box::new(inner)),
            Err(error) => Err(error),
        }
    }

    fn corners() -> (all: Vec<Self>) {
        box_all(T::corners())
    }

    fn variants() -> (all: Vec<Cardinality>) {
        let mut all = Vec::new();
        all.push(T::cardinality());
        assert(all@ =~= seq![T::spec_cardinality()]);
        all
    }

    fn build(index: usize, seed: Seed) -> (made: Result<Self, Uninstantiable>) {
        if index == 0 {
            Self::conjure(seed)
        } else {
            Err(Uninstantiable)
        }
    }
}

impl<T: Shrink> Shrink for Box<T> {
    open spec fn measure(model: T::Model) -> nat {
        T::measure(model)
    }

    /// A box shrinks as what is in it.
    open spec fn spec_step(model: T::Model, meaning: spec_fn(T::Model) -> bool) -> Option<
        T::Model,
    > {
        T::spec_step(model, meaning)
    }

    proof fn lemma_step(model: T::Model, meaning: spec_fn(T::Model) -> bool) {
        T::lemma_step(model, meaning);
    }

    fn step<P: Fn(&Self) -> bool>(&self, property: &P) -> (smaller: Option<Self>) {
        let on_inner = |inner: &T| -> (answer: bool)
            ensures
                answers(property, (*inner).model(), answer),
            {
                let whole = Box::new((*inner).dup());
                property(&whole)
            };
        proof {
            assert forall|meaning: spec_fn(T::Model) -> bool| #[trigger]
                agrees(property, meaning) implies agrees(&on_inner, meaning) by {}
        }
        match (**self).step(&on_inner) {
            Some(inner) => Some(Box::new(inner)),
            None => None,
        }
    }
}

} // verus!
