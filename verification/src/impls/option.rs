//! Implementations for `Option<_>`.

use crate::conjure::{Conjure, Uninstantiable};
use crate::count::{Cardinality, Count};
use crate::seed::Seed;
use crate::shrink::{agrees, answers, Shrink};
use crate::term::{models, Term};
use vstd::prelude::*;

verus! {

impl<T: Count> Count for Option<T> {
    /// The sum of `None`, which is finite, and of `Some(_)`.
    open spec fn spec_cardinality() -> Cardinality {
        Cardinality::Finite.spec_sum(T::spec_cardinality())
    }

    fn cardinality() -> (c: Cardinality) {
        Cardinality::Finite.sum(T::cardinality())
    }
}

/// A property of options, as a property of what is inside `Some(_)`.
pub open spec fn inside_some<T: Term>(meaning: spec_fn(Option<T::Model>) -> bool) -> spec_fn(
    T::Model,
) -> bool {
    |inner: T::Model| meaning(Some(inner))
}

/// What `Option::<T>::leaf` makes.
///
/// `None` where that is the only finite alternative; otherwise the next
/// number drawn chooses between `None` and `Some(_)` with a leaf inside.
pub open spec fn spec_leaf_option<T: Conjure>(seed: Seed) -> Option<T::Model> {
    if T::spec_cardinality() != Cardinality::Finite || seed.output() as int % 2 == 0 {
        None
    } else {
        Some(T::spec_leaf(seed.next().spec_split(1)[0])->Ok_0)
    }
}

impl<T: Conjure> Conjure for Option<T> {
    /// Where the seed says to recurse and `Some(_)` is an infinite
    /// alternative, `Some(_)` with a generated value inside, made from the
    /// whole remaining budget. Otherwise a leaf.
    open spec fn spec_conjure(seed: Seed) -> Result<Option<T::Model>, Uninstantiable> {
        let (recurse, rest) = seed.spec_should_recurse();
        if !recurse {
            Ok(spec_leaf_option::<T>(rest))
        } else if T::spec_cardinality() == Cardinality::Infinite {
            Self::spec_build(1, rest.next())
        } else {
            Ok(spec_leaf_option::<T>(rest))
        }
    }

    open spec fn spec_leaf(seed: Seed) -> Result<Option<T::Model>, Uninstantiable> {
        Ok(spec_leaf_option::<T>(seed))
    }

    /// `None`, then every corner case of `T` inside `Some(_)`.
    open spec fn spec_corners() -> Seq<Option<T::Model>> {
        seq![None] + Seq::new(T::spec_corners().len(), |i: int| Some(T::spec_corners()[i]))
    }

    /// `None` is finite; `Some(_)` is as large as `T`.
    open spec fn spec_variants() -> Seq<Cardinality> {
        seq![Cardinality::Finite, T::spec_cardinality()]
    }

    /// `None` for the first alternative. For the second, `Some(_)` with a
    /// value generated from a seed that takes the whole size budget.
    open spec fn spec_build(index: int, seed: Seed) -> Result<Option<T::Model>, Uninstantiable> {
        if index == 0 {
            Ok(None)
        } else if index == 1 {
            match T::spec_conjure(seed.spec_partition(seed.size, 1)[0]) {
                Ok(inner) => Ok(Some(inner)),
                Err(error) => Err(error),
            }
        } else {
            Err(Uninstantiable)
        }
    }

    fn conjure(seed: Seed) -> (made: Result<Self, Uninstantiable>) {
        let mut seed = seed;
        if seed.should_recurse() {
            if T::cardinality().is_infinite() {
                let choice = seed.prng_below(1);
                return Self::build(1, seed);
            }
        }
        Self::leaf(seed)
    }

    fn leaf(seed: Seed) -> (made: Result<Self, Uninstantiable>) {
        let mut seed = seed;
        if !T::cardinality().is_finite() {
            return Ok(None);
        }
        let choice = seed.prng_below(2);
        if choice == 0 {
            Ok(None)
        } else {
            let mut children = seed.split_among(1);
            let child = children.pop().unwrap();
            match T::leaf(child) {
                Ok(inner) => Ok(Some(inner)),
                Err(error) => Err(error),
            }
        }
    }

    fn corners() -> (all: Vec<Self>) {
        let inner = T::corners();
        let mut all: Vec<Option<T>> = Vec::with_capacity(inner.len());
        all.push(None);
        let mut i: usize = 0;
        while i < inner.len()
            invariant
                i <= inner.len(),
                all.len() == i + 1,
                all@[0] is None,
                forall|j: int| 0 <= j < i ==> all@[j + 1].model() == Some(inner@[j].model()),
            decreases inner.len() - i,
        {
            all.push(Some(inner[i].dup()));
            i += 1;
        }
        assert(models(all@) =~= Self::spec_corners());
        all
    }

    fn variants() -> (all: Vec<Cardinality>) {
        let mut all = Vec::new();
        all.push(Cardinality::Finite);
        all.push(T::cardinality());
        assert(all@ =~= seq![Cardinality::Finite, T::spec_cardinality()]);
        all
    }

    fn build(index: usize, seed: Seed) -> (made: Result<Self, Uninstantiable>) {
        if index == 0 {
            Ok(None)
        } else if index == 1 {
            let size = seed.size;
            let mut children = seed.partition_among(size, 1);
            let child = children.pop().unwrap();
            match T::conjure(child) {
                Ok(inner) => Ok(Some(inner)),
                Err(error) => Err(error),
            }
        } else {
            Err(Uninstantiable)
        }
    }
}

impl<T: Shrink> Shrink for Option<T> {
    open spec fn measure(model: Option<T::Model>) -> nat {
        match model {
            None => 0,
            Some(inner) => 1 + T::measure(inner),
        }
    }

    /// `None` has no step. `Some(_)` shrinks what is inside, in place.
    open spec fn spec_step(
        model: Option<T::Model>,
        meaning: spec_fn(Option<T::Model>) -> bool,
    ) -> Option<Option<T::Model>> {
        match model {
            None => None,
            Some(inner) => match T::spec_step(inner, inside_some::<T>(meaning)) {
                Some(smaller) => Some(Some(smaller)),
                None => None,
            },
        }
    }

    proof fn lemma_step(model: Option<T::Model>, meaning: spec_fn(Option<T::Model>) -> bool) {
        if let Some(inner) = model {
            T::lemma_step(inner, inside_some::<T>(meaning));
        }
    }

    fn step<P: Fn(&Self) -> bool>(&self, property: &P) -> (smaller: Option<Self>) {
        match self {
            None => None,
            Some(inner) => {
                let on_inner = |inner: &T| -> (answer: bool)
                    ensures
                        answers(property, Some((*inner).model()), answer),
                    {
                        let whole = Some((*inner).dup());
                        property(&whole)
                    };
                proof {
                    assert forall|meaning: spec_fn(Option<T::Model>) -> bool| #[trigger]
                        agrees(property, meaning) implies agrees(
                        &on_inner,
                        inside_some::<T>(meaning),
                    ) by {}
                }
                match inner.step(&on_inner) {
                    Some(smaller) => Some(Some(smaller)),
                    None => None,
                }
            },
        }
    }
}

} // verus!
