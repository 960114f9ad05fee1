//! Implementations for results (`Result<_, _>`).

use crate::conjure::{Conjure, Uninstantiable};
use crate::count::{lemma_empty_sum_prod, Cardinality, Count};
use crate::seed::Seed;
use crate::shrink::{agrees, answers, Shrink};
use crate::term::{models, Term};
use vstd::prelude::*;

verus! {

impl<T: Count, E: Count> Count for Result<T, E> {
    open spec fn spec_cardinality() -> Cardinality {
        T::spec_cardinality().spec_sum(E::spec_cardinality())
    }

    fn cardinality() -> (c: Cardinality) {
        T::cardinality().of_sum(E::cardinality())
    }
}

/// A property of results, as a property of what is inside `Ok(_)`.
pub open spec fn inside_ok<T: Term, E: Term>(
    meaning: spec_fn(Result<T::Model, E::Model>) -> bool,
) -> spec_fn(T::Model) -> bool {
    |inner: T::Model| meaning(Ok(inner))
}

/// A property of results, as a property of what is inside `Err(_)`.
pub open spec fn inside_err<T: Term, E: Term>(
    meaning: spec_fn(Result<T::Model, E::Model>) -> bool,
) -> spec_fn(E::Model) -> bool {
    |inner: E::Model| meaning(Err(inner))
}

/// Which side of a `Result<T, E>` a seed chooses, and the seed that is left
/// for the value inside: the only side that is not empty, or else `Err` if
/// the lowest bit of the next number drawn is set. `None` if both sides are
/// empty.
pub open spec fn spec_side<T: Count, E: Count>(seed: Seed) -> Option<(bool, Seed)> {
    if T::spec_cardinality() == Cardinality::Empty {
        if E::spec_cardinality() == Cardinality::Empty {
            None
        } else {
            Some((true, seed))
        }
    } else if E::spec_cardinality() == Cardinality::Empty {
        Some((false, seed))
    } else {
        Some(((seed.output() & 1) != 0, seed.next()))
    }
}

/// Choose a side of a `Result<T, E>`: `true` for `Err`.
pub fn side<T: Count, E: Count>(seed: Seed) -> (chosen: Option<(bool, Seed)>)
    ensures
        chosen == spec_side::<T, E>(seed),
{
    let mut seed = seed;
    if T::cardinality().is_empty() {
        if E::cardinality().is_empty() {
            None
        } else {
            Some((true, seed))
        }
    } else if E::cardinality().is_empty() {
        Some((false, seed))
    } else {
        let error = seed.prng_bool();
        Some((error, seed))
    }
}

impl<T: Conjure, E: Conjure> Conjure for Result<T, E> {
    open spec fn spec_conjure(seed: Seed) -> Result<Result<T::Model, E::Model>, Uninstantiable> {
        match spec_side::<T, E>(seed) {
            None => Err(Uninstantiable),
            Some((true, rest)) => Ok(Err(E::spec_conjure(rest)->Ok_0)),
            Some((false, rest)) => Ok(Ok(T::spec_conjure(rest)->Ok_0)),
        }
    }

    open spec fn spec_leaf(seed: Seed) -> Result<Result<T::Model, E::Model>, Uninstantiable> {
        match spec_side::<T, E>(seed) {
            None => Err(Uninstantiable),
            Some((true, rest)) => Ok(Err(E::spec_leaf(rest)->Ok_0)),
            Some((false, rest)) => Ok(Ok(T::spec_leaf(rest)->Ok_0)),
        }
    }

    /// Every corner case of `T` inside `Ok(_)`, then every corner case of
    /// `E` inside `Err(_)`.
    open spec fn spec_corners() -> Seq<Result<T::Model, E::Model>> {
        Seq::new(T::spec_corners().len(), |i: int| Ok(T::spec_corners()[i])) + Seq::new(
            E::spec_corners().len(),
            |i: int| Err(E::spec_corners()[i]),
        )
    }

    /// `Ok(_)` is as large as `T`, and `Err(_)` as large as `E`.
    open spec fn spec_variants() -> Seq<Cardinality> {
        seq![T::spec_cardinality(), E::spec_cardinality()]
    }

    open spec fn spec_build(index: int, seed: Seed) -> Result<
        Result<T::Model, E::Model>,
        Uninstantiable,
    > {
        if index == 0 {
            match T::spec_conjure(seed) {
                Ok(inner) => Ok(Ok(inner)),
                Err(error) => Err(error),
            }
        } else if index == 1 {
            match E::spec_conjure(seed) {
                Ok(inner) => Ok(Err(inner)),
                Err(error) => Err(error),
            }
        } else {
            Err(Uninstantiable)
        }
    }

    fn conjure(seed: Seed) -> (made: Result<Self, Uninstantiable>) {
        proof {
            lemma_empty_sum_prod(T::spec_cardinality(), E::spec_cardinality());
        }
        match side::<T, E>(seed) {
            None => Err(Uninstantiable),
            Some((true, rest)) => match E::conjure(rest) {
                Ok(inner) => Ok(Err(inner)),
                Err(error) => Err(error),
            },
            Some((false, rest)) => match T::conjure(rest) {
                Ok(inner) => Ok(Ok(inner)),
                Err(error) => Err(error),
            },
        }
    }

    fn leaf(seed: Seed) -> (made: Result<Self, Uninstantiable>) {
        proof {
            lemma_empty_sum_prod(T::spec_cardinality(), E::spec_cardinality());
        }
        match side::<T, E>(seed) {
            None => Err(Uninstantiable),
            Some((true, rest)) => match E::leaf(rest) {
                Ok(inner) => Ok(Err(inner)),
                Err(error) => Err(error),
            },
            Some((false, rest)) => match T::leaf(rest) {
                Ok(inner) => Ok(Ok(inner)),
                Err(error) => Err(error),
            },
        }
    }

    fn corners() -> (all: Vec<Self>) {
        let oks = T::corners();
        let errs = E::corners();
        let mut all: Vec<Result<T, E>> = Vec::new();
        let mut i: usize = 0;
        while i < oks.len()
            invariant
                i <= oks.len(),
                all.len() == i,
                forall|j: int| 0 <= j < i ==> all@[j].model() == Ok::<T::Model, E::Model>(
                    oks@[j].model(),
                ),
            decreases oks.len() - i,
        {
            all.push(Ok(oks[i].dup()));
            i += 1;
        }
        let mut k: usize = 0;
        while k < errs.len()
            invariant
                k <= errs.len(),
                all.len() == oks.len() + k,
                forall|j: int|
                    0 <= j < oks.len() ==> all@[j].model() == Ok::<T::Model, E::Model>(
                        oks@[j].model(),
                    ),
                forall|j: int|
                    0 <= j < k ==> all@[oks.len() + j].model() == Err::<T::Model, E::Model>(
                        errs@[j].model(),
                    ),
            decreases errs.len() - k,
        {
            all.push(Err(errs[k].dup()));
            k += 1;
        }
        assert(models(all@) =~= Self::spec_corners());
        all
    }

    fn variants() -> (all: Vec<Cardinality>) {
        let mut all = Vec::new();
        all.push(T::cardinality());
        all.push(E::cardinality());
        assert(all@ =~= seq![T::spec_cardinality(), E::spec_cardinality()]);
        all
    }

    fn build(index: usize, seed: Seed) -> (made: Result<Self, Uninstantiable>) {
        if index == 0 {
            match T::conjure(seed) {
                Ok(inner) => Ok(Ok(inner)),
                Err(error) => Err(error),
            }
        } else if index == 1 {
            match E::conjure(seed) {
                Ok(inner) => Ok(Err(inner)),
                Err(error) => Err(error),
            }
        } else {
            Err(Uninstantiable)
        }
    }
}

impl<T: Shrink, E: Shrink> Shrink for Result<T, E> {
    open spec fn measure(model: Result<T::Model, E::Model>) -> nat {
        match model {
            Ok(inner) => T::measure(inner),
            Err(inner) => E::measure(inner),
        }
    }

    /// Either side shrinks what is inside, in place.
    open spec fn spec_step(
        model: Result<T::Model, E::Model>,
        meaning: spec_fn(Result<T::Model, E::Model>) -> bool,
    ) -> Option<Result<T::Model, E::Model>> {
        match model {
            Ok(inner) => match T::spec_step(inner, inside_ok::<T, E>(meaning)) {
                Some(smaller) => Some(Ok(smaller)),
                None => None,
            },
            Err(inner) => match E::spec_step(inner, inside_err::<T, E>(meaning)) {
                Some(smaller) => Some(Err(smaller)),
                None => None,
            },
        }
    }

    proof fn lemma_step(
        model: Result<T::Model, E::Model>,
        meaning: spec_fn(Result<T::Model, E::Model>) -> bool,
    ) {
        match model {
            Ok(inner) => T::lemma_step(inner, inside_ok::<T, E>(meaning)),
            Err(inner) => E::lemma_step(inner, inside_err::<T, E>(meaning)),
        }
    }

    fn step<P: Fn(&Self) -> bool>(&self, property: &P) -> (smaller: Option<Self>) {
        match self {
            Ok(inner) => {
                let on_inner = |inner: &T| -> (answer: bool)
                    ensures
                        answers(property, Ok::<T::Model, E::Model>((*inner).model()), answer),
                    {
                        let whole: Result<T, E> = Ok((*inner).dup());
                        property(&whole)
                    };
                proof {
                    assert forall|meaning: spec_fn(Result<T::Model, E::Model>) -> bool| #[trigger]
                        agrees(property, meaning) implies agrees(
                        &on_inner,
                        inside_ok::<T, E>(meaning),
                    ) by {}
                }
                match inner.step(&on_inner) {
                    Some(smaller) => Some(Ok(smaller)),
                    None => None,
                }
            },
            Err(inner) => {
                let on_inner = |inner: &E| -> (answer: bool)
                    ensures
                        answers(property, Err::<T::Model, E::Model>((*inner).model()), answer),
                    {
                        let whole: Result<T, E> = Err((*inner).dup());
                        property(&whole)
                    };
                proof {
                    assert forall|meaning: spec_fn(Result<T::Model, E::Model>) -> bool| #[trigger]
                        agrees(property, meaning) implies agrees(
                        &on_inner,
                        inside_err::<T, E>(meaning),
                    ) by {}
                }
                match inner.step(&on_inner) {
                    Some(smaller) => Some(Err(smaller)),
                    None => None,
                }
            },
        }
    }
}

} // verus!
