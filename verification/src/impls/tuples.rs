//! Implementations for tuples of one, two and three components.

use crate::conjure::{Conjure, Uninstantiable};
use crate::count::{lemma_empty_sum_prod, Cardinality, Count};
use crate::iter::pairs;
use crate::seed::Seed;
use crate::shrink::{agrees, answers, Shrink};
use crate::term::{models, Term};
use vstd::prelude::*;

verus! {

/// Every pair of a first and a second component, the first varying slowest.
pub open spec fn spec_pairs<A, B>(firsts: Seq<A>, seconds: Seq<B>) -> Seq<(A, B)>
    decreases firsts.len(),
{
    if firsts.len() == 0 {
        Seq::empty()
    } else {
        spec_pairs(firsts.drop_last(), seconds) + Seq::new(
            seconds.len(),
            |j: int| (firsts.last(), seconds[j]),
        )
    }
}

impl<A: Count, B: Count> Count for (A, B) {
    open spec fn spec_cardinality() -> Cardinality {
        A::spec_cardinality().spec_prod(B::spec_cardinality())
    }

    fn cardinality() -> (c: Cardinality) {
        A::cardinality().prod(B::cardinality())
    }
}

/// The pair that two generated components make, or the first failure.
pub open spec fn both<A, B>(
    first: Result<A, Uninstantiable>,
    second: Result<B, Uninstantiable>,
) -> Result<(A, B), Uninstantiable> {
    match first {
        Err(error) => Err(error),
        Ok(a) => match second {
            Err(error) => Err(error),
            Ok(b) => Ok((a, b)),
        },
    }
}

impl<A: Conjure, B: Conjure> Conjure for (A, B) {
    /// The size budget is partitioned among the two components.
    open spec fn spec_conjure(seed: Seed) -> Result<(A::Model, B::Model), Uninstantiable> {
        let children = seed.spec_partition(seed.size, 2);
        both(A::spec_conjure(children[0]), B::spec_conjure(children[1]))
    }

    /// The seed is split among the two components.
    open spec fn spec_leaf(seed: Seed) -> Result<(A::Model, B::Model), Uninstantiable> {
        let children = seed.spec_split(2);
        both(A::spec_leaf(children[0]), B::spec_leaf(children[1]))
    }

    /// Every pair of corner cases, the first component varying slowest.
    open spec fn spec_corners() -> Seq<(A::Model, B::Model)> {
        spec_pairs(A::spec_corners(), B::spec_corners())
    }

    /// A pair has one shape.
    open spec fn spec_variants() -> Seq<Cardinality> {
        seq![Self::spec_cardinality()]
    }

    open spec fn spec_build(index: int, seed: Seed) -> Result<(A::Model, B::Model), Uninstantiable> {
        if index == 0 {
            Self::spec_conjure(seed)
        } else {
            Err(Uninstantiable)
        }
    }

    fn conjure(seed: Seed) -> (made: Result<Self, Uninstantiable>) {
        proof {
            lemma_empty_sum_prod(A::spec_cardinality(), B::spec_cardinality());
            seed.lemma_partition(seed.size, 2);
        }
        let size = seed.size;
        let mut children = seed.partition_among(size, 2);
        let second = children.pop().unwrap();
        let first = children.pop().unwrap();
        let a = match A::conjure(first) {
            Ok(a) => a,
            Err(error) => {
                return Err(error);
            },
        };
        let b = match B::conjure(second) {
            Ok(b) => b,
            Err(error) => {
                return Err(error);
            },
        };
        Ok((a, b))
    }

    fn leaf(seed: Seed) -> (made: Result<Self, Uninstantiable>) {
        proof {
            lemma_empty_sum_prod(A::spec_cardinality(), B::spec_cardinality());
        }
        let mut children = seed.split_among(2);
        let second = children.pop().unwrap();
        let first = children.pop().unwrap();
        let a = match A::leaf(first) {
            Ok(a) => a,
            Err(error) => {
                return Err(error);
            },
        };
        let b = match B::leaf(second) {
            Ok(b) => b,
            Err(error) => {
                return Err(error);
            },
        };
        Ok((a, b))
    }

    fn corners() -> (all: Vec<Self>) {
        let firsts = A::corners();
        let seconds = B::corners();
        pairs(&firsts, &seconds)
    }

    fn variants() -> (all: Vec<Cardinality>) {
        let mut all = Vec::new();
        all.push(Self::cardinality());
        assert(all@ =~= seq![Self::spec_cardinality()]);
        all
    }

    fn build(index: usize, seed: Seed) -> (made: Result<Self, Uninstantiable>) {
        if index == 0 {
            Self::conjure(seed)
        } else {
            Err(Uninstantiable)
        }
    }
}

impl<A: Shrink, B: Shrink> Shrink for (A, B) {
    open spec fn measure(model: (A::Model, B::Model)) -> nat {
        A::measure(model.0) + B::measure(model.1)
    }

    /// The first component is shrunk with the second held fixed. If that
    /// succeeds, the second is shrunk against the new first, and kept as it
    /// is if nothing smaller passes. If it fails, the second is shrunk
    /// against the old first.
    open spec fn spec_step(
        model: (A::Model, B::Model),
        meaning: spec_fn((A::Model, B::Model)) -> bool,
    ) -> Option<(A::Model, B::Model)> {
        match A::spec_step(model.0, with_second::<A, B>(meaning, model.1)) {
            Some(first) => match B::spec_step(model.1, with_first::<A, B>(meaning, first)) {
                Some(second) => Some((first, second)),
                None => Some((first, model.1)),
            },
            None => match B::spec_step(model.1, with_first::<A, B>(meaning, model.0)) {
                Some(second) => Some((model.0, second)),
                None => None,
            },
        }
    }

    proof fn lemma_step(
        model: (A::Model, B::Model),
        meaning: spec_fn((A::Model, B::Model)) -> bool,
    ) {
        A::lemma_step(model.0, with_second::<A, B>(meaning, model.1));
        match A::spec_step(model.0, with_second::<A, B>(meaning, model.1)) {
            Some(first) => {
                B::lemma_step(model.1, with_first::<A, B>(meaning, first));
            },
            None => {
                B::lemma_step(model.1, with_first::<A, B>(meaning, model.0));
            },
        }
    }

    fn step<P: Fn(&Self) -> bool>(&self, property: &P) -> (smaller: Option<Self>) {
        let on_first = |first: &A| -> (answer: bool)
            ensures
                answers(property, ((*first).model(), self.1.model()), answer),
            {
                let whole = ((*first).dup(), self.1.dup());
                property(&whole)
            };
        proof {
            assert forall|meaning: spec_fn((A::Model, B::Model)) -> bool|
                #[trigger] agrees(property, meaning) implies agrees(
                &on_first,
                with_second::<A, B>(meaning, self.1.model()),
            ) by {}
        }
        match self.0.step(&on_first) {
            Some(first) => {
                let on_second = |second: &B| -> (answer: bool)
                    ensures
                        answers(property, (first.model(), (*second).model()), answer),
                    {
                        let whole = (first.dup(), (*second).dup());
                        property(&whole)
                    };
                proof {
                    assert forall|meaning: spec_fn((A::Model, B::Model)) -> bool|
                        #[trigger] agrees(property, meaning) implies agrees(
                        &on_second,
                        with_first::<A, B>(meaning, first.model()),
                    ) by {}
                }
                match self.1.step(&on_second) {
                    Some(second) => Some((first, second)),
                    None => Some((first, self.1.dup())),
                }
            },
            None => {
                let on_second = |second: &B| -> (answer: bool)
                    ensures
                        answers(property, (self.0.model(), (*second).model()), answer),
                    {
                        let whole = (self.0.dup(), (*second).dup());
                        property(&whole)
                    };
                proof {
                    assert forall|meaning: spec_fn((A::Model, B::Model)) -> bool|
                        #[trigger] agrees(property, meaning) implies agrees(
                        &on_second,
                        with_first::<A, B>(meaning, self.0.model()),
                    ) by {}
                }
                match self.1.step(&on_second) {
                    Some(second) => Some((self.0.dup(), second)),
                    None => None,
                }
            },
        }
    }
}

/// A property of pairs, as a property of the first component with the second
/// held fixed.
pub open spec fn with_second<A: Term, B: Term>(
    meaning: spec_fn((A::Model, B::Model)) -> bool,
    second: B::Model,
) -> spec_fn(A::Model) -> bool {
    |first: A::Model| meaning((first, second))
}

/// A property of pairs, as a property of the second component with the first
/// held fixed.
pub open spec fn with_first<A: Term, B: Term>(
    meaning: spec_fn((A::Model, B::Model)) -> bool,
    first: A::Model,
) -> spec_fn(B::Model) -> bool {
    |second: B::Model| meaning((first, second))
}

impl<A: Count> Count for (A,) {
    open spec fn spec_cardinality() -> Cardinality {
        Cardinality::Finite.spec_prod(A::spec_cardinality())
    }

    fn cardinality() -> (c: Cardinality) {
        Cardinality::Finite.of_prod(A::cardinality())
    }
}

/// A property of one-tuples, as a property of the component.
pub open spec fn alone<A: Term>(meaning: spec_fn((A::Model,)) -> bool) -> spec_fn(
    A::Model,
) -> bool {
    |only: A::Model| meaning((only,))
}

/// Put every term of a vector in a one-tuple of its own.
fn tuple_all<A: Term>(terms: Vec<A>) -> (tuples: Vec<(A,)>)
    ensures
        models(tuples@) == Seq::new(terms@.len(), |i: int| (terms@[i].model(),)),
{
    let mut tuples: Vec<(A,)> = Vec::with_capacity(terms.len());
    let mut i: usize = 0;
    while i < terms.len()
        invariant
            i <= terms.len(),
            tuples.len() == i,
            forall|j: int| 0 <= j < i ==> tuples@[j].model() == (terms@[j].model(),),
        decreases terms.len() - i,
    {
        tuples.push((terms[i].dup(),));
        i += 1;
    }
    assert(models(tuples@) =~= Seq::new(terms@.len(), |i: int| (terms@[i].model(),)));
    tuples
}

impl<A: Conjure> Conjure for (A,) {
    /// The one component takes the whole size budget.
    open spec fn spec_conjure(seed: Seed) -> Result<(A::Model,), Uninstantiable> {
        match A::spec_conjure(seed.spec_partition(seed.size, 1)[0]) {
            Ok(only) => Ok((only,)),
            Err(error) => Err(error),
        }
    }

    open spec fn spec_leaf(seed: Seed) -> Result<(A::Model,), Uninstantiable> {
        match A::spec_leaf(seed.spec_split(1)[0]) {
            Ok(only) => Ok((only,)),
            Err(error) => Err(error),
        }
    }

    open spec fn spec_corners() -> Seq<(A::Model,)> {
        Seq::new(A::spec_corners().len(), |i: int| (A::spec_corners()[i],))
    }

    /// A tuple has one shape.
    open spec fn spec_variants() -> Seq<Cardinality> {
        seq![Self::spec_cardinality()]
    }

    open spec fn spec_build(index: int, seed: Seed) -> Result<(A::Model,), Uninstantiable> {
        if index == 0 {
            Self::spec_conjure(seed)
        } else {
            Err(Uninstantiable)
        }
    }

    fn conjure(seed: Seed) -> (made: Result<Self, Uninstantiable>) {
        let size = seed.size;
        let mut children = seed.partition_among(size, 1);
        let child = children.pop().unwrap();
        match A::conjure(child) {
            Ok(only) => Ok((only,)),
            Err(error) => Err(error),
        }
    }

    fn leaf(seed: Seed) -> (made: Result<Self, Uninstantiable>) {
        let mut children = seed.split_among(1);
        let child = children.pop().unwrap();
        match A::leaf(child) {
            Ok(only) => Ok((only,)),
            Err(error) => Err(error),
        }
    }

    fn corners() -> (all: Vec<Self>) {
        let inner = A::corners();
        let ghost inner_models = models(inner@);
        let all = tuple_all(inner);
        assert(models(all@) =~= Self::spec_corners());
        all
    }

    fn variants() -> (all: Vec<Cardinality>) {
        let mut all = Vec::new();
        all.push(Self::cardinality());
        assert(all@ =~= seq![Self::spec_cardinality()]);
        all
    }

    fn build(index: usize, seed: Seed) -> (made: Result<Self, Uninstantiable>) {
        if index == 0 {
            Self::conjure(seed)
        } else {
            Err(Uninstantiable)
        }
    }
}

impl<A: Shrink> Shrink for (A,) {
    open spec fn measure(model: (A::Model,)) -> nat {
        A::measure(model.0)
    }

    /// A one-tuple shrinks as its component.
    open spec fn spec_step(model: (A::Model,), meaning: spec_fn((A::Model,)) -> bool) -> Option<
        (A::Model,),
    > {
        match A::spec_step(model.0, alone::<A>(meaning)) {
            Some(only) => Some((only,)),
            None => None,
        }
    }

    proof fn lemma_step(model: (A::Model,), meaning: spec_fn((A::Model,)) -> bool) {
        A::lemma_step(model.0, alone::<A>(meaning));
    }

    fn step<P: Fn(&Self) -> bool>(&self, property: &P) -> (smaller: Option<Self>) {
        let on_only = |only: &A| -> (answer: bool)
            ensures
                answers(property, ((*only).model(),), answer),
            {
                let whole = ((*only).dup(),);
                property(&whole)
            };
        proof {
            assert forall|meaning: spec_fn((A::Model,)) -> bool| #[trigger]
                agrees(property, meaning) implies agrees(&on_only, alone::<A>(meaning)) by {}
        }
        match self.0.step(&on_only) {
            Some(only) => Some((only,)),
            None => None,
        }
    }
}

impl<A: Count, B: Count, C: Count> Count for (A, B, C) {
    open spec fn spec_cardinality() -> Cardinality {
        A::spec_cardinality().spec_prod(B::spec_cardinality()).spec_prod(C::spec_cardinality())
    }

    fn cardinality() -> (c: Cardinality) {
        A::cardinality().of_prod(B::cardinality()).of_prod(C::cardinality())
    }
}

/// The triple that three generated components make, or the first failure.
pub open spec fn all_three<A, B, C>(
    first: Result<A, Uninstantiable>,
    second: Result<B, Uninstantiable>,
    third: Result<C, Uninstantiable>,
) -> Result<(A, B, C), Uninstantiable> {
    match both(first, second) {
        Err(error) => Err(error),
        Ok((a, b)) => match third {
            Err(error) => Err(error),
            Ok(c) => Ok((a, b, c)),
        },
    }
}

/// The triple of a first component and a pair of the other two.
pub open spec fn spec_flat<A, B, C>(nested: (A, (B, C))) -> (A, B, C) {
    (nested.0, nested.1.0, nested.1.1)
}

/// Every triple of a first, a second and a third component, the first
/// varying slowest and the third fastest.
pub open spec fn spec_triples<A, B, C>(firsts: Seq<A>, seconds: Seq<B>, thirds: Seq<C>) -> Seq<
    (A, B, C),
> {
    let nested = spec_pairs(firsts, spec_pairs(seconds, thirds));
    Seq::new(nested.len(), |i: int| spec_flat(nested[i]))
}

/// A property of triples, as a property of the first component with the
/// other two held fixed.
pub open spec fn with_rest<A: Term, B: Term, C: Term>(
    meaning: spec_fn((A::Model, B::Model, C::Model)) -> bool,
    rest: (B::Model, C::Model),
) -> spec_fn(A::Model) -> bool {
    |first: A::Model| meaning((first, rest.0, rest.1))
}

/// A property of triples, as a property of the last two components with the
/// first held fixed.
pub open spec fn with_head<A: Term, B: Term, C: Term>(
    meaning: spec_fn((A::Model, B::Model, C::Model)) -> bool,
    first: A::Model,
) -> spec_fn((B::Model, C::Model)) -> bool {
    |rest: (B::Model, C::Model)| meaning((first, rest.0, rest.1))
}

impl<A: Conjure, B: Conjure, C: Conjure> Conjure for (A, B, C) {
    /// The size budget is partitioned among the three components.
    open spec fn spec_conjure(seed: Seed) -> Result<
        (A::Model, B::Model, C::Model),
        Uninstantiable,
    > {
        let children = seed.spec_partition(seed.size, 3);
        all_three(
            A::spec_conjure(children[0]),
            B::spec_conjure(children[1]),
            C::spec_conjure(children[2]),
        )
    }

    /// The seed is split among the three components.
    open spec fn spec_leaf(seed: Seed) -> Result<(A::Model, B::Model, C::Model), Uninstantiable> {
        let children = seed.spec_split(3);
        all_three(A::spec_leaf(children[0]), B::spec_leaf(children[1]), C::spec_leaf(children[2]))
    }

    /// Every triple of corner cases, the first component varying slowest.
    open spec fn spec_corners() -> Seq<(A::Model, B::Model, C::Model)> {
        spec_triples(A::spec_corners(), B::spec_corners(), C::spec_corners())
    }

    /// A tuple has one shape.
    open spec fn spec_variants() -> Seq<Cardinality> {
        seq![Self::spec_cardinality()]
    }

    open spec fn spec_build(index: int, seed: Seed) -> Result<(A::Model, B::Model, C::Model), Uninstantiable> {
        if index == 0 {
            Self::spec_conjure(seed)
        } else {
            Err(Uninstantiable)
        }
    }

    fn conjure(seed: Seed) -> (made: Result<Self, Uninstantiable>) {
        proof {
            lemma_empty_sum_prod(A::spec_cardinality(), B::spec_cardinality());
            lemma_empty_sum_prod(
                A::spec_cardinality().spec_prod(B::spec_cardinality()),
                C::spec_cardinality(),
            );
            seed.lemma_partition(seed.size, 3);
        }
        let size = seed.size;
        let mut children = seed.partition_among(size, 3);
        let third = children.pop().unwrap();
        let second = children.pop().unwrap();
        let first = children.pop().unwrap();
        let a = match A::conjure(first) {
            Ok(a) => a,
            Err(error) => {
                return Err(error);
            },
        };
        let b = match B::conjure(second) {
            Ok(b) => b,
            Err(error) => {
                return Err(error);
            },
        };
        let c = match C::conjure(third) {
            Ok(c) => c,
            Err(error) => {
                return Err(error);
            },
        };
        Ok((a, b, c))
    }

    fn leaf(seed: Seed) -> (made: Result<Self, Uninstantiable>) {
        proof {
            lemma_empty_sum_prod(A::spec_cardinality(), B::spec_cardinality());
            lemma_empty_sum_prod(
                A::spec_cardinality().spec_prod(B::spec_cardinality()),
                C::spec_cardinality(),
            );
        }
        let mut children = seed.split_among(3);
        let third = children.pop().unwrap();
        let second = children.pop().unwrap();
        let first = children.pop().unwrap();
        let a = match A::leaf(first) {
            Ok(a) => a,
            Err(error) => {
                return Err(error);
            },
        };
        let b = match B::leaf(second) {
            Ok(b) => b,
            Err(error) => {
                return Err(error);
            },
        };
        let c = match C::leaf(third) {
            Ok(c) => c,
            Err(error) => {
                return Err(error);
            },
        };
        Ok((a, b, c))
    }

    fn corners() -> (all: Vec<Self>) {
        let firsts = A::corners();
        let seconds = B::corners();
        let thirds = C::corners();
        let rest = pairs(&seconds, &thirds);
        let nested = pairs(&firsts, &rest);
        let mut all: Vec<(A, B, C)> = Vec::with_capacity(nested.len());
        let mut i: usize = 0;
        while i < nested.len()
            invariant
                i <= nested.len(),
                all.len() == i,
                forall|j: int| 0 <= j < i ==> all@[j].model() == spec_flat(nested@[j].model()),
            decreases nested.len() - i,
        {
            let item = &nested[i];
            all.push((item.0.dup(), item.1.0.dup(), item.1.1.dup()));
            i += 1;
        }
        assert(models(all@) =~= Self::spec_corners());
        all
    }

    fn variants() -> (all: Vec<Cardinality>) {
        let mut all = Vec::new();
        all.push(Self::cardinality());
        assert(all@ =~= seq![Self::spec_cardinality()]);
        all
    }

    fn build(index: usize, seed: Seed) -> (made: Result<Self, Uninstantiable>) {
        if index == 0 {
            Self::conjure(seed)
        } else {
            Err(Uninstantiable)
        }
    }
}

impl<A: Shrink, B: Shrink, C: Shrink> Shrink for (A, B, C) {
    open spec fn measure(model: (A::Model, B::Model, C::Model)) -> nat {
        A::measure(model.0) + B::measure(model.1) + C::measure(model.2)
    }

    /// The first component is shrunk with the others held fixed. Then the
    /// others are shrunk as a pair, against the first component as it is by
    /// then, and kept as they are if nothing smaller passes.
    open spec fn spec_step(
        model: (A::Model, B::Model, C::Model),
        meaning: spec_fn((A::Model, B::Model, C::Model)) -> bool,
    ) -> Option<(A::Model, B::Model, C::Model)> {
        let rest = (model.1, model.2);
        match A::spec_step(model.0, with_rest::<A, B, C>(meaning, rest)) {
            Some(first) => match <(B, C) as Shrink>::spec_step(
                rest,
                with_head::<A, B, C>(meaning, first),
            ) {
                Some(smaller) => Some((first, smaller.0, smaller.1)),
                None => Some((first, model.1, model.2)),
            },
            None => match <(B, C) as Shrink>::spec_step(
                rest,
                with_head::<A, B, C>(meaning, model.0),
            ) {
                Some(smaller) => Some((model.0, smaller.0, smaller.1)),
                None => None,
            },
        }
    }

    proof fn lemma_step(
        model: (A::Model, B::Model, C::Model),
        meaning: spec_fn((A::Model, B::Model, C::Model)) -> bool,
    ) {
        let rest = (model.1, model.2);
        A::lemma_step(model.0, with_rest::<A, B, C>(meaning, rest));
        match A::spec_step(model.0, with_rest::<A, B, C>(meaning, rest)) {
            Some(first) => {
                <(B, C) as Shrink>::lemma_step(rest, with_head::<A, B, C>(meaning, first));
            },
            None => {
                <(B, C) as Shrink>::lemma_step(rest, with_head::<A, B, C>(meaning, model.0));
            },
        }
    }

    fn step<P: Fn(&Self) -> bool>(&self, property: &P) -> (smaller: Option<Self>) {
        let rest = (self.1.dup(), self.2.dup());
        let on_first = |first: &A| -> (answer: bool)
            ensures
                answers(property, ((*first).model(), self.1.model(), self.2.model()), answer),
            {
                let whole = ((*first).dup(), self.1.dup(), self.2.dup());
                property(&whole)
            };
        proof {
            assert forall|meaning: spec_fn((A::Model, B::Model, C::Model)) -> bool| #[trigger]
                agrees(property, meaning) implies agrees(
                &on_first,
                with_rest::<A, B, C>(meaning, (self.1.model(), self.2.model())),
            ) by {}
        }
        match self.0.step(&on_first) {
            Some(first) => {
                let on_rest = |rest: &(B, C)| -> (answer: bool)
                    ensures
                        answers(
                            property,
                            (first.model(), rest.0.model(), rest.1.model()),
                            answer,
                        ),
                    {
                        let whole = (first.dup(), rest.0.dup(), rest.1.dup());
                        property(&whole)
                    };
                proof {
                    assert forall|meaning: spec_fn((A::Model, B::Model, C::Model)) -> bool|
                        #[trigger] agrees(property, meaning) implies agrees(
                        &on_rest,
                        with_head::<A, B, C>(meaning, first.model()),
                    ) by {}
                }
                match rest.step(&on_rest) {
                    Some(smaller) => Some((first, smaller.0, smaller.1)),
                    None => Some((first, rest.0, rest.1)),
                }
            },
            None => {
                let on_rest = |rest: &(B, C)| -> (answer: bool)
                    ensures
                        answers(
                            property,
                            (self.0.model(), rest.0.model(), rest.1.model()),
                            answer,
                        ),
                    {
                        let whole = (self.0.dup(), rest.0.dup(), rest.1.dup());
                        property(&whole)
                    };
                proof {
                    assert forall|meaning: spec_fn((A::Model, B::Model, C::Model)) -> bool|
                        #[trigger] agrees(property, meaning) implies agrees(
                        &on_rest,
                        with_head::<A, B, C>(meaning, self.0.model()),
                    ) by {}
                }
                match rest.step(&on_rest) {
                    Some(smaller) => Some((self.0.dup(), smaller.0, smaller.1)),
                    None => None,
                }
            },
        }
    }
}

} // verus!
