//! Implementations for tuples of four to ten components. A tuple is
//! generated like any product, and shrinks as its first component followed
//! by the tuple of the others.

use crate::conjure::{Conjure, Uninstantiable};
use crate::count::{lemma_empty_sum_prod, Cardinality, Count};
use crate::impls::tuples::spec_pairs;
use crate::iter::pairs;
use crate::seed::Seed;
use crate::shrink::{agrees, answers, Shrink};
use crate::term::{models, Term};
use vstd::prelude::*;

verus! {

impl<A: Term, B: Term, C: Term, D: Term> Term for (A, B, C, D) {
    type Model = (A::Model, B::Model, C::Model, D::Model);

    open spec fn model(&self) -> (A::Model, B::Model, C::Model, D::Model) {
        (self.0.model(), self.1.model(), self.2.model(), self.3.model())
    }

    fn dup(&self) -> (copy: Self) {
        (self.0.dup(), self.1.dup(), self.2.dup(), self.3.dup())
    }

    fn same(&self, other: &Self) -> (equal: bool) {
        self.0.same(&other.0)
            && self.1.same(&other.1)
            && self.2.same(&other.2)
            && self.3.same(&other.3)
    }
}

impl<A: Count, B: Count, C: Count, D: Count> Count for (A, B, C, D) {
    open spec fn spec_cardinality() -> Cardinality {
        A::spec_cardinality()
            .spec_prod(B::spec_cardinality())
            .spec_prod(C::spec_cardinality())
            .spec_prod(D::spec_cardinality())
    }

    fn cardinality() -> (c: Cardinality) {
        A::cardinality()
            .of_prod(B::cardinality())
            .of_prod(C::cardinality())
            .of_prod(D::cardinality())
    }
}

/// The tuple of four of a first component and a tuple of the others.
pub open spec fn spec_flat4<A, B, C, D>(nested: (A, (B, C, D))) -> (A, B, C, D) {
    (nested.0, nested.1.0, nested.1.1, nested.1.2)
}

/// A property of tuples of four, as a property of the first component
/// with the others held fixed.
pub open spec fn with_rest4<A: Term, B: Term, C: Term, D: Term>(
    meaning: spec_fn((A::Model, B::Model, C::Model, D::Model)) -> bool,
    rest: (B::Model, C::Model, D::Model),
) -> spec_fn(A::Model) -> bool {
    |first: A::Model| meaning((first, rest.0, rest.1, rest.2))
}

/// A property of tuples of four, as a property of the components after
/// the first with the first held fixed.
pub open spec fn with_head4<A: Term, B: Term, C: Term, D: Term>(
    meaning: spec_fn((A::Model, B::Model, C::Model, D::Model)) -> bool,
    first: A::Model,
) -> spec_fn((B::Model, C::Model, D::Model)) -> bool {
    |rest: (B::Model, C::Model, D::Model)| meaning((first, rest.0, rest.1, rest.2))
}

impl<A: Conjure, B: Conjure, C: Conjure, D: Conjure> Conjure for (A, B, C, D) {
    /// The size budget is partitioned among the four components.
    open spec fn spec_conjure(seed: Seed) -> Result<(A::Model, B::Model, C::Model, D::Model), Uninstantiable> {
        let children = seed.spec_partition(seed.size, 4);
        match A::spec_conjure(children[0]) {
            Err(error) => Err(error),
            Ok(a) => match B::spec_conjure(children[1]) {
                Err(error) => Err(error),
                Ok(b) => match C::spec_conjure(children[2]) {
                    Err(error) => Err(error),
                    Ok(c) => match D::spec_conjure(children[3]) {
                        Err(error) => Err(error),
                        Ok(d) => Ok((a, b, c, d)),
                    },
                },
            },
        }
    }

    /// The seed is split among the four components.
    open spec fn spec_leaf(seed: Seed) -> Result<(A::Model, B::Model, C::Model, D::Model), Uninstantiable> {
        let children = seed.spec_split(4);
        match A::spec_leaf(children[0]) {
            Err(error) => Err(error),
            Ok(a) => match B::spec_leaf(children[1]) {
                Err(error) => Err(error),
                Ok(b) => match C::spec_leaf(children[2]) {
                    Err(error) => Err(error),
                    Ok(c) => match D::spec_leaf(children[3]) {
                        Err(error) => Err(error),
                        Ok(d) => Ok((a, b, c, d)),
                    },
                },
            },
        }
    }

    /// Every tuple of corner cases, the first component varying slowest and
    /// the last fastest.
    open spec fn spec_corners() -> Seq<(A::Model, B::Model, C::Model, D::Model)> {
        let nested = spec_pairs(A::spec_corners(), <(B, C, D) as Conjure>::spec_corners());
        Seq::new(nested.len(), |i: int| spec_flat4(nested[i]))
    }

    /// A tuple has one shape.
    open spec fn spec_variants() -> Seq<Cardinality> {
        seq![Self::spec_cardinality()]
    }

    open spec fn spec_build(index: int, seed: Seed) -> Result<(A::Model, B::Model, C::Model, D::Model), Uninstantiable> {
        if index == 0 {
            Self::spec_conjure(seed)
        } else {
            Err(Uninstantiable)
        }
    }

    fn conjure(seed: Seed) -> (made: Result<Self, Uninstantiable>) {
        proof {
            lemma_empty_sum_prod(
                A::spec_cardinality(),
                B::spec_cardinality(),
            );
            lemma_empty_sum_prod(
                A::spec_cardinality().spec_prod(B::spec_cardinality()),
                C::spec_cardinality(),
            );
            lemma_empty_sum_prod(
                A::spec_cardinality().spec_prod(B::spec_cardinality()).spec_prod(C::spec_cardinality()),
                D::spec_cardinality(),
            );
            seed.lemma_partition(seed.size, 4);
        }
        let size = seed.size;
        let mut children = seed.partition_among(size, 4);
        let seed_d = children.pop().unwrap();
        let seed_c = children.pop().unwrap();
        let seed_b = children.pop().unwrap();
        let seed_a = children.pop().unwrap();
        let a = match A::conjure(seed_a) {
            Ok(a) => a,
            Err(error) => {
                return Err(error);
            },
        };
        let b = match B::conjure(seed_b) {
            Ok(b) => b,
            Err(error) => {
                return Err(error);
            },
        };
        let c = match C::conjure(seed_c) {
            Ok(c) => c,
            Err(error) => {
                return Err(error);
            },
        };
        let d = match D::conjure(seed_d) {
            Ok(d) => d,
            Err(error) => {
                return Err(error);
            },
        };
        Ok((a, b, c, d))
    }

    fn leaf(seed: Seed) -> (made: Result<Self, Uninstantiable>) {
        proof {
            lemma_empty_sum_prod(
                A::spec_cardinality(),
                B::spec_cardinality(),
            );
            lemma_empty_sum_prod(
                A::spec_cardinality().spec_prod(B::spec_cardinality()),
                C::spec_cardinality(),
            );
            lemma_empty_sum_prod(
                A::spec_cardinality().spec_prod(B::spec_cardinality()).spec_prod(C::spec_cardinality()),
                D::spec_cardinality(),
            );
        }
        let mut children = seed.split_among(4);
        let seed_d = children.pop().unwrap();
        let seed_c = children.pop().unwrap();
        let seed_b = children.pop().unwrap();
        let seed_a = children.pop().unwrap();
        let a = match A::leaf(seed_a) {
            Ok(a) => a,
            Err(error) => {
                return Err(error);
            },
        };
        let b = match B::leaf(seed_b) {
            Ok(b) => b,
            Err(error) => {
                return Err(error);
            },
        };
        let c = match C::leaf(seed_c) {
            Ok(c) => c,
            Err(error) => {
                return Err(error);
            },
        };
        let d = match D::leaf(seed_d) {
            Ok(d) => d,
            Err(error) => {
                return Err(error);
            },
        };
        Ok((a, b, c, d))
    }

    fn corners() -> (all: Vec<Self>) {
        let firsts = A::corners();
        let rest = <(B, C, D) as Conjure>::corners();
        let nested = pairs(&firsts, &rest);
        let mut all: Vec<(A, B, C, D)> = Vec::with_capacity(nested.len());
        let mut i: usize = 0;
        while i < nested.len()
            invariant
                i <= nested.len(),
                all.len() == i,
                forall|j: int| 0 <= j < i ==> all@[j].model() == spec_flat4(nested@[j].model()),
            decreases nested.len() - i,
        {
            let item = &nested[i];
            all.push((item.0.dup(), item.1.0.dup(), item.1.1.dup(), item.1.2.dup()));
            i += 1;
        }
        assert(models(all@) =~= Self::spec_corners());
        all
    }

    fn variants() -> (all: Vec<Cardinality>) {
        let mut all = Vec::new();
        all.push(Self::cardinality());
        assert(all@ =~= seq![Self::spec_cardinality()]);
        all
    }

    fn build(index: usize, seed: Seed) -> (made: Result<Self, Uninstantiable>) {
        if index == 0 {
            Self::conjure(seed)
        } else {
            Err(Uninstantiable)
        }
    }
}

impl<A: Shrink, B: Shrink, C: Shrink, D: Shrink> Shrink for (A, B, C, D) {
    open spec fn measure(model: (A::Model, B::Model, C::Model, D::Model)) -> nat {
        A::measure(model.0)
            + B::measure(model.1)
            + C::measure(model.2)
            + D::measure(model.3)
    }

    /// The first component is shrunk with the others held fixed. Then the
    /// others are shrunk as a tuple, against the first component as it is by
    /// then, and kept as they are if nothing smaller passes.
    open spec fn spec_step(model: (A::Model, B::Model, C::Model, D::Model), meaning: spec_fn((A::Model, B::Model, C::Model, D::Model)) -> bool) -> Option<(A::Model, B::Model, C::Model, D::Model)> {
        let rest = (model.1, model.2, model.3);
        match A::spec_step(model.0, with_rest4::<A, B, C, D>(meaning, rest)) {
            Some(first) => match <(B, C, D) as Shrink>::spec_step(
                rest,
                with_head4::<A, B, C, D>(meaning, first),
            ) {
                Some(smaller) => Some((first, smaller.0, smaller.1, smaller.2)),
                None => Some((first, rest.0, rest.1, rest.2)),
            },
            None => match <(B, C, D) as Shrink>::spec_step(
                rest,
                with_head4::<A, B, C, D>(meaning, model.0),
            ) {
                Some(smaller) => Some((model.0, smaller.0, smaller.1, smaller.2)),
                None => None,
            },
        }
    }

    proof fn lemma_step(model: (A::Model, B::Model, C::Model, D::Model), meaning: spec_fn((A::Model, B::Model, C::Model, D::Model)) -> bool) {
        let rest = (model.1, model.2, model.3);
        A::lemma_step(model.0, with_rest4::<A, B, C, D>(meaning, rest));
        match A::spec_step(model.0, with_rest4::<A, B, C, D>(meaning, rest)) {
            Some(first) => {
                <(B, C, D) as Shrink>::lemma_step(rest, with_head4::<A, B, C, D>(meaning, first));
            },
            None => {
                <(B, C, D) as Shrink>::lemma_step(rest, with_head4::<A, B, C, D>(meaning, model.0));
            },
        }
    }

    fn step<P: Fn(&Self) -> bool>(&self, property: &P) -> (smaller: Option<Self>) {
        let rest = (self.1.dup(), self.2.dup(), self.3.dup());
        let on_first = |first: &A| -> (answer: bool)
            ensures
                answers(
                    property,
                    ((*first).model(), self.1.model(), self.2.model(), self.3.model()),
                    answer,
                ),
            {
                let whole = ((*first).dup(), self.1.dup(), self.2.dup(), self.3.dup());
                property(&whole)
            };
        proof {
            assert forall|meaning: spec_fn((A::Model, B::Model, C::Model, D::Model)) -> bool| #[trigger]
                agrees(property, meaning) implies agrees(
                &on_first,
                with_rest4::<A, B, C, D>(meaning, (self.1.model(), self.2.model(), self.3.model())),
            ) by {}
        }
        match self.0.step(&on_first) {
            Some(first) => {
                let on_rest = |others: &(B, C, D)| -> (answer: bool)
                    ensures
                        answers(
                            property,
                            (first.model(), others.0.model(), others.1.model(), others.2.model()),
                            answer,
                        ),
                    {
                        let whole = (first.dup(), others.0.dup(), others.1.dup(), others.2.dup());
                        property(&whole)
                    };
                proof {
                    assert forall|meaning: spec_fn((A::Model, B::Model, C::Model, D::Model)) -> bool| #[trigger]
                        agrees(property, meaning) implies agrees(
                        &on_rest,
                        with_head4::<A, B, C, D>(meaning, first.model()),
                    ) by {}
                }
                match rest.step(&on_rest) {
                    Some(smaller) => Some((first, smaller.0, smaller.1, smaller.2)),
                    None => Some((first, rest.0, rest.1, rest.2)),
                }
            },
            None => {
                let on_rest = |others: &(B, C, D)| -> (answer: bool)
                    ensures
                        answers(
                            property,
                            (self.0.model(), others.0.model(), others.1.model(), others.2.model()),
                            answer,
                        ),
                    {
                        let whole = (self.0.dup(), others.0.dup(), others.1.dup(), others.2.dup());
                        property(&whole)
                    };
                proof {
                    assert forall|meaning: spec_fn((A::Model, B::Model, C::Model, D::Model)) -> bool| #[trigger]
                        agrees(property, meaning) implies agrees(
                        &on_rest,
                        with_head4::<A, B, C, D>(meaning, self.0.model()),
                    ) by {}
                }
                match rest.step(&on_rest) {
                    Some(smaller) => Some((self.0.dup(), smaller.0, smaller.1, smaller.2)),
                    None => None,
                }
            },
        }
    }
}

impl<A: Term, B: Term, C: Term, D: Term, E: Term> Term for (A, B, C, D, E) {
    type Model = (A::Model, B::Model, C::Model, D::Model, E::Model);

    open spec fn model(&self) -> (A::Model, B::Model, C::Model, D::Model, E::Model) {
        (self.0.model(), self.1.model(), self.2.model(), self.3.model(), self.4.model())
    }

    fn dup(&self) -> (copy: Self) {
        (self.0.dup(), self.1.dup(), self.2.dup(), self.3.dup(), self.4.dup())
    }

    fn same(&self, other: &Self) -> (equal: bool) {
        self.0.same(&other.0)
            && self.1.same(&other.1)
            && self.2.same(&other.2)
            && self.3.same(&other.3)
            && self.4.same(&other.4)
    }
}

impl<A: Count, B: Count, C: Count, D: Count, E: Count> Count for (A, B, C, D, E) {
    open spec fn spec_cardinality() -> Cardinality {
        A::spec_cardinality()
            .spec_prod(B::spec_cardinality())
            .spec_prod(C::spec_cardinality())
            .spec_prod(D::spec_cardinality())
            .spec_prod(E::spec_cardinality())
    }

    fn cardinality() -> (c: Cardinality) {
        A::cardinality()
            .of_prod(B::cardinality())
            .of_prod(C::cardinality())
            .of_prod(D::cardinality())
            .of_prod(E::cardinality())
    }
}

/// The tuple of five of a first component and a tuple of the others.
pub open spec fn spec_flat5<A, B, C, D, E>(nested: (A, (B, C, D, E))) -> (A, B, C, D, E) {
    (nested.0, nested.1.0, nested.1.1, nested.1.2, nested.1.3)
}

/// A property of tuples of five, as a property of the first component
/// with the others held fixed.
pub open spec fn with_rest5<A: Term, B: Term, C: Term, D: Term, E: Term>(
    meaning: spec_fn((A::Model, B::Model, C::Model, D::Model, E::Model)) -> bool,
    rest: (B::Model, C::Model, D::Model, E::Model),
) -> spec_fn(A::Model) -> bool {
    |first: A::Model| meaning((first, rest.0, rest.1, rest.2, rest.3))
}

/// A property of tuples of five, as a property of the components after
/// the first with the first held fixed.
pub open spec fn with_head5<A: Term, B: Term, C: Term, D: Term, E: Term>(
    meaning: spec_fn((A::Model, B::Model, C::Model, D::Model, E::Model)) -> bool,
    first: A::Model,
) -> spec_fn((B::Model, C::Model, D::Model, E::Model)) -> bool {
    |rest: (B::Model, C::Model, D::Model, E::Model)| meaning((first, rest.0, rest.1, rest.2, rest.3))
}

impl<A: Conjure, B: Conjure, C: Conjure, D: Conjure, E: Conjure> Conjure for (A, B, C, D, E) {
    /// The size budget is partitioned among the five components.
    open spec fn spec_conjure(seed: Seed) -> Result<(A::Model, B::Model, C::Model, D::Model, E::Model), Uninstantiable> {
        let children = seed.spec_partition(seed.size, 5);
        match A::spec_conjure(children[0]) {
            Err(error) => Err(error),
            Ok(a) => match B::spec_conjure(children[1]) {
                Err(error) => Err(error),
                Ok(b) => match C::spec_conjure(children[2]) {
                    Err(error) => Err(error),
                    Ok(c) => match D::spec_conjure(children[3]) {
                        Err(error) => Err(error),
                        Ok(d) => match E::spec_conjure(children[4]) {
                            Err(error) => Err(error),
                            Ok(e) => Ok((a, b, c, d, e)),
                        },
                    },
                },
            },
        }
    }

    /// The seed is split among the five components.
    open spec fn spec_leaf(seed: Seed) -> Result<(A::Model, B::Model, C::Model, D::Model, E::Model), Uninstantiable> {
        let children = seed.spec_split(5);
        match A::spec_leaf(children[0]) {
            Err(error) => Err(error),
            Ok(a) => match B::spec_leaf(children[1]) {
                Err(error) => Err(error),
                Ok(b) => match C::spec_leaf(children[2]) {
                    Err(error) => Err(error),
                    Ok(c) => match D::spec_leaf(children[3]) {
                        Err(error) => Err(error),
                        Ok(d) => match E::spec_leaf(children[4]) {
                            Err(error) => Err(error),
                            Ok(e) => Ok((a, b, c, d, e)),
                        },
                    },
                },
            },
        }
    }

    /// Every tuple of corner cases, the first component varying slowest and
    /// the last fastest.
    open spec fn spec_corners() -> Seq<(A::Model, B::Model, C::Model, D::Model, E::Model)> {
        let nested = spec_pairs(A::spec_corners(), <(B, C, D, E) as Conjure>::spec_corners());
        Seq::new(nested.len(), |i: int| spec_flat5(nested[i]))
    }

    /// A tuple has one shape.
    open spec fn spec_variants() -> Seq<Cardinality> {
        seq![Self::spec_cardinality()]
    }

    open spec fn spec_build(index: int, seed: Seed) -> Result<(A::Model, B::Model, C::Model, D::Model, E::Model), Uninstantiable> {
        if index == 0 {
            Self::spec_conjure(seed)
        } else {
            Err(Uninstantiable)
        }
    }

    fn conjure(seed: Seed) -> (made: Result<Self, Uninstantiable>) {
        proof {
            lemma_empty_sum_prod(
                A::spec_cardinality(),
                B::spec_cardinality(),
            );
            lemma_empty_sum_prod(
                A::spec_cardinality().spec_prod(B::spec_cardinality()),
                C::spec_cardinality(),
            );
            lemma_empty_sum_prod(
                A::spec_cardinality().spec_prod(B::spec_cardinality()).spec_prod(C::spec_cardinality()),
                D::spec_cardinality(),
            );
            lemma_empty_sum_prod(
                A::spec_cardinality().spec_prod(B::spec_cardinality()).spec_prod(C::spec_cardinality()).spec_prod(D::spec_cardinality()),
                E::spec_cardinality(),
            );
            seed.lemma_partition(seed.size, 5);
        }
        let size = seed.size;
        let mut children = seed.partition_among(size, 5);
        let seed_e = children.pop().unwrap();
        let seed_d = children.pop().unwrap();
        let seed_c = children.pop().unwrap();
        let seed_b = children.pop().unwrap();
        let seed_a = children.pop().unwrap();
        let a = match A::conjure(seed_a) {
            Ok(a) => a,
            Err(error) => {
                return Err(error);
            },
        };
        let b = match B::conjure(seed_b) {
            Ok(b) => b,
            Err(error) => {
                return Err(error);
            },
        };
        let c = match C::conjure(seed_c) {
            Ok(c) => c,
            Err(error) => {
                return Err(error);
            },
        };
        let d = match D::conjure(seed_d) {
            Ok(d) => d,
            Err(error) => {
                return Err(error);
            },
        };
        let e = match E::conjure(seed_e) {
            Ok(e) => e,
            Err(error) => {
                return Err(error);
            },
        };
        Ok((a, b, c, d, e))
    }

    fn leaf(seed: Seed) -> (made: Result<Self, Uninstantiable>) {
        proof {
            lemma_empty_sum_prod(
                A::spec_cardinality(),
                B::spec_cardinality(),
            );
            lemma_empty_sum_prod(
                A::spec_cardinality().spec_prod(B::spec_cardinality()),
                C::spec_cardinality(),
            );
            lemma_empty_sum_prod(
                A::spec_cardinality().spec_prod(B::spec_cardinality()).spec_prod(C::spec_cardinality()),
                D::spec_cardinality(),
            );
            lemma_empty_sum_prod(
                A::spec_cardinality().spec_prod(B::spec_cardinality()).spec_prod(C::spec_cardinality()).spec_prod(D::spec_cardinality()),
                E::spec_cardinality(),
            );
        }
        let mut children = seed.split_among(5);
        let seed_e = children.pop().unwrap();
        let seed_d = children.pop().unwrap();
        let seed_c = children.pop().unwrap();
        let seed_b = children.pop().unwrap();
        let seed_a = children.pop().unwrap();
        let a = match A::leaf(seed_a) {
            Ok(a) => a,
            Err(error) => {
                return Err(error);
            },
        };
        let b = match B::leaf(seed_b) {
            Ok(b) => b,
            Err(error) => {
                return Err(error);
            },
        };
        let c = match C::leaf(seed_c) {
            Ok(c) => c,
            Err(error) => {
                return Err(error);
            },
        };
        let d = match D::leaf(seed_d) {
            Ok(d) => d,
            Err(error) => {
                return Err(error);
            },
        };
        let e = match E::leaf(seed_e) {
            Ok(e) => e,
            Err(error) => {
                return Err(error);
            },
        };
        Ok((a, b, c, d, e))
    }

    fn corners() -> (all: Vec<Self>) {
        let firsts = A::corners();
        let rest = <(B, C, D, E) as Conjure>::corners();
        let nested = pairs(&firsts, &rest);
        let mut all: Vec<(A, B, C, D, E)> = Vec::with_capacity(nested.len());
        let mut i: usize = 0;
        while i < nested.len()
            invariant
                i <= nested.len(),
                all.len() == i,
                forall|j: int| 0 <= j < i ==> all@[j].model() == spec_flat5(nested@[j].model()),
            decreases nested.len() - i,
        {
            let item = &nested[i];
            all.push((item.0.dup(), item.1.0.dup(), item.1.1.dup(), item.1.2.dup(), item.1.3.dup()));
            i += 1;
        }
        assert(models(all@) =~= Self::spec_corners());
        all
    }

    fn variants() -> (all: Vec<Cardinality>) {
        let mut all = Vec::new();
        all.push(Self::cardinality());
        assert(all@ =~= seq![Self::spec_cardinality()]);
        all
    }

    fn build(index: usize, seed: Seed) -> (made: Result<Self, Uninstantiable>) {
        if index == 0 {
            Self::conjure(seed)
        } else {
            Err(Uninstantiable)
        }
    }
}

impl<A: Shrink, B: Shrink, C: Shrink, D: Shrink, E: Shrink> Shrink for (A, B, C, D, E) {
    open spec fn measure(model: (A::Model, B::Model, C::Model, D::Model, E::Model)) -> nat {
        A::measure(model.0)
            + B::measure(model.1)
            + C::measure(model.2)
            + D::measure(model.3)
            + E::measure(model.4)
    }

    /// The first component is shrunk with the others held fixed. Then the
    /// others are shrunk as a tuple, against the first component as it is by
    /// then, and kept as they are if nothing smaller passes.
    open spec fn spec_step(model: (A::Model, B::Model, C::Model, D::Model, E::Model), meaning: spec_fn((A::Model, B::Model, C::Model, D::Model, E::Model)) -> bool) -> Option<(A::Model, B::Model, C::Model, D::Model, E::Model)> {
        let rest = (model.1, model.2, model.3, model.4);
        match A::spec_step(model.0, with_rest5::<A, B, C, D, E>(meaning, rest)) {
            Some(first) => match <(B, C, D, E) as Shrink>::spec_step(
                rest,
                with_head5::<A, B, C, D, E>(meaning, first),
            ) {
                Some(smaller) => Some((first, smaller.0, smaller.1, smaller.2, smaller.3)),
                None => Some((first, rest.0, rest.1, rest.2, rest.3)),
            },
            None => match <(B, C, D, E) as Shrink>::spec_step(
                rest,
                with_head5::<A, B, C, D, E>(meaning, model.0),
            ) {
                Some(smaller) => Some((model.0, smaller.0, smaller.1, smaller.2, smaller.3)),
                None => None,
            },
        }
    }

    proof fn lemma_step(model: (A::Model, B::Model, C::Model, D::Model, E::Model), meaning: spec_fn((A::Model, B::Model, C::Model, D::Model, E::Model)) -> bool) {
        let rest = (model.1, model.2, model.3, model.4);
        A::lemma_step(model.0, with_rest5::<A, B, C, D, E>(meaning, rest));
        match A::spec_step(model.0, with_rest5::<A, B, C, D, E>(meaning, rest)) {
            Some(first) => {
                <(B, C, D, E) as Shrink>::lemma_step(rest, with_head5::<A, B, C, D, E>(meaning, first));
            },
            None => {
                <(B, C, D, E) as Shrink>::lemma_step(rest, with_head5::<A, B, C, D, E>(meaning, model.0));
            },
        }
    }

    fn step<P: Fn(&Self) -> bool>(&self, property: &P) -> (smaller: Option<Self>) {
        let rest = (self.1.dup(), self.2.dup(), self.3.dup(), self.4.dup());
        let on_first = |first: &A| -> (answer: bool)
            ensures
                answers(
                    property,
                    ((*first).model(), self.1.model(), self.2.model(), self.3.model(), self.4.model()),
                    answer,
                ),
            {
                let whole = ((*first).dup(), self.1.dup(), self.2.dup(), self.3.dup(), self.4.dup());
                property(&whole)
            };
        proof {
            assert forall|meaning: spec_fn((A::Model, B::Model, C::Model, D::Model, E::Model)) -> bool| #[trigger]
                agrees(property, meaning) implies agrees(
                &on_first,
                with_rest5::<A, B, C, D, E>(meaning, (self.1.model(), self.2.model(), self.3.model(), self.4.model())),
            ) by {}
        }
        match self.0.step(&on_first) {
            Some(first) => {
                let on_rest = |others: &(B, C, D, E)| -> (answer: bool)
                    ensures
                        answers(
                            property,
                            (first.model(), others.0.model(), others.1.model(), others.2.model(), others.3.model()),
                            answer,
                        ),
                    {
                        let whole = (first.dup(), others.0.dup(), others.1.dup(), others.2.dup(), others.3.dup());
                        property(&whole)
                    };
                proof {
                    assert forall|meaning: spec_fn((A::Model, B::Model, C::Model, D::Model, E::Model)) -> bool| #[trigger]
                        agrees(property, meaning) implies agrees(
                        &on_rest,
                        with_head5::<A, B, C, D, E>(meaning, first.model()),
                    ) by {}
                }
                match rest.step(&on_rest) {
                    Some(smaller) => Some((first, smaller.0, smaller.1, smaller.2, smaller.3)),
                    None => Some((first, rest.0, rest.1, rest.2, rest.3)),
                }
            },
            None => {
                let on_rest = |others: &(B, C, D, E)| -> (answer: bool)
                    ensures
                        answers(
                            property,
                            (self.0.model(), others.0.model(), others.1.model(), others.2.model(), others.3.model()),
                            answer,
                        ),
                    {
                        let whole = (self.0.dup(), others.0.dup(), others.1.dup(), others.2.dup(), others.3.dup());
                        property(&whole)
                    };
                proof {
                    assert forall|meaning: spec_fn((A::Model, B::Model, C::Model, D::Model, E::Model)) -> bool| #[trigger]
                        agrees(property, meaning) implies agrees(
                        &on_rest,
                        with_head5::<A, B, C, D, E>(meaning, self.0.model()),
                    ) by {}
                }
                match rest.step(&on_rest) {
                    Some(smaller) => Some((self.0.dup(), smaller.0, smaller.1, smaller.2, smaller.3)),
                    None => None,
                }
            },
        }
    }
}

impl<A: Term, B: Term, C: Term, D: Term, E: Term, F: Term> Term for (A, B, C, D, E, F) {
    type Model = (A::Model, B::Model, C::Model, D::Model, E::Model, F::Model);

    open spec fn model(&self) -> (A::Model, B::Model, C::Model, D::Model, E::Model, F::Model) {
        (self.0.model(), self.1.model(), self.2.model(), self.3.model(), self.4.model(), self.5.model())
    }

    fn dup(&self) -> (copy: Self) {
        (self.0.dup(), self.1.dup(), self.2.dup(), self.3.dup(), self.4.dup(), self.5.dup())
    }

    fn same(&self, other: &Self) -> (equal: bool) {
        self.0.same(&other.0)
            && self.1.same(&other.1)
            && self.2.same(&other.2)
            && self.3.same(&other.3)
            && self.4.same(&other.4)
            && self.5.same(&other.5)
    }
}

impl<A: Count, B: Count, C: Count, D: Count, E: Count, F: Count> Count for (A, B, C, D, E, F) {
    open spec fn spec_cardinality() -> Cardinality {
        A::spec_cardinality()
            .spec_prod(B::spec_cardinality())
            .spec_prod(C::spec_cardinality())
            .spec_prod(D::spec_cardinality())
            .spec_prod(E::spec_cardinality())
            .spec_prod(F::spec_cardinality())
    }

    fn cardinality() -> (c: Cardinality) {
        A::cardinality()
            .of_prod(B::cardinality())
            .of_prod(C::cardinality())
            .of_prod(D::cardinality())
            .of_prod(E::cardinality())
            .of_prod(F::cardinality())
    }
}

/// The tuple of six of a first component and a tuple of the others.
pub open spec fn spec_flat6<A, B, C, D, E, F>(nested: (A, (B, C, D, E, F))) -> (A, B, C, D, E, F) {
    (nested.0, nested.1.0, nested.1.1, nested.1.2, nested.1.3, nested.1.4)
}

/// A property of tuples of six, as a property of the first component
/// with the others held fixed.
pub open spec fn with_rest6<A: Term, B: Term, C: Term, D: Term, E: Term, F: Term>(
    meaning: spec_fn((A::Model, B::Model, C::Model, D::Model, E::Model, F::Model)) -> bool,
    rest: (B::Model, C::Model, D::Model, E::Model, F::Model),
) -> spec_fn(A::Model) -> bool {
    |first: A::Model| meaning((first, rest.0, rest.1, rest.2, rest.3, rest.4))
}

/// A property of tuples of six, as a property of the components after
/// the first with the first held fixed.
pub open spec fn with_head6<A: Term, B: Term, C: Term, D: Term, E: Term, F: Term>(
    meaning: spec_fn((A::Model, B::Model, C::Model, D::Model, E::Model, F::Model)) -> bool,
    first: A::Model,
) -> spec_fn((B::Model, C::Model, D::Model, E::Model, F::Model)) -> bool {
    |rest: (B::Model, C::Model, D::Model, E::Model, F::Model)| meaning((first, rest.0, rest.1, rest.2, rest.3, rest.4))
}

impl<A: Conjure, B: Conjure, C: Conjure, D: Conjure, E: Conjure, F: Conjure> Conjure for (A, B, C, D, E, F) {
    /// The size budget is partitioned among the six components.
    open spec fn spec_conjure(seed: Seed) -> Result<(A::Model, B::Model, C::Model, D::Model, E::Model, F::Model), Uninstantiable> {
        let children = seed.spec_partition(seed.size, 6);
        match A::spec_conjure(children[0]) {
            Err(error) => Err(error),
            Ok(a) => match B::spec_conjure(children[1]) {
                Err(error) => Err(error),
                Ok(b) => match C::spec_conjure(children[2]) {
                    Err(error) => Err(error),
                    Ok(c) => match D::spec_conjure(children[3]) {
                        Err(error) => Err(error),
                        Ok(d) => match E::spec_conjure(children[4]) {
                            Err(error) => Err(error),
                            Ok(e) => match F::spec_conjure(children[5]) {
                                Err(error) => Err(error),
                                Ok(f) => Ok((a, b, c, d, e, f)),
                            },
                        },
                    },
                },
            },
        }
    }

    /// The seed is split among the six components.
    open spec fn spec_leaf(seed: Seed) -> Result<(A::Model, B::Model, C::Model, D::Model, E::Model, F::Model), Uninstantiable> {
        let children = seed.spec_split(6);
        match A::spec_leaf(children[0]) {
            Err(error) => Err(error),
            Ok(a) => match B::spec_leaf(children[1]) {
                Err(error) => Err(error),
                Ok(b) => match C::spec_leaf(children[2]) {
                    Err(error) => Err(error),
                    Ok(c) => match D::spec_leaf(children[3]) {
                        Err(error) => Err(error),
                        Ok(d) => match E::spec_leaf(children[4]) {
                            Err(error) => Err(error),
                            Ok(e) => match F::spec_leaf(children[5]) {
                                Err(error) => Err(error),
                                Ok(f) => Ok((a, b, c, d, e, f)),
                            },
                        },
                    },
                },
            },
        }
    }

    /// Every tuple of corner cases, the first component varying slowest and
    /// the last fastest.
    open spec fn spec_corners() -> Seq<(A::Model, B::Model, C::Model, D::Model, E::Model, F::Model)> {
        let nested = spec_pairs(A::spec_corners(), <(B, C, D, E, F) as Conjure>::spec_corners());
        Seq::new(nested.len(), |i: int| spec_flat6(nested[i]))
    }

    /// A tuple has one shape.
    open spec fn spec_variants() -> Seq<Cardinality> {
        seq![Self::spec_cardinality()]
    }

    open spec fn spec_build(index: int, seed: Seed) -> Result<(A::Model, B::Model, C::Model, D::Model, E::Model, F::Model), Uninstantiable> {
        if index == 0 {
            Self::spec_conjure(seed)
        } else {
            Err(Uninstantiable)
        }
    }

    fn conjure(seed: Seed) -> (made: Result<Self, Uninstantiable>) {
        proof {
            lemma_empty_sum_prod(
                A::spec_cardinality(),
                B::spec_cardinality(),
            );
            lemma_empty_sum_prod(
                A::spec_cardinality().spec_prod(B::spec_cardinality()),
                C::spec_cardinality(),
            );
            lemma_empty_sum_prod(
                A::spec_cardinality().spec_prod(B::spec_cardinality()).spec_prod(C::spec_cardinality()),
                D::spec_cardinality(),
            );
            lemma_empty_sum_prod(
                A::spec_cardinality().spec_prod(B::spec_cardinality()).spec_prod(C::spec_cardinality()).spec_prod(D::spec_cardinality()),
                E::spec_cardinality(),
            );
            lemma_empty_sum_prod(
                A::spec_cardinality().spec_prod(B::spec_cardinality()).spec_prod(C::spec_cardinality()).spec_prod(D::spec_cardinality()).spec_prod(E::spec_cardinality()),
                F::spec_cardinality(),
            );
            seed.lemma_partition(seed.size, 6);
        }
        let size = seed.size;
        let mut children = seed.partition_among(size, 6);
        let seed_f = children.pop().unwrap();
        let seed_e = children.pop().unwrap();
        let seed_d = children.pop().unwrap();
        let seed_c = children.pop().unwrap();
        let seed_b = children.pop().unwrap();
        let seed_a = children.pop().unwrap();
        let a = match A::conjure(seed_a) {
            Ok(a) => a,
            Err(error) => {
                return Err(error);
            },
        };
        let b = match B::conjure(seed_b) {
            Ok(b) => b,
            Err(error) => {
                return Err(error);
            },
        };
        let c = match C::conjure(seed_c) {
            Ok(c) => c,
            Err(error) => {
                return Err(error);
            },
        };
        let d = match D::conjure(seed_d) {
            Ok(d) => d,
            Err(error) => {
                return Err(error);
            },
        };
        let e = match E::conjure(seed_e) {
            Ok(e) => e,
            Err(error) => {
                return Err(error);
            },
        };
        let f = match F::conjure(seed_f) {
            Ok(f) => f,
            Err(error) => {
                return Err(error);
            },
        };
        Ok((a, b, c, d, e, f))
    }

    fn leaf(seed: Seed) -> (made: Result<Self, Uninstantiable>) {
        proof {
            lemma_empty_sum_prod(
                A::spec_cardinality(),
                B::spec_cardinality(),
            );
            lemma_empty_sum_prod(
                A::spec_cardinality().spec_prod(B::spec_cardinality()),
                C::spec_cardinality(),
            );
            lemma_empty_sum_prod(
                A::spec_cardinality().spec_prod(B::spec_cardinality()).spec_prod(C::spec_cardinality()),
                D::spec_cardinality(),
            );
            lemma_empty_sum_prod(
                A::spec_cardinality().spec_prod(B::spec_cardinality()).spec_prod(C::spec_cardinality()).spec_prod(D::spec_cardinality()),
                E::spec_cardinality(),
            );
            lemma_empty_sum_prod(
                A::spec_cardinality().spec_prod(B::spec_cardinality()).spec_prod(C::spec_cardinality()).spec_prod(D::spec_cardinality()).spec_prod(E::spec_cardinality()),
                F::spec_cardinality(),
            );
        }
        let mut children = seed.split_among(6);
        let seed_f = children.pop().unwrap();
        let seed_e = children.pop().unwrap();
        let seed_d = children.pop().unwrap();
        let seed_c = children.pop().unwrap();
        let seed_b = children.pop().unwrap();
        let seed_a = children.pop().unwrap();
        let a = match A::leaf(seed_a) {
            Ok(a) => a,
            Err(error) => {
                return Err(error);
            },
        };
        let b = match B::leaf(seed_b) {
            Ok(b) => b,
            Err(error) => {
                return Err(error);
            },
        };
        let c = match C::leaf(seed_c) {
            Ok(c) => c,
            Err(error) => {
                return Err(error);
            },
        };
        let d = match D::leaf(seed_d) {
            Ok(d) => d,
            Err(error) => {
                return Err(error);
            },
        };
        let e = match E::leaf(seed_e) {
            Ok(e) => e,
            Err(error) => {
                return Err(error);
            },
        };
        let f = match F::leaf(seed_f) {
            Ok(f) => f,
            Err(error) => {
                return Err(error);
            },
        };
        Ok((a, b, c, d, e, f))
    }

    fn corners() -> (all: Vec<Self>) {
        let firsts = A::corners();
        let rest = <(B, C, D, E, F) as Conjure>::corners();
        let nested = pairs(&firsts, &rest);
        let mut all: Vec<(A, B, C, D, E, F)> = Vec::with_capacity(nested.len());
        let mut i: usize = 0;
        while i < nested.len()
            invariant
                i <= nested.len(),
                all.len() == i,
                forall|j: int| 0 <= j < i ==> all@[j].model() == spec_flat6(nested@[j].model()),
            decreases nested.len() - i,
        {
            let item = &nested[i];
            all.push((item.0.dup(), item.1.0.dup(), item.1.1.dup(), item.1.2.dup(), item.1.3.dup(), item.1.4.dup()));
            i += 1;
        }
        assert(models(all@) =~= Self::spec_corners());
        all
    }

    fn variants() -> (all: Vec<Cardinality>) {
        let mut all = Vec::new();
        all.push(Self::cardinality());
        assert(all@ =~= seq![Self::spec_cardinality()]);
        all
    }

    fn build(index: usize, seed: Seed) -> (made: Result<Self, Uninstantiable>) {
        if index == 0 {
            Self::conjure(seed)
        } else {
            Err(Uninstantiable)
        }
    }
}

impl<A: Shrink, B: Shrink, C: Shrink, D: Shrink, E: Shrink, F: Shrink> Shrink for (A, B, C, D, E, F) {
    open spec fn measure(model: (A::Model, B::Model, C::Model, D::Model, E::Model, F::Model)) -> nat {
        A::measure(model.0)
            + B::measure(model.1)
            + C::measure(model.2)
            + D::measure(model.3)
            + E::measure(model.4)
            + F::measure(model.5)
    }

    /// The first component is shrunk with the others held fixed. Then the
    /// others are shrunk as a tuple, against the first component as it is by
    /// then, and kept as they are if nothing smaller passes.
    open spec fn spec_step(model: (A::Model, B::Model, C::Model, D::Model, E::Model, F::Model), meaning: spec_fn((A::Model, B::Model, C::Model, D::Model, E::Model, F::Model)) -> bool) -> Option<(A::Model, B::Model, C::Model, D::Model, E::Model, F::Model)> {
        let rest = (model.1, model.2, model.3, model.4, model.5);
        match A::spec_step(model.0, with_rest6::<A, B, C, D, E, F>(meaning, rest)) {
            Some(first) => match <(B, C, D, E, F) as Shrink>::spec_step(
                rest,
                with_head6::<A, B, C, D, E, F>(meaning, first),
            ) {
                Some(smaller) => Some((first, smaller.0, smaller.1, smaller.2, smaller.3, smaller.4)),
                None => Some((first, rest.0, rest.1, rest.2, rest.3, rest.4)),
            },
            None => match <(B, C, D, E, F) as Shrink>::spec_step(
                rest,
                with_head6::<A, B, C, D, E, F>(meaning, model.0),
            ) {
                Some(smaller) => Some((model.0, smaller.0, smaller.1, smaller.2, smaller.3, smaller.4)),
                None => None,
            },
        }
    }

    proof fn lemma_step(model: (A::Model, B::Model, C::Model, D::Model, E::Model, F::Model), meaning: spec_fn((A::Model, B::Model, C::Model, D::Model, E::Model, F::Model)) -> bool) {
        let rest = (model.1, model.2, model.3, model.4, model.5);
        A::lemma_step(model.0, with_rest6::<A, B, C, D, E, F>(meaning, rest));
        match A::spec_step(model.0, with_rest6::<A, B, C, D, E, F>(meaning, rest)) {
            Some(first) => {
                <(B, C, D, E, F) as Shrink>::lemma_step(rest, with_head6::<A, B, C, D, E, F>(meaning, first));
            },
            None => {
                <(B, C, D, E, F) as Shrink>::lemma_step(rest, with_head6::<A, B, C, D, E, F>(meaning, model.0));
            },
        }
    }

    fn step<P: Fn(&Self) -> bool>(&self, property: &P) -> (smaller: Option<Self>) {
        let rest = (self.1.dup(), self.2.dup(), self.3.dup(), self.4.dup(), self.5.dup());
        let on_first = |first: &A| -> (answer: bool)
            ensures
                answers(
                    property,
                    ((*first).model(), self.1.model(), self.2.model(), self.3.model(), self.4.model(), self.5.model()),
                    answer,
                ),
            {
                let whole = ((*first).dup(), self.1.dup(), self.2.dup(), self.3.dup(), self.4.dup(), self.5.dup());
                property(&whole)
            };
        proof {
            assert forall|meaning: spec_fn((A::Model, B::Model, C::Model, D::Model, E::Model, F::Model)) -> bool| #[trigger]
                agrees(property, meaning) implies agrees(
                &on_first,
                with_rest6::<A, B, C, D, E, F>(meaning, (self.1.model(), self.2.model(), self.3.model(), self.4.model(), self.5.model())),
            ) by {}
        }
        match self.0.step(&on_first) {
            Some(first) => {
                let on_rest = |others: &(B, C, D, E, F)| -> (answer: bool)
                    ensures
                        answers(
                            property,
                            (first.model(), others.0.model(), others.1.model(), others.2.model(), others.3.model(), others.4.model()),
                            answer,
                        ),
                    {
                        let whole = (first.dup(), others.0.dup(), others.1.dup(), others.2.dup(), others.3.dup(), others.4.dup());
                        property(&whole)
                    };
                proof {
                    assert forall|meaning: spec_fn((A::Model, B::Model, C::Model, D::Model, E::Model, F::Model)) -> bool| #[trigger]
                        agrees(property, meaning) implies agrees(
                        &on_rest,
                        with_head6::<A, B, C, D, E, F>(meaning, first.model()),
                    ) by {}
                }
                match rest.step(&on_rest) {
                    Some(smaller) => Some((first, smaller.0, smaller.1, smaller.2, smaller.3, smaller.4)),
                    None => Some((first, rest.0, rest.1, rest.2, rest.3, rest.4)),
                }
            },
            None => {
                let on_rest = |others: &(B, C, D, E, F)| -> (answer: bool)
                    ensures
                        answers(
                            property,
                            (self.0.model(), others.0.model(), others.1.model(), others.2.model(), others.3.model(), others.4.model()),
                            answer,
                        ),
                    {
                        let whole = (self.0.dup(), others.0.dup(), others.1.dup(), others.2.dup(), others.3.dup(), others.4.dup());
                        property(&whole)
                    };
                proof {
                    assert forall|meaning: spec_fn((A::Model, B::Model, C::Model, D::Model, E::Model, F::Model)) -> bool| #[trigger]
                        agrees(property, meaning) implies agrees(
                        &on_rest,
                        with_head6::<A, B, C, D, E, F>(meaning, self.0.model()),
                    ) by {}
                }
                match rest.step(&on_rest) {
                    Some(smaller) => Some((self.0.dup(), smaller.0, smaller.1, smaller.2, smaller.3, smaller.4)),
                    None => None,
                }
            },
        }
    }
}

impl<A: Term, B: Term, C: Term, D: Term, E: Term, F: Term, G: Term> Term for (A, B, C, D, E, F, G) {
    type Model = (A::Model, B::Model, C::Model, D::Model, E::Model, F::Model, G::Model);

    open spec fn model(&self) -> (A::Model, B::Model, C::Model, D::Model, E::Model, F::Model, G::Model) {
        (self.0.model(), self.1.model(), self.2.model(), self.3.model(), self.4.model(), self.5.model(), self.6.model())
    }

    fn dup(&self) -> (copy: Self) {
        (self.0.dup(), self.1.dup(), self.2.dup(), self.3.dup(), self.4.dup(), self.5.dup(), self.6.dup())
    }

    fn same(&self, other: &Self) -> (equal: bool) {
        self.0.same(&other.0)
            && self.1.same(&other.1)
            && self.2.same(&other.2)
            && self.3.same(&other.3)
            && self.4.same(&other.4)
            && self.5.same(&other.5)
            && self.6.same(&other.6)
    }
}

impl<A: Count, B: Count, C: Count, D: Count, E: Count, F: Count, G: Count> Count for (A, B, C, D, E, F, G) {
    open spec fn spec_cardinality() -> Cardinality {
        A::spec_cardinality()
            .spec_prod(B::spec_cardinality())
            .spec_prod(C::spec_cardinality())
            .spec_prod(D::spec_cardinality())
            .spec_prod(E::spec_cardinality())
            .spec_prod(F::spec_cardinality())
            .spec_prod(G::spec_cardinality())
    }

    fn cardinality() -> (c: Cardinality) {
        A::cardinality()
            .of_prod(B::cardinality())
            .of_prod(C::cardinality())
            .of_prod(D::cardinality())
            .of_prod(E::cardinality())
            .of_prod(F::cardinality())
            .of_prod(G::cardinality())
    }
}

/// The tuple of seven of a first component and a tuple of the others.
pub open spec fn spec_flat7<A, B, C, D, E, F, G>(nested: (A, (B, C, D, E, F, G))) -> (A, B, C, D, E, F, G) {
    (nested.0, nested.1.0, nested.1.1, nested.1.2, nested.1.3, nested.1.4, nested.1.5)
}

/// A property of tuples of seven, as a property of the first component
/// with the others held fixed.
pub open spec fn with_rest7<A: Term, B: Term, C: Term, D: Term, E: Term, F: Term, G: Term>(
    meaning: spec_fn((A::Model, B::Model, C::Model, D::Model, E::Model, F::Model, G::Model)) -> bool,
    rest: (B::Model, C::Model, D::Model, E::Model, F::Model, G::Model),
) -> spec_fn(A::Model) -> bool {
    |first: A::Model| meaning((first, rest.0, rest.1, rest.2, rest.3, rest.4, rest.5))
}

/// A property of tuples of seven, as a property of the components after
/// the first with the first held fixed.
pub open spec fn with_head7<A: Term, B: Term, C: Term, D: Term, E: Term, F: Term, G: Term>(
    meaning: spec_fn((A::Model, B::Model, C::Model, D::Model, E::Model, F::Model, G::Model)) -> bool,
    first: A::Model,
) -> spec_fn((B::Model, C::Model, D::Model, E::Model, F::Model, G::Model)) -> bool {
    |rest: (B::Model, C::Model, D::Model, E::Model, F::Model, G::Model)| meaning((first, rest.0, rest.1, rest.2, rest.3, rest.4, rest.5))
}

impl<A: Conjure, B: Conjure, C: Conjure, D: Conjure, E: Conjure, F: Conjure, G: Conjure> Conjure for (A, B, C, D, E, F, G) {
    /// The size budget is partitioned among the seven components.
    open spec fn spec_conjure(seed: Seed) -> Result<(A::Model, B::Model, C::Model, D::Model, E::Model, F::Model, G::Model), Uninstantiable> {
        let children = seed.spec_partition(seed.size, 7);
        match A::spec_conjure(children[0]) {
            Err(error) => Err(error),
            Ok(a) => match B::spec_conjure(children[1]) {
                Err(error) => Err(error),
                Ok(b) => match C::spec_conjure(children[2]) {
                    Err(error) => Err(error),
                    Ok(c) => match D::spec_conjure(children[3]) {
                        Err(error) => Err(error),
                        Ok(d) => match E::spec_conjure(children[4]) {
                            Err(error) => Err(error),
                            Ok(e) => match F::spec_conjure(children[5]) {
                                Err(error) => Err(error),
                                Ok(f) => match G::spec_conjure(children[6]) {
                                    Err(error) => Err(error),
                                    Ok(g) => Ok((a, b, c, d, e, f, g)),
                                },
                            },
                        },
                    },
                },
            },
        }
    }

    /// The seed is split among the seven components.
    open spec fn spec_leaf(seed: Seed) -> Result<(A::Model, B::Model, C::Model, D::Model, E::Model, F::Model, G::Model), Uninstantiable> {
        let children = seed.spec_split(7);
        match A::spec_leaf(children[0]) {
            Err(error) => Err(error),
            Ok(a) => match B::spec_leaf(children[1]) {
                Err(error) => Err(error),
                Ok(b) => match C::spec_leaf(children[2]) {
                    Err(error) => Err(error),
                    Ok(c) => match D::spec_leaf(children[3]) {
                        Err(error) => Err(error),
                        Ok(d) => match E::spec_leaf(children[4]) {
                            Err(error) => Err(error),
                            Ok(e) => match F::spec_leaf(children[5]) {
                                Err(error) => Err(error),
                                Ok(f) => match G::spec_leaf(children[6]) {
                                    Err(error) => Err(error),
                                    Ok(g) => Ok((a, b, c, d, e, f, g)),
                                },
                            },
                        },
                    },
                },
            },
        }
    }

    /// Every tuple of corner cases, the first component varying slowest and
    /// the last fastest.
    open spec fn spec_corners() -> Seq<(A::Model, B::Model, C::Model, D::Model, E::Model, F::Model, G::Model)> {
        let nested = spec_pairs(A::spec_corners(), <(B, C, D, E, F, G) as Conjure>::spec_corners());
        Seq::new(nested.len(), |i: int| spec_flat7(nested[i]))
    }

    /// A tuple has one shape.
    open spec fn spec_variants() -> Seq<Cardinality> {
        seq![Self::spec_cardinality()]
    }

    open spec fn spec_build(index: int, seed: Seed) -> Result<(A::Model, B::Model, C::Model, D::Model, E::Model, F::Model, G::Model), Uninstantiable> {
        if index == 0 {
            Self::spec_conjure(seed)
        } else {
            Err(Uninstantiable)
        }
    }

    fn conjure(seed: Seed) -> (made: Result<Self, Uninstantiable>) {
        proof {
            lemma_empty_sum_prod(
                A::spec_cardinality(),
                B::spec_cardinality(),
            );
            lemma_empty_sum_prod(
                A::spec_cardinality().spec_prod(B::spec_cardinality()),
                C::spec_cardinality(),
            );
            lemma_empty_sum_prod(
                A::spec_cardinality().spec_prod(B::spec_cardinality()).spec_prod(C::spec_cardinality()),
                D::spec_cardinality(),
            );
            lemma_empty_sum_prod(
                A::spec_cardinality().spec_prod(B::spec_cardinality()).spec_prod(C::spec_cardinality()).spec_prod(D::spec_cardinality()),
                E::spec_cardinality(),
            );
            lemma_empty_sum_prod(
                A::spec_cardinality().spec_prod(B::spec_cardinality()).spec_prod(C::spec_cardinality()).spec_prod(D::spec_cardinality()).spec_prod(E::spec_cardinality()),
                F::spec_cardinality(),
            );
            lemma_empty_sum_prod(
                A::spec_cardinality().spec_prod(B::spec_cardinality()).spec_prod(C::spec_cardinality()).spec_prod(D::spec_cardinality()).spec_prod(E::spec_cardinality()).spec_prod(F::spec_cardinality()),
                G::spec_cardinality(),
            );
            seed.lemma_partition(seed.size, 7);
        }
        let size = seed.size;
        let mut children = seed.partition_among(size, 7);
        let seed_g = children.pop().unwrap();
        let seed_f = children.pop().unwrap();
        let seed_e = children.pop().unwrap();
        let seed_d = children.pop().unwrap();
        let seed_c = children.pop().unwrap();
        let seed_b = children.pop().unwrap();
        let seed_a = children.pop().unwrap();
        let a = match A::conjure(seed_a) {
            Ok(a) => a,
            Err(error) => {
                return Err(error);
            },
        };
        let b = match B::conjure(seed_b) {
            Ok(b) => b,
            Err(error) => {
                return Err(error);
            },
        };
        let c = match C::conjure(seed_c) {
            Ok(c) => c,
            Err(error) => {
                return Err(error);
            },
        };
        let d = match D::conjure(seed_d) {
            Ok(d) => d,
            Err(error) => {
                return Err(error);
            },
        };
        let e = match E::conjure(seed_e) {
            Ok(e) => e,
            Err(error) => {
                return Err(error);
            },
        };
        let f = match F::conjure(seed_f) {
            Ok(f) => f,
            Err(error) => {
                return Err(error);
            },
        };
        let g = match G::conjure(seed_g) {
            Ok(g) => g,
            Err(error) => {
                return Err(error);
            },
        };
        Ok((a, b, c, d, e, f, g))
    }

    fn leaf(seed: Seed) -> (made: Result<Self, Uninstantiable>) {
        proof {
            lemma_empty_sum_prod(
                A::spec_cardinality(),
                B::spec_cardinality(),
            );
            lemma_empty_sum_prod(
                A::spec_cardinality().spec_prod(B::spec_cardinality()),
                C::spec_cardinality(),
            );
            lemma_empty_sum_prod(
                A::spec_cardinality().spec_prod(B::spec_cardinality()).spec_prod(C::spec_cardinality()),
                D::spec_cardinality(),
            );
            lemma_empty_sum_prod(
                A::spec_cardinality().spec_prod(B::spec_cardinality()).spec_prod(C::spec_cardinality()).spec_prod(D::spec_cardinality()),
                E::spec_cardinality(),
            );
            lemma_empty_sum_prod(
                A::spec_cardinality().spec_prod(B::spec_cardinality()).spec_prod(C::spec_cardinality()).spec_prod(D::spec_cardinality()).spec_prod(E::spec_cardinality()),
                F::spec_cardinality(),
            );
            lemma_empty_sum_prod(
                A::spec_cardinality().spec_prod(B::spec_cardinality()).spec_prod(C::spec_cardinality()).spec_prod(D::spec_cardinality()).spec_prod(E::spec_cardinality()).spec_prod(F::spec_cardinality()),
                G::spec_cardinality(),
            );
        }
        let mut children = seed.split_among(7);
        let seed_g = children.pop().unwrap();
        let seed_f = children.pop().unwrap();
        let seed_e = children.pop().unwrap();
        let seed_d = children.pop().unwrap();
        let seed_c = children.pop().unwrap();
        let seed_b = children.pop().unwrap();
        let seed_a = children.pop().unwrap();
        let a = match A::leaf(seed_a) {
            Ok(a) => a,
            Err(error) => {
                return Err(error);
            },
        };
        let b = match B::leaf(seed_b) {
            Ok(b) => b,
            Err(error) => {
                return Err(error);
            },
        };
        let c = match C::leaf(seed_c) {
            Ok(c) => c,
            Err(error) => {
                return Err(error);
            },
        };
        let d = match D::leaf(seed_d) {
            Ok(d) => d,
            Err(error) => {
                return Err(error);
            },
        };
        let e = match E::leaf(seed_e) {
            Ok(e) => e,
            Err(error) => {
                return Err(error);
            },
        };
        let f = match F::leaf(seed_f) {
            Ok(f) => f,
            Err(error) => {
                return Err(error);
            },
        };
        let g = match G::leaf(seed_g) {
            Ok(g) => g,
            Err(error) => {
                return Err(error);
            },
        };
        Ok((a, b, c, d, e, f, g))
    }

    fn corners() -> (all: Vec<Self>) {
        let firsts = A::corners();
        let rest = <(B, C, D, E, F, G) as Conjure>::corners();
        let nested = pairs(&firsts, &rest);
        let mut all: Vec<(A, B, C, D, E, F, G)> = Vec::with_capacity(nested.len());
        let mut i: usize = 0;
        while i < nested.len()
            invariant
                i <= nested.len(),
                all.len() == i,
                forall|j: int| 0 <= j < i ==> all@[j].model() == spec_flat7(nested@[j].model()),
            decreases nested.len() - i,
        {
            let item = &nested[i];
            all.push((item.0.dup(), item.1.0.dup(), item.1.1.dup(), item.1.2.dup(), item.1.3.dup(), item.1.4.dup(), item.1.5.dup()));
            i += 1;
        }
        assert(models(all@) =~= Self::spec_corners());
        all
    }

    fn variants() -> (all: Vec<Cardinality>) {
        let mut all = Vec::new();
        all.push(Self::cardinality());
        assert(all@ =~= seq![Self::spec_cardinality()]);
        all
    }

    fn build(index: usize, seed: Seed) -> (made: Result<Self, Uninstantiable>) {
        if index == 0 {
            Self::conjure(seed)
        } else {
            Err(Uninstantiable)
        }
    }
}

impl<A: Shrink, B: Shrink, C: Shrink, D: Shrink, E: Shrink, F: Shrink, G: Shrink> Shrink for (A, B, C, D, E, F, G) {
    open spec fn measure(model: (A::Model, B::Model, C::Model, D::Model, E::Model, F::Model, G::Model)) -> nat {
        A::measure(model.0)
            + B::measure(model.1)
            + C::measure(model.2)
            + D::measure(model.3)
            + E::measure(model.4)
            + F::measure(model.5)
            + G::measure(model.6)
    }

    /// The first component is shrunk with the others held fixed. Then the
    /// others are shrunk as a tuple, against the first component as it is by
    /// then, and kept as they are if nothing smaller passes.
    open spec fn spec_step(model: (A::Model, B::Model, C::Model, D::Model, E::Model, F::Model, G::Model), meaning: spec_fn((A::Model, B::Model, C::Model, D::Model, E::Model, F::Model, G::Model)) -> bool) -> Option<(A::Model, B::Model, C::Model, D::Model, E::Model, F::Model, G::Model)> {
        let rest = (model.1, model.2, model.3, model.4, model.5, model.6);
        match A::spec_step(model.0, with_rest7::<A, B, C, D, E, F, G>(meaning, rest)) {
            Some(first) => match <(B, C, D, E, F, G) as Shrink>::spec_step(
                rest,
                with_head7::<A, B, C, D, E, F, G>(meaning, first),
            ) {
                Some(smaller) => Some((first, smaller.0, smaller.1, smaller.2, smaller.3, smaller.4, smaller.5)),
                None => Some((first, rest.0, rest.1, rest.2, rest.3, rest.4, rest.5)),
            },
            None => match <(B, C, D, E, F, G) as Shrink>::spec_step(
                rest,
                with_head7::<A, B, C, D, E, F, G>(meaning, model.0),
            ) {
                Some(smaller) => Some((model.0, smaller.0, smaller.1, smaller.2, smaller.3, smaller.4, smaller.5)),
                None => None,
            },
        }
    }

    proof fn lemma_step(model: (A::Model, B::Model, C::Model, D::Model, E::Model, F::Model, G::Model), meaning: spec_fn((A::Model, B::Model, C::Model, D::Model, E::Model, F::Model, G::Model)) -> bool) {
        let rest = (model.1, model.2, model.3, model.4, model.5, model.6);
        A::lemma_step(model.0, with_rest7::<A, B, C, D, E, F, G>(meaning, rest));
        match A::spec_step(model.0, with_rest7::<A, B, C, D, E, F, G>(meaning, rest)) {
            Some(first) => {
                <(B, C, D, E, F, G) as Shrink>::lemma_step(rest, with_head7::<A, B, C, D, E, F, G>(meaning, first));
            },
            None => {
                <(B, C, D, E, F, G) as Shrink>::lemma_step(rest, with_head7::<A, B, C, D, E, F, G>(meaning, model.0));
            },
        }
    }

    fn step<P: Fn(&Self) -> bool>(&self, property: &P) -> (smaller: Option<Self>) {
        let rest = (self.1.dup(), self.2.dup(), self.3.dup(), self.4.dup(), self.5.dup(), self.6.dup());
        let on_first = |first: &A| -> (answer: bool)
            ensures
                answers(
                    property,
                    ((*first).model(), self.1.model(), self.2.model(), self.3.model(), self.4.model(), self.5.model(), self.6.model()),
                    answer,
                ),
            {
                let whole = ((*first).dup(), self.1.dup(), self.2.dup(), self.3.dup(), self.4.dup(), self.5.dup(), self.6.dup());
                property(&whole)
            };
        proof {
            assert forall|meaning: spec_fn((A::Model, B::Model, C::Model, D::Model, E::Model, F::Model, G::Model)) -> bool| #[trigger]
                agrees(property, meaning) implies agrees(
                &on_first,
                with_rest7::<A, B, C, D, E, F, G>(meaning, (self.1.model(), self.2.model(), self.3.model(), self.4.model(), self.5.model(), self.6.model())),
            ) by {}
        }
        match self.0.step(&on_first) {
            Some(first) => {
                let on_rest = |others: &(B, C, D, E, F, G)| -> (answer: bool)
                    ensures
                        answers(
                            property,
                            (first.model(), others.0.model(), others.1.model(), others.2.model(), others.3.model(), others.4.model(), others.5.model()),
                            answer,
                        ),
                    {
                        let whole = (first.dup(), others.0.dup(), others.1.dup(), others.2.dup(), others.3.dup(), others.4.dup(), others.5.dup());
                        property(&whole)
                    };
                proof {
                    assert forall|meaning: spec_fn((A::Model, B::Model, C::Model, D::Model, E::Model, F::Model, G::Model)) -> bool| #[trigger]
                        agrees(property, meaning) implies agrees(
                        &on_rest,
                        with_head7::<A, B, C, D, E, F, G>(meaning, first.model()),
                    ) by {}
                }
                match rest.step(&on_rest) {
                    Some(smaller) => Some((first, smaller.0, smaller.1, smaller.2, smaller.3, smaller.4, smaller.5)),
                    None => Some((first, rest.0, rest.1, rest.2, rest.3, rest.4, rest.5)),
                }
            },
            None => {
                let on_rest = |others: &(B, C, D, E, F, G)| -> (answer: bool)
                    ensures
                        answers(
                            property,
                            (self.0.model(), others.0.model(), others.1.model(), others.2.model(), others.3.model(), others.4.model(), others.5.model()),
                            answer,
                        ),
                    {
                        let whole = (self.0.dup(), others.0.dup(), others.1.dup(), others.2.dup(), others.3.dup(), others.4.dup(), others.5.dup());
                        property(&whole)
                    };
                proof {
                    assert forall|meaning: spec_fn((A::Model, B::Model, C::Model, D::Model, E::Model, F::Model, G::Model)) -> bool| #[trigger]
                        agrees(property, meaning) implies agrees(
                        &on_rest,
                        with_head7::<A, B, C, D, E, F, G>(meaning, self.0.model()),
                    ) by {}
                }
                match rest.step(&on_rest) {
                    Some(smaller) => Some((self.0.dup(), smaller.0, smaller.1, smaller.2, smaller.3, smaller.4, smaller.5)),
                    None => None,
                }
            },
        }
    }
}

impl<A: Term, B: Term, C: Term, D: Term, E: Term, F: Term, G: Term, H: Term> Term for (A, B, C, D, E, F, G, H) {
    type Model = (A::Model, B::Model, C::Model, D::Model, E::Model, F::Model, G::Model, H::Model);

    open spec fn model(&self) -> (A::Model, B::Model, C::Model, D::Model, E::Model, F::Model, G::Model, H::Model) {
        (self.0.model(), self.1.model(), self.2.model(), self.3.model(), self.4.model(), self.5.model(), self.6.model(), self.7.model())
    }

    fn dup(&self) -> (copy: Self) {
        (self.0.dup(), self.1.dup(), self.2.dup(), self.3.dup(), self.4.dup(), self.5.dup(), self.6.dup(), self.7.dup())
    }

    fn same(&self, other: &Self) -> (equal: bool) {
        self.0.same(&other.0)
            && self.1.same(&other.1)
            && self.2.same(&other.2)
            && self.3.same(&other.3)
            && self.4.same(&other.4)
            && self.5.same(&other.5)
            && self.6.same(&other.6)
            && self.7.same(&other.7)
    }
}

impl<A: Count, B: Count, C: Count, D: Count, E: Count, F: Count, G: Count, H: Count> Count for (A, B, C, D, E, F, G, H) {
    open spec fn spec_cardinality() -> Cardinality {
        A::spec_cardinality()
            .spec_prod(B::spec_cardinality())
            .spec_prod(C::spec_cardinality())
            .spec_prod(D::spec_cardinality())
            .spec_prod(E::spec_cardinality())
            .spec_prod(F::spec_cardinality())
            .spec_prod(G::spec_cardinality())
            .spec_prod(H::spec_cardinality())
    }

    fn cardinality() -> (c: Cardinality) {
        A::cardinality()
            .of_prod(B::cardinality())
            .of_prod(C::cardinality())
            .of_prod(D::cardinality())
            .of_prod(E::cardinality())
            .of_prod(F::cardinality())
            .of_prod(G::cardinality())
            .of_prod(H::cardinality())
    }
}

/// The tuple of eight of a first component and a tuple of the others.
pub open spec fn spec_flat8<A, B, C, D, E, F, G, H>(nested: (A, (B, C, D, E, F, G, H))) -> (A, B, C, D, E, F, G, H) {
    (nested.0, nested.1.0, nested.1.1, nested.1.2, nested.1.3, nested.1.4, nested.1.5, nested.1.6)
}

/// A property of tuples of eight, as a property of the first component
/// with the others held fixed.
pub open spec fn with_rest8<A: Term, B: Term, C: Term, D: Term, E: Term, F: Term, G: Term, H: Term>(
    meaning: spec_fn((A::Model, B::Model, C::Model, D::Model, E::Model, F::Model, G::Model, H::Model)) -> bool,
    rest: (B::Model, C::Model, D::Model, E::Model, F::Model, G::Model, H::Model),
) -> spec_fn(A::Model) -> bool {
    |first: A::Model| meaning((first, rest.0, rest.1, rest.2, rest.3, rest.4, rest.5, rest.6))
}

/// A property of tuples of eight, as a property of the components after
/// the first with the first held fixed.
pub open spec fn with_head8<A: Term, B: Term, C: Term, D: Term, E: Term, F: Term, G: Term, H: Term>(
    meaning: spec_fn((A::Model, B::Model, C::Model, D::Model, E::Model, F::Model, G::Model, H::Model)) -> bool,
    first: A::Model,
) -> spec_fn((B::Model, C::Model, D::Model, E::Model, F::Model, G::Model, H::Model)) -> bool {
    |rest: (B::Model, C::Model, D::Model, E::Model, F::Model, G::Model, H::Model)| meaning((first, rest.0, rest.1, rest.2, rest.3, rest.4, rest.5, rest.6))
}

impl<A: Conjure, B: Conjure, C: Conjure, D: Conjure, E: Conjure, F: Conjure, G: Conjure, H: Conjure> Conjure for (A, B, C, D, E, F, G, H) {
    /// The size budget is partitioned among the eight components.
    open spec fn spec_conjure(seed: Seed) -> Result<(A::Model, B::Model, C::Model, D::Model, E::Model, F::Model, G::Model, H::Model), Uninstantiable> {
        let children = seed.spec_partition(seed.size, 8);
        match A::spec_conjure(children[0]) {
            Err(error) => Err(error),
            Ok(a) => match B::spec_conjure(children[1]) {
                Err(error) => Err(error),
                Ok(b) => match C::spec_conjure(children[2]) {
                    Err(error) => Err(error),
                    Ok(c) => match D::spec_conjure(children[3]) {
                        Err(error) => Err(error),
                        Ok(d) => match E::spec_conjure(children[4]) {
                            Err(error) => Err(error),
                            Ok(e) => match F::spec_conjure(children[5]) {
                                Err(error) => Err(error),
                                Ok(f) => match G::spec_conjure(children[6]) {
                                    Err(error) => Err(error),
                                    Ok(g) => match H::spec_conjure(children[7]) {
                                        Err(error) => Err(error),
                                        Ok(h) => Ok((a, b, c, d, e, f, g, h)),
                                    },
                                },
                            },
                        },
                    },
                },
            },
        }
    }

    /// The seed is split among the eight components.
    open spec fn spec_leaf(seed: Seed) -> Result<(A::Model, B::Model, C::Model, D::Model, E::Model, F::Model, G::Model, H::Model), Uninstantiable> {
        let children = seed.spec_split(8);
        match A::spec_leaf(children[0]) {
            Err(error) => Err(error),
            Ok(a) => match B::spec_leaf(children[1]) {
                Err(error) => Err(error),
                Ok(b) => match C::spec_leaf(children[2]) {
                    Err(error) => Err(error),
                    Ok(c) => match D::spec_leaf(children[3]) {
                        Err(error) => Err(error),
                        Ok(d) => match E::spec_leaf(children[4]) {
                            Err(error) => Err(error),
                            Ok(e) => match F::spec_leaf(children[5]) {
                                Err(error) => Err(error),
                                Ok(f) => match G::spec_leaf(children[6]) {
                                    Err(error) => Err(error),
                                    Ok(g) => match H::spec_leaf(children[7]) {
                                        Err(error) => Err(error),
                                        Ok(h) => Ok((a, b, c, d, e, f, g, h)),
                                    },
                                },
                            },
                        },
                    },
                },
            },
        }
    }

    /// Every tuple of corner cases, the first component varying slowest and
    /// the last fastest.
    open spec fn spec_corners() -> Seq<(A::Model, B::Model, C::Model, D::Model, E::Model, F::Model, G::Model, H::Model)> {
        let nested = spec_pairs(A::spec_corners(), <(B, C, D, E, F, G, H) as Conjure>::spec_corners());
        Seq::new(nested.len(), |i: int| spec_flat8(nested[i]))
    }

    /// A tuple has one shape.
    open spec fn spec_variants() -> Seq<Cardinality> {
        seq![Self::spec_cardinality()]
    }

    open spec fn spec_build(index: int, seed: Seed) -> Result<(A::Model, B::Model, C::Model, D::Model, E::Model, F::Model, G::Model, H::Model), Uninstantiable> {
        if index == 0 {
            Self::spec_conjure(seed)
        } else {
            Err(Uninstantiable)
        }
    }

    fn conjure(seed: Seed) -> (made: Result<Self, Uninstantiable>) {
        proof {
            lemma_empty_sum_prod(
                A::spec_cardinality(),
                B::spec_cardinality(),
            );
            lemma_empty_sum_prod(
                A::spec_cardinality().spec_prod(B::spec_cardinality()),
                C::spec_cardinality(),
            );
            lemma_empty_sum_prod(
                A::spec_cardinality().spec_prod(B::spec_cardinality()).spec_prod(C::spec_cardinality()),
                D::spec_cardinality(),
            );
            lemma_empty_sum_prod(
                A::spec_cardinality().spec_prod(B::spec_cardinality()).spec_prod(C::spec_cardinality()).spec_prod(D::spec_cardinality()),
                E::spec_cardinality(),
            );
            lemma_empty_sum_prod(
                A::spec_cardinality().spec_prod(B::spec_cardinality()).spec_prod(C::spec_cardinality()).spec_prod(D::spec_cardinality()).spec_prod(E::spec_cardinality()),
                F::spec_cardinality(),
            );
            lemma_empty_sum_prod(
                A::spec_cardinality().spec_prod(B::spec_cardinality()).spec_prod(C::spec_cardinality()).spec_prod(D::spec_cardinality()).spec_prod(E::spec_cardinality()).spec_prod(F::spec_cardinality()),
                G::spec_cardinality(),
            );
            lemma_empty_sum_prod(
                A::spec_cardinality().spec_prod(B::spec_cardinality()).spec_prod(C::spec_cardinality()).spec_prod(D::spec_cardinality()).spec_prod(E::spec_cardinality()).spec_prod(F::spec_cardinality()).spec_prod(G::spec_cardinality()),
                H::spec_cardinality(),
            );
            seed.lemma_partition(seed.size, 8);
        }
        let size = seed.size;
        let mut children = seed.partition_among(size, 8);
        let seed_h = children.pop().unwrap();
        let seed_g = children.pop().unwrap();
        let seed_f = children.pop().unwrap();
        let seed_e = children.pop().unwrap();
        let seed_d = children.pop().unwrap();
        let seed_c = children.pop().unwrap();
        let seed_b = children.pop().unwrap();
        let seed_a = children.pop().unwrap();
        let a = match A::conjure(seed_a) {
            Ok(a) => a,
            Err(error) => {
                return Err(error);
            },
        };
        let b = match B::conjure(seed_b) {
            Ok(b) => b,
            Err(error) => {
                return Err(error);
            },
        };
        let c = match C::conjure(seed_c) {
            Ok(c) => c,
            Err(error) => {
                return Err(error);
            },
        };
        let d = match D::conjure(seed_d) {
            Ok(d) => d,
            Err(error) => {
                return Err(error);
            },
        };
        let e = match E::conjure(seed_e) {
            Ok(e) => e,
            Err(error) => {
                return Err(error);
            },
        };
        let f = match F::conjure(seed_f) {
            Ok(f) => f,
            Err(error) => {
                return Err(error);
            },
        };
        let g = match G::conjure(seed_g) {
            Ok(g) => g,
            Err(error) => {
                return Err(error);
            },
        };
        let h = match H::conjure(seed_h) {
            Ok(h) => h,
            Err(error) => {
                return Err(error);
            },
        };
        Ok((a, b, c, d, e, f, g, h))
    }

    fn leaf(seed: Seed) -> (made: Result<Self, Uninstantiable>) {
        proof {
            lemma_empty_sum_prod(
                A::spec_cardinality(),
                B::spec_cardinality(),
            );
            lemma_empty_sum_prod(
                A::spec_cardinality().spec_prod(B::spec_cardinality()),
                C::spec_cardinality(),
            );
            lemma_empty_sum_prod(
                A::spec_cardinality().spec_prod(B::spec_cardinality()).spec_prod(C::spec_cardinality()),
                D::spec_cardinality(),
            );
            lemma_empty_sum_prod(
                A::spec_cardinality().spec_prod(B::spec_cardinality()).spec_prod(C::spec_cardinality()).spec_prod(D::spec_cardinality()),
                E::spec_cardinality(),
            );
            lemma_empty_sum_prod(
                A::spec_cardinality().spec_prod(B::spec_cardinality()).spec_prod(C::spec_cardinality()).spec_prod(D::spec_cardinality()).spec_prod(E::spec_cardinality()),
                F::spec_cardinality(),
            );
            lemma_empty_sum_prod(
                A::spec_cardinality().spec_prod(B::spec_cardinality()).spec_prod(C::spec_cardinality()).spec_prod(D::spec_cardinality()).spec_prod(E::spec_cardinality()).spec_prod(F::spec_cardinality()),
                G::spec_cardinality(),
            );
            lemma_empty_sum_prod(
                A::spec_cardinality().spec_prod(B::spec_cardinality()).spec_prod(C::spec_cardinality()).spec_prod(D::spec_cardinality()).spec_prod(E::spec_cardinality()).spec_prod(F::spec_cardinality()).spec_prod(G::spec_cardinality()),
                H::spec_cardinality(),
            );
        }
        let mut children = seed.split_among(8);
        let seed_h = children.pop().unwrap();
        let seed_g = children.pop().unwrap();
        let seed_f = children.pop().unwrap();
        let seed_e = children.pop().unwrap();
        let seed_d = children.pop().unwrap();
        let seed_c = children.pop().unwrap();
        let seed_b = children.pop().unwrap();
        let seed_a = children.pop().unwrap();
        let a = match A::leaf(seed_a) {
            Ok(a) => a,
            Err(error) => {
                return Err(error);
            },
        };
        let b = match B::leaf(seed_b) {
            Ok(b) => b,
            Err(error) => {
                return Err(error);
            },
        };
        let c = match C::leaf(seed_c) {
            Ok(c) => c,
            Err(error) => {
                return Err(error);
            },
        };
        let d = match D::leaf(seed_d) {
            Ok(d) => d,
            Err(error) => {
                return Err(error);
            },
        };
        let e = match E::leaf(seed_e) {
            Ok(e) => e,
            Err(error) => {
                return Err(error);
            },
        };
        let f = match F::leaf(seed_f) {
            Ok(f) => f,
            Err(error) => {
                return Err(error);
            },
        };
        let g = match G::leaf(seed_g) {
            Ok(g) => g,
            Err(error) => {
                return Err(error);
            },
        };
        let h = match H::leaf(seed_h) {
            Ok(h) => h,
            Err(error) => {
                return Err(error);
            },
        };
        Ok((a, b, c, d, e, f, g, h))
    }

    fn corners() -> (all: Vec<Self>) {
        let firsts = A::corners();
        let rest = <(B, C, D, E, F, G, H) as Conjure>::corners();
        let nested = pairs(&firsts, &rest);
        let mut all: Vec<(A, B, C, D, E, F, G, H)> = Vec::with_capacity(nested.len());
        let mut i: usize = 0;
        while i < nested.len()
            invariant
                i <= nested.len(),
                all.len() == i,
                forall|j: int| 0 <= j < i ==> all@[j].model() == spec_flat8(nested@[j].model()),
            decreases nested.len() - i,
        {
            let item = &nested[i];
            all.push((item.0.dup(), item.1.0.dup(), item.1.1.dup(), item.1.2.dup(), item.1.3.dup(), item.1.4.dup(), item.1.5.dup(), item.1.6.dup()));
            i += 1;
        }
        assert(models(all@) =~= Self::spec_corners());
        all
    }

    fn variants() -> (all: Vec<Cardinality>) {
        let mut all = Vec::new();
        all.push(Self::cardinality());
        assert(all@ =~= seq![Self::spec_cardinality()]);
        all
    }

    fn build(index: usize, seed: Seed) -> (made: Result<Self, Uninstantiable>) {
        if index == 0 {
            Self::conjure(seed)
        } else {
            Err(Uninstantiable)
        }
    }
}

impl<A: Shrink, B: Shrink, C: Shrink, D: Shrink, E: Shrink, F: Shrink, G: Shrink, H: Shrink> Shrink for (A, B, C, D, E, F, G, H) {
    open spec fn measure(model: (A::Model, B::Model, C::Model, D::Model, E::Model, F::Model, G::Model, H::Model)) -> nat {
        A::measure(model.0)
            + B::measure(model.1)
            + C::measure(model.2)
            + D::measure(model.3)
            + E::measure(model.4)
            + F::measure(model.5)
            + G::measure(model.6)
            + H::measure(model.7)
    }

    /// The first component is shrunk with the others held fixed. Then the
    /// others are shrunk as a tuple, against the first component as it is by
    /// then, and kept as they are if nothing smaller passes.
    open spec fn spec_step(model: (A::Model, B::Model, C::Model, D::Model, E::Model, F::Model, G::Model, H::Model), meaning: spec_fn((A::Model, B::Model, C::Model, D::Model, E::Model, F::Model, G::Model, H::Model)) -> bool) -> Option<(A::Model, B::Model, C::Model, D::Model, E::Model, F::Model, G::Model, H::Model)> {
        let rest = (model.1, model.2, model.3, model.4, model.5, model.6, model.7);
        match A::spec_step(model.0, with_rest8::<A, B, C, D, E, F, G, H>(meaning, rest)) {
            Some(first) => match <(B, C, D, E, F, G, H) as Shrink>::spec_step(
                rest,
                with_head8::<A, B, C, D, E, F, G, H>(meaning, first),
            ) {
                Some(smaller) => Some((first, smaller.0, smaller.1, smaller.2, smaller.3, smaller.4, smaller.5, smaller.6)),
                None => Some((first, rest.0, rest.1, rest.2, rest.3, rest.4, rest.5, rest.6)),
            },
            None => match <(B, C, D, E, F, G, H) as Shrink>::spec_step(
                rest,
                with_head8::<A, B, C, D, E, F, G, H>(meaning, model.0),
            ) {
                Some(smaller) => Some((model.0, smaller.0, smaller.1, smaller.2, smaller.3, smaller.4, smaller.5, smaller.6)),
                None => None,
            },
        }
    }

    proof fn lemma_step(model: (A::Model, B::Model, C::Model, D::Model, E::Model, F::Model, G::Model, H::Model), meaning: spec_fn((A::Model, B::Model, C::Model, D::Model, E::Model, F::Model, G::Model, H::Model)) -> bool) {
        let rest = (model.1, model.2, model.3, model.4, model.5, model.6, model.7);
        A::lemma_step(model.0, with_rest8::<A, B, C, D, E, F, G, H>(meaning, rest));
        match A::spec_step(model.0, with_rest8::<A, B, C, D, E, F, G, H>(meaning, rest)) {
            Some(first) => {
                <(B, C, D, E, F, G, H) as Shrink>::lemma_step(rest, with_head8::<A, B, C, D, E, F, G, H>(meaning, first));
            },
            None => {
                <(B, C, D, E, F, G, H) as Shrink>::lemma_step(rest, with_head8::<A, B, C, D, E, F, G, H>(meaning, model.0));
            },
        }
    }

    fn step<P: Fn(&Self) -> bool>(&self, property: &P) -> (smaller: Option<Self>) {
        let rest = (self.1.dup(), self.2.dup(), self.3.dup(), self.4.dup(), self.5.dup(), self.6.dup(), self.7.dup());
        let on_first = |first: &A| -> (answer: bool)
            ensures
                answers(
                    property,
                    ((*first).model(), self.1.model(), self.2.model(), self.3.model(), self.4.model(), self.5.model(), self.6.model(), self.7.model()),
                    answer,
                ),
            {
                let whole = ((*first).dup(), self.1.dup(), self.2.dup(), self.3.dup(), self.4.dup(), self.5.dup(), self.6.dup(), self.7.dup());
                property(&whole)
            };
        proof {
            assert forall|meaning: spec_fn((A::Model, B::Model, C::Model, D::Model, E::Model, F::Model, G::Model, H::Model)) -> bool| #[trigger]
                agrees(property, meaning) implies agrees(
                &on_first,
                with_rest8::<A, B, C, D, E, F, G, H>(meaning, (self.1.model(), self.2.model(), self.3.model(), self.4.model(), self.5.model(), self.6.model(), self.7.model())),
            ) by {}
        }
        match self.0.step(&on_first) {
            Some(first) => {
                let on_rest = |others: &(B, C, D, E, F, G, H)| -> (answer: bool)
                    ensures
                        answers(
                            property,
                            (first.model(), others.0.model(), others.1.model(), others.2.model(), others.3.model(), others.4.model(), others.5.model(), others.6.model()),
                            answer,
                        ),
                    {
                        let whole = (first.dup(), others.0.dup(), others.1.dup(), others.2.dup(), others.3.dup(), others.4.dup(), others.5.dup(), others.6.dup());
                        property(&whole)
                    };
                proof {
                    assert forall|meaning: spec_fn((A::Model, B::Model, C::Model, D::Model, E::Model, F::Model, G::Model, H::Model)) -> bool| #[trigger]
                        agrees(property, meaning) implies agrees(
                        &on_rest,
                        with_head8::<A, B, C, D, E, F, G, H>(meaning, first.model()),
                    ) by {}
                }
                match rest.step(&on_rest) {
                    Some(smaller) => Some((first, smaller.0, smaller.1, smaller.2, smaller.3, smaller.4, smaller.5, smaller.6)),
                    None => Some((first, rest.0, rest.1, rest.2, rest.3, rest.4, rest.5, rest.6)),
                }
            },
            None => {
                let on_rest = |others: &(B, C, D, E, F, G, H)| -> (answer: bool)
                    ensures
                        answers(
                            property,
                            (self.0.model(), others.0.model(), others.1.model(), others.2.model(), others.3.model(), others.4.model(), others.5.model(), others.6.model()),
                            answer,
                        ),
                    {
                        let whole = (self.0.dup(), others.0.dup(), others.1.dup(), others.2.dup(), others.3.dup(), others.4.dup(), others.5.dup(), others.6.dup());
                        property(&whole)
                    };
                proof {
                    assert forall|meaning: spec_fn((A::Model, B::Model, C::Model, D::Model, E::Model, F::Model, G::Model, H::Model)) -> bool| #[trigger]
                        agrees(property, meaning) implies agrees(
                        &on_rest,
                        with_head8::<A, B, C, D, E, F, G, H>(meaning, self.0.model()),
                    ) by {}
                }
                match rest.step(&on_rest) {
                    Some(smaller) => Some((self.0.dup(), smaller.0, smaller.1, smaller.2, smaller.3, smaller.4, smaller.5, smaller.6)),
                    None => None,
                }
            },
        }
    }
}

impl<A: Term, B: Term, C: Term, D: Term, E: Term, F: Term, G: Term, H: Term, I: Term> Term for (A, B, C, D, E, F, G, H, I) {
    type Model = (A::Model, B::Model, C::Model, D::Model, E::Model, F::Model, G::Model, H::Model, I::Model);

    open spec fn model(&self) -> (A::Model, B::Model, C::Model, D::Model, E::Model, F::Model, G::Model, H::Model, I::Model) {
        (self.0.model(), self.1.model(), self.2.model(), self.3.model(), self.4.model(), self.5.model(), self.6.model(), self.7.model(), self.8.model())
    }

    fn dup(&self) -> (copy: Self) {
        (self.0.dup(), self.1.dup(), self.2.dup(), self.3.dup(), self.4.dup(), self.5.dup(), self.6.dup(), self.7.dup(), self.8.dup())
    }

    fn same(&self, other: &Self) -> (equal: bool) {
        self.0.same(&other.0)
            && self.1.same(&other.1)
            && self.2.same(&other.2)
            && self.3.same(&other.3)
            && self.4.same(&other.4)
            && self.5.same(&other.5)
            && self.6.same(&other.6)
            && self.7.same(&other.7)
            && self.8.same(&other.8)
    }
}

impl<A: Count, B: Count, C: Count, D: Count, E: Count, F: Count, G: Count, H: Count, I: Count> Count for (A, B, C, D, E, F, G, H, I) {
    open spec fn spec_cardinality() -> Cardinality {
        A::spec_cardinality()
            .spec_prod(B::spec_cardinality())
            .spec_prod(C::spec_cardinality())
            .spec_prod(D::spec_cardinality())
            .spec_prod(E::spec_cardinality())
            .spec_prod(F::spec_cardinality())
            .spec_prod(G::spec_cardinality())
            .spec_prod(H::spec_cardinality())
            .spec_prod(I::spec_cardinality())
    }

    fn cardinality() -> (c: Cardinality) {
        A::cardinality()
            .of_prod(B::cardinality())
            .of_prod(C::cardinality())
            .of_prod(D::cardinality())
            .of_prod(E::cardinality())
            .of_prod(F::cardinality())
            .of_prod(G::cardinality())
            .of_prod(H::cardinality())
            .of_prod(I::cardinality())
    }
}

/// The tuple of nine of a first component and a tuple of the others.
pub open spec fn spec_flat9<A, B, C, D, E, F, G, H, I>(nested: (A, (B, C, D, E, F, G, H, I))) -> (A, B, C, D, E, F, G, H, I) {
    (nested.0, nested.1.0, nested.1.1, nested.1.2, nested.1.3, nested.1.4, nested.1.5, nested.1.6, nested.1.7)
}

/// A property of tuples of nine, as a property of the first component
/// with the others held fixed.
pub open spec fn with_rest9<A: Term, B: Term, C: Term, D: Term, E: Term, F: Term, G: Term, H: Term, I: Term>(
    meaning: spec_fn((A::Model, B::Model, C::Model, D::Model, E::Model, F::Model, G::Model, H::Model, I::Model)) -> bool,
    rest: (B::Model, C::Model, D::Model, E::Model, F::Model, G::Model, H::Model, I::Model),
) -> spec_fn(A::Model) -> bool {
    |first: A::Model| meaning((first, rest.0, rest.1, rest.2, rest.3, rest.4, rest.5, rest.6, rest.7))
}

/// A property of tuples of nine, as a property of the components after
/// the first with the first held fixed.
pub open spec fn with_head9<A: Term, B: Term, C: Term, D: Term, E: Term, F: Term, G: Term, H: Term, I: Term>(
    meaning: spec_fn((A::Model, B::Model, C::Model, D::Model, E::Model, F::Model, G::Model, H::Model, I::Model)) -> bool,
    first: A::Model,
) -> spec_fn((B::Model, C::Model, D::Model, E::Model, F::Model, G::Model, H::Model, I::Model)) -> bool {
    |rest: (B::Model, C::Model, D::Model, E::Model, F::Model, G::Model, H::Model, I::Model)| meaning((first, rest.0, rest.1, rest.2, rest.3, rest.4, rest.5, rest.6, rest.7))
}

impl<A: Conjure, B: Conjure, C: Conjure, D: Conjure, E: Conjure, F: Conjure, G: Conjure, H: Conjure, I: Conjure> Conjure for (A, B, C, D, E, F, G, H, I) {
    /// The size budget is partitioned among the nine components.
    open spec fn spec_conjure(seed: Seed) -> Result<(A::Model, B::Model, C::Model, D::Model, E::Model, F::Model, G::Model, H::Model, I::Model), Uninstantiable> {
        let children = seed.spec_partition(seed.size, 9);
        match A::spec_conjure(children[0]) {
            Err(error) => Err(error),
            Ok(a) => match B::spec_conjure(children[1]) {
                Err(error) => Err(error),
                Ok(b) => match C::spec_conjure(children[2]) {
                    Err(error) => Err(error),
                    Ok(c) => match D::spec_conjure(children[3]) {
                        Err(error) => Err(error),
                        Ok(d) => match E::spec_conjure(children[4]) {
                            Err(error) => Err(error),
                            Ok(e) => match F::spec_conjure(children[5]) {
                                Err(error) => Err(error),
                                Ok(f) => match G::spec_conjure(children[6]) {
                                    Err(error) => Err(error),
                                    Ok(g) => match H::spec_conjure(children[7]) {
                                        Err(error) => Err(error),
                                        Ok(h) => match I::spec_conjure(children[8]) {
                                            Err(error) => Err(error),
                                            Ok(i) => Ok((a, b, c, d, e, f, g, h, i)),
                                        },
                                    },
                                },
                            },
                        },
                    },
                },
            },
        }
    }

    /// The seed is split among the nine components.
    open spec fn spec_leaf(seed: Seed) -> Result<(A::Model, B::Model, C::Model, D::Model, E::Model, F::Model, G::Model, H::Model, I::Model), Uninstantiable> {
        let children = seed.spec_split(9);
        match A::spec_leaf(children[0]) {
            Err(error) => Err(error),
            Ok(a) => match B::spec_leaf(children[1]) {
                Err(error) => Err(error),
                Ok(b) => match C::spec_leaf(children[2]) {
                    Err(error) => Err(error),
                    Ok(c) => match D::spec_leaf(children[3]) {
                        Err(error) => Err(error),
                        Ok(d) => match E::spec_leaf(children[4]) {
                            Err(error) => Err(error),
                            Ok(e) => match F::spec_leaf(children[5]) {
                                Err(error) => Err(error),
                                Ok(f) => match G::spec_leaf(children[6]) {
                                    Err(error) => Err(error),
                                    Ok(g) => match H::spec_leaf(children[7]) {
                                        Err(error) => Err(error),
                                        Ok(h) => match I::spec_leaf(children[8]) {
                                            Err(error) => Err(error),
                                            Ok(i) => Ok((a, b, c, d, e, f, g, h, i)),
                                        },
                                    },
                                },
                            },
                        },
                    },
                },
            },
        }
    }

    /// Every tuple of corner cases, the first component varying slowest and
    /// the last fastest.
    open spec fn spec_corners() -> Seq<(A::Model, B::Model, C::Model, D::Model, E::Model, F::Model, G::Model, H::Model, I::Model)> {
        let nested = spec_pairs(A::spec_corners(), <(B, C, D, E, F, G, H, I) as Conjure>::spec_corners());
        Seq::new(nested.len(), |i: int| spec_flat9(nested[i]))
    }

    /// A tuple has one shape.
    open spec fn spec_variants() -> Seq<Cardinality> {
        seq![Self::spec_cardinality()]
    }

    open spec fn spec_build(index: int, seed: Seed) -> Result<(A::Model, B::Model, C::Model, D::Model, E::Model, F::Model, G::Model, H::Model, I::Model), Uninstantiable> {
        if index == 0 {
            Self::spec_conjure(seed)
        } else {
            Err(Uninstantiable)
        }
    }

    fn conjure(seed: Seed) -> (made: Result<Self, Uninstantiable>) {
        proof {
            lemma_empty_sum_prod(
                A::spec_cardinality(),
                B::spec_cardinality(),
            );
            lemma_empty_sum_prod(
                A::spec_cardinality().spec_prod(B::spec_cardinality()),
                C::spec_cardinality(),
            );
            lemma_empty_sum_prod(
                A::spec_cardinality().spec_prod(B::spec_cardinality()).spec_prod(C::spec_cardinality()),
                D::spec_cardinality(),
            );
            lemma_empty_sum_prod(
                A::spec_cardinality().spec_prod(B::spec_cardinality()).spec_prod(C::spec_cardinality()).spec_prod(D::spec_cardinality()),
                E::spec_cardinality(),
            );
            lemma_empty_sum_prod(
                A::spec_cardinality().spec_prod(B::spec_cardinality()).spec_prod(C::spec_cardinality()).spec_prod(D::spec_cardinality()).spec_prod(E::spec_cardinality()),
                F::spec_cardinality(),
            );
            lemma_empty_sum_prod(
                A::spec_cardinality().spec_prod(B::spec_cardinality()).spec_prod(C::spec_cardinality()).spec_prod(D::spec_cardinality()).spec_prod(E::spec_cardinality()).spec_prod(F::spec_cardinality()),
                G::spec_cardinality(),
            );
            lemma_empty_sum_prod(
                A::spec_cardinality().spec_prod(B::spec_cardinality()).spec_prod(C::spec_cardinality()).spec_prod(D::spec_cardinality()).spec_prod(E::spec_cardinality()).spec_prod(F::spec_cardinality()).spec_prod(G::spec_cardinality()),
                H::spec_cardinality(),
            );
            lemma_empty_sum_prod(
                A::spec_cardinality().spec_prod(B::spec_cardinality()).spec_prod(C::spec_cardinality()).spec_prod(D::spec_cardinality()).spec_prod(E::spec_cardinality()).spec_prod(F::spec_cardinality()).spec_prod(G::spec_cardinality()).spec_prod(H::spec_cardinality()),
                I::spec_cardinality(),
            );
            seed.lemma_partition(seed.size, 9);
        }
        let size = seed.size;
        let mut children = seed.partition_among(size, 9);
        let seed_i = children.pop().unwrap();
        let seed_h = children.pop().unwrap();
        let seed_g = children.pop().unwrap();
        let seed_f = children.pop().unwrap();
        let seed_e = children.pop().unwrap();
        let seed_d = children.pop().unwrap();
        let seed_c = children.pop().unwrap();
        let seed_b = children.pop().unwrap();
        let seed_a = children.pop().unwrap();
        let a = match A::conjure(seed_a) {
            Ok(a) => a,
            Err(error) => {
                return Err(error);
            },
        };
        let b = match B::conjure(seed_b) {
            Ok(b) => b,
            Err(error) => {
                return Err(error);
            },
        };
        let c = match C::conjure(seed_c) {
            Ok(c) => c,
            Err(error) => {
                return Err(error);
            },
        };
        let d = match D::conjure(seed_d) {
            Ok(d) => d,
            Err(error) => {
                return Err(error);
            },
        };
        let e = match E::conjure(seed_e) {
            Ok(e) => e,
            Err(error) => {
                return Err(error);
            },
        };
        let f = match F::conjure(seed_f) {
            Ok(f) => f,
            Err(error) => {
                return Err(error);
            },
        };
        let g = match G::conjure(seed_g) {
            Ok(g) => g,
            Err(error) => {
                return Err(error);
            },
        };
        let h = match H::conjure(seed_h) {
            Ok(h) => h,
            Err(error) => {
                return Err(error);
            },
        };
        let i = match I::conjure(seed_i) {
            Ok(i) => i,
            Err(error) => {
                return Err(error);
            },
        };
        Ok((a, b, c, d, e, f, g, h, i))
    }

    fn leaf(seed: Seed) -> (made: Result<Self, Uninstantiable>) {
        proof {
            lemma_empty_sum_prod(
                A::spec_cardinality(),
                B::spec_cardinality(),
            );
            lemma_empty_sum_prod(
                A::spec_cardinality().spec_prod(B::spec_cardinality()),
                C::spec_cardinality(),
            );
            lemma_empty_sum_prod(
                A::spec_cardinality().spec_prod(B::spec_cardinality()).spec_prod(C::spec_cardinality()),
                D::spec_cardinality(),
            );
            lemma_empty_sum_prod(
                A::spec_cardinality().spec_prod(B::spec_cardinality()).spec_prod(C::spec_cardinality()).spec_prod(D::spec_cardinality()),
                E::spec_cardinality(),
            );
            lemma_empty_sum_prod(
                A::spec_cardinality().spec_prod(B::spec_cardinality()).spec_prod(C::spec_cardinality()).spec_prod(D::spec_cardinality()).spec_prod(E::spec_cardinality()),
                F::spec_cardinality(),
            );
            lemma_empty_sum_prod(
                A::spec_cardinality().spec_prod(B::spec_cardinality()).spec_prod(C::spec_cardinality()).spec_prod(D::spec_cardinality()).spec_prod(E::spec_cardinality()).spec_prod(F::spec_cardinality()),
                G::spec_cardinality(),
            );
            lemma_empty_sum_prod(
                A::spec_cardinality().spec_prod(B::spec_cardinality()).spec_prod(C::spec_cardinality()).spec_prod(D::spec_cardinality()).spec_prod(E::spec_cardinality()).spec_prod(F::spec_cardinality()).spec_prod(G::spec_cardinality()),
                H::spec_cardinality(),
            );
            lemma_empty_sum_prod(
                A::spec_cardinality().spec_prod(B::spec_cardinality()).spec_prod(C::spec_cardinality()).spec_prod(D::spec_cardinality()).spec_prod(E::spec_cardinality()).spec_prod(F::spec_cardinality()).spec_prod(G::spec_cardinality()).spec_prod(H::spec_cardinality()),
                I::spec_cardinality(),
            );
        }
        let mut children = seed.split_among(9);
        let seed_i = children.pop().unwrap();
        let seed_h = children.pop().unwrap();
        let seed_g = children.pop().unwrap();
        let seed_f = children.pop().unwrap();
        let seed_e = children.pop().unwrap();
        let seed_d = children.pop().unwrap();
        let seed_c = children.pop().unwrap();
        let seed_b = children.pop().unwrap();
        let seed_a = children.pop().unwrap();
        let a = match A::leaf(seed_a) {
            Ok(a) => a,
            Err(error) => {
                return Err(error);
            },
        };
        let b = match B::leaf(seed_b) {
            Ok(b) => b,
            Err(error) => {
                return Err(error);
            },
        };
        let c = match C::leaf(seed_c) {
            Ok(c) => c,
            Err(error) => {
                return Err(error);
            },
        };
        let d = match D::leaf(seed_d) {
            Ok(d) => d,
            Err(error) => {
                return Err(error);
            },
        };
        let e = match E::leaf(seed_e) {
            Ok(e) => e,
            Err(error) => {
                return Err(error);
            },
        };
        let f = match F::leaf(seed_f) {
            Ok(f) => f,
            Err(error) => {
                return Err(error);
            },
        };
        let g = match G::leaf(seed_g) {
            Ok(g) => g,
            Err(error) => {
                return Err(error);
            },
        };
        let h = match H::leaf(seed_h) {
            Ok(h) => h,
            Err(error) => {
                return Err(error);
            },
        };
        let i = match I::leaf(seed_i) {
            Ok(i) => i,
            Err(error) => {
                return Err(error);
            },
        };
        Ok((a, b, c, d, e, f, g, h, i))
    }

    fn corners() -> (all: Vec<Self>) {
        let firsts = A::corners();
        let rest = <(B, C, D, E, F, G, H, I) as Conjure>::corners();
        let nested = pairs(&firsts, &rest);
        let mut all: Vec<(A, B, C, D, E, F, G, H, I)> = Vec::with_capacity(nested.len());
        let mut i: usize = 0;
        while i < nested.len()
            invariant
                i <= nested.len(),
                all.len() == i,
                forall|j: int| 0 <= j < i ==> all@[j].model() == spec_flat9(nested@[j].model()),
            decreases nested.len() - i,
        {
            let item = &nested[i];
            all.push((item.0.dup(), item.1.0.dup(), item.1.1.dup(), item.1.2.dup(), item.1.3.dup(), item.1.4.dup(), item.1.5.dup(), item.1.6.dup(), item.1.7.dup()));
            i += 1;
        }
        assert(models(all@) =~= Self::spec_corners());
        all
    }

    fn variants() -> (all: Vec<Cardinality>) {
        let mut all = Vec::new();
        all.push(Self::cardinality());
        assert(all@ =~= seq![Self::spec_cardinality()]);
        all
    }

    fn build(index: usize, seed: Seed) -> (made: Result<Self, Uninstantiable>) {
        if index == 0 {
            Self::conjure(seed)
        } else {
            Err(Uninstantiable)
        }
    }
}

impl<A: Shrink, B: Shrink, C: Shrink, D: Shrink, E: Shrink, F: Shrink, G: Shrink, H: Shrink, I: Shrink> Shrink for (A, B, C, D, E, F, G, H, I) {
    open spec fn measure(model: (A::Model, B::Model, C::Model, D::Model, E::Model, F::Model, G::Model, H::Model, I::Model)) -> nat {
        A::measure(model.0)
            + B::measure(model.1)
            + C::measure(model.2)
            + D::measure(model.3)
            + E::measure(model.4)
            + F::measure(model.5)
            + G::measure(model.6)
            + H::measure(model.7)
            + I::measure(model.8)
    }

    /// The first component is shrunk with the others held fixed. Then the
    /// others are shrunk as a tuple, against the first component as it is by
    /// then, and kept as they are if nothing smaller passes.
    open spec fn spec_step(model: (A::Model, B::Model, C::Model, D::Model, E::Model, F::Model, G::Model, H::Model, I::Model), meaning: spec_fn((A::Model, B::Model, C::Model, D::Model, E::Model, F::Model, G::Model, H::Model, I::Model)) -> bool) -> Option<(A::Model, B::Model, C::Model, D::Model, E::Model, F::Model, G::Model, H::Model, I::Model)> {
        let rest = (model.1, model.2, model.3, model.4, model.5, model.6, model.7, model.8);
        match A::spec_step(model.0, with_rest9::<A, B, C, D, E, F, G, H, I>(meaning, rest)) {
            Some(first) => match <(B, C, D, E, F, G, H, I) as Shrink>::spec_step(
                rest,
                with_head9::<A, B, C, D, E, F, G, H, I>(meaning, first),
            ) {
                Some(smaller) => Some((first, smaller.0, smaller.1, smaller.2, smaller.3, smaller.4, smaller.5, smaller.6, smaller.7)),
                None => Some((first, rest.0, rest.1, rest.2, rest.3, rest.4, rest.5, rest.6, rest.7)),
            },
            None => match <(B, C, D, E, F, G, H, I) as Shrink>::spec_step(
                rest,
                with_head9::<A, B, C, D, E, F, G, H, I>(meaning, model.0),
            ) {
                Some(smaller) => Some((model.0, smaller.0, smaller.1, smaller.2, smaller.3, smaller.4, smaller.5, smaller.6, smaller.7)),
                None => None,
            },
        }
    }

    proof fn lemma_step(model: (A::Model, B::Model, C::Model, D::Model, E::Model, F::Model, G::Model, H::Model, I::Model), meaning: spec_fn((A::Model, B::Model, C::Model, D::Model, E::Model, F::Model, G::Model, H::Model, I::Model)) -> bool) {
        let rest = (model.1, model.2, model.3, model.4, model.5, model.6, model.7, model.8);
        A::lemma_step(model.0, with_rest9::<A, B, C, D, E, F, G, H, I>(meaning, rest));
        match A::spec_step(model.0, with_rest9::<A, B, C, D, E, F, G, H, I>(meaning, rest)) {
            Some(first) => {
                <(B, C, D, E, F, G, H, I) as Shrink>::lemma_step(rest, with_head9::<A, B, C, D, E, F, G, H, I>(meaning, first));
            },
            None => {
                <(B, C, D, E, F, G, H, I) as Shrink>::lemma_step(rest, with_head9::<A, B, C, D, E, F, G, H, I>(meaning, model.0));
            },
        }
    }

    fn step<P: Fn(&Self) -> bool>(&self, property: &P) -> (smaller: Option<Self>) {
        let rest = (self.1.dup(), self.2.dup(), self.3.dup(), self.4.dup(), self.5.dup(), self.6.dup(), self.7.dup(), self.8.dup());
        let on_first = |first: &A| -> (answer: bool)
            ensures
                answers(
                    property,
                    ((*first).model(), self.1.model(), self.2.model(), self.3.model(), self.4.model(), self.5.model(), self.6.model(), self.7.model(), self.8.model()),
                    answer,
                ),
            {
                let whole = ((*first).dup(), self.1.dup(), self.2.dup(), self.3.dup(), self.4.dup(), self.5.dup(), self.6.dup(), self.7.dup(), self.8.dup());
                property(&whole)
            };
        proof {
            assert forall|meaning: spec_fn((A::Model, B::Model, C::Model, D::Model, E::Model, F::Model, G::Model, H::Model, I::Model)) -> bool| #[trigger]
                agrees(property, meaning) implies agrees(
                &on_first,
                with_rest9::<A, B, C, D, E, F, G, H, I>(meaning, (self.1.model(), self.2.model(), self.3.model(), self.4.model(), self.5.model(), self.6.model(), self.7.model(), self.8.model())),
            ) by {}
        }
        match self.0.step(&on_first) {
            Some(first) => {
                let on_rest = |others: &(B, C, D, E, F, G, H, I)| -> (answer: bool)
                    ensures
                        answers(
                            property,
                            (first.model(), others.0.model(), others.1.model(), others.2.model(), others.3.model(), others.4.model(), others.5.model(), others.6.model(), others.7.model()),
                            answer,
                        ),
                    {
                        let whole = (first.dup(), others.0.dup(), others.1.dup(), others.2.dup(), others.3.dup(), others.4.dup(), others.5.dup(), others.6.dup(), others.7.dup());
                        property(&whole)
                    };
                proof {
                    assert forall|meaning: spec_fn((A::Model, B::Model, C::Model, D::Model, E::Model, F::Model, G::Model, H::Model, I::Model)) -> bool| #[trigger]
                        agrees(property, meaning) implies agrees(
                        &on_rest,
                        with_head9::<A, B, C, D, E, F, G, H, I>(meaning, first.model()),
                    ) by {}
                }
                match rest.step(&on_rest) {
                    Some(smaller) => Some((first, smaller.0, smaller.1, smaller.2, smaller.3, smaller.4, smaller.5, smaller.6, smaller.7)),
                    None => Some((first, rest.0, rest.1, rest.2, rest.3, rest.4, rest.5, rest.6, rest.7)),
                }
            },
            None => {
                let on_rest = |others: &(B, C, D, E, F, G, H, I)| -> (answer: bool)
                    ensures
                        answers(
                            property,
                            (self.0.model(), others.0.model(), others.1.model(), others.2.model(), others.3.model(), others.4.model(), others.5.model(), others.6.model(), others.7.model()),
                            answer,
                        ),
                    {
                        let whole = (self.0.dup(), others.0.dup(), others.1.dup(), others.2.dup(), others.3.dup(), others.4.dup(), others.5.dup(), others.6.dup(), others.7.dup());
                        property(&whole)
                    };
                proof {
                    assert forall|meaning: spec_fn((A::Model, B::Model, C::Model, D::Model, E::Model, F::Model, G::Model, H::Model, I::Model)) -> bool| #[trigger]
                        agrees(property, meaning) implies agrees(
                        &on_rest,
                        with_head9::<A, B, C, D, E, F, G, H, I>(meaning, self.0.model()),
                    ) by {}
                }
                match rest.step(&on_rest) {
                    Some(smaller) => Some((self.0.dup(), smaller.0, smaller.1, smaller.2, smaller.3, smaller.4, smaller.5, smaller.6, smaller.7)),
                    None => None,
                }
            },
        }
    }
}

impl<A: Term, B: Term, C: Term, D: Term, E: Term, F: Term, G: Term, H: Term, I: Term, J: Term> Term for (A, B, C, D, E, F, G, H, I, J) {
    type Model = (A::Model, B::Model, C::Model, D::Model, E::Model, F::Model, G::Model, H::Model, I::Model, J::Model);

    open spec fn model(&self) -> (A::Model, B::Model, C::Model, D::Model, E::Model, F::Model, G::Model, H::Model, I::Model, J::Model) {
        (self.0.model(), self.1.model(), self.2.model(), self.3.model(), self.4.model(), self.5.model(), self.6.model(), self.7.model(), self.8.model(), self.9.model())
    }

    fn dup(&self) -> (copy: Self) {
        (self.0.dup(), self.1.dup(), self.2.dup(), self.3.dup(), self.4.dup(), self.5.dup(), self.6.dup(), self.7.dup(), self.8.dup(), self.9.dup())
    }

    fn same(&self, other: &Self) -> (equal: bool) {
        self.0.same(&other.0)
            && self.1.same(&other.1)
            && self.2.same(&other.2)
            && self.3.same(&other.3)
            && self.4.same(&other.4)
            && self.5.same(&other.5)
            && self.6.same(&other.6)
            && self.7.same(&other.7)
            && self.8.same(&other.8)
            && self.9.same(&other.9)
    }
}

impl<A: Count, B: Count, C: Count, D: Count, E: Count, F: Count, G: Count, H: Count, I: Count, J: Count> Count for (A, B, C, D, E, F, G, H, I, J) {
    open spec fn spec_cardinality() -> Cardinality {
        A::spec_cardinality()
            .spec_prod(B::spec_cardinality())
            .spec_prod(C::spec_cardinality())
            .spec_prod(D::spec_cardinality())
            .spec_prod(E::spec_cardinality())
            .spec_prod(F::spec_cardinality())
            .spec_prod(G::spec_cardinality())
            .spec_prod(H::spec_cardinality())
            .spec_prod(I::spec_cardinality())
            .spec_prod(J::spec_cardinality())
    }

    fn cardinality() -> (c: Cardinality) {
        A::cardinality()
            .of_prod(B::cardinality())
            .of_prod(C::cardinality())
            .of_prod(D::cardinality())
            .of_prod(E::cardinality())
            .of_prod(F::cardinality())
            .of_prod(G::cardinality())
            .of_prod(H::cardinality())
            .of_prod(I::cardinality())
            .of_prod(J::cardinality())
    }
}

/// The tuple of ten of a first component and a tuple of the others.
pub open spec fn spec_flat10<A, B, C, D, E, F, G, H, I, J>(nested: (A, (B, C, D, E, F, G, H, I, J))) -> (A, B, C, D, E, F, G, H, I, J) {
    (nested.0, nested.1.0, nested.1.1, nested.1.2, nested.1.3, nested.1.4, nested.1.5, nested.1.6, nested.1.7, nested.1.8)
}

/// A property of tuples of ten, as a property of the first component
/// with the others held fixed.
pub open spec fn with_rest10<A: Term, B: Term, C: Term, D: Term, E: Term, F: Term, G: Term, H: Term, I: Term, J: Term>(
    meaning: spec_fn((A::Model, B::Model, C::Model, D::Model, E::Model, F::Model, G::Model, H::Model, I::Model, J::Model)) -> bool,
    rest: (B::Model, C::Model, D::Model, E::Model, F::Model, G::Model, H::Model, I::Model, J::Model),
) -> spec_fn(A::Model) -> bool {
    |first: A::Model| meaning((first, rest.0, rest.1, rest.2, rest.3, rest.4, rest.5, rest.6, rest.7, rest.8))
}

/// A property of tuples of ten, as a property of the components after
/// the first with the first held fixed.
pub open spec fn with_head10<A: Term, B: Term, C: Term, D: Term, E: Term, F: Term, G: Term, H: Term, I: Term, J: Term>(
    meaning: spec_fn((A::Model, B::Model, C::Model, D::Model, E::Model, F::Model, G::Model, H::Model, I::Model, J::Model)) -> bool,
    first: A::Model,
) -> spec_fn((B::Model, C::Model, D::Model, E::Model, F::Model, G::Model, H::Model, I::Model, J::Model)) -> bool {
    |rest: (B::Model, C::Model, D::Model, E::Model, F::Model, G::Model, H::Model, I::Model, J::Model)| meaning((first, rest.0, rest.1, rest.2, rest.3, rest.4, rest.5, rest.6, rest.7, rest.8))
}

impl<A: Conjure, B: Conjure, C: Conjure, D: Conjure, E: Conjure, F: Conjure, G: Conjure, H: Conjure, I: Conjure, J: Conjure> Conjure for (A, B, C, D, E, F, G, H, I, J) {
    /// The size budget is partitioned among the ten components.
    open spec fn spec_conjure(seed: Seed) -> Result<(A::Model, B::Model, C::Model, D::Model, E::Model, F::Model, G::Model, H::Model, I::Model, J::Model), Uninstantiable> {
        let children = seed.spec_partition(seed.size, 10);
        match A::spec_conjure(children[0]) {
            Err(error) => Err(error),
            Ok(a) => match B::spec_conjure(children[1]) {
                Err(error) => Err(error),
                Ok(b) => match C::spec_conjure(children[2]) {
                    Err(error) => Err(error),
                    Ok(c) => match D::spec_conjure(children[3]) {
                        Err(error) => Err(error),
                        Ok(d) => match E::spec_conjure(children[4]) {
                            Err(error) => Err(error),
                            Ok(e) => match F::spec_conjure(children[5]) {
                                Err(error) => Err(error),
                                Ok(f) => match G::spec_conjure(children[6]) {
                                    Err(error) => Err(error),
                                    Ok(g) => match H::spec_conjure(children[7]) {
                                        Err(error) => Err(error),
                                        Ok(h) => match I::spec_conjure(children[8]) {
                                            Err(error) => Err(error),
                                            Ok(i) => match J::spec_conjure(children[9]) {
                                                Err(error) => Err(error),
                                                Ok(j) => Ok((a, b, c, d, e, f, g, h, i, j)),
                                            },
                                        },
                                    },
                                },
                            },
                        },
                    },
                },
            },
        }
    }

    /// The seed is split among the ten components.
    open spec fn spec_leaf(seed: Seed) -> Result<(A::Model, B::Model, C::Model, D::Model, E::Model, F::Model, G::Model, H::Model, I::Model, J::Model), Uninstantiable> {
        let children = seed.spec_split(10);
        match A::spec_leaf(children[0]) {
            Err(error) => Err(error),
            Ok(a) => match B::spec_leaf(children[1]) {
                Err(error) => Err(error),
                Ok(b) => match C::spec_leaf(children[2]) {
                    Err(error) => Err(error),
                    Ok(c) => match D::spec_leaf(children[3]) {
                        Err(error) => Err(error),
                        Ok(d) => match E::spec_leaf(children[4]) {
                            Err(error) => Err(error),
                            Ok(e) => match F::spec_leaf(children[5]) {
                                Err(error) => Err(error),
                                Ok(f) => match G::spec_leaf(children[6]) {
                                    Err(error) => Err(error),
                                    Ok(g) => match H::spec_leaf(children[7]) {
                                        Err(error) => Err(error),
                                        Ok(h) => match I::spec_leaf(children[8]) {
                                            Err(error) => Err(error),
                                            Ok(i) => match J::spec_leaf(children[9]) {
                                                Err(error) => Err(error),
                                                Ok(j) => Ok((a, b, c, d, e, f, g, h, i, j)),
                                            },
                                        },
                                    },
                                },
                            },
                        },
                    },
                },
            },
        }
    }

    /// Every tuple of corner cases, the first component varying slowest and
    /// the last fastest.
    open spec fn spec_corners() -> Seq<(A::Model, B::Model, C::Model, D::Model, E::Model, F::Model, G::Model, H::Model, I::Model, J::Model)> {
        let nested = spec_pairs(A::spec_corners(), <(B, C, D, E, F, G, H, I, J) as Conjure>::spec_corners());
        Seq::new(nested.len(), |i: int| spec_flat10(nested[i]))
    }

    /// A tuple has one shape.
    open spec fn spec_variants() -> Seq<Cardinality> {
        seq![Self::spec_cardinality()]
    }

    open spec fn spec_build(index: int, seed: Seed) -> Result<(A::Model, B::Model, C::Model, D::Model, E::Model, F::Model, G::Model, H::Model, I::Model, J::Model), Uninstantiable> {
        if index == 0 {
            Self::spec_conjure(seed)
        } else {
            Err(Uninstantiable)
        }
    }

    fn conjure(seed: Seed) -> (made: Result<Self, Uninstantiable>) {
        proof {
            lemma_empty_sum_prod(
                A::spec_cardinality(),
                B::spec_cardinality(),
            );
            lemma_empty_sum_prod(
                A::spec_cardinality().spec_prod(B::spec_cardinality()),
                C::spec_cardinality(),
            );
            lemma_empty_sum_prod(
                A::spec_cardinality().spec_prod(B::spec_cardinality()).spec_prod(C::spec_cardinality()),
                D::spec_cardinality(),
            );
            lemma_empty_sum_prod(
                A::spec_cardinality().spec_prod(B::spec_cardinality()).spec_prod(C::spec_cardinality()).spec_prod(D::spec_cardinality()),
                E::spec_cardinality(),
            );
            lemma_empty_sum_prod(
                A::spec_cardinality().spec_prod(B::spec_cardinality()).spec_prod(C::spec_cardinality()).spec_prod(D::spec_cardinality()).spec_prod(E::spec_cardinality()),
                F::spec_cardinality(),
            );
            lemma_empty_sum_prod(
                A::spec_cardinality().spec_prod(B::spec_cardinality()).spec_prod(C::spec_cardinality()).spec_prod(D::spec_cardinality()).spec_prod(E::spec_cardinality()).spec_prod(F::spec_cardinality()),
                G::spec_cardinality(),
            );
            lemma_empty_sum_prod(
                A::spec_cardinality().spec_prod(B::spec_cardinality()).spec_prod(C::spec_cardinality()).spec_prod(D::spec_cardinality()).spec_prod(E::spec_cardinality()).spec_prod(F::spec_cardinality()).spec_prod(G::spec_cardinality()),
                H::spec_cardinality(),
            );
            lemma_empty_sum_prod(
                A::spec_cardinality().spec_prod(B::spec_cardinality()).spec_prod(C::spec_cardinality()).spec_prod(D::spec_cardinality()).spec_prod(E::spec_cardinality()).spec_prod(F::spec_cardinality()).spec_prod(G::spec_cardinality()).spec_prod(H::spec_cardinality()),
                I::spec_cardinality(),
            );
            lemma_empty_sum_prod(
                A::spec_cardinality().spec_prod(B::spec_cardinality()).spec_prod(C::spec_cardinality()).spec_prod(D::spec_cardinality()).spec_prod(E::spec_cardinality()).spec_prod(F::spec_cardinality()).spec_prod(G::spec_cardinality()).spec_prod(H::spec_cardinality()).spec_prod(I::spec_cardinality()),
                J::spec_cardinality(),
            );
            seed.lemma_partition(seed.size, 10);
        }
        let size = seed.size;
        let mut children = seed.partition_among(size, 10);
        let seed_j = children.pop().unwrap();
        let seed_i = children.pop().unwrap();
        let seed_h = children.pop().unwrap();
        let seed_g = children.pop().unwrap();
        let seed_f = children.pop().unwrap();
        let seed_e = children.pop().unwrap();
        let seed_d = children.pop().unwrap();
        let seed_c = children.pop().unwrap();
        let seed_b = children.pop().unwrap();
        let seed_a = children.pop().unwrap();
        let a = match A::conjure(seed_a) {
            Ok(a) => a,
            Err(error) => {
                return Err(error);
            },
        };
        let b = match B::conjure(seed_b) {
            Ok(b) => b,
            Err(error) => {
                return Err(error);
            },
        };
        let c = match C::conjure(seed_c) {
            Ok(c) => c,
            Err(error) => {
                return Err(error);
            },
        };
        let d = match D::conjure(seed_d) {
            Ok(d) => d,
            Err(error) => {
                return Err(error);
            },
        };
        let e = match E::conjure(seed_e) {
            Ok(e) => e,
            Err(error) => {
                return Err(error);
            },
        };
        let f = match F::conjure(seed_f) {
            Ok(f) => f,
            Err(error) => {
                return Err(error);
            },
        };
        let g = match G::conjure(seed_g) {
            Ok(g) => g,
            Err(error) => {
                return Err(error);
            },
        };
        let h = match H::conjure(seed_h) {
            Ok(h) => h,
            Err(error) => {
                return Err(error);
            },
        };
        let i = match I::conjure(seed_i) {
            Ok(i) => i,
            Err(error) => {
                return Err(error);
            },
        };
        let j = match J::conjure(seed_j) {
            Ok(j) => j,
            Err(error) => {
                return Err(error);
            },
        };
        Ok((a, b, c, d, e, f, g, h, i, j))
    }

    fn leaf(seed: Seed) -> (made: Result<Self, Uninstantiable>) {
        proof {
            lemma_empty_sum_prod(
                A::spec_cardinality(),
                B::spec_cardinality(),
            );
            lemma_empty_sum_prod(
                A::spec_cardinality().spec_prod(B::spec_cardinality()),
                C::spec_cardinality(),
            );
            lemma_empty_sum_prod(
                A::spec_cardinality().spec_prod(B::spec_cardinality()).spec_prod(C::spec_cardinality()),
                D::spec_cardinality(),
            );
            lemma_empty_sum_prod(
                A::spec_cardinality().spec_prod(B::spec_cardinality()).spec_prod(C::spec_cardinality()).spec_prod(D::spec_cardinality()),
                E::spec_cardinality(),
            );
            lemma_empty_sum_prod(
                A::spec_cardinality().spec_prod(B::spec_cardinality()).spec_prod(C::spec_cardinality()).spec_prod(D::spec_cardinality()).spec_prod(E::spec_cardinality()),
                F::spec_cardinality(),
            );
            lemma_empty_sum_prod(
                A::spec_cardinality().spec_prod(B::spec_cardinality()).spec_prod(C::spec_cardinality()).spec_prod(D::spec_cardinality()).spec_prod(E::spec_cardinality()).spec_prod(F::spec_cardinality()),
                G::spec_cardinality(),
            );
            lemma_empty_sum_prod(
                A::spec_cardinality().spec_prod(B::spec_cardinality()).spec_prod(C::spec_cardinality()).spec_prod(D::spec_cardinality()).spec_prod(E::spec_cardinality()).spec_prod(F::spec_cardinality()).spec_prod(G::spec_cardinality()),
                H::spec_cardinality(),
            );
            lemma_empty_sum_prod(
                A::spec_cardinality().spec_prod(B::spec_cardinality()).spec_prod(C::spec_cardinality()).spec_prod(D::spec_cardinality()).spec_prod(E::spec_cardinality()).spec_prod(F::spec_cardinality()).spec_prod(G::spec_cardinality()).spec_prod(H::spec_cardinality()),
                I::spec_cardinality(),
            );
            lemma_empty_sum_prod(
                A::spec_cardinality().spec_prod(B::spec_cardinality()).spec_prod(C::spec_cardinality()).spec_prod(D::spec_cardinality()).spec_prod(E::spec_cardinality()).spec_prod(F::spec_cardinality()).spec_prod(G::spec_cardinality()).spec_prod(H::spec_cardinality()).spec_prod(I::spec_cardinality()),
                J::spec_cardinality(),
            );
        }
        let mut children = seed.split_among(10);
        let seed_j = children.pop().unwrap();
        let seed_i = children.pop().unwrap();
        let seed_h = children.pop().unwrap();
        let seed_g = children.pop().unwrap();
        let seed_f = children.pop().unwrap();
        let seed_e = children.pop().unwrap();
        let seed_d = children.pop().unwrap();
        let seed_c = children.pop().unwrap();
        let seed_b = children.pop().unwrap();
        let seed_a = children.pop().unwrap();
        let a = match A::leaf(seed_a) {
            Ok(a) => a,
            Err(error) => {
                return Err(error);
            },
        };
        let b = match B::leaf(seed_b) {
            Ok(b) => b,
            Err(error) => {
                return Err(error);
            },
        };
        let c = match C::leaf(seed_c) {
            Ok(c) => c,
            Err(error) => {
                return Err(error);
            },
        };
        let d = match D::leaf(seed_d) {
            Ok(d) => d,
            Err(error) => {
                return Err(error);
            },
        };
        let e = match E::leaf(seed_e) {
            Ok(e) => e,
            Err(error) => {
                return Err(error);
            },
        };
        let f = match F::leaf(seed_f) {
            Ok(f) => f,
            Err(error) => {
                return Err(error);
            },
        };
        let g = match G::leaf(seed_g) {
            Ok(g) => g,
            Err(error) => {
                return Err(error);
            },
        };
        let h = match H::leaf(seed_h) {
            Ok(h) => h,
            Err(error) => {
                return Err(error);
            },
        };
        let i = match I::leaf(seed_i) {
            Ok(i) => i,
            Err(error) => {
                return Err(error);
            },
        };
        let j = match J::leaf(seed_j) {
            Ok(j) => j,
            Err(error) => {
                return Err(error);
            },
        };
        Ok((a, b, c, d, e, f, g, h, i, j))
    }

    fn corners() -> (all: Vec<Self>) {
        let firsts = A::corners();
        let rest = <(B, C, D, E, F, G, H, I, J) as Conjure>::corners();
        let nested = pairs(&firsts, &rest);
        let mut all: Vec<(A, B, C, D, E, F, G, H, I, J)> = Vec::with_capacity(nested.len());
        let mut i: usize = 0;
        while i < nested.len()
            invariant
                i <= nested.len(),
                all.len() == i,
                forall|j: int| 0 <= j < i ==> all@[j].model() == spec_flat10(nested@[j].model()),
            decreases nested.len() - i,
        {
            let item = &nested[i];
            all.push((item.0.dup(), item.1.0.dup(), item.1.1.dup(), item.1.2.dup(), item.1.3.dup(), item.1.4.dup(), item.1.5.dup(), item.1.6.dup(), item.1.7.dup(), item.1.8.dup()));
            i += 1;
        }
        assert(models(all@) =~= Self::spec_corners());
        all
    }

    fn variants() -> (all: Vec<Cardinality>) {
        let mut all = Vec::new();
        all.push(Self::cardinality());
        assert(all@ =~= seq![Self::spec_cardinality()]);
        all
    }

    fn build(index: usize, seed: Seed) -> (made: Result<Self, Uninstantiable>) {
        if index == 0 {
            Self::conjure(seed)
        } else {
            Err(Uninstantiable)
        }
    }
}

impl<A: Shrink, B: Shrink, C: Shrink, D: Shrink, E: Shrink, F: Shrink, G: Shrink, H: Shrink, I: Shrink, J: Shrink> Shrink for (A, B, C, D, E, F, G, H, I, J) {
    open spec fn measure(model: (A::Model, B::Model, C::Model, D::Model, E::Model, F::Model, G::Model, H::Model, I::Model, J::Model)) -> nat {
        A::measure(model.0)
            + B::measure(model.1)
            + C::measure(model.2)
            + D::measure(model.3)
            + E::measure(model.4)
            + F::measure(model.5)
            + G::measure(model.6)
            + H::measure(model.7)
            + I::measure(model.8)
            + J::measure(model.9)
    }

    /// The first component is shrunk with the others held fixed. Then the
    /// others are shrunk as a tuple, against the first component as it is by
    /// then, and kept as they are if nothing smaller passes.
    open spec fn spec_step(model: (A::Model, B::Model, C::Model, D::Model, E::Model, F::Model, G::Model, H::Model, I::Model, J::Model), meaning: spec_fn((A::Model, B::Model, C::Model, D::Model, E::Model, F::Model, G::Model, H::Model, I::Model, J::Model)) -> bool) -> Option<(A::Model, B::Model, C::Model, D::Model, E::Model, F::Model, G::Model, H::Model, I::Model, J::Model)> {
        let rest = (model.1, model.2, model.3, model.4, model.5, model.6, model.7, model.8, model.9);
        match A::spec_step(model.0, with_rest10::<A, B, C, D, E, F, G, H, I, J>(meaning, rest)) {
            Some(first) => match <(B, C, D, E, F, G, H, I, J) as Shrink>::spec_step(
                rest,
                with_head10::<A, B, C, D, E, F, G, H, I, J>(meaning, first),
            ) {
                Some(smaller) => Some((first, smaller.0, smaller.1, smaller.2, smaller.3, smaller.4, smaller.5, smaller.6, smaller.7, smaller.8)),
                None => Some((first, rest.0, rest.1, rest.2, rest.3, rest.4, rest.5, rest.6, rest.7, rest.8)),
            },
            None => match <(B, C, D, E, F, G, H, I, J) as Shrink>::spec_step(
                rest,
                with_head10::<A, B, C, D, E, F, G, H, I, J>(meaning, model.0),
            ) {
                Some(smaller) => Some((model.0, smaller.0, smaller.1, smaller.2, smaller.3, smaller.4, smaller.5, smaller.6, smaller.7, smaller.8)),
                None => None,
            },
        }
    }

    proof fn lemma_step(model: (A::Model, B::Model, C::Model, D::Model, E::Model, F::Model, G::Model, H::Model, I::Model, J::Model), meaning: spec_fn((A::Model, B::Model, C::Model, D::Model, E::Model, F::Model, G::Model, H::Model, I::Model, J::Model)) -> bool) {
        let rest = (model.1, model.2, model.3, model.4, model.5, model.6, model.7, model.8, model.9);
        A::lemma_step(model.0, with_rest10::<A, B, C, D, E, F, G, H, I, J>(meaning, rest));
        match A::spec_step(model.0, with_rest10::<A, B, C, D, E, F, G, H, I, J>(meaning, rest)) {
            Some(first) => {
                <(B, C, D, E, F, G, H, I, J) as Shrink>::lemma_step(rest, with_head10::<A, B, C, D, E, F, G, H, I, J>(meaning, first));
            },
            None => {
                <(B, C, D, E, F, G, H, I, J) as Shrink>::lemma_step(rest, with_head10::<A, B, C, D, E, F, G, H, I, J>(meaning, model.0));
            },
        }
    }

    fn step<P: Fn(&Self) -> bool>(&self, property: &P) -> (smaller: Option<Self>) {
        let rest = (self.1.dup(), self.2.dup(), self.3.dup(), self.4.dup(), self.5.dup(), self.6.dup(), self.7.dup(), self.8.dup(), self.9.dup());
        let on_first = |first: &A| -> (answer: bool)
            ensures
                answers(
                    property,
                    ((*first).model(), self.1.model(), self.2.model(), self.3.model(), self.4.model(), self.5.model(), self.6.model(), self.7.model(), self.8.model(), self.9.model()),
                    answer,
                ),
            {
                let whole = ((*first).dup(), self.1.dup(), self.2.dup(), self.3.dup(), self.4.dup(), self.5.dup(), self.6.dup(), self.7.dup(), self.8.dup(), self.9.dup());
                property(&whole)
            };
        proof {
            assert forall|meaning: spec_fn((A::Model, B::Model, C::Model, D::Model, E::Model, F::Model, G::Model, H::Model, I::Model, J::Model)) -> bool| #[trigger]
                agrees(property, meaning) implies agrees(
                &on_first,
                with_rest10::<A, B, C, D, E, F, G, H, I, J>(meaning, (self.1.model(), self.2.model(), self.3.model(), self.4.model(), self.5.model(), self.6.model(), self.7.model(), self.8.model(), self.9.model())),
            ) by {}
        }
        match self.0.step(&on_first) {
            Some(first) => {
                let on_rest = |others: &(B, C, D, E, F, G, H, I, J)| -> (answer: bool)
                    ensures
                        answers(
                            property,
                            (first.model(), others.0.model(), others.1.model(), others.2.model(), others.3.model(), others.4.model(), others.5.model(), others.6.model(), others.7.model(), others.8.model()),
                            answer,
                        ),
                    {
                        let whole = (first.dup(), others.0.dup(), others.1.dup(), others.2.dup(), others.3.dup(), others.4.dup(), others.5.dup(), others.6.dup(), others.7.dup(), others.8.dup());
                        property(&whole)
                    };
                proof {
                    assert forall|meaning: spec_fn((A::Model, B::Model, C::Model, D::Model, E::Model, F::Model, G::Model, H::Model, I::Model, J::Model)) -> bool| #[trigger]
                        agrees(property, meaning) implies agrees(
                        &on_rest,
                        with_head10::<A, B, C, D, E, F, G, H, I, J>(meaning, first.model()),
                    ) by {}
                }
                match rest.step(&on_rest) {
                    Some(smaller) => Some((first, smaller.0, smaller.1, smaller.2, smaller.3, smaller.4, smaller.5, smaller.6, smaller.7, smaller.8)),
                    None => Some((first, rest.0, rest.1, rest.2, rest.3, rest.4, rest.5, rest.6, rest.7, rest.8)),
                }
            },
            None => {
                let on_rest = |others: &(B, C, D, E, F, G, H, I, J)| -> (answer: bool)
                    ensures
                        answers(
                            property,
                            (self.0.model(), others.0.model(), others.1.model(), others.2.model(), others.3.model(), others.4.model(), others.5.model(), others.6.model(), others.7.model(), others.8.model()),
                            answer,
                        ),
                    {
                        let whole = (self.0.dup(), others.0.dup(), others.1.dup(), others.2.dup(), others.3.dup(), others.4.dup(), others.5.dup(), others.6.dup(), others.7.dup(), others.8.dup());
                        property(&whole)
                    };
                proof {
                    assert forall|meaning: spec_fn((A::Model, B::Model, C::Model, D::Model, E::Model, F::Model, G::Model, H::Model, I::Model, J::Model)) -> bool| #[trigger]
                        agrees(property, meaning) implies agrees(
                        &on_rest,
                        with_head10::<A, B, C, D, E, F, G, H, I, J>(meaning, self.0.model()),
                    ) by {}
                }
                match rest.step(&on_rest) {
                    Some(smaller) => Some((self.0.dup(), smaller.0, smaller.1, smaller.2, smaller.3, smaller.4, smaller.5, smaller.6, smaller.7, smaller.8)),
                    None => None,
                }
            },
        }
    }
}

} // verus!
