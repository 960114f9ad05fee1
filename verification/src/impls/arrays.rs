//! Implementations for arrays.

use crate::conjure::{Conjure, Uninstantiable};
use crate::count::{Cardinality, Count};
use crate::impls::tuples::spec_pairs;
use crate::impls::vec::{lemma_sweep, measure_of, shrink_in_place, spec_sweep, spec_weight};
use crate::iter::pairs;
use crate::seed::Seed;
use crate::shrink::{agrees, answers, Shrink};
use crate::term::{array_from_vec, dup_all, models, Term};
use vstd::prelude::*;

verus! {

impl<T: Count, const N: usize> Count for [T; N] {
    /// An array with items is as large as its items are. There is one array
    /// without items, whatever the type of the items.
    open spec fn spec_cardinality() -> Cardinality {
        if N == 0 {
            Cardinality::Finite
        } else {
            T::spec_cardinality()
        }
    }

    fn cardinality() -> (c: Cardinality) {
        if N == 0 {
            Cardinality::Finite
        } else {
            T::cardinality()
        }
    }
}

/// A property of sequences that fails on every sequence of another length.
pub open spec fn of_length<M>(meaning: spec_fn(Seq<M>) -> bool, length: nat) -> spec_fn(
    Seq<M>,
) -> bool {
    |items: Seq<M>| items.len() == length && meaning(items)
}

/// Every sequence of `length` of the given items, the first place varying
/// slowest and the last fastest: the one sequence without items for length
/// zero, and otherwise every shorter sequence with every item behind it.
pub open spec fn spec_power<M>(items: Seq<M>, length: nat) -> Seq<Seq<M>>
    decreases length,
{
    if length == 0 {
        seq![Seq::empty()]
    } else {
        let longer = spec_pairs(spec_power(items, (length - 1) as nat), items);
        Seq::new(longer.len(), |i: int| longer[i].0.push(longer[i].1))
    }
}

/// Every pair of a sequence of pairs has its first component among the
/// first components and its second among the second components.
pub proof fn lemma_pairs_are_made_of<A, B>(firsts: Seq<A>, seconds: Seq<B>)
    ensures
        forall|i: int|
            0 <= i < spec_pairs(firsts, seconds).len() ==> firsts.contains(
                (#[trigger] spec_pairs(firsts, seconds)[i]).0,
            ) && seconds.contains(spec_pairs(firsts, seconds)[i].1),
    decreases firsts.len(),
{
    if firsts.len() > 0 {
        let front = firsts.drop_last();
        lemma_pairs_are_made_of(front, seconds);
        let before = spec_pairs(front, seconds);
        assert forall|i: int| 0 <= i < spec_pairs(firsts, seconds).len() implies firsts.contains(
            (#[trigger] spec_pairs(firsts, seconds)[i]).0,
        ) && seconds.contains(spec_pairs(firsts, seconds)[i].1) by {
            if i < before.len() {
                let at = choose|at: int| 0 <= at < front.len() && front[at] == before[i].0;
                assert(firsts[at] == before[i].0);
            } else {
                assert(firsts[firsts.len() - 1] == firsts.last());
                assert(seconds[i - before.len()] == spec_pairs(firsts, seconds)[i].1);
            }
        }
    }
}

/// Every sequence that `spec_power` lists has the given length and is made
/// of the given items.
pub proof fn lemma_power<M>(items: Seq<M>, length: nat)
    ensures
        forall|i: int|
            0 <= i < spec_power(items, length).len() ==> (#[trigger] spec_power(
                items,
                length,
            )[i]).len() == length,
        forall|i: int, place: int|
            0 <= i < spec_power(items, length).len() && 0 <= place < length ==> items.contains(
                #[trigger] spec_power(items, length)[i][place],
            ),
    decreases length,
{
    if length > 0 {
        let shorter = spec_power(items, (length - 1) as nat);
        let longer = spec_pairs(shorter, items);
        lemma_power(items, (length - 1) as nat);
        lemma_pairs_are_made_of(shorter, items);
        assert forall|i: int| 0 <= i < spec_power(items, length).len() implies (
        #[trigger] spec_power(items, length)[i]).len() == length && forall|place: int|
            0 <= place < length ==> items.contains(
                #[trigger] spec_power(items, length)[i][place],
            ) by {
            let at = choose|at: int| 0 <= at < shorter.len() && shorter[at] == longer[i].0;
            assert(spec_power(items, length)[i] == longer[i].0.push(longer[i].1));
            assert forall|place: int| 0 <= place < length implies items.contains(
                #[trigger] spec_power(items, length)[i][place],
            ) by {
                if place < length - 1 {
                    assert(spec_power(items, length)[i][place] == shorter[at][place]);
                }
            }
        }
    }
}

/// A sequence of pairs holds every pair of one of the first components and
/// one of the second components.
pub proof fn lemma_pairs_hold_every<A, B>(firsts: Seq<A>, seconds: Seq<B>, first: A, second: B)
    requires
        firsts.contains(first),
        seconds.contains(second),
    ensures
        spec_pairs(firsts, seconds).contains((first, second)),
    decreases firsts.len(),
{
    let front = firsts.drop_last();
    let before = spec_pairs(front, seconds);
    let all = spec_pairs(firsts, seconds);
    if firsts.last() == first {
        let j = choose|j: int| 0 <= j < seconds.len() && seconds[j] == second;
        assert(all[before.len() + j] == (first, second));
    } else {
        let at = choose|at: int| 0 <= at < firsts.len() && firsts[at] == first;
        assert(front[at] == first);
        lemma_pairs_hold_every(front, seconds, first, second);
        let i = choose|i: int| 0 <= i < before.len() && before[i] == (first, second);
        assert(all[i] == (first, second));
    }
}

/// `spec_power` lists every sequence of the given length that is made of
/// the given items.
pub proof fn lemma_power_holds_every<M>(items: Seq<M>, length: nat, sequence: Seq<M>)
    requires
        sequence.len() == length,
        forall|place: int| 0 <= place < length ==> items.contains(#[trigger] sequence[place]),
    ensures
        spec_power(items, length).contains(sequence),
    decreases length,
{
    if length == 0 {
        assert(sequence =~= Seq::<M>::empty());
        assert(spec_power(items, length)[0] == sequence);
    } else {
        let front = sequence.drop_last();
        let shorter = spec_power(items, (length - 1) as nat);
        let longer = spec_pairs(shorter, items);
        assert forall|place: int| 0 <= place < length - 1 implies items.contains(
            #[trigger] front[place],
        ) by {
            assert(front[place] == sequence[place]);
        }
        lemma_power_holds_every(items, (length - 1) as nat, front);
        assert(items.contains(sequence[length - 1]));
        lemma_pairs_hold_every(shorter, items, front, sequence.last());
        let i = choose|i: int| 0 <= i < longer.len() && longer[i] == (front, sequence.last());
        assert(front.push(sequence.last()) =~= sequence);
        assert(spec_power(items, length)[i] == sequence);
    }
}

/// Every sequence of `length` copies of the given items, the first place
/// varying slowest: a product of the shorter sequences and the items, once
/// for every place.
pub fn power<T: Term>(items: &Vec<T>, length: usize) -> (all: Vec<Vec<T>>)
    ensures
        models(all@) == spec_power(models(items@), length as nat),
        forall|i: int| 0 <= i < all@.len() ==> (#[trigger] all@[i]).len() == length,
{
    let mut all: Vec<Vec<T>> = Vec::with_capacity(1);
    let none: Vec<T> = Vec::new();
    assert(none.model() =~= Seq::<T::Model>::empty());
    all.push(none);
    assert(models(all@) =~= spec_power(models(items@), 0));
    let mut built: usize = 0;
    while built < length
        invariant
            built <= length,
            models(all@) == spec_power(models(items@), built as nat),
        decreases length - built,
    {
        let nested = pairs(&all, items);
        let ghost shorter = models(all@);
        let mut longer: Vec<Vec<T>> = Vec::with_capacity(nested.len());
        let mut i: usize = 0;
        while i < nested.len()
            invariant
                i <= nested.len(),
                longer.len() == i,
                forall|j: int|
                    0 <= j < i ==> (#[trigger] longer@[j]).model() == nested@[j].model().0.push(
                        nested@[j].model().1,
                    ),
            decreases nested.len() - i,
        {
            let pair = &nested[i];
            let mut sequence = dup_all(pair.0.as_slice());
            let last = pair.1.dup();
            proof {
                crate::term::lemma_models_push(sequence@, last);
            }
            sequence.push(last);
            longer.push(sequence);
            i += 1;
        }
        proof {
            assert(models(nested@).len() == nested@.len());
            assert(models(longer@) =~= spec_power(models(items@), (built + 1) as nat));
        }
        all = longer;
        built += 1;
    }
    proof {
        lemma_power(models(items@), length as nat);
        assert forall|i: int| 0 <= i < all@.len() implies (#[trigger] all@[i]).len() == length by {
            assert(models(all@)[i] == all@[i].model());
            assert(all@[i].model().len() == all@[i]@.len());
        }
    }
    all
}

/// Generate one item from each seed, by `conjure` or by `leaf`, the last
/// seed first.
pub fn conjure_each<T: Conjure>(children: Vec<Seed>, leaf: bool) -> (made: Result<
    Vec<T>,
    Uninstantiable,
>)
    ensures
        made is Err <==> (children.len() > 0 && T::spec_cardinality() == Cardinality::Empty),
        made matches Ok(items) ==> items.len() == children.len() && forall|i: int|
            0 <= i < children.len() ==> Ok::<T::Model, Uninstantiable>(
                (#[trigger] items@[i]).model(),
            ) == (if leaf {
                T::spec_leaf(children@[i])
            } else {
                T::spec_conjure(children@[i])
            }),
{
    let mut rest = children;
    let mut made: Vec<T> = Vec::with_capacity(rest.len());
    while rest.len() > 0
        invariant
            rest@ == children@.take(rest.len() as int),
            rest.len() <= children.len(),
            made.len() == children.len() - rest.len(),
            rest.len() < children.len() ==> T::spec_cardinality() != Cardinality::Empty,
            forall|i: int|
                rest.len() <= i < children.len() ==> Ok::<T::Model, Uninstantiable>(
                    (#[trigger] made@[i - rest.len()]).model(),
                ) == (if leaf {
                    T::spec_leaf(children@[i])
                } else {
                    T::spec_conjure(children@[i])
                }),
        decreases rest.len(),
    {
        let ghost before = made@;
        let child = rest.pop().unwrap();
        let item = if leaf {
            T::leaf(child)
        } else {
            T::conjure(child)
        };
        match item {
            Ok(item) => {
                made.insert(0, item);
                proof {
                    assert forall|i: int| rest.len() <= i < children.len() implies Ok::<
                        T::Model,
                        Uninstantiable,
                    >((#[trigger] made@[i - rest.len()]).model()) == (if leaf {
                        T::spec_leaf(children@[i])
                    } else {
                        T::spec_conjure(children@[i])
                    }) by {
                        if i > rest.len() {
                            assert(made@[i - rest.len()] == before[i - (rest.len() + 1)]);
                        }
                    }
                }
            },
            Err(error) => {
                return Err(error);
            },
        }
    }
    proof {
        assert forall|i: int| 0 <= i < children.len() implies Ok::<T::Model, Uninstantiable>(
            (#[trigger] made@[i]).model(),
        ) == (if leaf {
            T::spec_leaf(children@[i])
        } else {
            T::spec_conjure(children@[i])
        }) by {
            assert(made@[i - rest.len()] == made@[i]);
        }
    }
    Ok(made)
}

impl<T: Conjure, const N: usize> Conjure for [T; N] {
    /// The size budget is partitioned among the items.
    open spec fn spec_conjure(seed: Seed) -> Result<Seq<T::Model>, Uninstantiable> {
        if Self::spec_cardinality() == Cardinality::Empty {
            Err(Uninstantiable)
        } else {
            Ok(
                Seq::new(
                    N as nat,
                    |i: int| T::spec_conjure(seed.spec_partition(seed.size, N as nat)[i])->Ok_0,
                ),
            )
        }
    }

    /// The seed is split among the items.
    open spec fn spec_leaf(seed: Seed) -> Result<Seq<T::Model>, Uninstantiable> {
        if Self::spec_cardinality() == Cardinality::Empty {
            Err(Uninstantiable)
        } else {
            Ok(Seq::new(N as nat, |i: int| T::spec_leaf(seed.spec_split(N as nat)[i])->Ok_0))
        }
    }

    /// Every array of corner cases of the items, the first item varying
    /// slowest: as many as the number of corner cases of an item to the power
    /// of `N`.
    open spec fn spec_corners() -> Seq<Seq<T::Model>> {
        spec_power(T::spec_corners(), N as nat)
    }

    /// An array has one shape.
    open spec fn spec_variants() -> Seq<Cardinality> {
        seq![Self::spec_cardinality()]
    }

    open spec fn spec_build(index: int, seed: Seed) -> Result<Seq<T::Model>, Uninstantiable> {
        if index == 0 {
            Self::spec_conjure(seed)
        } else {
            Err(Uninstantiable)
        }
    }

    fn conjure(seed: Seed) -> (made: Result<Self, Uninstantiable>) {
        proof {
            seed.lemma_partition(seed.size, N as nat);
        }
        let size = seed.size;
        let children = seed.partition_among(size, N);
        match conjure_each::<T>(children, false) {
            Ok(items) => {
                let made: [T; N] = array_from_vec(items);
                assert(made.model() =~= Self::spec_conjure(seed)->Ok_0);
                Ok(made)
            },
            Err(error) => Err(error),
        }
    }

    fn leaf(seed: Seed) -> (made: Result<Self, Uninstantiable>) {
        let children = seed.split_among(N);
        match conjure_each::<T>(children, true) {
            Ok(items) => {
                let made: [T; N] = array_from_vec(items);
                assert(made.model() =~= Self::spec_leaf(seed)->Ok_0);
                Ok(made)
            },
            Err(error) => Err(error),
        }
    }

    fn corners() -> (all: Vec<Self>) {
        let items = T::corners();
        let sequences = power(&items, N);
        let mut all: Vec<[T; N]> = Vec::with_capacity(sequences.len());
        let mut i: usize = 0;
        while i < sequences.len()
            invariant
                i <= sequences.len(),
                all.len() == i,
                forall|j: int| 0 <= j < sequences@.len() ==> (#[trigger] sequences@[j]).len() == N,
                forall|j: int| 0 <= j < i ==> (#[trigger] all@[j]).model() == sequences@[j].model(),
            decreases sequences.len() - i,
        {
            let corner: [T; N] = array_from_vec(dup_all(sequences[i].as_slice()));
            all.push(corner);
            i += 1;
        }
        assert(models(all@) =~= models(sequences@));
        all
    }

    fn variants() -> (all: Vec<Cardinality>) {
        let mut all = Vec::new();
        all.push(Self::cardinality());
        assert(all@ =~= seq![Self::spec_cardinality()]);
        all
    }

    fn build(index: usize, seed: Seed) -> (made: Result<Self, Uninstantiable>) {
        if index == 0 {
            Self::conjure(seed)
        } else {
            Err(Uninstantiable)
        }
    }
}

impl<T: Shrink, const N: usize> Shrink for [T; N] {
    open spec fn measure(model: Seq<T::Model>) -> nat {
        spec_weight(measure_of::<T>(), model)
    }

    /// Each item in turn is shrunk in place, by one step, against the items
    /// as they are by then. There is no step where no item shrinks.
    open spec fn spec_step(model: Seq<T::Model>, meaning: spec_fn(Seq<T::Model>) -> bool) -> Option<
        Seq<T::Model>,
    > {
        let swept = spec_sweep::<T>(model, 0, of_length(meaning, N as nat));
        if swept == model {
            None
        } else {
            Some(swept)
        }
    }

    proof fn lemma_step(model: Seq<T::Model>, meaning: spec_fn(Seq<T::Model>) -> bool) {
        lemma_sweep::<T>(model, 0, of_length(meaning, N as nat));
    }

    fn step<P: Fn(&Self) -> bool>(&self, property: &P) -> (smaller: Option<Self>) {
        let items = dup_all(self.as_slice());
        let on_items = |items: &Vec<T>| -> (answer: bool)
            ensures
                items.len() == N ==> answers(property, models(items@), answer),
                items.len() != N ==> !answer,
            {
                if items.len() == N {
                    let whole: [T; N] = array_from_vec(dup_all(items.as_slice()));
                    property(&whole)
                } else {
                    false
                }
            };
        proof {
            assert forall|meaning: spec_fn(Seq<T::Model>) -> bool| #[trigger]
                agrees(property, meaning) implies agrees(&on_items, of_length(meaning, N as nat)) by {}
        }
        let (swept, changed) = shrink_in_place(items, &on_items);
        proof {
            assert forall|meaning: spec_fn(Seq<T::Model>) -> bool| #[trigger]
                agrees(property, meaning) implies changed == (models(swept@) != self.model()) by {
                lemma_sweep::<T>(self.model(), 0, of_length(meaning, N as nat));
            }
        }
        if changed {
            Some(array_from_vec(swept))
        } else {
            None
        }
    }
}

} // verus!
