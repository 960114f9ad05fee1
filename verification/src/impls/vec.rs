//! Implementations for vectors (`Vec<_>`), and the three phases of shrinking
//! a sequence: narrowing to a contiguous part, removing single items, and
//! shrinking the items that are left in place.

use crate::conjure::{Conjure, Uninstantiable};
use crate::count::{Cardinality, Count};
use crate::impls::arrays::conjure_each;
use crate::seed::Seed;
use crate::shrink::{agrees, answers, holds, total, Shrink};
use crate::term::{dup_all, models, Term};
use vstd::prelude::*;

verus! {

/// The measure of the models of `T`, as a function.
pub open spec fn measure_of<T: Shrink>() -> spec_fn(T::Model) -> nat {
    |model: T::Model| T::measure(model)
}

/// The weight of a sequence: one for each item, and the measure of each
/// item.
pub open spec fn spec_weight<M>(measure: spec_fn(M) -> nat, items: Seq<M>) -> nat
    decreases items.len(),
{
    if items.len() == 0 {
        0
    } else {
        spec_weight(measure, items.drop_last()) + 1 + measure(items.last())
    }
}

/// The weight of two sequences one after the other is the sum of their
/// weights, and no sequence weighs less than its length.
pub proof fn lemma_weight_concat<M>(measure: spec_fn(M) -> nat, front: Seq<M>, back: Seq<M>)
    ensures
        spec_weight(measure, front + back) == spec_weight(measure, front) + spec_weight(measure, back),
        spec_weight(measure, back) >= back.len(),
    decreases back.len(),
{
    if back.len() == 0 {
        assert(front + back =~= front);
    } else {
        lemma_weight_concat(measure, front, back.drop_last());
        assert((front + back).drop_last() =~= front + back.drop_last());
    }
}

/// A part of a sequence weighs no more than the whole, and less by at
/// least the number of items left out.
pub proof fn lemma_weight_subrange<M>(
    measure: spec_fn(M) -> nat,
    items: Seq<M>,
    low: int,
    high: int,
)
    requires
        0 <= low <= high <= items.len(),
    ensures
        spec_weight(measure, items.subrange(low, high)) + items.len() - (high - low) <= spec_weight(measure, items),
{
    let before = items.subrange(0, low);
    let part = items.subrange(low, high);
    let after = items.subrange(high, items.len() as int);
    assert(items =~= before + part + after);
    lemma_weight_concat(measure, before + part, after);
    lemma_weight_concat(measure, before, part);
    lemma_weight_concat(measure, part, before);
}

/// A sequence without one of its items weighs less.
pub proof fn lemma_weight_remove<M>(measure: spec_fn(M) -> nat, items: Seq<M>, at: int)
    requires
        0 <= at < items.len(),
    ensures
        spec_weight(measure, items.remove(at)) < spec_weight(measure, items),
{
    let before = items.subrange(0, at);
    let one = items.subrange(at, at + 1);
    let after = items.subrange(at + 1, items.len() as int);
    assert(items =~= before + one + after);
    assert(items.remove(at) =~= before + after);
    lemma_weight_concat(measure, before + one, after);
    lemma_weight_concat(measure, before, one);
    lemma_weight_concat(measure, before, after);
}

/// Replacing an item changes the weight by the difference of the measures.
pub proof fn lemma_weight_update<M>(measure: spec_fn(M) -> nat, items: Seq<M>, at: int, item: M)
    requires
        0 <= at < items.len(),
    ensures
        spec_weight(measure, items.update(at, item)) + measure(items[at]) == spec_weight(measure, 
            items,
        ) + measure(item),
{
    let before = items.subrange(0, at);
    let old_one = items.subrange(at, at + 1);
    let new_one = seq![item];
    let after = items.subrange(at + 1, items.len() as int);
    assert(items =~= before + old_one + after);
    assert(items.update(at, item) =~= before + new_one + after);
    lemma_weight_concat(measure, before + old_one, after);
    lemma_weight_concat(measure, before, old_one);
    lemma_weight_concat(measure, before + new_one, after);
    lemma_weight_concat(measure, before, new_one);
    assert(old_one.drop_last() =~= Seq::<M>::empty());
    assert(new_one.drop_last() =~= Seq::<M>::empty());
    assert(spec_weight(measure, old_one.drop_last()) == 0);
    assert(spec_weight(measure, new_one.drop_last()) == 0);
    assert(old_one.last() == items[at]);
    assert(new_one.last() == item);
}

/// The least of `jump`, `2 * jump`, `4 * jump` and so on that is greater
/// than `length`.
pub open spec fn spec_first_jump(length: int, jump: int) -> int
    decreases
        (if jump > length {
            0
        } else {
            length - jump + 1
        }),
{
    if jump <= 0 || jump > length {
        jump
    } else {
        spec_first_jump(length, 2 * jump)
    }
}

/// The first jump is at least where the doubling started, and greater than
/// the length.
pub proof fn lemma_first_jump(length: int, jump: int)
    ensures
        spec_first_jump(length, jump) >= jump,
        jump >= 1 ==> spec_first_jump(length, jump) > length,
    decreases
        (if jump > length {
            0
        } else {
            length - jump + 1
        }),
{
    if !(jump <= 0 || jump > length) {
        lemma_first_jump(length, 2 * jump);
    }
}

/// The lesser of a bound and the length of a sequence.
pub open spec fn spec_reach<M>(items: Seq<M>, high: int) -> int {
    if high < items.len() {
        high
    } else {
        items.len() as int
    }
}

/// The part of `items` that narrowing ends with, from the part between
/// `low` and `high` and with the given jump still to be halved.
///
/// Each round halves the jump, and ends when the jump is used up. A round
/// first probes the part without its first `jump` items and, if that passes,
/// drops them. Then it probes the part without what lies beyond `high - jump`
/// and, if that passes or nothing lies there, drops that.
pub open spec fn spec_narrow<M>(
    items: Seq<M>,
    low: int,
    high: int,
    jump: int,
    meaning: spec_fn(Seq<M>) -> bool,
) -> (int, int)
    decreases jump,
{
    let half = jump / 2;
    if half <= 0 {
        (low, spec_reach(items, high))
    } else {
        let reach = spec_reach(items, high);
        let low_probe = low + half;
        let new_low = if low_probe <= reach && meaning(items.subrange(low_probe, reach)) {
            low_probe
        } else {
            low
        };
        let high_probe = high - half;
        let new_high = if high_probe >= items.len() || (new_low <= high_probe && meaning(
            items.subrange(new_low, high_probe),
        )) {
            high_probe
        } else {
            high
        };
        spec_narrow(items, new_low, new_high, half, meaning)
    }
}

/// The minimal contiguous part of `items` that narrowing finds: it starts
/// from the whole, with a first jump of the least power of two greater than
/// the length. A sequence too long for such a jump is left whole.
pub open spec fn spec_contiguous<M>(items: Seq<M>, meaning: spec_fn(Seq<M>) -> bool) -> (int, int) {
    let jump = spec_first_jump(items.len() as int, 1);
    if jump > usize::MAX {
        (0, items.len() as int)
    } else {
        spec_narrow(items, 0, jump, jump, meaning)
    }
}

/// Narrowing ends with a part of the sequence, and with one that passes if
/// it is not the whole.
pub proof fn lemma_narrow<M>(
    items: Seq<M>,
    low: int,
    high: int,
    jump: int,
    meaning: spec_fn(Seq<M>) -> bool,
)
    requires
        0 <= low <= spec_reach(items, high),
        (low == 0 && spec_reach(items, high) == items.len()) || meaning(
            items.subrange(low, spec_reach(items, high)),
        ),
    ensures
        0 <= spec_narrow(items, low, high, jump, meaning).0 <= spec_narrow(
            items,
            low,
            high,
            jump,
            meaning,
        ).1 <= items.len(),
        ({
            let (from, to) = spec_narrow(items, low, high, jump, meaning);
            (from == 0 && to == items.len()) || meaning(items.subrange(from, to))
        }),
    decreases jump,
{
    let half = jump / 2;
    if half > 0 {
        let reach = spec_reach(items, high);
        let low_probe = low + half;
        let new_low = if low_probe <= reach && meaning(items.subrange(low_probe, reach)) {
            low_probe
        } else {
            low
        };
        let high_probe = high - half;
        let new_high = if high_probe >= items.len() || (new_low <= high_probe && meaning(
            items.subrange(new_low, high_probe),
        )) {
            high_probe
        } else {
            high
        };
        lemma_narrow(items, new_low, new_high, half, meaning);
    }
}

/// What removing single items ends with, from `items` and with the items
/// before `index` still to be tried, the last of them first.
///
/// The first item is never tried. Where the sequence passes without an
/// item, the item is removed and the trial starts over from the end.
pub open spec fn spec_ablate<M>(items: Seq<M>, index: int, meaning: spec_fn(Seq<M>) -> bool) -> Seq<
    M,
>
    decreases items.len(), index,
{
    if index <= 1 || index > items.len() {
        items
    } else if meaning(items.remove(index - 1)) {
        spec_ablate(items.remove(index - 1), items.len() - 1, meaning)
    } else {
        spec_ablate(items, index - 1, meaning)
    }
}

/// Removing single items ends with the sequence it started from, or with a
/// shorter one that passes.
pub proof fn lemma_ablate<T: Shrink>(
    items: Seq<T::Model>,
    index: int,
    meaning: spec_fn(Seq<T::Model>) -> bool,
)
    ensures
        ({
            let kept = spec_ablate(items, index, meaning);
            kept == items || (meaning(kept) && kept.len() < items.len() && spec_weight(measure_of::<T>(), kept)
                < spec_weight(measure_of::<T>(), items))
        }),
    decreases items.len(), index,
{
    if index <= 1 || index > items.len() {
    } else if meaning(items.remove(index - 1)) {
        lemma_ablate::<T>(items.remove(index - 1), items.len() - 1, meaning);
        lemma_weight_remove(measure_of::<T>(), items, index - 1);
    } else {
        lemma_ablate::<T>(items, index - 1, meaning);
    }
}

/// What the first two phases end with: the minimal contiguous part, without
/// the single items that it passes without.
pub open spec fn spec_horizontal<M>(items: Seq<M>, meaning: spec_fn(Seq<M>) -> bool) -> Seq<M> {
    let (from, to) = spec_contiguous(items, meaning);
    let part = items.subrange(from, to);
    spec_ablate(part, part.len() as int, meaning)
}

/// The first two phases end with the sequence they started from, or with a
/// shorter one that passes.
pub proof fn lemma_horizontal<T: Shrink>(
    items: Seq<T::Model>,
    meaning: spec_fn(Seq<T::Model>) -> bool,
)
    ensures
        ({
            let kept = spec_horizontal(items, meaning);
            kept == items || (meaning(kept) && kept.len() < items.len() && spec_weight(measure_of::<T>(), kept)
                < spec_weight(measure_of::<T>(), items))
        }),
{
    let jump = spec_first_jump(items.len() as int, 1);
    lemma_first_jump(items.len() as int, 1);
    if jump <= usize::MAX {
        lemma_narrow(items, 0, jump, jump, meaning);
    }
    let (from, to) = spec_contiguous(items, meaning);
    let part = items.subrange(from, to);
    lemma_weight_subrange(measure_of::<T>(), items, from, to);
    lemma_ablate::<T>(part, part.len() as int, meaning);
    if from == 0 && to == items.len() {
        assert(part =~= items);
    }
}

/// A property of sequences, as a property of the item at one place with the
/// other items held fixed.
pub open spec fn with_item<T: Term>(
    meaning: spec_fn(Seq<T::Model>) -> bool,
    items: Seq<T::Model>,
    at: int,
) -> spec_fn(T::Model) -> bool {
    |item: T::Model| meaning(items.update(at, item))
}

/// What shrinking in place ends with, from `items` and with the items from
/// `from` on still to be shrunk: each item in turn takes one step, against
/// the items as they are by then.
pub open spec fn spec_sweep<T: Shrink>(
    items: Seq<T::Model>,
    from: int,
    meaning: spec_fn(Seq<T::Model>) -> bool,
) -> Seq<T::Model>
    decreases items.len() - from,
{
    if from < 0 || from >= items.len() {
        items
    } else {
        match T::spec_step(items[from], with_item::<T>(meaning, items, from)) {
            Some(smaller) => spec_sweep::<T>(items.update(from, smaller), from + 1, meaning),
            None => spec_sweep::<T>(items, from + 1, meaning),
        }
    }
}

/// Shrinking in place ends with the sequence it started from, or with one
/// of the same length that passes and weighs less.
pub proof fn lemma_sweep<T: Shrink>(
    items: Seq<T::Model>,
    from: int,
    meaning: spec_fn(Seq<T::Model>) -> bool,
)
    ensures
        ({
            let swept = spec_sweep::<T>(items, from, meaning);
            swept.len() == items.len() && (swept == items || (meaning(swept) && spec_weight(measure_of::<T>(), 
                swept,
            ) < spec_weight(measure_of::<T>(), items)))
        }),
    decreases items.len() - from,
{
    if !(from < 0 || from >= items.len()) {
        T::lemma_step(items[from], with_item::<T>(meaning, items, from));
        match T::spec_step(items[from], with_item::<T>(meaning, items, from)) {
            Some(smaller) => {
                lemma_weight_update(measure_of::<T>(), items, from, smaller);
                lemma_sweep::<T>(items.update(from, smaller), from + 1, meaning);
            },
            None => {
                lemma_sweep::<T>(items, from + 1, meaning);
            },
        }
    }
}

/// Copy the terms from `low` up to `high`.
pub fn dup_range<T: Term>(terms: &Vec<T>, low: usize, high: usize) -> (copies: Vec<T>)
    requires
        low <= high <= terms.len(),
    ensures
        copies.len() == high - low,
        models(copies@) == models(terms@).subrange(low as int, high as int),
{
    let mut copies: Vec<T> = Vec::with_capacity(high - low);
    let mut i: usize = low;
    while i < high
        invariant
            low <= i <= high <= terms.len(),
            copies.len() == i - low,
            forall|j: int| 0 <= j < i - low ==> copies@[j].model() == terms@[low + j].model(),
        decreases high - i,
    {
        copies.push(terms[i].dup());
        i += 1;
    }
    assert(models(copies@) =~= models(terms@).subrange(low as int, high as int));
    copies
}

/// Narrow a sequence to a minimal contiguous part that still passes the
/// property, by a binary search from both ends. The answer is the range of
/// the part.
pub fn shrink_contiguous<T: Term, P: Fn(&Vec<T>) -> bool>(whole: &Vec<T>, property: &P) -> (range:
    (usize, usize))
    requires
        total(property),
    ensures
        range.0 <= range.1 <= whole.len(),
        (range.0 == 0 && range.1 == whole.len()) || holds(
            property,
            models(whole@).subrange(range.0 as int, range.1 as int),
        ),
        forall|meaning: spec_fn(Seq<T::Model>) -> bool| #[trigger]
            agrees(property, meaning) ==> (range.0 as int, range.1 as int) == spec_contiguous(
                models(whole@),
                meaning,
            ),
{
    let length = whole.len();
    let ghost items = models(whole@);
    let mut jump: usize = 1;
    while jump <= length
        invariant
            jump >= 1,
            length == whole.len(),
            length == items.len(),
            spec_first_jump(length as int, jump as int) == spec_first_jump(length as int, 1),
        decreases
            (if jump > length {
                0
            } else {
                length - jump + 1
            }),
    {
        match jump.checked_mul(2) {
            Some(doubled) => {
                jump = doubled;
            },
            None => {
                proof {
                    lemma_first_jump(length as int, 2 * jump);
                }
                return (0, length);
            },
        }
    }
    let ghost first = jump;
    let mut low: usize = 0;
    let mut high: usize = jump;
    while jump >= 2
        invariant
            total(property),
            length == whole.len(),
            items == models(whole@),
            first <= usize::MAX,
            first == spec_first_jump(length as int, 1),
            low + jump <= first,
            jump <= high <= first,
            low <= spec_reach(items, high as int),
            (low == 0 && spec_reach(items, high as int) == items.len()) || holds(
                property,
                items.subrange(low as int, spec_reach(items, high as int)),
            ),
            forall|meaning: spec_fn(Seq<T::Model>) -> bool| #[trigger]
                agrees(property, meaning) ==> spec_narrow(
                    items,
                    low as int,
                    high as int,
                    jump as int,
                    meaning,
                ) == spec_contiguous(items, meaning),
        decreases jump,
    {
        let half = jump / 2;
        let reach = if high < length {
            high
        } else {
            length
        };
        let low_probe = low + half;
        if low_probe <= reach {
            let candidate = dup_range(whole, low_probe, reach);
            if property(&candidate) {
                low = low_probe;
            }
        }
        let high_probe = high - half;
        if high_probe >= length {
            high = high_probe;
        } else if low <= high_probe {
            let candidate = dup_range(whole, low, high_probe);
            if property(&candidate) {
                high = high_probe;
            }
        }
        jump = half;
    }
    if high < length {
        (low, high)
    } else {
        (low, length)
    }
}

/// Narrow a sequence to a minimal contiguous part, then remove every single
/// item but the first that the rest passes without.
pub fn shrink_horizontal<T: Term, P: Fn(&Vec<T>) -> bool>(whole: &Vec<T>, property: &P) -> (kept:
    Vec<T>)
    requires
        total(property),
    ensures
        kept.len() <= whole.len(),
        models(kept@) == models(whole@) || (kept.len() < whole.len() && holds(
            property,
            models(kept@),
        )),
        forall|measure: spec_fn(T::Model) -> nat| #[trigger]
            spec_weight(measure, models(kept@)) + whole.len() - kept.len() <= spec_weight(
                measure,
                models(whole@),
            ),
        forall|meaning: spec_fn(Seq<T::Model>) -> bool| #[trigger]
            agrees(property, meaning) ==> models(kept@) == spec_horizontal(
                models(whole@),
                meaning,
            ),
{
    let (from, to) = shrink_contiguous(whole, property);
    let mut acc = dup_range(whole, from, to);
    let ghost part = models(acc@);
    proof {
        if from == 0 && to == whole.len() {
            assert(part =~= models(whole@));
        }
        assert forall|measure: spec_fn(T::Model) -> nat| #[trigger]
            spec_weight(measure, part) + whole.len() - part.len() <= spec_weight(
                measure,
                models(whole@),
            ) by {
            lemma_weight_subrange(measure, models(whole@), from as int, to as int);
        }
    }
    let mut index = acc.len();
    while index > 1
        invariant
            total(property),
            index <= acc.len() <= part.len(),
            models(acc@) == part || (acc.len() < part.len() && holds(property, models(acc@))),
            forall|measure: spec_fn(T::Model) -> nat| #[trigger]
                spec_weight(measure, models(acc@)) + part.len() - acc.len() <= spec_weight(
                    measure,
                    part,
                ),
            forall|meaning: spec_fn(Seq<T::Model>) -> bool| #[trigger]
                agrees(property, meaning) ==> spec_ablate(models(acc@), index as int, meaning)
                    == spec_ablate(part, part.len() as int, meaning),
        decreases acc.len(), index,
    {
        index -= 1;
        let mut ablated = dup_all(acc.as_slice());
        let _ = ablated.remove(index);
        proof {
            assert(models(ablated@) =~= models(acc@).remove(index as int));
            assert forall|measure: spec_fn(T::Model) -> nat| #[trigger]
                spec_weight(measure, models(ablated@)) < spec_weight(measure, models(acc@)) by {
                lemma_weight_remove(measure, models(acc@), index as int);
            }
        }
        if property(&ablated) {
            acc = ablated;
            index = acc.len();
        }
    }
    acc
}

/// Shrink each item of a sequence in place, by one step each, against the
/// items as they are by then. The answer is the sequence, and whether any
/// item was shrunk.
pub fn shrink_in_place<T: Shrink, P: Fn(&Vec<T>) -> bool>(items: Vec<T>, property: &P) -> (swept:
    (Vec<T>, bool))
    requires
        total(property),
    ensures
        swept.0.len() == items.len(),
        swept.1 ==> holds(property, models(swept.0@)) && spec_weight(measure_of::<T>(), models(swept.0@))
            < spec_weight(measure_of::<T>(), models(items@)),
        !swept.1 ==> models(swept.0@) == models(items@),
        forall|meaning: spec_fn(Seq<T::Model>) -> bool| #[trigger]
            agrees(property, meaning) ==> models(swept.0@) == spec_sweep::<T>(
                models(items@),
                0,
                meaning,
            ),
{
    let ghost start = models(items@);
    let mut acc = items;
    let mut changed = false;
    let mut i: usize = 0;
    while i < acc.len()
        invariant
            total(property),
            i <= acc.len(),
            models(acc@).len() == start.len(),
            changed ==> holds(property, models(acc@)) && spec_weight(measure_of::<T>(), models(acc@))
                < spec_weight(measure_of::<T>(), start),
            !changed ==> models(acc@) == start,
            forall|meaning: spec_fn(Seq<T::Model>) -> bool| #[trigger]
                agrees(property, meaning) ==> spec_sweep::<T>(models(acc@), i as int, meaning)
                    == spec_sweep::<T>(start, 0, meaning),
        decreases acc.len() - i,
    {
        let on_item = |item: &T| -> (answer: bool)
            ensures
                answers(property, models(acc@).update(i as int, (*item).model()), answer),
            {
                let mut whole = dup_all(acc.as_slice());
                whole[i] = (*item).dup();
                proof {
                    assert(models(whole@) =~= models(acc@).update(i as int, (*item).model()));
                }
                property(&whole)
            };
        proof {
            assert forall|meaning: spec_fn(Seq<T::Model>) -> bool| #[trigger]
                agrees(property, meaning) implies agrees(
                &on_item,
                with_item::<T>(meaning, models(acc@), i as int),
            ) by {}
        }
        let stepped = acc[i].step(&on_item);
        match stepped {
            Some(smaller) => {
                proof {
                    lemma_weight_update(measure_of::<T>(), models(acc@), i as int, smaller.model());
                }
                let ghost before = models(acc@);
                acc[i] = smaller;
                proof {
                    assert(models(acc@) =~= before.update(i as int, smaller.model()));
                }
                changed = true;
            },
            None => {},
        }
        i += 1;
    }
    (acc, changed)
}

impl<T: Count> Count for Vec<T> {
    /// A vector of an empty type can only be empty, so there is one such
    /// vector. Of any other type there are infinitely many vectors.
    open spec fn spec_cardinality() -> Cardinality {
        if T::spec_cardinality() == Cardinality::Empty {
            Cardinality::Finite
        } else {
            Cardinality::Infinite
        }
    }

    fn cardinality() -> (c: Cardinality) {
        if T::cardinality().is_empty() {
            Cardinality::Finite
        } else {
            Cardinality::Infinite
        }
    }
}

/// The vector that a seed grows: while the seed says to recurse, the rest of
/// the budget is partitioned among one more item and the vector that
/// follows it.
pub open spec fn spec_grow<T: Conjure>(seed: Seed) -> Seq<T::Model>
    decreases seed.size,
{
    let (recurse, rest) = seed.spec_should_recurse();
    if recurse {
        proof {
            rest.lemma_partition(rest.size, 2);
        }
        let children = rest.spec_partition(rest.size, 2);
        seq![T::spec_conjure(children[0])->Ok_0] + spec_grow::<T>(children[1])
    } else {
        Seq::empty()
    }
}

/// The seeds of the items of the vector that a seed grows, in order: while
/// the seed says to recurse, the rest of the budget is partitioned among one
/// more item and the items that follow it.
pub open spec fn spec_item_seeds(seed: Seed) -> Seq<Seed>
    decreases seed.size,
{
    let (recurse, rest) = seed.spec_should_recurse();
    if recurse {
        proof {
            rest.lemma_partition(rest.size, 2);
        }
        let children = rest.spec_partition(rest.size, 2);
        seq![children[0]] + spec_item_seeds(children[1])
    } else {
        Seq::empty()
    }
}

/// The vector that a seed grows holds, place by place, what the seeds of
/// its items generate.
pub proof fn lemma_grow_from_item_seeds<T: Conjure>(seed: Seed)
    ensures
        spec_grow::<T>(seed) == Seq::new(
            spec_item_seeds(seed).len(),
            |i: int| T::spec_conjure(spec_item_seeds(seed)[i])->Ok_0,
        ),
    decreases seed.size,
{
    let (recurse, rest) = seed.spec_should_recurse();
    if recurse {
        rest.lemma_partition(rest.size, 2);
        let children = rest.spec_partition(rest.size, 2);
        lemma_grow_from_item_seeds::<T>(children[1]);
        assert(spec_grow::<T>(seed) =~= Seq::new(
            spec_item_seeds(seed).len(),
            |i: int| T::spec_conjure(spec_item_seeds(seed)[i])->Ok_0,
        ));
    } else {
        assert(spec_grow::<T>(seed) =~= Seq::new(
            spec_item_seeds(seed).len(),
            |i: int| T::spec_conjure(spec_item_seeds(seed)[i])->Ok_0,
        ));
    }
}

/// Use up a seed to make the seeds of the items of a vector: as many as
/// the seed says to recurse, each with its part of the size budget.
pub fn item_seeds(seed: Seed) -> (seeds: Vec<Seed>)
    ensures
        seeds@ == spec_item_seeds(seed),
{
    let mut seeds: Vec<Seed> = Vec::new();
    let mut rest = seed;
    assert(seeds@ + spec_item_seeds(rest) =~= spec_item_seeds(seed));
    loop
        invariant
            seeds@ + spec_item_seeds(rest) == spec_item_seeds(seed),
        decreases rest.size,
    {
        let ghost before = rest;
        if !rest.should_recurse() {
            assert(seeds@ + spec_item_seeds(before) =~= seeds@);
            return seeds;
        }
        proof {
            rest.lemma_partition(rest.size, 2);
        }
        let size = rest.size;
        let mut children = rest.partition_among(size, 2);
        let tail = children.pop().unwrap();
        let head = children.pop().unwrap();
        proof {
            assert(seeds@.push(head) + spec_item_seeds(tail) =~= seeds@ + spec_item_seeds(before));
        }
        seeds.push(head);
        rest = tail;
    }
}

impl<T: Conjure> Conjure for Vec<T> {
    open spec fn spec_conjure(seed: Seed) -> Result<Seq<T::Model>, Uninstantiable> {
        if T::spec_cardinality() == Cardinality::Empty {
            Ok(Seq::empty())
        } else {
            Ok(spec_grow::<T>(seed))
        }
    }

    /// The empty vector.
    open spec fn spec_leaf(seed: Seed) -> Result<Seq<T::Model>, Uninstantiable> {
        Ok(Seq::empty())
    }

    /// The empty vector, then a vector of one item for every corner case
    /// of `T`.
    open spec fn spec_corners() -> Seq<Seq<T::Model>> {
        seq![Seq::empty()] + Seq::new(T::spec_corners().len(), |i: int| seq![T::spec_corners()[i]])
    }

    /// A vector has one shape.
    open spec fn spec_variants() -> Seq<Cardinality> {
        seq![Self::spec_cardinality()]
    }

    open spec fn spec_build(index: int, seed: Seed) -> Result<Seq<T::Model>, Uninstantiable> {
        if index == 0 {
            Self::spec_conjure(seed)
        } else {
            Err(Uninstantiable)
        }
    }

    fn conjure(seed: Seed) -> (made: Result<Self, Uninstantiable>) {
        if T::cardinality().is_empty() {
            let made: Vec<T> = Vec::new();
            assert(models(made@) =~= Seq::<T::Model>::empty());
            return Ok(made);
        }
        let seeds = item_seeds(seed);
        match conjure_each::<T>(seeds, false) {
            Ok(items) => {
                proof {
                    lemma_grow_from_item_seeds::<T>(seed);
                    assert(models(items@) =~= spec_grow::<T>(seed));
                }
                Ok(items)
            },
            Err(error) => Err(error),
        }
    }

    fn leaf(seed: Seed) -> (made: Result<Self, Uninstantiable>) {
        let made: Vec<T> = Vec::new();
        assert(models(made@) =~= Seq::<T::Model>::empty());
        Ok(made)
    }

    fn corners() -> (all: Vec<Self>) {
        let inner = T::corners();
        let mut all: Vec<Vec<T>> = Vec::with_capacity(inner.len());
        all.push(Vec::new());
        assert(all@[0].model() =~= Seq::<T::Model>::empty());
        let mut i: usize = 0;
        while i < inner.len()
            invariant
                i <= inner.len(),
                all.len() == i + 1,
                all@[0].model() == Seq::<T::Model>::empty(),
                forall|j: int| 0 <= j < i ==> all@[j + 1].model() == seq![inner@[j].model()],
            decreases inner.len() - i,
        {
            let mut single: Vec<T> = Vec::with_capacity(1);
            single.push(inner[i].dup());
            assert(single.model() =~= seq![inner@[i as int].model()]);
            all.push(single);
            i += 1;
        }
        assert(models(all@) =~= Self::spec_corners());
        all
    }

    fn variants() -> (all: Vec<Cardinality>) {
        let mut all = Vec::new();
        all.push(Self::cardinality());
        assert(all@ =~= seq![Self::spec_cardinality()]);
        all
    }

    fn build(index: usize, seed: Seed) -> (made: Result<Self, Uninstantiable>) {
        if index == 0 {
            Self::conjure(seed)
        } else {
            Err(Uninstantiable)
        }
    }
}

impl<T: Shrink> Shrink for Vec<T> {
    open spec fn measure(model: Seq<T::Model>) -> nat {
        spec_weight(measure_of::<T>(), model)
    }

    /// The vector is narrowed to a minimal contiguous part, then loses
    /// every single item but the first that it passes without, and then each
    /// item that is left is shrunk in place. There is no step where all of
    /// that changes nothing.
    open spec fn spec_step(model: Seq<T::Model>, meaning: spec_fn(Seq<T::Model>) -> bool) -> Option<
        Seq<T::Model>,
    > {
        let kept = spec_horizontal(model, meaning);
        let swept = spec_sweep::<T>(kept, 0, meaning);
        if swept == model {
            None
        } else {
            Some(swept)
        }
    }

    proof fn lemma_step(model: Seq<T::Model>, meaning: spec_fn(Seq<T::Model>) -> bool) {
        lemma_horizontal::<T>(model, meaning);
        lemma_sweep::<T>(spec_horizontal(model, meaning), 0, meaning);
    }

    fn step<P: Fn(&Self) -> bool>(&self, property: &P) -> (smaller: Option<Self>) {
        let kept = shrink_horizontal(self, property);
        let shorter = kept.len() < self.len();
        let ghost kept_model = models(kept@);
        let (swept, changed) = shrink_in_place(kept, property);
        proof {
            assert forall|meaning: spec_fn(Seq<T::Model>) -> bool| #[trigger]
                agrees(property, meaning) implies (shorter || changed) == (models(swept@)
                != self.model()) by {
                lemma_horizontal::<T>(self.model(), meaning);
                lemma_sweep::<T>(kept_model, 0, meaning);
            }
            assert(spec_weight(measure_of::<T>(), kept_model) + self.len() - kept_model.len()
                <= spec_weight(measure_of::<T>(), self.model()));
        }
        if shorter || changed {
            Some(swept)
        } else {
            None
        }
    }
}

} // verus!
