//! The precise, detailed size of a value, with the three ways in which a
//! size can fail to be a number: the type has no values, its sizes have no
//! bound, or the size does not fit in a machine integer.

use core::cmp::Ordering;
use vstd::prelude::*;
use vstd::std_specs::cmp::{PartialEqSpec, PartialEqSpecImpl, PartialOrdSpec, PartialOrdSpecImpl};

verus! {

/// A value of a type that may have no values at all.
#[must_use]
#[derive(Debug)]
pub enum MaybeInstantiable<Instantiable> {
    /// The type has values, and this is what is known of them.
    Instantiable(Instantiable),
    /// The type has no values.
    Uninstantiable,
}

/// A quantity that may have no bound.
#[must_use]
#[derive(Debug)]
pub enum MaybeInfinite<Finite> {
    /// The bound.
    Finite(Finite),
    /// There is no bound.
    Infinite,
}

/// A quantity that may not fit in its type.
#[must_use]
#[derive(Debug)]
pub enum MaybeOverflow<Contained> {
    /// The quantity.
    Contained(Contained),
    /// The quantity does not fit.
    Overflow,
}

impl<X> MaybeInstantiable<X> {
    /// Apply a function to what is known of an instantiable type.
    pub fn map<Y, F: FnOnce(X) -> Y>(self, map: F) -> (mapped: MaybeInstantiable<Y>)
        requires
            self matches MaybeInstantiable::Instantiable(x) ==> map.requires((x,)),
        ensures
            match self {
                MaybeInstantiable::Uninstantiable => mapped is Uninstantiable,
                MaybeInstantiable::Instantiable(x) => mapped matches MaybeInstantiable::Instantiable(
                    y,
                ) && map.ensures((x,), y),
            },
    {
        match self {
            MaybeInstantiable::Uninstantiable => MaybeInstantiable::Uninstantiable,
            MaybeInstantiable::Instantiable(x) => MaybeInstantiable::Instantiable(map(x)),
        }
    }
}

/// A natural number as a machine integer, if it fits.
pub open spec fn contained(quantity: nat) -> MaybeOverflow<usize> {
    if quantity <= usize::MAX {
        MaybeOverflow::Contained(quantity as usize)
    } else {
        MaybeOverflow::Overflow
    }
}

impl MaybeOverflow<usize> {
    /// The sum of a quantity and a machine integer, if it fits.
    pub open spec fn spec_plus(self, rhs: usize) -> Self {
        match self {
            MaybeOverflow::Overflow => MaybeOverflow::Overflow,
            MaybeOverflow::Contained(lhs) => contained((lhs + rhs) as nat),
        }
    }

    /// Add a machine integer to a quantity. An overflow stays an overflow.
    pub fn plus(self, rhs: usize) -> (sum: Self)
        ensures
            sum == self.spec_plus(rhs),
    {
        match self {
            MaybeOverflow::Overflow => MaybeOverflow::Overflow,
            MaybeOverflow::Contained(lhs) => match lhs.checked_add(rhs) {
                Some(sum) => MaybeOverflow::Contained(sum),
                None => MaybeOverflow::Overflow,
            },
        }
    }
}

impl<T: PartialEq> PartialEq for MaybeInstantiable<T> {
    fn eq(&self, other: &Self) -> (equal: bool) {
        match (self, other) {
            (MaybeInstantiable::Uninstantiable, MaybeInstantiable::Uninstantiable) => true,
            (MaybeInstantiable::Instantiable(lhs), MaybeInstantiable::Instantiable(rhs)) => lhs.eq(
                rhs,
            ),
            _ => false,
        }
    }
}

impl<T: PartialEq> PartialEqSpecImpl for MaybeInstantiable<T> {
    open spec fn obeys_eq_spec() -> bool {
        T::obeys_eq_spec()
    }

    /// Two uninstantiable types are equal; two instantiable ones are equal
    /// if what is known of them is.
    open spec fn eq_spec(&self, other: &MaybeInstantiable<T>) -> bool {
        match (self, other) {
            (MaybeInstantiable::Uninstantiable, MaybeInstantiable::Uninstantiable) => true,
            (MaybeInstantiable::Instantiable(lhs), MaybeInstantiable::Instantiable(rhs)) =>
                lhs.eq_spec(rhs),
            _ => false,
        }
    }
}

impl<T: PartialEq> PartialEq for MaybeInfinite<T> {
    fn eq(&self, other: &Self) -> (equal: bool) {
        match (self, other) {
            (MaybeInfinite::Finite(lhs), MaybeInfinite::Finite(rhs)) => lhs.eq(rhs),
            _ => false,
        }
    }
}

impl<T: PartialEq> PartialEqSpecImpl for MaybeInfinite<T> {
    open spec fn obeys_eq_spec() -> bool {
        T::obeys_eq_spec()
    }

    /// Two bounds are equal if they are the same; the lack of a bound is
    /// equal to nothing, not even to itself.
    open spec fn eq_spec(&self, other: &MaybeInfinite<T>) -> bool {
        match (self, other) {
            (MaybeInfinite::Finite(lhs), MaybeInfinite::Finite(rhs)) => lhs.eq_spec(rhs),
            _ => false,
        }
    }
}

impl<T: PartialEq> PartialEq for MaybeOverflow<T> {
    fn eq(&self, other: &Self) -> (equal: bool) {
        match (self, other) {
            (MaybeOverflow::Contained(lhs), MaybeOverflow::Contained(rhs)) => lhs.eq(rhs),
            _ => false,
        }
    }
}

impl<T: PartialEq> PartialEqSpecImpl for MaybeOverflow<T> {
    open spec fn obeys_eq_spec() -> bool {
        T::obeys_eq_spec()
    }

    /// Two quantities are equal if they are the same; an overflow is equal
    /// to nothing, not even to itself.
    open spec fn eq_spec(&self, other: &MaybeOverflow<T>) -> bool {
        match (self, other) {
            (MaybeOverflow::Contained(lhs), MaybeOverflow::Contained(rhs)) => lhs.eq_spec(rhs),
            _ => false,
        }
    }
}

impl<T: Eq> Eq for MaybeInstantiable<T> {

}

impl<T: PartialOrd> PartialOrd for MaybeInstantiable<T> {
    fn partial_cmp(&self, other: &Self) -> (order: Option<Ordering>) {
        match (self, other) {
            (MaybeInstantiable::Uninstantiable, MaybeInstantiable::Uninstantiable) => Some(
                Ordering::Equal,
            ),
            (MaybeInstantiable::Uninstantiable, MaybeInstantiable::Instantiable(_)) => Some(
                Ordering::Less,
            ),
            (MaybeInstantiable::Instantiable(_), MaybeInstantiable::Uninstantiable) => Some(
                Ordering::Greater,
            ),
            (MaybeInstantiable::Instantiable(lhs), MaybeInstantiable::Instantiable(rhs)) =>
                lhs.partial_cmp(rhs),
        }
    }
}

impl<T: PartialOrd> PartialOrdSpecImpl for MaybeInstantiable<T> {
    open spec fn obeys_partial_cmp_spec() -> bool {
        T::obeys_partial_cmp_spec()
    }

    /// An uninstantiable type comes before every instantiable one, and two
    /// instantiable ones compare as what is known of them.
    open spec fn partial_cmp_spec(&self, other: &MaybeInstantiable<T>) -> Option<Ordering> {
        match (self, other) {
            (MaybeInstantiable::Uninstantiable, MaybeInstantiable::Uninstantiable) => Some(
                Ordering::Equal,
            ),
            (MaybeInstantiable::Uninstantiable, MaybeInstantiable::Instantiable(_)) => Some(
                Ordering::Less,
            ),
            (MaybeInstantiable::Instantiable(_), MaybeInstantiable::Uninstantiable) => Some(
                Ordering::Greater,
            ),
            (MaybeInstantiable::Instantiable(lhs), MaybeInstantiable::Instantiable(rhs)) =>
                lhs.partial_cmp_spec(rhs),
        }
    }
}

impl<T: PartialOrd> PartialOrd for MaybeInfinite<T> {
    fn partial_cmp(&self, other: &Self) -> (order: Option<Ordering>) {
        match (self, other) {
            (MaybeInfinite::Infinite, MaybeInfinite::Infinite) => None,
            (MaybeInfinite::Infinite, MaybeInfinite::Finite(_)) => Some(Ordering::Greater),
            (MaybeInfinite::Finite(_), MaybeInfinite::Infinite) => Some(Ordering::Less),
            (MaybeInfinite::Finite(lhs), MaybeInfinite::Finite(rhs)) => lhs.partial_cmp(rhs),
        }
    }
}

impl<T: PartialOrd> PartialOrdSpecImpl for MaybeInfinite<T> {
    open spec fn obeys_partial_cmp_spec() -> bool {
        T::obeys_partial_cmp_spec()
    }

    /// The lack of a bound comes after every bound, and does not compare
    /// with itself.
    open spec fn partial_cmp_spec(&self, other: &MaybeInfinite<T>) -> Option<Ordering> {
        match (self, other) {
            (MaybeInfinite::Infinite, MaybeInfinite::Infinite) => None,
            (MaybeInfinite::Infinite, MaybeInfinite::Finite(_)) => Some(Ordering::Greater),
            (MaybeInfinite::Finite(_), MaybeInfinite::Infinite) => Some(Ordering::Less),
            (MaybeInfinite::Finite(lhs), MaybeInfinite::Finite(rhs)) => lhs.partial_cmp_spec(rhs),
        }
    }
}

impl<T: PartialOrd> PartialOrd for MaybeOverflow<T> {
    fn partial_cmp(&self, other: &Self) -> (order: Option<Ordering>) {
        match (self, other) {
            (MaybeOverflow::Overflow, MaybeOverflow::Overflow) => None,
            (MaybeOverflow::Overflow, MaybeOverflow::Contained(_)) => Some(Ordering::Greater),
            (MaybeOverflow::Contained(_), MaybeOverflow::Overflow) => Some(Ordering::Less),
            (MaybeOverflow::Contained(lhs), MaybeOverflow::Contained(rhs)) => lhs.partial_cmp(rhs),
        }
    }
}

impl<T: PartialOrd> PartialOrdSpecImpl for MaybeOverflow<T> {
    open spec fn obeys_partial_cmp_spec() -> bool {
        T::obeys_partial_cmp_spec()
    }

    /// An overflow comes after every quantity, and does not compare with
    /// itself.
    open spec fn partial_cmp_spec(&self, other: &MaybeOverflow<T>) -> Option<Ordering> {
        match (self, other) {
            (MaybeOverflow::Overflow, MaybeOverflow::Overflow) => None,
            (MaybeOverflow::Overflow, MaybeOverflow::Contained(_)) => Some(Ordering::Greater),
            (MaybeOverflow::Contained(_), MaybeOverflow::Overflow) => Some(Ordering::Less),
            (MaybeOverflow::Contained(lhs), MaybeOverflow::Contained(rhs)) => lhs.partial_cmp_spec(
                rhs,
            ),
        }
    }
}

/// The greatest size that a type's values have, as machine integers would
/// hold it.
pub open spec fn as_stored(max_size: MaybeInstantiable<MaybeInfinite<nat>>) -> MaybeInstantiable<
    MaybeInfinite<MaybeOverflow<usize>>,
> {
    match max_size {
        MaybeInstantiable::Uninstantiable => MaybeInstantiable::Uninstantiable,
        MaybeInstantiable::Instantiable(MaybeInfinite::Infinite) => MaybeInstantiable::Instantiable(
            MaybeInfinite::Infinite,
        ),
        MaybeInstantiable::Instantiable(MaybeInfinite::Finite(max)) =>
            MaybeInstantiable::Instantiable(MaybeInfinite::Finite(contained(max))),
    }
}

/// The precise, detailed size of a value.
pub trait Size: Sized {
    /// The size of this value.
    spec fn spec_size(&self) -> nat;

    /// The greatest size of any value of this type, if the type has values
    /// and their sizes have a bound.
    spec fn spec_max_size() -> MaybeInstantiable<MaybeInfinite<nat>>;

    /// No value is larger than the greatest size, and a type that has a
    /// value is instantiable.
    proof fn lemma_max_size(&self)
        ensures
            match Self::spec_max_size() {
                MaybeInstantiable::Uninstantiable => false,
                MaybeInstantiable::Instantiable(MaybeInfinite::Infinite) => true,
                MaybeInstantiable::Instantiable(MaybeInfinite::Finite(max)) => self.spec_size()
                    <= max,
            },
    ;

    /// The greatest value that `size` can ever return, if any.
    fn max_size() -> (max: MaybeInstantiable<MaybeInfinite<MaybeOverflow<usize>>>)
        ensures
            max == as_stored(Self::spec_max_size()),
    ;

    /// The precise, detailed size of a value.
    fn size(&self) -> (size: MaybeOverflow<usize>)
        ensures
            size == contained(self.spec_size()),
    ;
}

impl Size for () {
    open spec fn spec_size(&self) -> nat {
        0
    }

    open spec fn spec_max_size() -> MaybeInstantiable<MaybeInfinite<nat>> {
        MaybeInstantiable::Instantiable(MaybeInfinite::Finite(0))
    }

    proof fn lemma_max_size(&self) {
    }

    fn max_size() -> (max: MaybeInstantiable<MaybeInfinite<MaybeOverflow<usize>>>) {
        MaybeInstantiable::Instantiable(MaybeInfinite::Finite(MaybeOverflow::Contained(0)))
    }

    fn size(&self) -> (size: MaybeOverflow<usize>) {
        MaybeOverflow::Contained(0)
    }
}

impl Size for bool {
    /// One for `true`, zero for `false`.
    open spec fn spec_size(&self) -> nat {
        if *self {
            1
        } else {
            0
        }
    }

    open spec fn spec_max_size() -> MaybeInstantiable<MaybeInfinite<nat>> {
        MaybeInstantiable::Instantiable(MaybeInfinite::Finite(1))
    }

    proof fn lemma_max_size(&self) {
    }

    fn max_size() -> (max: MaybeInstantiable<MaybeInfinite<MaybeOverflow<usize>>>) {
        MaybeInstantiable::Instantiable(MaybeInfinite::Finite(MaybeOverflow::Contained(1)))
    }

    fn size(&self) -> (size: MaybeOverflow<usize>) {
        if *self {
            MaybeOverflow::Contained(1)
        } else {
            MaybeOverflow::Contained(0)
        }
    }
}

impl Size for u8 {
    /// The number itself.
    open spec fn spec_size(&self) -> nat {
        *self as nat
    }

    open spec fn spec_max_size() -> MaybeInstantiable<MaybeInfinite<nat>> {
        MaybeInstantiable::Instantiable(MaybeInfinite::Finite(0xFF))
    }

    proof fn lemma_max_size(&self) {
    }

    fn max_size() -> (max: MaybeInstantiable<MaybeInfinite<MaybeOverflow<usize>>>) {
        MaybeInstantiable::Instantiable(MaybeInfinite::Finite(MaybeOverflow::Contained(0xFF)))
    }

    fn size(&self) -> (size: MaybeOverflow<usize>) {
        MaybeOverflow::Contained(*self as usize)
    }
}

impl Size for u16 {
    /// The number itself.
    open spec fn spec_size(&self) -> nat {
        *self as nat
    }

    open spec fn spec_max_size() -> MaybeInstantiable<MaybeInfinite<nat>> {
        MaybeInstantiable::Instantiable(MaybeInfinite::Finite(0xFFFF))
    }

    proof fn lemma_max_size(&self) {
    }

    fn max_size() -> (max: MaybeInstantiable<MaybeInfinite<MaybeOverflow<usize>>>) {
        MaybeInstantiable::Instantiable(MaybeInfinite::Finite(MaybeOverflow::Contained(0xFFFF)))
    }

    fn size(&self) -> (size: MaybeOverflow<usize>) {
        MaybeOverflow::Contained(*self as usize)
    }
}

impl Size for u32 {
    /// The number itself.
    open spec fn spec_size(&self) -> nat {
        *self as nat
    }

    open spec fn spec_max_size() -> MaybeInstantiable<MaybeInfinite<nat>> {
        MaybeInstantiable::Instantiable(MaybeInfinite::Finite(0xFFFF_FFFF))
    }

    proof fn lemma_max_size(&self) {
    }

    fn max_size() -> (max: MaybeInstantiable<MaybeInfinite<MaybeOverflow<usize>>>) {
        MaybeInstantiable::Instantiable(
            MaybeInfinite::Finite(MaybeOverflow::Contained(0xFFFF_FFFF)),
        )
    }

    fn size(&self) -> (size: MaybeOverflow<usize>) {
        MaybeOverflow::Contained(*self as usize)
    }
}

impl<T: Size> Size for Option<T> {
    /// Zero for `None`, and one more than what is inside `Some(_)`.
    open spec fn spec_size(&self) -> nat {
        match self {
            None => 0,
            Some(inner) => inner.spec_size() + 1,
        }
    }

    /// `None` alone where `T` has no values; otherwise one more than the
    /// greatest size of `T`.
    open spec fn spec_max_size() -> MaybeInstantiable<MaybeInfinite<nat>> {
        match T::spec_max_size() {
            MaybeInstantiable::Uninstantiable => MaybeInstantiable::Instantiable(
                MaybeInfinite::Finite(0),
            ),
            MaybeInstantiable::Instantiable(MaybeInfinite::Infinite) =>
                MaybeInstantiable::Instantiable(MaybeInfinite::Infinite),
            MaybeInstantiable::Instantiable(MaybeInfinite::Finite(max)) =>
                MaybeInstantiable::Instantiable(MaybeInfinite::Finite(max + 1)),
        }
    }

    proof fn lemma_max_size(&self) {
        if let Some(inner) = self {
            inner.lemma_max_size();
        }
    }

    fn max_size() -> (max: MaybeInstantiable<MaybeInfinite<MaybeOverflow<usize>>>) {
        match T::max_size() {
            MaybeInstantiable::Uninstantiable => MaybeInstantiable::Instantiable(
                MaybeInfinite::Finite(MaybeOverflow::Contained(0)),
            ),
            MaybeInstantiable::Instantiable(MaybeInfinite::Infinite) =>
                MaybeInstantiable::Instantiable(MaybeInfinite::Infinite),
            MaybeInstantiable::Instantiable(MaybeInfinite::Finite(max)) =>
                MaybeInstantiable::Instantiable(MaybeInfinite::Finite(max.plus(1))),
        }
    }

    fn size(&self) -> (size: MaybeOverflow<usize>) {
        match self {
            None => MaybeOverflow::Contained(0),
            Some(inner) => inner.size().plus(1),
        }
    }
}

/// The size of a sequence: one for each item, and the size of each item.
pub open spec fn spec_total_size<T: Size>(items: Seq<T>) -> nat
    decreases items.len(),
{
    if items.len() == 0 {
        0
    } else {
        spec_total_size(items.drop_last()) + 1 + items.last().spec_size()
    }
}

impl<T: Size> Size for Vec<T> {
    open spec fn spec_size(&self) -> nat {
        spec_total_size(self@)
    }

    /// The empty vector alone where `T` has no values; otherwise there is no
    /// bound.
    open spec fn spec_max_size() -> MaybeInstantiable<MaybeInfinite<nat>> {
        match T::spec_max_size() {
            MaybeInstantiable::Uninstantiable => MaybeInstantiable::Instantiable(
                MaybeInfinite::Finite(0),
            ),
            MaybeInstantiable::Instantiable(_) => MaybeInstantiable::Instantiable(
                MaybeInfinite::Infinite,
            ),
        }
    }

    proof fn lemma_max_size(&self) {
        if self@.len() > 0 {
            self@.last().lemma_max_size();
        }
    }

    fn max_size() -> (max: MaybeInstantiable<MaybeInfinite<MaybeOverflow<usize>>>) {
        match T::max_size() {
            MaybeInstantiable::Uninstantiable => MaybeInstantiable::Instantiable(
                MaybeInfinite::Finite(MaybeOverflow::Contained(0)),
            ),
            MaybeInstantiable::Instantiable(_) => MaybeInstantiable::Instantiable(
                MaybeInfinite::Infinite,
            ),
        }
    }

    fn size(&self) -> (size: MaybeOverflow<usize>) {
        let mut acc: usize = 0;
        let mut i: usize = 0;
        while i < self.len()
            invariant
                i <= self.len(),
                acc == spec_total_size(self@.take(i as int)),
            decreases self.len() - i,
        {
            proof {
                assert(self@.take(i + 1).drop_last() =~= self@.take(i as int));
                lemma_total_size_grows(self@, i + 1);
            }
            let incremented = match acc.checked_add(1) {
                Some(incremented) => incremented,
                None => {
                    return MaybeOverflow::Overflow;
                },
            };
            let marginal = match self[i].size() {
                MaybeOverflow::Contained(marginal) => marginal,
                MaybeOverflow::Overflow => {
                    return MaybeOverflow::Overflow;
                },
            };
            acc = match incremented.checked_add(marginal) {
                Some(increased) => increased,
                None => {
                    return MaybeOverflow::Overflow;
                },
            };
            i += 1;
        }
        assert(self@.take(i as int) =~= self@);
        MaybeOverflow::Contained(acc)
    }
}

/// A sequence is at least as large as any of its beginnings.
pub proof fn lemma_total_size_grows<T: Size>(items: Seq<T>, count: int)
    requires
        0 <= count <= items.len(),
    ensures
        spec_total_size(items.take(count)) <= spec_total_size(items),
    decreases items.len() - count,
{
    if count < items.len() {
        lemma_total_size_grows(items, count + 1);
        assert(items.take(count + 1).drop_last() =~= items.take(count));
    } else {
        assert(items.take(count) =~= items);
    }
}

} // verus!
