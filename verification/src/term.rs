//! Values that can be copied and compared exactly.
//!
//! Every type that takes part in generation or shrinking has a mathematical
//! model: the value itself for scalars, a sequence of models for vectors and
//! arrays, and so on through the structure. Copies and comparisons are stated
//! over that model.

use vstd::prelude::*;

verus! {

/// A value with a mathematical model, an exact copy and an exact equality.
pub trait Term: Sized {
    /// The mathematical value that a term stands for.
    type Model;

    /// The model of this term.
    spec fn model(&self) -> Self::Model;

    /// A copy with the same model.
    fn dup(&self) -> (copy: Self)
        ensures
            copy.model() == self.model(),
    ;

    /// Whether two terms have the same model.
    fn same(&self, other: &Self) -> (equal: bool)
        ensures
            equal == (self.model() == other.model()),
    ;
}

/// The models of a sequence of terms, in order.
pub open spec fn models<T: Term>(terms: Seq<T>) -> Seq<T::Model> {
    Seq::new(terms.len(), |i: int| terms[i].model())
}

/// Taking models commutes with `push`.
pub proof fn lemma_models_push<T: Term>(terms: Seq<T>, last: T)
    ensures
        models(terms.push(last)) == models(terms).push(last.model()),
{
    assert(models(terms.push(last)) =~= models(terms).push(last.model()));
}

/// Taking models commutes with `subrange`.
pub proof fn lemma_models_subrange<T: Term>(terms: Seq<T>, from: int, to: int)
    requires
        0 <= from <= to <= terms.len(),
    ensures
        models(terms.subrange(from, to)) == models(terms).subrange(from, to),
{
    assert(models(terms.subrange(from, to)) =~= models(terms).subrange(from, to));
}

/// Taking models commutes with `remove`.
pub proof fn lemma_models_remove<T: Term>(terms: Seq<T>, at: int)
    requires
        0 <= at < terms.len(),
    ensures
        models(terms.remove(at)) == models(terms).remove(at),
{
    assert(models(terms.remove(at)) =~= models(terms).remove(at));
}

/// Taking models commutes with `update`.
pub proof fn lemma_models_update<T: Term>(terms: Seq<T>, at: int, term: T)
    requires
        0 <= at < terms.len(),
    ensures
        models(terms.update(at, term)) == models(terms).update(at, term.model()),
{
    assert(models(terms.update(at, term)) =~= models(terms).update(at, term.model()));
}

impl Term for () {
    type Model = ();

    open spec fn model(&self) -> () {
        ()
    }

    fn dup(&self) -> (copy: Self) {
        ()
    }

    fn same(&self, other: &Self) -> (equal: bool) {
        true
    }
}

impl Term for bool {
    type Model = bool;

    open spec fn model(&self) -> bool {
        *self
    }

    fn dup(&self) -> (copy: Self) {
        *self
    }

    fn same(&self, other: &Self) -> (equal: bool) {
        *self == *other
    }
}

impl Term for u8 {
    type Model = u8;

    open spec fn model(&self) -> u8 {
        *self
    }

    fn dup(&self) -> (copy: Self) {
        *self
    }

    fn same(&self, other: &Self) -> (equal: bool) {
        *self == *other
    }
}

impl Term for u16 {
    type Model = u16;

    open spec fn model(&self) -> u16 {
        *self
    }

    fn dup(&self) -> (copy: Self) {
        *self
    }

    fn same(&self, other: &Self) -> (equal: bool) {
        *self == *other
    }
}

impl Term for u32 {
    type Model = u32;

    open spec fn model(&self) -> u32 {
        *self
    }

    fn dup(&self) -> (copy: Self) {
        *self
    }

    fn same(&self, other: &Self) -> (equal: bool) {
        *self == *other
    }
}

impl Term for u64 {
    type Model = u64;

    open spec fn model(&self) -> u64 {
        *self
    }

    fn dup(&self) -> (copy: Self) {
        *self
    }

    fn same(&self, other: &Self) -> (equal: bool) {
        *self == *other
    }
}

impl Term for usize {
    type Model = usize;

    open spec fn model(&self) -> usize {
        *self
    }

    fn dup(&self) -> (copy: Self) {
        *self
    }

    fn same(&self, other: &Self) -> (equal: bool) {
        *self == *other
    }
}

impl Term for i8 {
    type Model = i8;

    open spec fn model(&self) -> i8 {
        *self
    }

    fn dup(&self) -> (copy: Self) {
        *self
    }

    fn same(&self, other: &Self) -> (equal: bool) {
        *self == *other
    }
}

impl Term for i16 {
    type Model = i16;

    open spec fn model(&self) -> i16 {
        *self
    }

    fn dup(&self) -> (copy: Self) {
        *self
    }

    fn same(&self, other: &Self) -> (equal: bool) {
        *self == *other
    }
}

impl Term for i32 {
    type Model = i32;

    open spec fn model(&self) -> i32 {
        *self
    }

    fn dup(&self) -> (copy: Self) {
        *self
    }

    fn same(&self, other: &Self) -> (equal: bool) {
        *self == *other
    }
}

impl Term for i64 {
    type Model = i64;

    open spec fn model(&self) -> i64 {
        *self
    }

    fn dup(&self) -> (copy: Self) {
        *self
    }

    fn same(&self, other: &Self) -> (equal: bool) {
        *self == *other
    }
}

impl<T: Term> Term for Option<T> {
    type Model = Option<T::Model>;

    open spec fn model(&self) -> Option<T::Model> {
        match self {
            Some(t) => Some(t.model()),
            None => None,
        }
    }

    fn dup(&self) -> (copy: Self) {
        match self {
            Some(t) => Some(t.dup()),
            None => None,
        }
    }

    fn same(&self, other: &Self) -> (equal: bool) {
        match (self, other) {
            (Some(a), Some(b)) => a.same(b),
            (None, None) => true,
            _ => false,
        }
    }
}

impl<T: Term, E: Term> Term for Result<T, E> {
    type Model = Result<T::Model, E::Model>;

    open spec fn model(&self) -> Result<T::Model, E::Model> {
        match self {
            Ok(t) => Ok(t.model()),
            Err(e) => Err(e.model()),
        }
    }

    fn dup(&self) -> (copy: Self) {
        match self {
            Ok(t) => Ok(t.dup()),
            Err(e) => Err(e.dup()),
        }
    }

    fn same(&self, other: &Self) -> (equal: bool) {
        match (self, other) {
            (Ok(a), Ok(b)) => a.same(b),
            (Err(a), Err(b)) => a.same(b),
            _ => false,
        }
    }
}

impl<T: Term> Term for Box<T> {
    type Model = T::Model;

    open spec fn model(&self) -> T::Model {
        (**self).model()
    }

    fn dup(&self) -> (copy: Self) {
        Box::new((**self).dup())
    }

    fn same(&self, other: &Self) -> (equal: bool) {
        (**self).same(&**other)
    }
}

impl<A: Term> Term for (A,) {
    type Model = (A::Model,);

    open spec fn model(&self) -> (A::Model,) {
        (self.0.model(),)
    }

    fn dup(&self) -> (copy: Self) {
        (self.0.dup(),)
    }

    fn same(&self, other: &Self) -> (equal: bool) {
        self.0.same(&other.0)
    }
}

impl<A: Term, B: Term> Term for (A, B) {
    type Model = (A::Model, B::Model);

    open spec fn model(&self) -> (A::Model, B::Model) {
        (self.0.model(), self.1.model())
    }

    fn dup(&self) -> (copy: Self) {
        (self.0.dup(), self.1.dup())
    }

    fn same(&self, other: &Self) -> (equal: bool) {
        self.0.same(&other.0) && self.1.same(&other.1)
    }
}

impl<A: Term, B: Term, C: Term> Term for (A, B, C) {
    type Model = (A::Model, B::Model, C::Model);

    open spec fn model(&self) -> (A::Model, B::Model, C::Model) {
        (self.0.model(), self.1.model(), self.2.model())
    }

    fn dup(&self) -> (copy: Self) {
        (self.0.dup(), self.1.dup(), self.2.dup())
    }

    fn same(&self, other: &Self) -> (equal: bool) {
        self.0.same(&other.0) && self.1.same(&other.1) && self.2.same(&other.2)
    }
}

/// Copy the terms of a sequence, in order.
pub fn dup_all<T: Term>(terms: &[T]) -> (copies: Vec<T>)
    ensures
        copies.len() == terms.len(),
        models(copies@) == models(terms@),
{
    let mut copies: Vec<T> = Vec::with_capacity(terms.len());
    let mut i: usize = 0;
    while i < terms.len()
        invariant
            i <= terms.len(),
            copies.len() == i,
            forall|j: int| 0 <= j < i ==> copies@[j].model() == terms@[j].model(),
        decreases terms.len() - i,
    {
        copies.push(terms[i].dup());
        i += 1;
    }
    assert(models(copies@) =~= models(terms@));
    copies
}

/// Whether two sequences of terms have the same length and, place by place,
/// the same models.
pub fn same_all<T: Term>(left: &[T], right: &[T]) -> (equal: bool)
    ensures
        equal == (models(left@) == models(right@)),
{
    if left.len() != right.len() {
        assert(models(left@).len() != models(right@).len());
        return false;
    }
    let mut i: usize = 0;
    while i < left.len()
        invariant
            i <= left.len(),
            left.len() == right.len(),
            forall|j: int| 0 <= j < i ==> left@[j].model() == right@[j].model(),
        decreases left.len() - i,
    {
        if !left[i].same(&right[i]) {
            assert(models(left@)[i as int] != models(right@)[i as int]);
            return false;
        }
        i += 1;
    }
    assert(models(left@) =~= models(right@));
    true
}

impl<T: Term> Term for Vec<T> {
    type Model = Seq<T::Model>;

    open spec fn model(&self) -> Seq<T::Model> {
        models(self@)
    }

    fn dup(&self) -> (copy: Self) {
        dup_all(self.as_slice())
    }

    fn same(&self, other: &Self) -> (equal: bool) {
        same_all(self.as_slice(), other.as_slice())
    }
}

/// Turns a vector of exactly `N` items into an array with the same items in
/// the same order, by `Vec`'s `TryFrom` conversion into `[T; N]`, which
/// succeeds whenever the length is `N`.
#[verifier::external_body]
pub(crate) fn array_from_vec<T, const N: usize>(items: Vec<T>) -> (array: [T; N])
    requires
        items.len() == N,
    ensures
        array@ == items@,
{
    let converted: Result<[T; N], Vec<T>> = items.try_into();
    converted.ok().unwrap()
}

impl<T: Term, const N: usize> Term for [T; N] {
    type Model = Seq<T::Model>;

    open spec fn model(&self) -> Seq<T::Model> {
        models(self@)
    }

    fn dup(&self) -> (copy: Self) {
        array_from_vec(dup_all(self.as_slice()))
    }

    fn same(&self, other: &Self) -> (equal: bool) {
        same_all(self.as_slice(), other.as_slice())
    }
}

} // verus!
