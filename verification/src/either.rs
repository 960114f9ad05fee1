//! Tagged union of two types.

use crate::iter::{Finite, Source};
use crate::term::Term;
use vstd::prelude::*;

verus! {

/// Tagged union of two types.
#[derive(Debug)]
pub enum Either<A, B> {
    /// The first of two types.
    A(A),
    /// The second of two types.
    B(B),
}

impl<A: Source, B: Source<Item = A::Item>> Source for Either<A, B> {
    type Item = A::Item;

    type State = Either<A::State, B::State>;

    open spec fn wf(&self) -> bool {
        match self {
            Either::A(a) => a.wf(),
            Either::B(b) => b.wf(),
        }
    }

    open spec fn state(&self) -> Either<A::State, B::State> {
        match self {
            Either::A(a) => Either::A(a.state()),
            Either::B(b) => Either::B(b.state()),
        }
    }

    /// What the source on either side hands out.
    open spec fn spec_next(state: Either<A::State, B::State>) -> (
        Option<<A::Item as Term>::Model>,
        Either<A::State, B::State>,
    ) {
        match state {
            Either::A(a) => (A::spec_next(a).0, Either::A(A::spec_next(a).1)),
            Either::B(b) => (B::spec_next(b).0, Either::B(B::spec_next(b).1)),
        }
    }

    fn next(&mut self) -> (item: Option<A::Item>) {
        match self {
            Either::A(a) => a.next(),
            Either::B(b) => b.next(),
        }
    }
}

impl<A: Finite, B: Finite<Item = A::Item>> Finite for Either<A, B> {
    open spec fn bound(state: Either<A::State, B::State>) -> nat {
        match state {
            Either::A(a) => A::bound(a),
            Either::B(b) => B::bound(b),
        }
    }

    proof fn lemma_bound(state: Either<A::State, B::State>) {
        match state {
            Either::A(a) => A::lemma_bound(a),
            Either::B(b) => B::lemma_bound(b),
        }
    }
}

} // verus!
