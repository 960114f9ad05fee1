//! The minimization protocol: one step that tries structurally smaller
//! candidates against a property, and the driver that repeats it until no
//! candidate passes.

use crate::term::Term;
use vstd::prelude::*;

verus! {

/// Whether a property may be called on every term.
pub open spec fn total<T, P: Fn(&T) -> bool>(property: &P) -> bool {
    forall|term: &T| #[trigger] property.requires((term,))
}

/// Whether a property can give `answer` on some term with the given model.
pub open spec fn answers<T: Term, P: Fn(&T) -> bool>(
    property: &P,
    model: T::Model,
    answer: bool,
) -> bool {
    exists|term: T| term.model() == model && #[trigger] property.ensures((&term,), answer)
}

/// Whether a property can answer `true` on some term with the given model.
pub open spec fn holds<T: Term, P: Fn(&T) -> bool>(property: &P, model: T::Model) -> bool {
    answers(property, model, true)
}

/// Whether every answer of a property is the one that `meaning` gives for the
/// model of the term asked about.
///
/// A property that agrees with some meaning is deterministic, and cannot tell
/// two terms with the same model apart.
pub open spec fn agrees<T: Term, P: Fn(&T) -> bool>(
    property: &P,
    meaning: spec_fn(T::Model) -> bool,
) -> bool {
    forall|term: &T, answer: bool| #[trigger]
        property.ensures((term,), answer) ==> answer == meaning((*term).model())
}

/// The model of what a step returned.
pub open spec fn stepped_model<T: Term>(stepped: Option<T>) -> Option<T::Model> {
    match stepped {
        Some(term) => Some(term.model()),
        None => None,
    }
}

/// Types whose values can be made smaller, one step at a time, while a
/// property keeps holding.
pub trait Shrink: Term {
    /// A measure that every step decreases.
    spec fn measure(model: Self::Model) -> nat;

    /// The outcome of one step from `model` when the property answers as
    /// `meaning` says: the first candidate of the type's menu that passes, or
    /// `None` if none does.
    spec fn spec_step(model: Self::Model, meaning: spec_fn(Self::Model) -> bool) -> Option<
        Self::Model,
    >;

    /// A step returns only what passes the property, and only what is
    /// smaller.
    proof fn lemma_step(model: Self::Model, meaning: spec_fn(Self::Model) -> bool)
        ensures
            Self::spec_step(model, meaning) matches Some(smaller) ==> meaning(smaller)
                && Self::measure(smaller) < Self::measure(model),
    ;

    /// Try a bounded menu of structurally smaller candidates, testing the
    /// property at each, and return the first that passes, if any.
    fn step<P: Fn(&Self) -> bool>(&self, property: &P) -> (smaller: Option<Self>)
        requires
            total(property),
        ensures
            smaller matches Some(term) ==> holds(property, term.model()) && Self::measure(
                term.model(),
            ) < Self::measure(self.model()),
            forall|meaning: spec_fn(Self::Model) -> bool| #[trigger]
                agrees(property, meaning) ==> stepped_model(smaller) == Self::spec_step(
                    self.model(),
                    meaning,
                ),
    ;
}

/// The local minimum that repeated steps reach from `model` when the
/// property answers as `meaning` says.
pub open spec fn spec_minimal<T: Shrink>(
    model: T::Model,
    meaning: spec_fn(T::Model) -> bool,
) -> T::Model
    decreases T::measure(model),
{
    match T::spec_step(model, meaning) {
        None => model,
        Some(smaller) => {
            proof {
                T::lemma_step(model, meaning);
            }
            spec_minimal::<T>(smaller, meaning)
        },
    }
}

/// A minimum has no step left, and passes the property if the start did.
pub proof fn lemma_minimal_is_fixpoint<T: Shrink>(
    model: T::Model,
    meaning: spec_fn(T::Model) -> bool,
)
    ensures
        T::spec_step(spec_minimal::<T>(model, meaning), meaning) is None,
        meaning(model) ==> meaning(spec_minimal::<T>(model, meaning)),
        T::measure(spec_minimal::<T>(model, meaning)) <= T::measure(model),
    decreases T::measure(model),
{
    T::lemma_step(model, meaning);
    match T::spec_step(model, meaning) {
        None => {},
        Some(smaller) => {
            lemma_minimal_is_fixpoint::<T>(smaller, meaning);
        },
    }
}

/// Minimizing a minimum changes nothing.
pub proof fn lemma_minimal_is_idempotent<T: Shrink>(
    model: T::Model,
    meaning: spec_fn(T::Model) -> bool,
)
    ensures
        spec_minimal::<T>(spec_minimal::<T>(model, meaning), meaning) == spec_minimal::<T>(
            model,
            meaning,
        ),
{
    lemma_minimal_is_fixpoint::<T>(model, meaning);
}

/// Repeatedly call `step`, replacing the value on success, until no smaller
/// candidate passes the property.
#[must_use]
pub fn minimal<T: Shrink, P: Fn(&T) -> bool>(t: &T, property: P) -> (least: T)
    requires
        total(&property),
    ensures
        least.model() == t.model() || holds(&property, least.model()),
        T::measure(least.model()) <= T::measure(t.model()),
        forall|meaning: spec_fn(T::Model) -> bool| #[trigger]
            agrees(&property, meaning) ==> least.model() == spec_minimal::<T>(
                t.model(),
                meaning,
            ),
{
    let mut acc = t.dup();
    loop
        invariant
            total(&property),
            acc.model() == t.model() || holds(&property, acc.model()),
            T::measure(acc.model()) <= T::measure(t.model()),
            forall|meaning: spec_fn(T::Model) -> bool| #[trigger]
                agrees(&property, meaning) ==> spec_minimal::<T>(acc.model(), meaning)
                    == spec_minimal::<T>(t.model(), meaning),
        decreases T::measure(acc.model()),
    {
        match acc.step(&property) {
            None => {
                return acc;
            },
            Some(smaller) => {
                acc = smaller;
            },
        }
    }
}

} // verus!
