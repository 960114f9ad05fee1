//! The search for a witness: a value that passes a property, found by
//! generation from increasingly large seeds and then minimized.

use crate::conjure::Conjure;
use crate::count::Cardinality;
use crate::seed::{seeds, Seed, Seeds};
use crate::shrink::{agrees, holds, minimal, spec_minimal, total, Shrink};
use crate::term::Term;
use vstd::prelude::*;

verus! {

/// Error: no witness was found, either because the type has no values or
/// because no generated value passed the property.
#[derive(Clone, Copy, Debug, PartialEq, Eq, Hash, Structural)]
pub struct NotFound;

/// The number of values that a search generates before it gives up.
pub const TRIALS: usize = 1000;

/// The model of what a search returned.
pub open spec fn found_model<T: Term>(found: Result<T, NotFound>) -> Result<T::Model, NotFound> {
    match found {
        Ok(term) => Ok(term.model()),
        Err(error) => Err(error),
    }
}

/// What a search with the given supply of seeds and number of trials left
/// returns, when the property answers as `meaning` says.
///
/// The search fails at once where the type cannot be instantiated, and
/// where no trial is left. It ends at the first generated value that passes,
/// and returns the minimum that shrinking reaches from it.
pub open spec fn spec_search<T: Conjure + Shrink>(
    supply: Seeds,
    trials: nat,
    meaning: spec_fn(T::Model) -> bool,
) -> Result<T::Model, NotFound>
    decreases trials,
{
    if trials == 0 {
        Err(NotFound)
    } else {
        match supply.spec_next() {
            (None, _) => Err(NotFound),
            (Some(seed), rest) => match T::spec_conjure(seed) {
                Err(_) => Err(NotFound),
                Ok(candidate) => if meaning(candidate) {
                    Ok(spec_minimal::<T>(candidate, meaning))
                } else {
                    spec_search::<T>(rest, (trials - 1) as nat, meaning)
                },
            },
        }
    }
}

/// What `witness` returns, when the property answers as `meaning` says: it
/// depends on nothing else.
pub open spec fn spec_witness<T: Conjure + Shrink>(meaning: spec_fn(T::Model) -> bool) -> Result<
    T::Model,
    NotFound,
> {
    spec_search::<T>(Seeds(Seed { state: Seed::initial_state(), size: 0 }), TRIALS as nat, meaning)
}

/// A witness passes the property and has no step left.
pub proof fn lemma_witness_is_minimal<T: Conjure + Shrink>(
    supply: Seeds,
    trials: nat,
    meaning: spec_fn(T::Model) -> bool,
)
    ensures
        spec_search::<T>(supply, trials, meaning) matches Ok(found) ==> meaning(found)
            && T::spec_step(found, meaning) is None,
    decreases trials,
{
    if trials > 0 {
        match supply.spec_next() {
            (None, _) => {},
            (Some(seed), rest) => match T::spec_conjure(seed) {
                Err(_) => {},
                Ok(candidate) => {
                    if meaning(candidate) {
                        crate::shrink::lemma_minimal_is_fixpoint::<T>(candidate, meaning);
                    } else {
                        lemma_witness_is_minimal::<T>(rest, (trials - 1) as nat, meaning);
                    }
                },
            },
        }
    }
}

/// Search for a value that passes the property: generate one value from
/// each of an increasing sequence of seeds, test it, and minimize the first
/// that passes.
///
/// The search gives up after `TRIALS` values, and at once if the type
/// cannot be instantiated.
pub fn witness<T: Conjure + Shrink, P: Fn(&T) -> bool>(property: P) -> (found: Result<T, NotFound>)
    requires
        total(&property),
    ensures
        found matches Ok(term) ==> holds(&property, term.model()),
        T::spec_cardinality() == Cardinality::Empty ==> found is Err,
        forall|meaning: spec_fn(T::Model) -> bool| #[trigger]
            agrees(&property, meaning) ==> found_model(found) == spec_witness::<T>(meaning),
{
    let mut supply = seeds();
    let mut trials: usize = TRIALS;
    while trials > 0
        invariant
            total(&property),
            forall|meaning: spec_fn(T::Model) -> bool| #[trigger]
                agrees(&property, meaning) ==> spec_search::<T>(supply, trials as nat, meaning)
                    == spec_witness::<T>(meaning),
        decreases trials,
    {
        let seed = match supply.next() {
            Some(seed) => seed,
            None => {
                return Err(NotFound);
            },
        };
        let candidate = match T::conjure(seed) {
            Ok(candidate) => candidate,
            Err(_) => {
                return Err(NotFound);
            },
        };
        if property(&candidate) {
            return Ok(minimal(&candidate, property));
        }
        trials -= 1;
    }
    Err(NotFound)
}

} // verus!
