//! Implementations for the fixed-width integers up to 64 bits, and for
//! `usize`.

use crate::conjure::{Conjure, Uninstantiable};
use crate::count::{Cardinality, Count};
use crate::seed::Seed;
use crate::shrink::{agrees, answers, total, Shrink};
use crate::term::models;
use vstd::prelude::*;

verus! {

/// The logarithmic ladder below `from`: the first of `from - subtrahend`,
/// `from - subtrahend / 2`, `from - subtrahend / 4` and so on that passes,
/// the subtrahend halving until it is zero.
///
/// Started with `from` itself as the subtrahend, the candidates are
/// `from - (from >> k)` for `k` from zero upwards.
pub open spec fn spec_ladder(from: int, subtrahend: int, meaning: spec_fn(int) -> bool) -> Option<
    int,
>
    decreases subtrahend,
{
    if subtrahend <= 0 {
        None
    } else if meaning(from - subtrahend) {
        Some(from - subtrahend)
    } else {
        spec_ladder(from, subtrahend / 2, meaning)
    }
}

/// `from` halved `times` times, rounding down: `from >> times`.
pub open spec fn spec_halved(from: int, times: nat) -> int
    decreases times,
{
    if times == 0 {
        from
    } else {
        spec_halved(from, (times - 1) as nat) / 2
    }
}

/// Halving more often does not give more.
pub proof fn lemma_halved_shrinks(from: int, fewer: nat, more: nat)
    requires
        0 <= from,
        fewer <= more,
    ensures
        0 <= spec_halved(from, more) <= spec_halved(from, fewer),
    decreases more,
{
    if more > fewer {
        lemma_halved_shrinks(from, fewer, (more - 1) as nat);
    } else if more > 0 {
        lemma_halved_shrinks(from, (fewer - 1) as nat, (more - 1) as nat);
    }
}

/// Whether `from - (from >> k)` fails for every `k` from `first` up to, but
/// not including, `end`.
pub open spec fn spec_all_fail(from: int, first: nat, end: nat, meaning: spec_fn(int) -> bool) -> bool {
    forall|k: nat| first <= k < end ==> !meaning(from - #[trigger] spec_halved(from, k))
}

/// The ladder finds `from - (from >> k)` for the least `k` for which that
/// passes, as long as `from >> k` is not zero; and nothing, if there is no
/// such `k`.
pub proof fn lemma_ladder_is_first(from: int, first: nat, meaning: spec_fn(int) -> bool)
    requires
        0 <= from,
    ensures
        match spec_ladder(from, spec_halved(from, first), meaning) {
            Some(found) => exists|k: nat|
                first <= k && 0 < #[trigger] spec_halved(from, k) && found == from - spec_halved(
                    from,
                    k,
                ) && meaning(found) && spec_all_fail(from, first, k, meaning),
            None => forall|k: nat|
                first <= k && 0 < #[trigger] spec_halved(from, k) ==> !meaning(
                    from - spec_halved(from, k),
                ),
        },
    decreases spec_halved(from, first),
{
    let subtrahend = spec_halved(from, first);
    lemma_halved_shrinks(from, 0, first);
    if subtrahend <= 0 {
        assert forall|k: nat| first <= k && 0 < #[trigger] spec_halved(from, k) implies !meaning(
            from - spec_halved(from, k),
        ) by {
            lemma_halved_shrinks(from, first, k);
        }
    } else if meaning(from - subtrahend) {
        assert(spec_all_fail(from, first, first, meaning));
    } else {
        assert(spec_halved(from, first + 1) == subtrahend / 2);
        lemma_ladder_is_first(from, first + 1, meaning);
        match spec_ladder(from, subtrahend / 2, meaning) {
            Some(found) => {
                let k = choose|k: nat|
                    first + 1 <= k && 0 < #[trigger] spec_halved(from, k) && found == from
                        - spec_halved(from, k) && meaning(found) && spec_all_fail(
                        from,
                        first + 1,
                        k,
                        meaning,
                    );
                assert(spec_all_fail(from, first, k, meaning)) by {
                    assert forall|j: nat| first <= j < k implies !meaning(
                        from - #[trigger] spec_halved(from, j),
                    ) by {
                        if j > first {
                        }
                    }
                }
            },
            None => {
                assert forall|k: nat|
                    first <= k && 0 < #[trigger] spec_halved(from, k) implies !meaning(
                    from - spec_halved(from, k),
                ) by {
                    if k > first {
                    }
                }
            },
        }
    }
}

/// What the ladder finds passes, and lies below where the ladder started.
pub proof fn lemma_ladder(from: int, subtrahend: int, meaning: spec_fn(int) -> bool)
    requires
        subtrahend <= from,
    ensures
        spec_ladder(from, subtrahend, meaning) matches Some(found) ==> meaning(found) && 0
            <= found < from,
    decreases subtrahend,
{
    if subtrahend > 0 && !meaning(from - subtrahend) {
        lemma_ladder(from, subtrahend / 2, meaning);
    }
}

/// A property of `u8`, as a property of the integers.
pub open spec fn widened_u8(meaning: spec_fn(u8) -> bool) -> spec_fn(int) -> bool {
    |candidate: int| meaning(candidate as u8)
}

impl Count for u8 {
    open spec fn spec_cardinality() -> Cardinality {
        Cardinality::Finite
    }

    fn cardinality() -> (c: Cardinality) {
        Cardinality::Finite
    }
}

impl Conjure for u8 {
    /// The low bits of the next number drawn.
    open spec fn spec_conjure(seed: Seed) -> Result<u8, Uninstantiable> {
        Ok(seed.output() as u8)
    }

    open spec fn spec_leaf(seed: Seed) -> Result<u8, Uninstantiable> {
        Ok(seed.output() as u8)
    }

    /// Zero, one, and the two values on either side of the sign bit, and the
    /// greatest value.
    open spec fn spec_corners() -> Seq<u8> {
        seq![0u8, 1u8, 127u8, 128u8, 255u8]
    }

    open spec fn spec_variants() -> Seq<Cardinality> {
        seq![Cardinality::Finite]
    }

    open spec fn spec_build(index: int, seed: Seed) -> Result<u8, Uninstantiable> {
        if index == 0 {
            Self::spec_conjure(seed)
        } else {
            Err(Uninstantiable)
        }
    }

    fn conjure(seed: Seed) -> (made: Result<Self, Uninstantiable>) {
        Self::leaf(seed)
    }

    fn leaf(seed: Seed) -> (made: Result<Self, Uninstantiable>) {
        let mut seed = seed;
        let raw = seed.prng();
        Ok(#[verifier::truncate] (raw as u8))
    }

    fn corners() -> (all: Vec<Self>) {
        let mut all: Vec<u8> = Vec::new();
        all.push(0);
        all.push(1);
        all.push(127);
        all.push(128);
        all.push(255);
        assert(models(all@) =~= seq![0u8, 1u8, 127u8, 128u8, 255u8]);
        all
    }

    fn variants() -> (all: Vec<Cardinality>) {
        let mut all = Vec::new();
        all.push(Cardinality::Finite);
        assert(all@ =~= seq![Cardinality::Finite]);
        all
    }

    fn build(index: usize, seed: Seed) -> (made: Result<Self, Uninstantiable>) {
        if index == 0 {
            Self::conjure(seed)
        } else {
            Err(Uninstantiable)
        }
    }
}

impl Shrink for u8 {
    open spec fn measure(model: u8) -> nat {
        model as nat
    }

    /// The logarithmic ladder from `model` down.
    open spec fn spec_step(model: u8, meaning: spec_fn(u8) -> bool) -> Option<u8> {
        match spec_ladder(model as int, model as int, widened_u8(meaning)) {
            Some(found) => Some(found as u8),
            None => None,
        }
    }

    proof fn lemma_step(model: u8, meaning: spec_fn(u8) -> bool) {
        lemma_ladder(model as int, model as int, widened_u8(meaning));
    }

    fn step<P: Fn(&Self) -> bool>(&self, property: &P) -> (smaller: Option<Self>) {
        let mut subtrahend: u8 = *self;
        while subtrahend != 0
            invariant
                subtrahend <= *self,
                total(property),
                forall|meaning: spec_fn(u8) -> bool| #[trigger]
                    agrees(property, meaning) ==> spec_ladder(
                        *self as int,
                        subtrahend as int,
                        widened_u8(meaning),
                    ) == spec_ladder(*self as int, *self as int, widened_u8(meaning)),
            decreases subtrahend,
        {
            let difference: u8 = *self - subtrahend;
            if property(&difference) {
                return Some(difference);
            }
            subtrahend = subtrahend / 2;
        }
        None
    }
}

/// The sign and the magnitude of an `i8`.
pub open spec fn spec_decompose_i8(whole: i8) -> (bool, u8) {
    (
        whole < 0,
        (if whole < 0 {
            -(whole as int)
        } else {
            whole as int
        }) as u8,
    )
}

/// The `i8` with the given sign and magnitude, if there is one.
///
/// The least `i8` is out of reach: its magnitude is not an `i8`.
pub open spec fn spec_recompose_i8(negative: bool, magnitude: u8) -> Option<i8> {
    if magnitude > 127 {
        None
    } else if negative {
        Some((-(magnitude as int)) as i8)
    } else {
        Some(magnitude as i8)
    }
}

/// A property of `i8`, as a property of sign and magnitude: it fails where
/// the two make no `i8`.
pub open spec fn recomposed_i8(meaning: spec_fn(i8) -> bool) -> spec_fn((bool, u8)) -> bool {
    |parts: (bool, u8)|
        match spec_recompose_i8(parts.0, parts.1) {
            Some(whole) => meaning(whole),
            None => false,
        }
}

/// Split an `i8` into its sign and its magnitude.
pub fn decompose_i8(whole: i8) -> (parts: (bool, u8))
    ensures
        parts == spec_decompose_i8(whole),
{
    if whole < 0 {
        (true, (-(whole as i16)) as u8)
    } else {
        (false, whole as u8)
    }
}

/// Put a sign and a magnitude together, if they make an `i8`.
pub fn recompose_i8(negative: bool, magnitude: u8) -> (whole: Option<i8>)
    ensures
        whole == spec_recompose_i8(negative, magnitude),
{
    if magnitude > 127 {
        None
    } else if negative {
        Some(-(magnitude as i8))
    } else {
        Some(magnitude as i8)
    }
}

impl Count for i8 {
    open spec fn spec_cardinality() -> Cardinality {
        Cardinality::Finite
    }

    fn cardinality() -> (c: Cardinality) {
        Cardinality::Finite
    }
}

impl Conjure for i8 {
    /// The low bits of the next number drawn, read as a signed number.
    open spec fn spec_conjure(seed: Seed) -> Result<i8, Uninstantiable> {
        Ok(seed.output() as i8)
    }

    open spec fn spec_leaf(seed: Seed) -> Result<i8, Uninstantiable> {
        Ok(seed.output() as i8)
    }

    /// Zero, one, the greatest value, the least value, and minus one.
    open spec fn spec_corners() -> Seq<i8> {
        seq![0i8, 1i8, i8::MAX, i8::MIN, -1i8]
    }

    open spec fn spec_variants() -> Seq<Cardinality> {
        seq![Cardinality::Finite]
    }

    open spec fn spec_build(index: int, seed: Seed) -> Result<i8, Uninstantiable> {
        if index == 0 {
            Self::spec_conjure(seed)
        } else {
            Err(Uninstantiable)
        }
    }

    fn conjure(seed: Seed) -> (made: Result<Self, Uninstantiable>) {
        Self::leaf(seed)
    }

    fn leaf(seed: Seed) -> (made: Result<Self, Uninstantiable>) {
        let mut seed = seed;
        let raw = seed.prng();
        Ok(#[verifier::truncate] (raw as i8))
    }

    fn corners() -> (all: Vec<Self>) {
        let mut all: Vec<i8> = Vec::new();
        all.push(0);
        all.push(1);
        all.push(i8::MAX);
        all.push(i8::MIN);
        all.push(-1);
        assert(models(all@) =~= seq![0i8, 1i8, i8::MAX, i8::MIN, -1i8]);
        all
    }

    fn variants() -> (all: Vec<Cardinality>) {
        let mut all = Vec::new();
        all.push(Cardinality::Finite);
        assert(all@ =~= seq![Cardinality::Finite]);
        all
    }

    fn build(index: usize, seed: Seed) -> (made: Result<Self, Uninstantiable>) {
        if index == 0 {
            Self::conjure(seed)
        } else {
            Err(Uninstantiable)
        }
    }
}

impl Shrink for i8 {
    /// The magnitude, and one more for a negative number.
    open spec fn measure(model: i8) -> nat {
        (if model < 0 {
            1 - model
        } else {
            model as int
        }) as nat
    }

    /// A negative number steps to its negation if that passes. Otherwise
    /// sign and magnitude are shrunk as a pair.
    open spec fn spec_step(model: i8, meaning: spec_fn(i8) -> bool) -> Option<i8> {
        if model < 0 && model != i8::MIN && meaning((-model) as i8) {
            Some((-model) as i8)
        } else {
            match <(bool, u8) as Shrink>::spec_step(
                spec_decompose_i8(model),
                recomposed_i8(meaning),
            ) {
                Some(parts) => spec_recompose_i8(parts.0, parts.1),
                None => None,
            }
        }
    }

    proof fn lemma_step(model: i8, meaning: spec_fn(i8) -> bool) {
        <(bool, u8) as Shrink>::lemma_step(spec_decompose_i8(model), recomposed_i8(meaning));
    }

    fn step<P: Fn(&Self) -> bool>(&self, property: &P) -> (smaller: Option<Self>) {
        if *self < 0 && *self != i8::MIN {
            let positive: i8 = -*self;
            if property(&positive) {
                return Some(positive);
            }
        }
        let parts = decompose_i8(*self);
        let on_parts = |parts: &(bool, u8)| -> (answer: bool)
            ensures
                match spec_recompose_i8(parts.0, parts.1) {
                    Some(whole) => answers(property, whole, answer),
                    None => !answer,
                },
            {
                match recompose_i8(parts.0, parts.1) {
                    Some(whole) => property(&whole),
                    None => false,
                }
            };
        proof {
            assert forall|meaning: spec_fn(i8) -> bool| #[trigger]
                agrees(property, meaning) implies agrees(&on_parts, recomposed_i8(meaning)) by {}
        }
        match parts.step(&on_parts) {
            Some(smaller) => recompose_i8(smaller.0, smaller.1),
            None => None,
        }
    }
}

/// A property of `u16`, as a property of the integers.
pub open spec fn widened_u16(meaning: spec_fn(u16) -> bool) -> spec_fn(int) -> bool {
    |candidate: int| meaning(candidate as u16)
}

impl Count for u16 {
    open spec fn spec_cardinality() -> Cardinality {
        Cardinality::Finite
    }

    fn cardinality() -> (c: Cardinality) {
        Cardinality::Finite
    }
}

impl Conjure for u16 {
    /// The low bits of the next number drawn.
    open spec fn spec_conjure(seed: Seed) -> Result<u16, Uninstantiable> {
        Ok(seed.output() as u16)
    }

    open spec fn spec_leaf(seed: Seed) -> Result<u16, Uninstantiable> {
        Ok(seed.output() as u16)
    }

    /// Zero, one, and the two values on either side of the sign bit, and the
    /// greatest value.
    open spec fn spec_corners() -> Seq<u16> {
        seq![0u16, 1u16, 32767u16, 32768u16, 65535u16]
    }

    open spec fn spec_variants() -> Seq<Cardinality> {
        seq![Cardinality::Finite]
    }

    open spec fn spec_build(index: int, seed: Seed) -> Result<u16, Uninstantiable> {
        if index == 0 {
            Self::spec_conjure(seed)
        } else {
            Err(Uninstantiable)
        }
    }

    fn conjure(seed: Seed) -> (made: Result<Self, Uninstantiable>) {
        Self::leaf(seed)
    }

    fn leaf(seed: Seed) -> (made: Result<Self, Uninstantiable>) {
        let mut seed = seed;
        let raw = seed.prng();
        Ok(#[verifier::truncate] (raw as u16))
    }

    fn corners() -> (all: Vec<Self>) {
        let mut all: Vec<u16> = Vec::new();
        all.push(0);
        all.push(1);
        all.push(32767);
        all.push(32768);
        all.push(65535);
        assert(models(all@) =~= seq![0u16, 1u16, 32767u16, 32768u16, 65535u16]);
        all
    }

    fn variants() -> (all: Vec<Cardinality>) {
        let mut all = Vec::new();
        all.push(Cardinality::Finite);
        assert(all@ =~= seq![Cardinality::Finite]);
        all
    }

    fn build(index: usize, seed: Seed) -> (made: Result<Self, Uninstantiable>) {
        if index == 0 {
            Self::conjure(seed)
        } else {
            Err(Uninstantiable)
        }
    }
}

impl Shrink for u16 {
    open spec fn measure(model: u16) -> nat {
        model as nat
    }

    /// The logarithmic ladder from `model` down.
    open spec fn spec_step(model: u16, meaning: spec_fn(u16) -> bool) -> Option<u16> {
        match spec_ladder(model as int, model as int, widened_u16(meaning)) {
            Some(found) => Some(found as u16),
            None => None,
        }
    }

    proof fn lemma_step(model: u16, meaning: spec_fn(u16) -> bool) {
        lemma_ladder(model as int, model as int, widened_u16(meaning));
    }

    fn step<P: Fn(&Self) -> bool>(&self, property: &P) -> (smaller: Option<Self>) {
        let mut subtrahend: u16 = *self;
        while subtrahend != 0
            invariant
                subtrahend <= *self,
                total(property),
                forall|meaning: spec_fn(u16) -> bool| #[trigger]
                    agrees(property, meaning) ==> spec_ladder(
                        *self as int,
                        subtrahend as int,
                        widened_u16(meaning),
                    ) == spec_ladder(*self as int, *self as int, widened_u16(meaning)),
            decreases subtrahend,
        {
            let difference: u16 = *self - subtrahend;
            if property(&difference) {
                return Some(difference);
            }
            subtrahend = subtrahend / 2;
        }
        None
    }
}

/// The sign and the magnitude of an `i16`.
pub open spec fn spec_decompose_i16(whole: i16) -> (bool, u16) {
    (
        whole < 0,
        (if whole < 0 {
            -(whole as int)
        } else {
            whole as int
        }) as u16,
    )
}

/// The `i16` with the given sign and magnitude, if there is one.
///
/// The least `i16` is out of reach: its magnitude is not an `i16`.
pub open spec fn spec_recompose_i16(negative: bool, magnitude: u16) -> Option<i16> {
    if magnitude > 32767 {
        None
    } else if negative {
        Some((-(magnitude as int)) as i16)
    } else {
        Some(magnitude as i16)
    }
}

/// A property of `i16`, as a property of sign and magnitude: it fails where
/// the two make no `i16`.
pub open spec fn recomposed_i16(meaning: spec_fn(i16) -> bool) -> spec_fn((bool, u16)) -> bool {
    |parts: (bool, u16)|
        match spec_recompose_i16(parts.0, parts.1) {
            Some(whole) => meaning(whole),
            None => false,
        }
}

/// Split an `i16` into its sign and its magnitude.
pub fn decompose_i16(whole: i16) -> (parts: (bool, u16))
    ensures
        parts == spec_decompose_i16(whole),
{
    if whole < 0 {
        (true, (-(whole as i32)) as u16)
    } else {
        (false, whole as u16)
    }
}

/// Put a sign and a magnitude together, if they make an `i16`.
pub fn recompose_i16(negative: bool, magnitude: u16) -> (whole: Option<i16>)
    ensures
        whole == spec_recompose_i16(negative, magnitude),
{
    if magnitude > 32767 {
        None
    } else if negative {
        Some(-(magnitude as i16))
    } else {
        Some(magnitude as i16)
    }
}

impl Count for i16 {
    open spec fn spec_cardinality() -> Cardinality {
        Cardinality::Finite
    }

    fn cardinality() -> (c: Cardinality) {
        Cardinality::Finite
    }
}

impl Conjure for i16 {
    /// The low bits of the next number drawn, read as a signed number.
    open spec fn spec_conjure(seed: Seed) -> Result<i16, Uninstantiable> {
        Ok(seed.output() as i16)
    }

    open spec fn spec_leaf(seed: Seed) -> Result<i16, Uninstantiable> {
        Ok(seed.output() as i16)
    }

    /// Zero, one, the greatest value, the least value, and minus one.
    open spec fn spec_corners() -> Seq<i16> {
        seq![0i16, 1i16, i16::MAX, i16::MIN, -1i16]
    }

    open spec fn spec_variants() -> Seq<Cardinality> {
        seq![Cardinality::Finite]
    }

    open spec fn spec_build(index: int, seed: Seed) -> Result<i16, Uninstantiable> {
        if index == 0 {
            Self::spec_conjure(seed)
        } else {
            Err(Uninstantiable)
        }
    }

    fn conjure(seed: Seed) -> (made: Result<Self, Uninstantiable>) {
        Self::leaf(seed)
    }

    fn leaf(seed: Seed) -> (made: Result<Self, Uninstantiable>) {
        let mut seed = seed;
        let raw = seed.prng();
        Ok(#[verifier::truncate] (raw as i16))
    }

    fn corners() -> (all: Vec<Self>) {
        let mut all: Vec<i16> = Vec::new();
        all.push(0);
        all.push(1);
        all.push(i16::MAX);
        all.push(i16::MIN);
        all.push(-1);
        assert(models(all@) =~= seq![0i16, 1i16, i16::MAX, i16::MIN, -1i16]);
        all
    }

    fn variants() -> (all: Vec<Cardinality>) {
        let mut all = Vec::new();
        all.push(Cardinality::Finite);
        assert(all@ =~= seq![Cardinality::Finite]);
        all
    }

    fn build(index: usize, seed: Seed) -> (made: Result<Self, Uninstantiable>) {
        if index == 0 {
            Self::conjure(seed)
        } else {
            Err(Uninstantiable)
        }
    }
}

impl Shrink for i16 {
    /// The magnitude, and one more for a negative number.
    open spec fn measure(model: i16) -> nat {
        (if model < 0 {
            1 - model
        } else {
            model as int
        }) as nat
    }

    /// A negative number steps to its negation if that passes. Otherwise
    /// sign and magnitude are shrunk as a pair.
    open spec fn spec_step(model: i16, meaning: spec_fn(i16) -> bool) -> Option<i16> {
        if model < 0 && model != i16::MIN && meaning((-model) as i16) {
            Some((-model) as i16)
        } else {
            match <(bool, u16) as Shrink>::spec_step(
                spec_decompose_i16(model),
                recomposed_i16(meaning),
            ) {
                Some(parts) => spec_recompose_i16(parts.0, parts.1),
                None => None,
            }
        }
    }

    proof fn lemma_step(model: i16, meaning: spec_fn(i16) -> bool) {
        <(bool, u16) as Shrink>::lemma_step(spec_decompose_i16(model), recomposed_i16(meaning));
    }

    fn step<P: Fn(&Self) -> bool>(&self, property: &P) -> (smaller: Option<Self>) {
        if *self < 0 && *self != i16::MIN {
            let positive: i16 = -*self;
            if property(&positive) {
                return Some(positive);
            }
        }
        let parts = decompose_i16(*self);
        let on_parts = |parts: &(bool, u16)| -> (answer: bool)
            ensures
                match spec_recompose_i16(parts.0, parts.1) {
                    Some(whole) => answers(property, whole, answer),
                    None => !answer,
                },
            {
                match recompose_i16(parts.0, parts.1) {
                    Some(whole) => property(&whole),
                    None => false,
                }
            };
        proof {
            assert forall|meaning: spec_fn(i16) -> bool| #[trigger]
                agrees(property, meaning) implies agrees(&on_parts, recomposed_i16(meaning)) by {}
        }
        match parts.step(&on_parts) {
            Some(smaller) => recompose_i16(smaller.0, smaller.1),
            None => None,
        }
    }
}

/// A property of `u32`, as a property of the integers.
pub open spec fn widened_u32(meaning: spec_fn(u32) -> bool) -> spec_fn(int) -> bool {
    |candidate: int| meaning(candidate as u32)
}

impl Count for u32 {
    open spec fn spec_cardinality() -> Cardinality {
        Cardinality::Finite
    }

    fn cardinality() -> (c: Cardinality) {
        Cardinality::Finite
    }
}

impl Conjure for u32 {
    /// The low bits of the next number drawn.
    open spec fn spec_conjure(seed: Seed) -> Result<u32, Uninstantiable> {
        Ok(seed.output() as u32)
    }

    open spec fn spec_leaf(seed: Seed) -> Result<u32, Uninstantiable> {
        Ok(seed.output() as u32)
    }

    /// Zero, one, and the two values on either side of the sign bit, and the
    /// greatest value.
    open spec fn spec_corners() -> Seq<u32> {
        seq![0u32, 1u32, 2147483647u32, 2147483648u32, 4294967295u32]
    }

    open spec fn spec_variants() -> Seq<Cardinality> {
        seq![Cardinality::Finite]
    }

    open spec fn spec_build(index: int, seed: Seed) -> Result<u32, Uninstantiable> {
        if index == 0 {
            Self::spec_conjure(seed)
        } else {
            Err(Uninstantiable)
        }
    }

    fn conjure(seed: Seed) -> (made: Result<Self, Uninstantiable>) {
        Self::leaf(seed)
    }

    fn leaf(seed: Seed) -> (made: Result<Self, Uninstantiable>) {
        let mut seed = seed;
        let raw = seed.prng();
        Ok(#[verifier::truncate] (raw as u32))
    }

    fn corners() -> (all: Vec<Self>) {
        let mut all: Vec<u32> = Vec::new();
        all.push(0);
        all.push(1);
        all.push(2147483647);
        all.push(2147483648);
        all.push(4294967295);
        assert(models(all@) =~= seq![0u32, 1u32, 2147483647u32, 2147483648u32, 4294967295u32]);
        all
    }

    fn variants() -> (all: Vec<Cardinality>) {
        let mut all = Vec::new();
        all.push(Cardinality::Finite);
        assert(all@ =~= seq![Cardinality::Finite]);
        all
    }

    fn build(index: usize, seed: Seed) -> (made: Result<Self, Uninstantiable>) {
        if index == 0 {
            Self::conjure(seed)
        } else {
            Err(Uninstantiable)
        }
    }
}

impl Shrink for u32 {
    open spec fn measure(model: u32) -> nat {
        model as nat
    }

    /// The logarithmic ladder from `model` down.
    open spec fn spec_step(model: u32, meaning: spec_fn(u32) -> bool) -> Option<u32> {
        match spec_ladder(model as int, model as int, widened_u32(meaning)) {
            Some(found) => Some(found as u32),
            None => None,
        }
    }

    proof fn lemma_step(model: u32, meaning: spec_fn(u32) -> bool) {
        lemma_ladder(model as int, model as int, widened_u32(meaning));
    }

    fn step<P: Fn(&Self) -> bool>(&self, property: &P) -> (smaller: Option<Self>) {
        let mut subtrahend: u32 = *self;
        while subtrahend != 0
            invariant
                subtrahend <= *self,
                total(property),
                forall|meaning: spec_fn(u32) -> bool| #[trigger]
                    agrees(property, meaning) ==> spec_ladder(
                        *self as int,
                        subtrahend as int,
                        widened_u32(meaning),
                    ) == spec_ladder(*self as int, *self as int, widened_u32(meaning)),
            decreases subtrahend,
        {
            let difference: u32 = *self - subtrahend;
            if property(&difference) {
                return Some(difference);
            }
            subtrahend = subtrahend / 2;
        }
        None
    }
}

/// The sign and the magnitude of an `i32`.
pub open spec fn spec_decompose_i32(whole: i32) -> (bool, u32) {
    (
        whole < 0,
        (if whole < 0 {
            -(whole as int)
        } else {
            whole as int
        }) as u32,
    )
}

/// The `i32` with the given sign and magnitude, if there is one.
///
/// The least `i32` is out of reach: its magnitude is not an `i32`.
pub open spec fn spec_recompose_i32(negative: bool, magnitude: u32) -> Option<i32> {
    if magnitude > 2147483647 {
        None
    } else if negative {
        Some((-(magnitude as int)) as i32)
    } else {
        Some(magnitude as i32)
    }
}

/// A property of `i32`, as a property of sign and magnitude: it fails where
/// the two make no `i32`.
pub open spec fn recomposed_i32(meaning: spec_fn(i32) -> bool) -> spec_fn((bool, u32)) -> bool {
    |parts: (bool, u32)|
        match spec_recompose_i32(parts.0, parts.1) {
            Some(whole) => meaning(whole),
            None => false,
        }
}

/// Split an `i32` into its sign and its magnitude.
pub fn decompose_i32(whole: i32) -> (parts: (bool, u32))
    ensures
        parts == spec_decompose_i32(whole),
{
    if whole < 0 {
        (true, (-(whole as i64)) as u32)
    } else {
        (false, whole as u32)
    }
}

/// Put a sign and a magnitude together, if they make an `i32`.
pub fn recompose_i32(negative: bool, magnitude: u32) -> (whole: Option<i32>)
    ensures
        whole == spec_recompose_i32(negative, magnitude),
{
    if magnitude > 2147483647 {
        None
    } else if negative {
        Some(-(magnitude as i32))
    } else {
        Some(magnitude as i32)
    }
}

impl Count for i32 {
    open spec fn spec_cardinality() -> Cardinality {
        Cardinality::Finite
    }

    fn cardinality() -> (c: Cardinality) {
        Cardinality::Finite
    }
}

impl Conjure for i32 {
    /// The low bits of the next number drawn, read as a signed number.
    open spec fn spec_conjure(seed: Seed) -> Result<i32, Uninstantiable> {
        Ok(seed.output() as i32)
    }

    open spec fn spec_leaf(seed: Seed) -> Result<i32, Uninstantiable> {
        Ok(seed.output() as i32)
    }

    /// Zero, one, the greatest value, the least value, and minus one.
    open spec fn spec_corners() -> Seq<i32> {
        seq![0i32, 1i32, i32::MAX, i32::MIN, -1i32]
    }

    open spec fn spec_variants() -> Seq<Cardinality> {
        seq![Cardinality::Finite]
    }

    open spec fn spec_build(index: int, seed: Seed) -> Result<i32, Uninstantiable> {
        if index == 0 {
            Self::spec_conjure(seed)
        } else {
            Err(Uninstantiable)
        }
    }

    fn conjure(seed: Seed) -> (made: Result<Self, Uninstantiable>) {
        Self::leaf(seed)
    }

    fn leaf(seed: Seed) -> (made: Result<Self, Uninstantiable>) {
        let mut seed = seed;
        let raw = seed.prng();
        Ok(#[verifier::truncate] (raw as i32))
    }

    fn corners() -> (all: Vec<Self>) {
        let mut all: Vec<i32> = Vec::new();
        all.push(0);
        all.push(1);
        all.push(i32::MAX);
        all.push(i32::MIN);
        all.push(-1);
        assert(models(all@) =~= seq![0i32, 1i32, i32::MAX, i32::MIN, -1i32]);
        all
    }

    fn variants() -> (all: Vec<Cardinality>) {
        let mut all = Vec::new();
        all.push(Cardinality::Finite);
        assert(all@ =~= seq![Cardinality::Finite]);
        all
    }

    fn build(index: usize, seed: Seed) -> (made: Result<Self, Uninstantiable>) {
        if index == 0 {
            Self::conjure(seed)
        } else {
            Err(Uninstantiable)
        }
    }
}

impl Shrink for i32 {
    /// The magnitude, and one more for a negative number.
    open spec fn measure(model: i32) -> nat {
        (if model < 0 {
            1 - model
        } else {
            model as int
        }) as nat
    }

    /// A negative number steps to its negation if that passes. Otherwise
    /// sign and magnitude are shrunk as a pair.
    open spec fn spec_step(model: i32, meaning: spec_fn(i32) -> bool) -> Option<i32> {
        if model < 0 && model != i32::MIN && meaning((-model) as i32) {
            Some((-model) as i32)
        } else {
            match <(bool, u32) as Shrink>::spec_step(
                spec_decompose_i32(model),
                recomposed_i32(meaning),
            ) {
                Some(parts) => spec_recompose_i32(parts.0, parts.1),
                None => None,
            }
        }
    }

    proof fn lemma_step(model: i32, meaning: spec_fn(i32) -> bool) {
        <(bool, u32) as Shrink>::lemma_step(spec_decompose_i32(model), recomposed_i32(meaning));
    }

    fn step<P: Fn(&Self) -> bool>(&self, property: &P) -> (smaller: Option<Self>) {
        if *self < 0 && *self != i32::MIN {
            let positive: i32 = -*self;
            if property(&positive) {
                return Some(positive);
            }
        }
        let parts = decompose_i32(*self);
        let on_parts = |parts: &(bool, u32)| -> (answer: bool)
            ensures
                match spec_recompose_i32(parts.0, parts.1) {
                    Some(whole) => answers(property, whole, answer),
                    None => !answer,
                },
            {
                match recompose_i32(parts.0, parts.1) {
                    Some(whole) => property(&whole),
                    None => false,
                }
            };
        proof {
            assert forall|meaning: spec_fn(i32) -> bool| #[trigger]
                agrees(property, meaning) implies agrees(&on_parts, recomposed_i32(meaning)) by {}
        }
        match parts.step(&on_parts) {
            Some(smaller) => recompose_i32(smaller.0, smaller.1),
            None => None,
        }
    }
}

/// A property of `u64`, as a property of the integers.
pub open spec fn widened_u64(meaning: spec_fn(u64) -> bool) -> spec_fn(int) -> bool {
    |candidate: int| meaning(candidate as u64)
}

impl Count for u64 {
    open spec fn spec_cardinality() -> Cardinality {
        Cardinality::Finite
    }

    fn cardinality() -> (c: Cardinality) {
        Cardinality::Finite
    }
}

impl Conjure for u64 {
    /// The low bits of the next number drawn.
    open spec fn spec_conjure(seed: Seed) -> Result<u64, Uninstantiable> {
        Ok(seed.output() as u64)
    }

    open spec fn spec_leaf(seed: Seed) -> Result<u64, Uninstantiable> {
        Ok(seed.output() as u64)
    }

    /// Zero, one, and the two values on either side of the sign bit, and the
    /// greatest value.
    open spec fn spec_corners() -> Seq<u64> {
        seq![0u64, 1u64, 9223372036854775807u64, 9223372036854775808u64, 18446744073709551615u64]
    }

    open spec fn spec_variants() -> Seq<Cardinality> {
        seq![Cardinality::Finite]
    }

    open spec fn spec_build(index: int, seed: Seed) -> Result<u64, Uninstantiable> {
        if index == 0 {
            Self::spec_conjure(seed)
        } else {
            Err(Uninstantiable)
        }
    }

    fn conjure(seed: Seed) -> (made: Result<Self, Uninstantiable>) {
        Self::leaf(seed)
    }

    fn leaf(seed: Seed) -> (made: Result<Self, Uninstantiable>) {
        let mut seed = seed;
        let raw = seed.prng();
        Ok(raw)
    }

    fn corners() -> (all: Vec<Self>) {
        let mut all: Vec<u64> = Vec::new();
        all.push(0);
        all.push(1);
        all.push(9223372036854775807);
        all.push(9223372036854775808);
        all.push(18446744073709551615);
        assert(models(all@) =~= seq![0u64, 1u64, 9223372036854775807u64, 9223372036854775808u64, 18446744073709551615u64]);
        all
    }

    fn variants() -> (all: Vec<Cardinality>) {
        let mut all = Vec::new();
        all.push(Cardinality::Finite);
        assert(all@ =~= seq![Cardinality::Finite]);
        all
    }

    fn build(index: usize, seed: Seed) -> (made: Result<Self, Uninstantiable>) {
        if index == 0 {
            Self::conjure(seed)
        } else {
            Err(Uninstantiable)
        }
    }
}

impl Shrink for u64 {
    open spec fn measure(model: u64) -> nat {
        model as nat
    }

    /// The logarithmic ladder from `model` down.
    open spec fn spec_step(model: u64, meaning: spec_fn(u64) -> bool) -> Option<u64> {
        match spec_ladder(model as int, model as int, widened_u64(meaning)) {
            Some(found) => Some(found as u64),
            None => None,
        }
    }

    proof fn lemma_step(model: u64, meaning: spec_fn(u64) -> bool) {
        lemma_ladder(model as int, model as int, widened_u64(meaning));
    }

    fn step<P: Fn(&Self) -> bool>(&self, property: &P) -> (smaller: Option<Self>) {
        let mut subtrahend: u64 = *self;
        while subtrahend != 0
            invariant
                subtrahend <= *self,
                total(property),
                forall|meaning: spec_fn(u64) -> bool| #[trigger]
                    agrees(property, meaning) ==> spec_ladder(
                        *self as int,
                        subtrahend as int,
                        widened_u64(meaning),
                    ) == spec_ladder(*self as int, *self as int, widened_u64(meaning)),
            decreases subtrahend,
        {
            let difference: u64 = *self - subtrahend;
            if property(&difference) {
                return Some(difference);
            }
            subtrahend = subtrahend / 2;
        }
        None
    }
}

/// The sign and the magnitude of an `i64`.
pub open spec fn spec_decompose_i64(whole: i64) -> (bool, u64) {
    (
        whole < 0,
        (if whole < 0 {
            -(whole as int)
        } else {
            whole as int
        }) as u64,
    )
}

/// The `i64` with the given sign and magnitude, if there is one.
///
/// The least `i64` is out of reach: its magnitude is not an `i64`.
pub open spec fn spec_recompose_i64(negative: bool, magnitude: u64) -> Option<i64> {
    if magnitude > 9223372036854775807 {
        None
    } else if negative {
        Some((-(magnitude as int)) as i64)
    } else {
        Some(magnitude as i64)
    }
}

/// A property of `i64`, as a property of sign and magnitude: it fails where
/// the two make no `i64`.
pub open spec fn recomposed_i64(meaning: spec_fn(i64) -> bool) -> spec_fn((bool, u64)) -> bool {
    |parts: (bool, u64)|
        match spec_recompose_i64(parts.0, parts.1) {
            Some(whole) => meaning(whole),
            None => false,
        }
}

/// Split an `i64` into its sign and its magnitude.
pub fn decompose_i64(whole: i64) -> (parts: (bool, u64))
    ensures
        parts == spec_decompose_i64(whole),
{
    if whole < 0 {
        (true, (-(whole as i128)) as u64)
    } else {
        (false, whole as u64)
    }
}

/// Put a sign and a magnitude together, if they make an `i64`.
pub fn recompose_i64(negative: bool, magnitude: u64) -> (whole: Option<i64>)
    ensures
        whole == spec_recompose_i64(negative, magnitude),
{
    if magnitude > 9223372036854775807 {
        None
    } else if negative {
        Some(-(magnitude as i64))
    } else {
        Some(magnitude as i64)
    }
}

impl Count for i64 {
    open spec fn spec_cardinality() -> Cardinality {
        Cardinality::Finite
    }

    fn cardinality() -> (c: Cardinality) {
        Cardinality::Finite
    }
}

impl Conjure for i64 {
    /// The low bits of the next number drawn, read as a signed number.
    open spec fn spec_conjure(seed: Seed) -> Result<i64, Uninstantiable> {
        Ok(seed.output() as i64)
    }

    open spec fn spec_leaf(seed: Seed) -> Result<i64, Uninstantiable> {
        Ok(seed.output() as i64)
    }

    /// Zero, one, the greatest value, the least value, and minus one.
    open spec fn spec_corners() -> Seq<i64> {
        seq![0i64, 1i64, i64::MAX, i64::MIN, -1i64]
    }

    open spec fn spec_variants() -> Seq<Cardinality> {
        seq![Cardinality::Finite]
    }

    open spec fn spec_build(index: int, seed: Seed) -> Result<i64, Uninstantiable> {
        if index == 0 {
            Self::spec_conjure(seed)
        } else {
            Err(Uninstantiable)
        }
    }

    fn conjure(seed: Seed) -> (made: Result<Self, Uninstantiable>) {
        Self::leaf(seed)
    }

    fn leaf(seed: Seed) -> (made: Result<Self, Uninstantiable>) {
        let mut seed = seed;
        let raw = seed.prng();
        Ok(#[verifier::truncate] (raw as i64))
    }

    fn corners() -> (all: Vec<Self>) {
        let mut all: Vec<i64> = Vec::new();
        all.push(0);
        all.push(1);
        all.push(i64::MAX);
        all.push(i64::MIN);
        all.push(-1);
        assert(models(all@) =~= seq![0i64, 1i64, i64::MAX, i64::MIN, -1i64]);
        all
    }

    fn variants() -> (all: Vec<Cardinality>) {
        let mut all = Vec::new();
        all.push(Cardinality::Finite);
        assert(all@ =~= seq![Cardinality::Finite]);
        all
    }

    fn build(index: usize, seed: Seed) -> (made: Result<Self, Uninstantiable>) {
        if index == 0 {
            Self::conjure(seed)
        } else {
            Err(Uninstantiable)
        }
    }
}

impl Shrink for i64 {
    /// The magnitude, and one more for a negative number.
    open spec fn measure(model: i64) -> nat {
        (if model < 0 {
            1 - model
        } else {
            model as int
        }) as nat
    }

    /// A negative number steps to its negation if that passes. Otherwise
    /// sign and magnitude are shrunk as a pair.
    open spec fn spec_step(model: i64, meaning: spec_fn(i64) -> bool) -> Option<i64> {
        if model < 0 && model != i64::MIN && meaning((-model) as i64) {
            Some((-model) as i64)
        } else {
            match <(bool, u64) as Shrink>::spec_step(
                spec_decompose_i64(model),
                recomposed_i64(meaning),
            ) {
                Some(parts) => spec_recompose_i64(parts.0, parts.1),
                None => None,
            }
        }
    }

    proof fn lemma_step(model: i64, meaning: spec_fn(i64) -> bool) {
        <(bool, u64) as Shrink>::lemma_step(spec_decompose_i64(model), recomposed_i64(meaning));
    }

    fn step<P: Fn(&Self) -> bool>(&self, property: &P) -> (smaller: Option<Self>) {
        if *self < 0 && *self != i64::MIN {
            let positive: i64 = -*self;
            if property(&positive) {
                return Some(positive);
            }
        }
        let parts = decompose_i64(*self);
        let on_parts = |parts: &(bool, u64)| -> (answer: bool)
            ensures
                match spec_recompose_i64(parts.0, parts.1) {
                    Some(whole) => answers(property, whole, answer),
                    None => !answer,
                },
            {
                match recompose_i64(parts.0, parts.1) {
                    Some(whole) => property(&whole),
                    None => false,
                }
            };
        proof {
            assert forall|meaning: spec_fn(i64) -> bool| #[trigger]
                agrees(property, meaning) implies agrees(&on_parts, recomposed_i64(meaning)) by {}
        }
        match parts.step(&on_parts) {
            Some(smaller) => recompose_i64(smaller.0, smaller.1),
            None => None,
        }
    }
}

/// A property of `usize`, as a property of the integers.
pub open spec fn widened_usize(meaning: spec_fn(usize) -> bool) -> spec_fn(int) -> bool {
    |candidate: int| meaning(candidate as usize)
}

impl Count for usize {
    open spec fn spec_cardinality() -> Cardinality {
        Cardinality::Finite
    }

    fn cardinality() -> (c: Cardinality) {
        Cardinality::Finite
    }
}

impl Conjure for usize {
    /// The low bits of the next number drawn.
    open spec fn spec_conjure(seed: Seed) -> Result<usize, Uninstantiable> {
        Ok(seed.output() as usize)
    }

    open spec fn spec_leaf(seed: Seed) -> Result<usize, Uninstantiable> {
        Ok(seed.output() as usize)
    }

    /// Zero, one, and the two values on either side of the sign bit, and the
    /// greatest value.
    open spec fn spec_corners() -> Seq<usize> {
        seq![0usize, 1usize, (usize::MAX / 2) as usize, (usize::MAX / 2 + 1) as usize, usize::MAX]
    }

    open spec fn spec_variants() -> Seq<Cardinality> {
        seq![Cardinality::Finite]
    }

    open spec fn spec_build(index: int, seed: Seed) -> Result<usize, Uninstantiable> {
        if index == 0 {
            Self::spec_conjure(seed)
        } else {
            Err(Uninstantiable)
        }
    }

    fn conjure(seed: Seed) -> (made: Result<Self, Uninstantiable>) {
        Self::leaf(seed)
    }

    fn leaf(seed: Seed) -> (made: Result<Self, Uninstantiable>) {
        let mut seed = seed;
        let raw = seed.prng();
        Ok(#[verifier::truncate] (raw as usize))
    }

    fn corners() -> (all: Vec<Self>) {
        let mut all: Vec<usize> = Vec::new();
        all.push(0);
        all.push(1);
        all.push(usize::MAX / 2);
        all.push(usize::MAX / 2 + 1);
        all.push(usize::MAX);
        assert(models(all@) =~= seq![0usize, 1usize, (usize::MAX / 2) as usize, (usize::MAX / 2 + 1) as usize, usize::MAX]);
        all
    }

    fn variants() -> (all: Vec<Cardinality>) {
        let mut all = Vec::new();
        all.push(Cardinality::Finite);
        assert(all@ =~= seq![Cardinality::Finite]);
        all
    }

    fn build(index: usize, seed: Seed) -> (made: Result<Self, Uninstantiable>) {
        if index == 0 {
            Self::conjure(seed)
        } else {
            Err(Uninstantiable)
        }
    }
}

impl Shrink for usize {
    open spec fn measure(model: usize) -> nat {
        model as nat
    }

    /// The logarithmic ladder from `model` down.
    open spec fn spec_step(model: usize, meaning: spec_fn(usize) -> bool) -> Option<usize> {
        match spec_ladder(model as int, model as int, widened_usize(meaning)) {
            Some(found) => Some(found as usize),
            None => None,
        }
    }

    proof fn lemma_step(model: usize, meaning: spec_fn(usize) -> bool) {
        lemma_ladder(model as int, model as int, widened_usize(meaning));
    }

    fn step<P: Fn(&Self) -> bool>(&self, property: &P) -> (smaller: Option<Self>) {
        let mut subtrahend: usize = *self;
        while subtrahend != 0
            invariant
                subtrahend <= *self,
                total(property),
                forall|meaning: spec_fn(usize) -> bool| #[trigger]
                    agrees(property, meaning) ==> spec_ladder(
                        *self as int,
                        subtrahend as int,
                        widened_usize(meaning),
                    ) == spec_ladder(*self as int, *self as int, widened_usize(meaning)),
            decreases subtrahend,
        {
            let difference: usize = *self - subtrahend;
            if property(&difference) {
                return Some(difference);
            }
            subtrahend = subtrahend / 2;
        }
        None
    }
}

} // verus!
