//! Small algebraic types that implement the whole protocol: the empty type,
//! unary natural numbers, and a pair of them.

use crate::conjure::{
    has_leaf_iff_instantiable, indices_of, spec_conjure_by_variants, spec_leaf_by_variants,
    Conjure, Uninstantiable,
};
use crate::count::{Cardinality, Count};
use crate::seed::Seed;
use crate::shrink::{agrees, answers, total, Shrink};
use crate::term::{models, Term};
use core::cmp::Ordering;
use vstd::prelude::*;
use vstd::std_specs::cmp::{PartialEqSpecImpl, PartialOrdSpecImpl};

verus! {

/// A natural number in unary: zero, or the successor of a natural number.
#[derive(Debug, PartialEq, Eq, PartialOrd, Ord, Hash)]
pub enum Peano {
    /// Zero.
    O,
    /// The successor of a natural number.
    S(Box<Peano>),
}

impl Peano {
    /// The natural number that this term stands for.
    pub open spec fn value(self) -> nat
        decreases self,
    {
        match self {
            Peano::O => 0,
            Peano::S(predecessor) => 1 + predecessor.value(),
        }
    }

    /// The term that stands for a natural number.
    pub open spec fn of(value: nat) -> Peano
        decreases value,
    {
        if value == 0 {
            Peano::O
        } else {
            Peano::S(Box::new(Peano::of((value - 1) as nat)))
        }
    }

    /// Every natural number has one term, and every term is the term of its
    /// natural number.
    pub proof fn lemma_of_value(self)
        ensures
            Peano::of(self.value()) == self,
            forall|value: nat| #[trigger] Peano::of(value).value() == value,
        decreases self,
    {
        match self {
            Peano::O => {},
            Peano::S(predecessor) => {
                predecessor.lemma_of_value();
            },
        }
        assert forall|value: nat| #[trigger] Peano::of(value).value() == value by {
            Peano::lemma_value_of(value);
        }
    }

    /// The term of a natural number stands for that number.
    pub proof fn lemma_value_of(value: nat)
        ensures
            Peano::of(value).value() == value,
        decreases value,
    {
        if value > 0 {
            Peano::lemma_value_of((value - 1) as nat);
        }
    }

    /// The term that stands for a machine integer.
    pub fn from_usize(value: usize) -> (term: Peano)
        ensures
            term == Peano::of(value as nat),
    {
        let mut term = Peano::O;
        let mut built: usize = 0;
        while built < value
            invariant
                built <= value,
                term == Peano::of(built as nat),
            decreases value - built,
        {
            term = Peano::S(Box::new(term));
            built += 1;
        }
        term
    }

    /// Whether this natural number is `value`.
    pub fn equals(&self, value: usize) -> (answer: bool)
        ensures
            answer == (self.value() == value),
    {
        let mut cursor: &Peano = self;
        let mut left: usize = value;
        loop
            invariant
                left <= value,
                (self.value() == value) == (cursor.value() == left),
            decreases left,
        {
            match cursor {
                Peano::O => {
                    return left == 0;
                },
                Peano::S(predecessor) => {
                    if left == 0 {
                        return false;
                    }
                    cursor = &**predecessor;
                    left -= 1;
                },
            }
        }
    }

    /// Whether this natural number is at least `bound`.
    pub fn at_least(&self, bound: usize) -> (answer: bool)
        ensures
            answer == (self.value() >= bound),
    {
        let mut cursor: &Peano = self;
        let mut left: usize = bound;
        loop
            invariant
                left <= bound,
                (self.value() >= bound) == (cursor.value() >= left),
            decreases left,
        {
            if left == 0 {
                return true;
            }
            match cursor {
                Peano::O => {
                    return false;
                },
                Peano::S(predecessor) => {
                    cursor = &**predecessor;
                    left -= 1;
                },
            }
        }
    }
}

impl PartialEq<usize> for Peano {
    fn eq(&self, other: &usize) -> (equal: bool) {
        self.equals(*other)
    }
}

impl PartialEqSpecImpl<usize> for Peano {
    open spec fn obeys_eq_spec() -> bool {
        true
    }

    /// A term is equal to the machine integer that it stands for.
    open spec fn eq_spec(&self, other: &usize) -> bool {
        self.value() == *other
    }
}

impl PartialOrd<usize> for Peano {
    fn partial_cmp(&self, other: &usize) -> (order: Option<Ordering>) {
        let mut cursor: &Peano = self;
        let mut left: usize = *other;
        loop
            invariant
                left <= *other,
                self.value() - *other == cursor.value() - left,
            decreases left,
        {
            match cursor {
                Peano::O => {
                    if left == 0 {
                        return Some(Ordering::Equal);
                    } else {
                        return Some(Ordering::Less);
                    }
                },
                Peano::S(predecessor) => {
                    if left == 0 {
                        return Some(Ordering::Greater);
                    }
                    cursor = &**predecessor;
                    left -= 1;
                },
            }
        }
    }
}

impl PartialOrdSpecImpl<usize> for Peano {
    open spec fn obeys_partial_cmp_spec() -> bool {
        true
    }

    /// A term compares with a machine integer as the natural number that
    /// it stands for does.
    open spec fn partial_cmp_spec(&self, other: &usize) -> Option<Ordering> {
        if self.value() < *other {
            Some(Ordering::Less)
        } else if self.value() == *other {
            Some(Ordering::Equal)
        } else {
            Some(Ordering::Greater)
        }
    }
}

/// The first natural number from `from` up to, but not including, `limit`
/// whose term passes.
pub open spec fn spec_first_below(from: nat, limit: nat, meaning: spec_fn(Peano) -> bool) -> Option<
    Peano,
>
    decreases limit - from,
{
    if from >= limit {
        None
    } else if meaning(Peano::of(from)) {
        Some(Peano::of(from))
    } else {
        spec_first_below(from + 1, limit, meaning)
    }
}

/// What the search for the first natural number finds passes, and lies
/// below the limit.
pub proof fn lemma_first_below(from: nat, limit: nat, meaning: spec_fn(Peano) -> bool)
    ensures
        spec_first_below(from, limit, meaning) matches Some(found) ==> meaning(found)
            && found.value() < limit,
    decreases limit - from,
{
    if from < limit {
        Peano::lemma_value_of(from);
        if !meaning(Peano::of(from)) {
            lemma_first_below(from + 1, limit, meaning);
        }
    }
}

impl Term for Peano {
    type Model = Peano;

    open spec fn model(&self) -> Peano {
        *self
    }

    fn dup(&self) -> (copy: Self)
        decreases *self,
    {
        match self {
            Peano::O => Peano::O,
            Peano::S(predecessor) => Peano::S(Box::new((**predecessor).dup())),
        }
    }

    fn same(&self, other: &Self) -> (equal: bool)
        decreases *self,
    {
        match (self, other) {
            (Peano::O, Peano::O) => true,
            (Peano::S(a), Peano::S(b)) => (**a).same(&**b),
            _ => false,
        }
    }
}

impl Count for Peano {
    open spec fn spec_cardinality() -> Cardinality {
        Cardinality::Infinite
    }

    fn cardinality() -> (c: Cardinality) {
        Cardinality::Infinite
    }
}

/// What `Peano::conjure` makes: as many successors as the seed says to
/// recurse, on top of zero.
pub open spec fn peano_conjure(seed: Seed) -> Peano
    decreases seed.size,
{
    let (recurse, rest) = seed.spec_should_recurse();
    if recurse {
        proof {
            rest.next().lemma_partition(rest.size, 1);
        }
        Peano::S(Box::new(peano_conjure(rest.next().spec_partition(rest.size, 1)[0])))
    } else {
        Peano::O
    }
}

impl Conjure for Peano {
    open spec fn spec_conjure(seed: Seed) -> Result<Peano, Uninstantiable> {
        Ok(peano_conjure(seed))
    }

    open spec fn spec_leaf(seed: Seed) -> Result<Peano, Uninstantiable> {
        Ok(Peano::O)
    }

    open spec fn spec_corners() -> Seq<Peano> {
        seq![Peano::O]
    }

    open spec fn spec_variants() -> Seq<Cardinality> {
        seq![Cardinality::Finite, Cardinality::Infinite]
    }

    /// Zero for the first alternative. For the second, the successor of a
    /// number generated from a seed that takes the whole size budget.
    open spec fn spec_build(index: int, seed: Seed) -> Result<Peano, Uninstantiable> {
        if index == 0 {
            Ok(Peano::O)
        } else if index == 1 {
            Ok(Peano::S(Box::new(peano_conjure(seed.spec_partition(seed.size, 1)[0]))))
        } else {
            Err(Uninstantiable)
        }
    }

    fn conjure(seed: Seed) -> (made: Result<Self, Uninstantiable>)
        decreases seed.size, 2nat,
    {
        let mut seed = seed;
        if seed.should_recurse() {
            let choice = seed.prng_below(1);
            Self::build(1, seed)
        } else {
            Self::leaf(seed)
        }
    }

    fn leaf(seed: Seed) -> (made: Result<Self, Uninstantiable>)
        decreases seed.size, 1nat,
    {
        let mut seed = seed;
        let choice = seed.prng_below(1);
        Self::build(0, seed)
    }

    fn corners() -> (all: Vec<Self>) {
        let mut all = Vec::new();
        all.push(Peano::O);
        assert(crate::term::models(all@) =~= seq![Peano::O]);
        all
    }

    fn variants() -> (all: Vec<Cardinality>) {
        let mut all = Vec::new();
        all.push(Cardinality::Finite);
        all.push(Cardinality::Infinite);
        assert(all@ =~= seq![Cardinality::Finite, Cardinality::Infinite]);
        all
    }

    fn build(index: usize, seed: Seed) -> (made: Result<Self, Uninstantiable>)
        decreases
            seed.size,
            (if index == 1 {
                3nat
            } else {
                0nat
            }),
    {
        if index == 0 {
            Ok(Peano::O)
        } else if index == 1 {
            proof {
                seed.lemma_partition(seed.size, 1);
            }
            let size = seed.size;
            let mut children = seed.partition_among(size, 1);
            let child = children.pop().unwrap();
            match Peano::conjure(child) {
                Ok(predecessor) => Ok(Peano::S(Box::new(predecessor))),
                Err(error) => Err(error),
            }
        } else {
            Err(Uninstantiable)
        }
    }
}

/// The alternatives of `Peano` are zero, which is finite, and the successor,
/// which is infinite; and `Peano` is generated as the dispatch over these
/// alternatives says.
pub proof fn lemma_peano_by_variants(seed: Seed)
    ensures
        indices_of(Peano::spec_variants(), Cardinality::Finite) == seq![0usize],
        indices_of(Peano::spec_variants(), Cardinality::Infinite) == seq![1usize],
        has_leaf_iff_instantiable::<Peano>(),
        Peano::spec_leaf(seed) == spec_leaf_by_variants::<Peano>(seed),
        Peano::spec_conjure(seed) == spec_conjure_by_variants::<Peano>(seed),
{
    let all = Peano::spec_variants();
    let one = all.drop_last();
    let none = one.drop_last();
    assert(one =~= seq![Cardinality::Finite]);
    assert(none =~= Seq::<Cardinality>::empty());
    assert(indices_of(none, Cardinality::Finite) =~= Seq::<usize>::empty());
    assert(indices_of(none, Cardinality::Infinite) =~= Seq::<usize>::empty());
    assert(indices_of(one, Cardinality::Finite) =~= seq![0usize]);
    assert(indices_of(one, Cardinality::Infinite) =~= Seq::<usize>::empty());
    assert(indices_of(all, Cardinality::Finite) =~= seq![0usize]);
    assert(indices_of(all, Cardinality::Infinite) =~= seq![1usize]);
    let (recurse, rest) = seed.spec_should_recurse();
    assert(rest.next().size == rest.size);
}

impl Shrink for Peano {
    open spec fn measure(model: Peano) -> nat {
        model.value()
    }

    /// Zero has no step. A successor steps to the least natural number
    /// below it that passes: zero is tried in its place first, and then its
    /// predecessor is shrunk in the same way, under the successor.
    open spec fn spec_step(model: Peano, meaning: spec_fn(Peano) -> bool) -> Option<Peano> {
        spec_first_below(0, model.value(), meaning)
    }

    proof fn lemma_step(model: Peano, meaning: spec_fn(Peano) -> bool) {
        lemma_first_below(0, model.value(), meaning);
    }

    fn step<P: Fn(&Self) -> bool>(&self, property: &P) -> (smaller: Option<Self>) {
        let mut cursor: &Peano = self;
        let mut candidate = Peano::O;
        let ghost mut tried: nat = 0;
        loop
            invariant
                total(property),
                candidate == Peano::of(tried),
                cursor.value() + tried == self.value(),
                forall|meaning: spec_fn(Peano) -> bool| #[trigger]
                    agrees(property, meaning) ==> spec_first_below(tried, self.value(), meaning)
                        == spec_first_below(0, self.value(), meaning),
            decreases cursor.value(),
        {
            match cursor {
                Peano::O => {
                    return None;
                },
                Peano::S(predecessor) => {
                    proof {
                        Peano::lemma_value_of(tried);
                    }
                    if property(&candidate) {
                        return Some(candidate);
                    }
                    candidate = Peano::S(Box::new(candidate));
                    cursor = &**predecessor;
                    proof {
                        tried = tried + 1;
                    }
                },
            }
        }
    }
}

/// The type without values: nothing can be put in the field of its one
/// variant.
#[derive(Debug, PartialEq, Eq, PartialOrd, Ord, Hash)]
pub enum Void {
    /// Cannot be made.
    Never(core::convert::Infallible),
}

impl Term for Void {
    type Model = ();

    open spec fn model(&self) -> () {
        ()
    }

    /// The copy is the value itself, with what its one variant holds.
    fn dup(&self) -> (copy: Self)
        ensures
            copy == *self,
    {
        match self {
            Void::Never(never) => Void::Never(*never),
        }
    }

    fn same(&self, other: &Self) -> (equal: bool) {
        true
    }
}

impl Count for Void {
    open spec fn spec_cardinality() -> Cardinality {
        Cardinality::Empty
    }

    fn cardinality() -> (c: Cardinality) {
        Cardinality::Empty
    }
}

impl Conjure for Void {
    open spec fn spec_conjure(seed: Seed) -> Result<(), Uninstantiable> {
        Err(Uninstantiable)
    }

    open spec fn spec_leaf(seed: Seed) -> Result<(), Uninstantiable> {
        Err(Uninstantiable)
    }

    open spec fn spec_corners() -> Seq<()> {
        Seq::empty()
    }

    /// The empty type has no alternative.
    open spec fn spec_variants() -> Seq<Cardinality> {
        Seq::empty()
    }

    open spec fn spec_build(index: int, seed: Seed) -> Result<(), Uninstantiable> {
        Err(Uninstantiable)
    }

    fn conjure(seed: Seed) -> (made: Result<Self, Uninstantiable>) {
        Err(Uninstantiable)
    }

    fn leaf(seed: Seed) -> (made: Result<Self, Uninstantiable>) {
        Err(Uninstantiable)
    }

    fn corners() -> (all: Vec<Self>) {
        let all: Vec<Void> = Vec::new();
        assert(models(all@) =~= Seq::<()>::empty());
        all
    }

    fn variants() -> (all: Vec<Cardinality>) {
        Vec::new()
    }

    fn build(index: usize, seed: Seed) -> (made: Result<Self, Uninstantiable>) {
        Err(Uninstantiable)
    }
}

impl Shrink for Void {
    open spec fn measure(model: ()) -> nat {
        0
    }

    open spec fn spec_step(model: (), meaning: spec_fn(()) -> bool) -> Option<()> {
        None
    }

    proof fn lemma_step(model: (), meaning: spec_fn(()) -> bool) {
    }

    fn step<P: Fn(&Self) -> bool>(&self, property: &P) -> (smaller: Option<Self>) {
        None
    }
}

/// A value in a struct of its own.
#[derive(Debug, PartialEq, Eq, PartialOrd, Ord, Hash)]
pub struct Wrapper<T>(pub T);

impl<T: Term> Term for Wrapper<T> {
    type Model = T::Model;

    open spec fn model(&self) -> T::Model {
        self.0.model()
    }

    fn dup(&self) -> (copy: Self) {
        Wrapper(self.0.dup())
    }

    fn same(&self, other: &Self) -> (equal: bool) {
        self.0.same(&other.0)
    }
}

impl<T: Count> Count for Wrapper<T> {
    open spec fn spec_cardinality() -> Cardinality {
        T::spec_cardinality()
    }

    fn cardinality() -> (c: Cardinality) {
        T::cardinality()
    }
}

/// Put every term of a vector in a wrapper of its own.
fn wrap_all<T: Term>(terms: Vec<T>) -> (wrapped: Vec<Wrapper<T>>)
    ensures
        models(wrapped@) == models(terms@),
{
    let mut wrapped: Vec<Wrapper<T>> = Vec::with_capacity(terms.len());
    let mut i: usize = 0;
    while i < terms.len()
        invariant
            i <= terms.len(),
            wrapped.len() == i,
            forall|j: int| 0 <= j < i ==> wrapped@[j].model() == terms@[j].model(),
        decreases terms.len() - i,
    {
        wrapped.push(Wrapper(terms[i].dup()));
        i += 1;
    }
    assert(models(wrapped@) =~= models(terms@));
    wrapped
}

impl<T: Conjure> Conjure for Wrapper<T> {
    /// The one field takes the whole size budget.
    open spec fn spec_conjure(seed: Seed) -> Result<T::Model, Uninstantiable> {
        T::spec_conjure(seed.spec_partition(seed.size, 1)[0])
    }

    open spec fn spec_leaf(seed: Seed) -> Result<T::Model, Uninstantiable> {
        T::spec_leaf(seed.spec_split(1)[0])
    }

    open spec fn spec_corners() -> Seq<T::Model> {
        T::spec_corners()
    }

    /// A struct has one shape.
    open spec fn spec_variants() -> Seq<Cardinality> {
        seq![T::spec_cardinality()]
    }

    open spec fn spec_build(index: int, seed: Seed) -> Result<T::Model, Uninstantiable> {
        if index == 0 {
            Self::spec_conjure(seed)
        } else {
            Err(Uninstantiable)
        }
    }

    fn conjure(seed: Seed) -> (made: Result<Self, Uninstantiable>) {
        let size = seed.size;
        let mut children = seed.partition_among(size, 1);
        let child = children.pop().unwrap();
        match T::conjure(child) {
            Ok(inner) => Ok(Wrapper(inner)),
            Err(error) => Err(error),
        }
    }

    fn leaf(seed: Seed) -> (made: Result<Self, Uninstantiable>) {
        let mut children = seed.split_among(1);
        let child = children.pop().unwrap();
        match T::leaf(child) {
            Ok(inner) => Ok(Wrapper(inner)),
            Err(error) => Err(error),
        }
    }

    fn corners() -> (all: Vec<Self>) {
        wrap_all(T::corners())
    }

    fn variants() -> (all: Vec<Cardinality>) {
        let mut all = Vec::new();
        all.push(T::cardinality());
        assert(all@ =~= seq![T::spec_cardinality()]);
        all
    }

    fn build(index: usize, seed: Seed) -> (made: Result<Self, Uninstantiable>) {
        if index == 0 {
            Self::conjure(seed)
        } else {
            Err(Uninstantiable)
        }
    }
}

impl<T: Shrink> Shrink for Wrapper<T> {
    open spec fn measure(model: T::Model) -> nat {
        T::measure(model)
    }

    /// A wrapper shrinks as its field.
    open spec fn spec_step(model: T::Model, meaning: spec_fn(T::Model) -> bool) -> Option<
        T::Model,
    > {
        T::spec_step(model, meaning)
    }

    proof fn lemma_step(model: T::Model, meaning: spec_fn(T::Model) -> bool) {
        T::lemma_step(model, meaning);
    }

    fn step<P: Fn(&Self) -> bool>(&self, property: &P) -> (smaller: Option<Self>) {
        let on_inner = |inner: &T| -> (answer: bool)
            ensures
                answers(property, (*inner).model(), answer),
            {
                let whole = Wrapper((*inner).dup());
                property(&whole)
            };
        proof {
            assert forall|meaning: spec_fn(T::Model) -> bool| #[trigger]
                agrees(property, meaning) implies agrees(&on_inner, meaning) by {}
        }
        match self.0.step(&on_inner) {
            Some(inner) => Some(Wrapper(inner)),
            None => None,
        }
    }
}

/// Two natural numbers.
#[derive(Debug, PartialEq, Eq, PartialOrd, Ord, Hash)]
pub struct Pair(pub Peano, pub Peano);

impl Term for Pair {
    type Model = (Peano, Peano);

    open spec fn model(&self) -> (Peano, Peano) {
        (self.0, self.1)
    }

    fn dup(&self) -> (copy: Self) {
        Pair(self.0.dup(), self.1.dup())
    }

    fn same(&self, other: &Self) -> (equal: bool) {
        self.0.same(&other.0) && self.1.same(&other.1)
    }
}

impl Count for Pair {
    open spec fn spec_cardinality() -> Cardinality {
        Cardinality::Infinite
    }

    fn cardinality() -> (c: Cardinality) {
        Cardinality::Infinite
    }
}

/// Make a pair of every pair of natural numbers.
fn pair_all(terms: Vec<(Peano, Peano)>) -> (pairs: Vec<Pair>)
    ensures
        models(pairs@) == models(terms@),
{
    let mut pairs: Vec<Pair> = Vec::with_capacity(terms.len());
    let mut i: usize = 0;
    while i < terms.len()
        invariant
            i <= terms.len(),
            pairs.len() == i,
            forall|j: int| 0 <= j < i ==> pairs@[j].model() == terms@[j].model(),
        decreases terms.len() - i,
    {
        pairs.push(Pair(terms[i].0.dup(), terms[i].1.dup()));
        i += 1;
    }
    assert(models(pairs@) =~= models(terms@));
    pairs
}

impl Conjure for Pair {
    /// The size budget is partitioned among the two fields.
    open spec fn spec_conjure(seed: Seed) -> Result<(Peano, Peano), Uninstantiable> {
        <(Peano, Peano) as Conjure>::spec_conjure(seed)
    }

    open spec fn spec_leaf(seed: Seed) -> Result<(Peano, Peano), Uninstantiable> {
        <(Peano, Peano) as Conjure>::spec_leaf(seed)
    }

    open spec fn spec_corners() -> Seq<(Peano, Peano)> {
        <(Peano, Peano) as Conjure>::spec_corners()
    }

    /// A struct has one shape.
    open spec fn spec_variants() -> Seq<Cardinality> {
        seq![Cardinality::Infinite]
    }

    open spec fn spec_build(index: int, seed: Seed) -> Result<(Peano, Peano), Uninstantiable> {
        if index == 0 {
            Self::spec_conjure(seed)
        } else {
            Err(Uninstantiable)
        }
    }

    fn conjure(seed: Seed) -> (made: Result<Self, Uninstantiable>) {
        match <(Peano, Peano) as Conjure>::conjure(seed) {
            Ok(fields) => Ok(Pair(fields.0, fields.1)),
            Err(error) => Err(error),
        }
    }

    fn leaf(seed: Seed) -> (made: Result<Self, Uninstantiable>) {
        match <(Peano, Peano) as Conjure>::leaf(seed) {
            Ok(fields) => Ok(Pair(fields.0, fields.1)),
            Err(error) => Err(error),
        }
    }

    fn corners() -> (all: Vec<Self>) {
        pair_all(<(Peano, Peano) as Conjure>::corners())
    }

    fn variants() -> (all: Vec<Cardinality>) {
        let mut all = Vec::new();
        all.push(Cardinality::Infinite);
        assert(all@ =~= seq![Cardinality::Infinite]);
        all
    }

    fn build(index: usize, seed: Seed) -> (made: Result<Self, Uninstantiable>) {
        if index == 0 {
            Self::conjure(seed)
        } else {
            Err(Uninstantiable)
        }
    }
}

impl Shrink for Pair {
    open spec fn measure(model: (Peano, Peano)) -> nat {
        <(Peano, Peano) as Shrink>::measure(model)
    }

    /// A struct shrinks as the tuple of its fields.
    open spec fn spec_step(model: (Peano, Peano), meaning: spec_fn((Peano, Peano)) -> bool) -> Option<
        (Peano, Peano),
    > {
        <(Peano, Peano) as Shrink>::spec_step(model, meaning)
    }

    proof fn lemma_step(model: (Peano, Peano), meaning: spec_fn((Peano, Peano)) -> bool) {
        <(Peano, Peano) as Shrink>::lemma_step(model, meaning);
    }

    fn step<P: Fn(&Self) -> bool>(&self, property: &P) -> (smaller: Option<Self>) {
        let on_fields = |fields: &(Peano, Peano)| -> (answer: bool)
            ensures
                answers(property, (*fields).model(), answer),
            {
                let whole = Pair(fields.0.dup(), fields.1.dup());
                property(&whole)
            };
        proof {
            assert forall|meaning: spec_fn((Peano, Peano)) -> bool| #[trigger]
                agrees(property, meaning) implies agrees(&on_fields, meaning) by {}
        }
        let fields = (self.0.dup(), self.1.dup());
        match fields.step(&on_fields) {
            Some(smaller) => Some(Pair(smaller.0, smaller.1)),
            None => None,
        }
    }
}

} // verus!
