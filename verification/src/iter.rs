//! Sources of items, and the combinators that composite types need to
//! enumerate combinations of items without computing any source twice.

use crate::impls::tuples::spec_pairs;
use crate::shrink::stepped_model;
use crate::term::{dup_all, models, Term};
use core::ops::Range;
use vstd::prelude::*;

verus! {

/// Something that hands out items one at a time.
///
/// What a source does next depends only on its state, a mathematical value:
/// `spec_next` gives the model of the item handed out, if any, and the state
/// left behind.
pub trait Source: Sized {
    /// The items handed out.
    type Item: Term;

    /// The mathematical state of the source.
    type State;

    /// Whether the source is well formed.
    spec fn wf(&self) -> bool;

    /// The state of the source.
    spec fn state(&self) -> Self::State;

    /// The model of the next item, if there is one, and the next state.
    spec fn spec_next(state: Self::State) -> (Option<<Self::Item as Term>::Model>, Self::State);

    /// Hand out the next item, if there is one.
    fn next(&mut self) -> (item: Option<Self::Item>)
        requires
            old(self).wf(),
        ensures
            final(self).wf(),
            (stepped_model(item), final(self).state()) == Self::spec_next(old(self).state()),
    ;
}

/// A source that runs out: it hands out finitely many items, and once it
/// has handed out `None` it hands out nothing else.
pub trait Finite: Source {
    /// A bound on the number of items still to come.
    spec fn bound(state: Self::State) -> nat;

    /// Every item handed out lowers the bound, and a source that has handed
    /// out `None` stays as it is.
    proof fn lemma_bound(state: Self::State)
        ensures
            Self::spec_next(state).0 is Some ==> Self::bound(Self::spec_next(state).1)
                < Self::bound(state),
            Self::spec_next(state).0 is None ==> Self::spec_next(Self::spec_next(state).1) == (
                None::<<Self::Item as Term>::Model>,
                Self::spec_next(state).1,
            ),
    ;
}

/// The items that a finite source hands out before it runs out.
pub open spec fn spec_rest<S: Finite>(state: S::State) -> Seq<<S::Item as Term>::Model>
    decreases S::bound(state),
{
    match S::spec_next(state) {
        (None, _) => Seq::empty(),
        (Some(item), after) => {
            proof {
                S::lemma_bound(state);
            }
            seq![item] + spec_rest::<S>(after)
        },
    }
}

/// Hand out the items of a finite source as a vector.
pub fn collect<S: Finite>(source: S) -> (items: Vec<S::Item>)
    requires
        source.wf(),
    ensures
        models(items@) == spec_rest::<S>(source.state()),
{
    let mut rest = source;
    let mut items: Vec<S::Item> = Vec::new();
    proof {
        assert(models(items@) + spec_rest::<S>(rest.state()) =~= spec_rest::<S>(source.state()));
    }
    loop
        invariant
            rest.wf(),
            models(items@) + spec_rest::<S>(rest.state()) == spec_rest::<S>(source.state()),
        decreases S::bound(rest.state()),
    {
        let ghost before = rest.state();
        proof {
            S::lemma_bound(before);
        }
        match rest.next() {
            None => {
                proof {
                    assert(models(items@) + spec_rest::<S>(before) =~= models(items@));
                }
                return items;
            },
            Some(item) => {
                proof {
                    crate::term::lemma_models_push(items@, item);
                    assert(models(items@).push(item.model()) + spec_rest::<S>(rest.state())
                        =~= models(items@) + spec_rest::<S>(before));
                }
                items.push(item);
            },
        }
    }
}

impl Source for Range<u8> {
    type Item = u8;

    type State = (int, int);

    open spec fn wf(&self) -> bool {
        true
    }

    open spec fn state(&self) -> (int, int) {
        (self.start as int, self.end as int)
    }

    /// The start of the range, which then moves up by one, while it is below
    /// the end.
    open spec fn spec_next(state: (int, int)) -> (Option<u8>, (int, int)) {
        if state.0 < state.1 {
            (Some(state.0 as u8), (state.0 + 1, state.1))
        } else {
            (None, state)
        }
    }

    fn next(&mut self) -> (item: Option<u8>) {
        if self.start < self.end {
            let item = self.start;
            self.start = item + 1;
            Some(item)
        } else {
            None
        }
    }
}

impl Finite for Range<u8> {
    open spec fn bound(state: (int, int)) -> nat {
        if state.0 < state.1 {
            (state.1 - state.0) as nat
        } else {
            0
        }
    }

    proof fn lemma_bound(state: (int, int)) {
    }
}

/// A source that hands out copies of the items of a vector, in order.
pub struct Items<T> {
    /// The items.
    items: Vec<T>,
    /// How many of them were handed out.
    at: usize,
}

impl<T: Term> Items<T> {
    /// A source of the items of a vector.
    pub fn new(items: Vec<T>) -> (source: Self)
        ensures
            source.wf(),
            source.state() == (models(items@), 0int),
    {
        Items { items, at: 0 }
    }
}

impl<T: Term> Source for Items<T> {
    type Item = T;

    type State = (Seq<T::Model>, int);

    closed spec fn wf(&self) -> bool {
        self.at <= self.items.len()
    }

    closed spec fn state(&self) -> (Seq<T::Model>, int) {
        (models(self.items@), self.at as int)
    }

    /// The item at the current place, which then moves up by one, while
    /// there is an item there.
    open spec fn spec_next(state: (Seq<T::Model>, int)) -> (Option<T::Model>, (Seq<T::Model>, int)) {
        if 0 <= state.1 < state.0.len() {
            (Some(state.0[state.1]), (state.0, state.1 + 1))
        } else {
            (None, state)
        }
    }

    fn next(&mut self) -> (item: Option<T>) {
        if self.at < self.items.len() {
            let item = self.items[self.at].dup();
            self.at = self.at + 1;
            Some(item)
        } else {
            None
        }
    }
}

impl<T: Term> Finite for Items<T> {
    open spec fn bound(state: (Seq<T::Model>, int)) -> nat {
        if 0 <= state.1 < state.0.len() {
            (state.0.len() - state.1) as nat
        } else {
            0
        }
    }

    proof fn lemma_bound(state: (Seq<T::Model>, int)) {
    }
}

/// A wrapper around a source that drops the source the first time it
/// hands out `None`.
pub enum Fuse<I> {
    /// A source is running and has not yet handed out `None`.
    Active {
        /// The source, which is dropped when it hands out `None`.
        iter: I,
    },
    /// Either no source has run yet, or the last one has handed out `None`.
    Inactive,
}

impl<I: Source> Fuse<I> {
    /// The state of a fuse: that of its source while one is running.
    pub open spec fn spec_state(self) -> Option<I::State> {
        match self {
            Fuse::Active { iter } => Some(iter.state()),
            Fuse::Inactive => None,
        }
    }

    /// Preload a source that will be dropped as soon as it hands out `None`.
    pub fn new(iter: I) -> (fuse: Self)
        ensures
            fuse == (Fuse::Active { iter }),
    {
        Fuse::Active { iter }
    }

    /// Load a new source. No source may be running.
    pub fn reload(&mut self, iter: I)
        requires
            *old(self) is Inactive,
        ensures
            *final(self) == (Fuse::Active { iter }),
    {
        *self = Fuse::Active { iter };
    }
}

impl<I: Source> Source for Fuse<I> {
    type Item = I::Item;

    type State = Option<I::State>;

    open spec fn wf(&self) -> bool {
        match self {
            Fuse::Active { iter } => iter.wf(),
            Fuse::Inactive => true,
        }
    }

    open spec fn state(&self) -> Option<I::State> {
        self.spec_state()
    }

    /// What the running source hands out. Its first `None` ends the run, and
    /// without a running source there is nothing to hand out.
    open spec fn spec_next(state: Option<I::State>) -> (
        Option<<I::Item as Term>::Model>,
        Option<I::State>,
    ) {
        match state {
            None => (None, None),
            Some(running) => match I::spec_next(running) {
                (Some(item), after) => (Some(item), Some(after)),
                (None, _) => (None, None),
            },
        }
    }

    fn next(&mut self) -> (item: Option<I::Item>) {
        let handed = match self {
            Fuse::Active { iter } => iter.next(),
            Fuse::Inactive => {
                return None;
            },
        };
        if handed.is_none() {
            *self = Fuse::Inactive;
        }
        handed
    }
}

impl<I: Finite> Finite for Fuse<I> {
    open spec fn bound(state: Option<I::State>) -> nat {
        match state {
            None => 0,
            Some(running) => I::bound(running) + 1,
        }
    }

    proof fn lemma_bound(state: Option<I::State>) {
        if let Some(running) = state {
            I::lemma_bound(running);
        }
    }
}

/// Whether a factory of sources may be called, and makes only well-formed
/// sources.
pub open spec fn reloads<I: Source, F: Fn() -> I>(reload: F) -> bool {
    &&& reload.requires(())
    &&& forall|made: I| #[trigger] reload.ensures((), made) ==> made.wf()
}

/// Whether a factory makes all its sources in one state, so that every run
/// is like every other.
pub open spec fn reloads_alike<I: Source, F: Fn() -> I>(reload: F) -> bool {
    forall|made: I, other: I|
        #[trigger] reload.ensures((), made) && #[trigger] reload.ensures((), other)
            ==> made.state() == other.state()
}

/// Whether a factory can make a source in the given state.
pub open spec fn starts_in<I: Source, F: Fn() -> I>(reload: F, state: I::State) -> bool {
    exists|made: I| #[trigger] reload.ensures((), made) && made.state() == state
}

/// A state in which a factory can make a source, if it can make one at all:
/// the state in which every run starts, where the factory makes all its
/// sources alike.
pub open spec fn spec_start<I: Source, F: Fn() -> I>(reload: F) -> I::State {
    choose|state: I::State| starts_in::<I, F>(reload, state)
}

/// A factory that makes all its sources alike makes each of them in the
/// state in which every run starts.
pub proof fn lemma_start<I: Source, F: Fn() -> I>(reload: F, made: I)
    requires
        reloads_alike::<I, F>(reload),
        reload.ensures((), made),
    ensures
        made.state() == spec_start::<I, F>(reload),
{
    assert(starts_in::<I, F>(reload, made.state()));
}

/// Lazily run a source again and again, handing out `None` exactly once
/// between runs.
///
/// Nothing is made before the first call of `next`, which hands out an item
/// if and only if the source that it makes has one.
pub struct AutoReload<I, F> {
    /// The running source: none at first, one while running, none at the
    /// end of a run, then lazily replaced in `next`.
    fuse: Fuse<I>,
    /// The factory that makes a source for each run.
    reload: F,
}

impl<I: Source, F: Fn() -> I> AutoReload<I, F> {
    /// The factory that makes a source for each run.
    pub closed spec fn factory(&self) -> F {
        self.reload
    }

    /// Whether the running source and the factory are well formed.
    pub closed spec fn well_formed(&self) -> bool {
        self.fuse.wf() && reloads::<I, F>(self.reload)
    }

    /// Whether every run is like every other.
    pub open spec fn alike(&self) -> bool {
        reloads_alike::<I, F>(self.factory())
    }

    /// The state of the running source, if any, and the state in which
    /// every run starts.
    pub closed spec fn current(&self) -> (Option<I::State>, I::State) {
        (self.fuse.spec_state(), spec_start::<I, F>(self.reload))
    }

    /// What the running source hands out, where a new run starts first if
    /// none is running. The first `None` of a run ends it.
    pub open spec fn spec_advance(state: (Option<I::State>, I::State)) -> (
        Option<<I::Item as Term>::Model>,
        (Option<I::State>, I::State),
    ) {
        let running = match state.0 {
            None => Some(state.1),
            Some(running) => Some(running),
        };
        let (item, after) = Fuse::<I>::spec_next(running);
        (item, (after, state.1))
    }

    /// Lazily call this factory to make a source as necessary, handing out
    /// `None` exactly once at the end of every run. The factory is not
    /// called here: no source is running until the first call of `next`.
    pub fn new(reload: F) -> (source: Self)
        requires
            reloads::<I, F>(reload),
        ensures
            source.well_formed(),
            source.factory() == reload,
            source.current() == (None::<I::State>, spec_start::<I, F>(reload)),
    {
        AutoReload { fuse: Fuse::Inactive, reload }
    }

    /// Hand out the next item of the current run, or `None` at its end.
    /// Where no source is running, the factory is called once to make one.
    ///
    /// Where every run is like every other, what is handed out is what
    /// `spec_advance` says.
    pub fn next(&mut self) -> (item: Option<I::Item>)
        requires
            old(self).well_formed(),
        ensures
            final(self).well_formed(),
            final(self).factory() == old(self).factory(),
            old(self).current().0 is None ==> exists|made: I| #[trigger]
                old(self).factory().ensures((), made),
            old(self).alike() ==> (stepped_model(item), final(self).current())
                == Self::spec_advance(old(self).current()),
    {
        if matches!(self.fuse, Fuse::Inactive) {
            let made = (self.reload)();
            proof {
                assert(old(self).factory().ensures((), made));
                if reloads_alike::<I, F>(self.reload) {
                    lemma_start::<I, F>(self.reload, made);
                }
            }
            self.fuse.reload(made);
        }
        self.fuse.next()
    }
}

impl<I: Source, F: Fn() -> I> Source for AutoReload<I, F> {
    type Item = I::Item;

    type State = (Option<I::State>, I::State);

    open spec fn wf(&self) -> bool {
        self.well_formed() && self.alike()
    }

    open spec fn state(&self) -> (Option<I::State>, I::State) {
        self.current()
    }

    open spec fn spec_next(state: (Option<I::State>, I::State)) -> (
        Option<<I::Item as Term>::Model>,
        (Option<I::State>, I::State),
    ) {
        Self::spec_advance(state)
    }

    fn next(&mut self) -> (item: Option<I::Item>) {
        AutoReload::next(self)
    }
}

/// Lazily compute one item at a time, and hand out copies of it endlessly
/// until the cache is cleared. Then the next item is computed, until the
/// source underneath runs out.
pub struct Cache<I: Source> {
    /// The last item handed out, unless it was cleared.
    cache: Option<I::Item>,
    /// The source underneath.
    iter: I,
}

impl<I: Source> Cache<I> {
    /// Preload a source, with nothing cached.
    pub fn new(iter: I) -> (cache: Self)
        requires
            iter.wf(),
        ensures
            cache.wf(),
            cache.state() == (None::<<I::Item as Term>::Model>, iter.state()),
    {
        Cache { cache: None, iter }
    }

    /// Forget the cached item, so that the next call of `next` computes a
    /// new one. An item must be cached.
    pub fn clear(&mut self)
        requires
            old(self).wf(),
            old(self).state().0 is Some,
        ensures
            final(self).wf(),
            final(self).state() == (None::<<I::Item as Term>::Model>, old(self).state().1),
    {
        self.cache = None;
    }
}

impl<I: Source> Source for Cache<I> {
    type Item = I::Item;

    /// The model of the cached item, if any, and the state of the source
    /// underneath.
    type State = (Option<<I::Item as Term>::Model>, I::State);

    closed spec fn wf(&self) -> bool {
        self.iter.wf()
    }

    closed spec fn state(&self) -> (Option<<I::Item as Term>::Model>, I::State) {
        (stepped_model(self.cache), self.iter.state())
    }

    /// The cached item, if there is one. Otherwise what the source
    /// underneath hands out, which is then cached.
    open spec fn spec_next(state: (Option<<I::Item as Term>::Model>, I::State)) -> (
        Option<<I::Item as Term>::Model>,
        (Option<<I::Item as Term>::Model>, I::State),
    ) {
        match state.0 {
            Some(cached) => (Some(cached), state),
            None => {
                let (item, after) = I::spec_next(state.1);
                (item, (item, after))
            },
        }
    }

    fn next(&mut self) -> (item: Option<I::Item>) {
        if let Some(cached) = &self.cache {
            return Some(cached.dup());
        }
        match self.iter.next() {
            None => None,
            Some(item) => {
                self.cache = Some(item.dup());
                Some(item)
            },
        }
    }
}

/// Compute all pairs in which the first component comes from the first
/// source and the second component from the second.
///
/// The second source runs at the usual speed. The first hands out one item
/// at a time, repeated until the second has finished a whole run, at which
/// point the second starts over and the first advances.
pub struct CartesianProduct<Head: Source, Tail, F> {
    /// A caching source of first components.
    head: Cache<Head>,
    /// An automatically reloaded source of second components.
    tail: AutoReload<Tail, F>,
}

impl<Head: Finite, Tail: Source, F: Fn() -> Tail> CartesianProduct<Head, Tail, F> {
    /// Whether both sources are well formed.
    pub closed spec fn well_formed(&self) -> bool {
        self.head.wf() && self.tail.well_formed()
    }

    /// The factory that makes a source of second components for each run.
    pub closed spec fn factory(&self) -> F {
        self.tail.factory()
    }

    /// Whether every run of second components is like every other.
    pub open spec fn alike(&self) -> bool {
        reloads_alike::<Tail, F>(self.factory())
    }

    /// The state of the cache of first components, and that of the
    /// reloading source of second components.
    pub closed spec fn current(&self) -> (
        (Option<<Head::Item as Term>::Model>, Head::State),
        (Option<Tail::State>, Tail::State),
    ) {
        (self.head.state(), self.tail.current())
    }

    /// The first component is the cached one, or the next one if none is
    /// cached; without one there is no pair. The second component is the
    /// next one of the current run; where the run is over, the cache is
    /// cleared and the search for a pair goes on.
    pub open spec fn spec_advance(
        state: (
            (Option<<Head::Item as Term>::Model>, Head::State),
            (Option<Tail::State>, Tail::State),
        ),
    ) -> (
        Option<(<Head::Item as Term>::Model, <Tail::Item as Term>::Model)>,
        (
            (Option<<Head::Item as Term>::Model>, Head::State),
            (Option<Tail::State>, Tail::State),
        ),
    )
        decreases
            Head::bound(state.0.1),
            (if state.0.0 is Some {
                1nat
            } else {
                0nat
            }),
    {
        let (first, cached) = Cache::<Head>::spec_next(state.0);
        match first {
            None => (None, (cached, state.1)),
            Some(first) => {
                let (second, running) = AutoReload::<Tail, F>::spec_advance(state.1);
                match second {
                    Some(second) => (Some((first, second)), (cached, running)),
                    None => {
                        proof {
                            Head::lemma_bound(state.0.1);
                        }
                        Self::spec_advance(((None, cached.1), running))
                    },
                }
            },
        }
    }

    /// Preload two sources: the first caches its item until the second has
    /// run out, and the second starts over until the first runs out. Nothing
    /// is computed here: the first source is not advanced and the factory is
    /// not called before the first call of `next`.
    pub fn new(head: Head, tail: F) -> (product: Self)
        requires
            head.wf(),
            reloads::<Tail, F>(tail),
        ensures
            product.well_formed(),
            product.factory() == tail,
            product.current() == (
                (None::<<Head::Item as Term>::Model>, head.state()),
                (None::<Tail::State>, spec_start::<Tail, F>(tail)),
            ),
    {
        CartesianProduct { head: Cache::new(head), tail: AutoReload::new(tail) }
    }

    /// Hand out the next pair, if there is one. The factory is called where
    /// a first component is at hand and no run of second components is under
    /// way.
    ///
    /// Where every run of second components is like every other, what is
    /// handed out is what `spec_advance` says.
    pub fn next(&mut self) -> (item: Option<(Head::Item, Tail::Item)>)
        requires
            old(self).well_formed(),
        ensures
            final(self).well_formed(),
            final(self).factory() == old(self).factory(),
            old(self).current().1.0 is None && Cache::<Head>::spec_next(old(self).current().0).0
                is Some ==> exists|made: Tail| #[trigger] old(self).factory().ensures((), made),
            old(self).alike() ==> (stepped_model(item), final(self).current())
                == Self::spec_advance(old(self).current()),
    {
        let ghost mut started = false;
        loop
            invariant
                self.well_formed(),
                self.factory() == old(self).factory(),
                self.current().1.1 == old(self).current().1.1,
                !started ==> self.current() == old(self).current(),
                started && old(self).current().1.0 is None && Cache::<Head>::spec_next(
                    old(self).current().0,
                ).0 is Some ==> exists|made: Tail| #[trigger]
                    old(self).factory().ensures((), made),
                self.alike() ==> Self::spec_advance(self.current()) == Self::spec_advance(
                    old(self).current(),
                ),
            decreases
                Head::bound(self.current().0.1),
                (if self.current().0.0 is Some {
                    1nat
                } else {
                    0nat
                }),
        {
            proof {
                Head::lemma_bound(self.current().0.1);
            }
            let first = match self.head.next() {
                None => {
                    return None;
                },
                Some(first) => first,
            };
            let handed = self.tail.next();
            proof {
                started = true;
            }
            match handed {
                Some(second) => {
                    return Some((first, second));
                },
                None => {},
            }
            self.head.clear();
        }
    }
}

impl<Head: Finite, Tail: Source, F: Fn() -> Tail> Source for CartesianProduct<Head, Tail, F> {
    type Item = (Head::Item, Tail::Item);

    type State = (
        (Option<<Head::Item as Term>::Model>, Head::State),
        (Option<Tail::State>, Tail::State),
    );

    open spec fn wf(&self) -> bool {
        self.well_formed() && self.alike()
    }

    open spec fn state(&self) -> Self::State {
        self.current()
    }

    open spec fn spec_next(state: Self::State) -> (
        Option<(<Head::Item as Term>::Model, <Tail::Item as Term>::Model)>,
        Self::State,
    ) {
        Self::spec_advance(state)
    }

    fn next(&mut self) -> (item: Option<(Head::Item, Tail::Item)>) {
        CartesianProduct::next(self)
    }
}

/// Every pair of one first component and each of some second components, in
/// the order of the second components.
pub open spec fn spec_row<A, B>(first: A, seconds: Seq<B>) -> Seq<(A, B)> {
    Seq::new(seconds.len(), |j: int| (first, seconds[j]))
}

/// The pairs of a sequence of first components start with the row of the
/// first of them.
pub proof fn lemma_pairs_by_rows<A, B>(first: A, firsts: Seq<A>, seconds: Seq<B>)
    ensures
        spec_pairs(seq![first] + firsts, seconds) == spec_row(first, seconds) + spec_pairs(
            firsts,
            seconds,
        ),
    decreases firsts.len(),
{
    let all = seq![first] + firsts;
    if firsts.len() == 0 {
        assert(all.drop_last() =~= Seq::<A>::empty());
        assert(spec_pairs(all.drop_last(), seconds) =~= Seq::<(A, B)>::empty());
        assert(all.last() == first);
        assert(spec_pairs(all, seconds) =~= spec_row(first, seconds) + spec_pairs(
            firsts,
            seconds,
        ));
    } else {
        lemma_pairs_by_rows(first, firsts.drop_last(), seconds);
        assert(all.drop_last() =~= seq![first] + firsts.drop_last());
        assert(all.last() == firsts.last());
        assert(spec_pairs(all, seconds) =~= spec_row(first, seconds) + spec_pairs(
            firsts,
            seconds,
        ));
    }
}

/// There is no pair without a second component.
pub proof fn lemma_pairs_of_nothing<A, B>(firsts: Seq<A>)
    ensures
        spec_pairs(firsts, Seq::<B>::empty()) == Seq::<(A, B)>::empty(),
    decreases firsts.len(),
{
    if firsts.len() > 0 {
        lemma_pairs_of_nothing::<A, B>(firsts.drop_last());
        assert(spec_pairs(firsts, Seq::<B>::empty()) =~= Seq::<(A, B)>::empty());
    }
}

/// A finite source that has just handed out `None` has nothing left.
pub proof fn lemma_rest_after_none<S: Finite>(state: S::State)
    requires
        S::spec_next(state).0 is None,
    ensures
        spec_rest::<S>(state) == Seq::<<S::Item as Term>::Model>::empty(),
        spec_rest::<S>(S::spec_next(state).1) == Seq::<<S::Item as Term>::Model>::empty(),
{
    S::lemma_bound(state);
}

/// The second components that the current run of a product has still to
/// hand out: a whole run, if none is under way.
pub open spec fn spec_running<Tail: Finite>(state: (Option<Tail::State>, Tail::State)) -> Seq<
    <Tail::Item as Term>::Model,
> {
    match state.0 {
        Some(running) => spec_rest::<Tail>(running),
        None => spec_rest::<Tail>(state.1),
    }
}

/// The pairs that a product has still to hand out: what is left of the
/// current row, and then a whole row for each first component still to come.
pub open spec fn spec_pending<Head: Finite, Tail: Finite>(
    state: (
        (Option<<Head::Item as Term>::Model>, Head::State),
        (Option<Tail::State>, Tail::State),
    ),
) -> Seq<(<Head::Item as Term>::Model, <Tail::Item as Term>::Model)> {
    let seconds = spec_rest::<Tail>(state.1.1);
    match state.0.0 {
        Some(first) => spec_row(first, spec_running::<Tail>(state.1)) + spec_pairs(
            spec_rest::<Head>(state.0.1),
            seconds,
        ),
        None => match Head::spec_next(state.0.1) {
            (None, _) => Seq::empty(),
            (Some(first), later) => spec_row(first, spec_running::<Tail>(state.1)) + spec_pairs(
                spec_rest::<Head>(later),
                seconds,
            ),
        },
    }
}

/// A product hands out the pairs of the items of its two sources, each
/// exactly once, the first component varying slowest, and then nothing.
///
/// Whatever is pending, `next` hands out the first pending pair and leaves
/// the others pending; with nothing pending it hands out `None` and nothing
/// becomes pending. In a new product, which has nothing cached and no run
/// under way, every pair is pending.
pub proof fn lemma_product_hands_out_pending<Head: Finite, Tail: Finite, F: Fn() -> Tail>(
    state: (
        (Option<<Head::Item as Term>::Model>, Head::State),
        (Option<Tail::State>, Tail::State),
    ),
)
    ensures
        ({
            let (item, after) = CartesianProduct::<Head, Tail, F>::spec_advance(state);
            let pending = spec_pending::<Head, Tail>(state);
            &&& after.1.1 == state.1.1
            &&& pending.len() == 0 ==> item is None && spec_pending::<Head, Tail>(after).len() == 0
            &&& pending.len() > 0 ==> item == Some(pending[0]) && spec_pending::<Head, Tail>(after)
                == pending.drop_first()
        }),
        state.0.0 is None && state.1.0 is None ==> spec_pending::<Head, Tail>(state)
            == spec_pairs(spec_rest::<Head>(state.0.1), spec_rest::<Tail>(state.1.1)),
    decreases
        Head::bound(state.0.1),
        (if state.0.0 is Some {
            1nat
        } else {
            0nat
        }),
{
    let fresh = state.1.1;
    let seconds = spec_rest::<Tail>(fresh);
    let pending = spec_pending::<Head, Tail>(state);
    let (first_item, cached) = Cache::<Head>::spec_next(state.0);
    Head::lemma_bound(state.0.1);
    match first_item {
        None => {
            lemma_rest_after_none::<Head>(state.0.1);
            Head::lemma_bound(cached.1);
        },
        Some(first) => {
            let firsts = spec_rest::<Head>(cached.1);
            let running = match state.1.0 {
                Some(running) => running,
                None => fresh,
            };
            if state.0.0 is None {
                assert(spec_rest::<Head>(state.0.1) =~= seq![first] + firsts);
                lemma_pairs_by_rows(first, firsts, seconds);
            }
            assert(pending == spec_row(first, spec_rest::<Tail>(running)) + spec_pairs(
                firsts,
                seconds,
            ));
            match Tail::spec_next(running) {
                (Some(second), later) => {
                    assert(spec_rest::<Tail>(running) =~= seq![second] + spec_rest::<Tail>(
                        later,
                    ));
                    assert(pending[0] == (first, second));
                    assert(spec_pending::<Head, Tail>(
                        CartesianProduct::<Head, Tail, F>::spec_advance(state).1,
                    ) =~= pending.drop_first());
                },
                (None, _) => {
                    let between = ((None::<<Head::Item as Term>::Model>, cached.1), (
                        None::<Tail::State>,
                        fresh,
                    ));
                    lemma_rest_after_none::<Tail>(running);
                    assert(spec_row(first, spec_rest::<Tail>(running)) =~= Seq::empty());
                    lemma_product_hands_out_pending::<Head, Tail, F>(between);
                    match Head::spec_next(cached.1) {
                        (None, _) => {
                            lemma_rest_after_none::<Head>(cached.1);
                            assert(spec_pairs(firsts, seconds) =~= Seq::empty());
                        },
                        (Some(next_first), later_head) => {
                            assert(firsts =~= seq![next_first] + spec_rest::<Head>(later_head));
                            lemma_pairs_by_rows(
                                next_first,
                                spec_rest::<Head>(later_head),
                                seconds,
                            );
                        },
                    }
                    assert(pending =~= spec_pending::<Head, Tail>(between));
                },
            }
        },
    }
}

impl<Head: Finite, Tail: Finite, F: Fn() -> Tail> CartesianProduct<Head, Tail, F> {
    /// What `lemma_product_hands_out_pending` says, of this product as it
    /// is.
    pub proof fn lemma_hands_out_pending(&self)
        ensures
            ({
                let (item, after) = Self::spec_advance(self.current());
                let pending = spec_pending::<Head, Tail>(self.current());
                &&& after.1.1 == self.current().1.1
                &&& pending.len() == 0 ==> item is None && spec_pending::<Head, Tail>(after).len()
                    == 0
                &&& pending.len() > 0 ==> item == Some(pending[0]) && spec_pending::<Head, Tail>(
                    after,
                ) == pending.drop_first()
            }),
            self.current().0.0 is None && self.current().1.0 is None
                ==> spec_pending::<Head, Tail>(self.current()) == spec_pairs(
                spec_rest::<Head>(self.current().0.1),
                spec_rest::<Tail>(self.current().1.1),
            ),
    {
        lemma_product_hands_out_pending::<Head, Tail, F>(self.current());
    }
}

/// A source of the items of a vector has, at any place, the items from
/// that place on left.
pub proof fn lemma_items_rest<T: Term>(items: Seq<T::Model>, at: int)
    requires
        0 <= at <= items.len(),
    ensures
        spec_rest::<Items<T>>((items, at)) == items.subrange(at, items.len() as int),
    decreases items.len() - at,
{
    if at < items.len() {
        lemma_items_rest::<T>(items, at + 1);
        assert(seq![items[at]] + items.subrange(at + 1, items.len() as int) =~= items.subrange(
            at,
            items.len() as int,
        ));
    } else {
        assert(items.subrange(at, items.len() as int) =~= Seq::<T::Model>::empty());
    }
}

/// Every pair of a first and a second component, the first varying slowest:
/// what a product of the two sequences hands out.
pub fn pairs<A: Term, B: Term>(firsts: &Vec<A>, seconds: &Vec<B>) -> (all: Vec<(A, B)>)
    ensures
        models(all@) == spec_pairs(models(firsts@), models(seconds@)),
{
    let rows = || -> (made: Items<B>)
        ensures
            made.wf(),
            made.state() == (models(seconds@), 0int),
        { Items::new(dup_all(seconds.as_slice())) };
    let mut product = CartesianProduct::new(Items::new(dup_all(firsts.as_slice())), rows);
    let mut all: Vec<(A, B)> = Vec::new();
    let ghost total = spec_pairs(models(firsts@), models(seconds@));
    let ghost pending = spec_pending::<Items<A>, Items<B>>(product.current());
    proof {
        lemma_items_rest::<A>(models(firsts@), 0);
        lemma_items_rest::<B>(models(seconds@), 0);
        assert(models(firsts@).subrange(0, models(firsts@).len() as int) =~= models(firsts@));
        assert(models(seconds@).subrange(0, models(seconds@).len() as int) =~= models(seconds@));
        product.lemma_hands_out_pending();
    }
    // The first pair is asked for apart: only once the factory was called
    // is it known in which state every row starts.
    let first = product.next();
    proof {
        if firsts@.len() == 0 {
            assert(total =~= Seq::empty());
        } else {
            let made = choose|made: Items<B>| #[trigger] rows.ensures((), made);
            lemma_start::<Items<B>, _>(rows, made);
        }
        assert(pending == total);
    }
    match first {
        None => {
            proof {
                assert(models(all@) =~= total);
            }
            return all;
        },
        Some(pair) => {
            proof {
                crate::term::lemma_models_push(all@, pair);
                assert(models(all@).push(pair.model()) + pending.drop_first() =~= pending);
            }
            all.push(pair);
        },
    }
    loop
        invariant
            product.well_formed(),
            product.alike(),
            total == spec_pairs(models(firsts@), models(seconds@)),
            models(all@) + spec_pending::<Items<A>, Items<B>>(product.current()) == total,
        decreases spec_pending::<Items<A>, Items<B>>(product.current()).len(),
    {
        let ghost pending = spec_pending::<Items<A>, Items<B>>(product.current());
        proof {
            product.lemma_hands_out_pending();
        }
        match product.next() {
            None => {
                proof {
                    assert(models(all@) + pending =~= models(all@));
                }
                return all;
            },
            Some(pair) => {
                proof {
                    crate::term::lemma_models_push(all@, pair);
                    assert(models(all@).push(pair.model()) + pending.drop_first() =~= models(all@)
                        + pending);
                }
                all.push(pair);
            },
        }
    }
}

/// Whether a term with the same model is among the terms seen.
fn member<T: Term>(seen: &Vec<T>, term: &T) -> (found: bool)
    ensures
        found == models(seen@).contains(term.model()),
{
    let mut i: usize = 0;
    while i < seen.len()
        invariant
            i <= seen.len(),
            forall|j: int| 0 <= j < i ==> models(seen@)[j] != term.model(),
        decreases seen.len() - i,
    {
        if seen[i].same(term) {
            assert(models(seen@)[i as int] == term.model());
            return true;
        }
        i += 1;
    }
    false
}

/// Lazily remove duplicates from a source: only the first occurrence of
/// each item is handed out.
///
/// This takes more and more space, the more distinct items the source
/// hands out over time.
pub struct RemoveDuplicates<I: Source> {
    /// A source that may hand out the same item more than once.
    iter: I,
    /// The items seen so far, each once.
    seen: Vec<I::Item>,
}

impl<I: Finite> RemoveDuplicates<I> {
    /// Lazily remove duplicates from a source.
    pub fn new(iter: I) -> (source: Self)
        requires
            iter.wf(),
        ensures
            source.wf(),
            source.state() == (iter.state(), Seq::<<I::Item as Term>::Model>::empty()),
    {
        let seen: Vec<I::Item> = Vec::new();
        assert(models(seen@) =~= Seq::<<I::Item as Term>::Model>::empty());
        RemoveDuplicates { iter, seen }
    }

    /// Hand out what is left as a vector: the first occurrence of every
    /// item that is left underneath and was not seen before.
    pub fn collect(self) -> (items: Vec<I::Item>)
        requires
            self.wf(),
        ensures
            models(items@) == spec_rest::<Self>(self.state()),
            models(items@) == spec_unseen(spec_rest::<I>(self.state().0), self.state().1),
    {
        proof {
            lemma_remove_duplicates_rest::<I>(self.state());
        }
        collect(self)
    }
}

impl<I: Finite> Source for RemoveDuplicates<I> {
    type Item = I::Item;

    /// The state of the source underneath, and the models of the items
    /// seen so far.
    type State = (I::State, Seq<<I::Item as Term>::Model>);

    closed spec fn wf(&self) -> bool {
        &&& self.iter.wf()
        &&& forall|i: int, j: int|
            0 <= i < j < self.seen@.len() ==> self.seen@[i].model() != self.seen@[j].model()
    }

    closed spec fn state(&self) -> (I::State, Seq<<I::Item as Term>::Model>) {
        (self.iter.state(), models(self.seen@))
    }

    /// The next item of the source underneath that was not seen before,
    /// which from then on counts as seen.
    open spec fn spec_next(state: (I::State, Seq<<I::Item as Term>::Model>)) -> (
        Option<<I::Item as Term>::Model>,
        (I::State, Seq<<I::Item as Term>::Model>),
    )
        decreases I::bound(state.0),
    {
        match I::spec_next(state.0) {
            (None, after) => (None, (after, state.1)),
            (Some(item), after) => {
                proof {
                    I::lemma_bound(state.0);
                }
                if state.1.contains(item) {
                    Self::spec_next((after, state.1))
                } else {
                    (Some(item), (after, state.1.push(item)))
                }
            },
        }
    }

    fn next(&mut self) -> (item: Option<I::Item>) {
        loop
            invariant
                self.wf(),
                Self::spec_next(self.state()) == Self::spec_next(old(self).state()),
            decreases I::bound(self.state().0),
        {
            proof {
                I::lemma_bound(self.state().0);
            }
            let item = match self.iter.next() {
                None => {
                    return None;
                },
                Some(item) => item,
            };
            if !member(&self.seen, &item) {
                proof {
                    crate::term::lemma_models_push(self.seen@, item);
                    assert forall|i: int| 0 <= i < self.seen@.len() implies self.seen@[i].model()
                        != item.model() by {
                        assert(models(self.seen@)[i] == self.seen@[i].model());
                    }
                }
                let copy = item.dup();
                proof {
                    crate::term::lemma_models_push(self.seen@, copy);
                }
                self.seen.push(copy);
                return Some(item);
            }
        }
    }
}

impl<I: Finite> Finite for RemoveDuplicates<I> {
    open spec fn bound(state: (I::State, Seq<<I::Item as Term>::Model>)) -> nat {
        I::bound(state.0)
    }

    proof fn lemma_bound(state: (I::State, Seq<<I::Item as Term>::Model>))
        decreases I::bound(state.0),
    {
        I::lemma_bound(state.0);
        match I::spec_next(state.0) {
            (None, after) => {},
            (Some(item), after) => {
                if state.1.contains(item) {
                    Self::lemma_bound((after, state.1));
                }
            },
        }
    }
}

/// The items of a sequence that are neither among those seen nor earlier in
/// the sequence, in order: the first occurrence of every item that was not
/// seen before.
pub open spec fn spec_unseen<M>(items: Seq<M>, seen: Seq<M>) -> Seq<M>
    decreases items.len(),
{
    if items.len() == 0 {
        Seq::empty()
    } else if seen.contains(items[0]) {
        spec_unseen(items.drop_first(), seen)
    } else {
        seq![items[0]] + spec_unseen(items.drop_first(), seen.push(items[0]))
    }
}

/// The first occurrences hold every item that was not seen before, each
/// once, and nothing else.
pub proof fn lemma_unseen<M>(items: Seq<M>, seen: Seq<M>)
    ensures
        spec_unseen(items, seen).no_duplicates(),
        forall|item: M| #[trigger]
            spec_unseen(items, seen).contains(item) <==> items.contains(item) && !seen.contains(
                item,
            ),
    decreases items.len(),
{
    let firsts = spec_unseen(items, seen);
    if items.len() > 0 {
        let head = items[0];
        let tail = items.drop_first();
        if seen.contains(head) {
            lemma_unseen(tail, seen);
            assert forall|item: M| #[trigger]
                firsts.contains(item) <==> items.contains(item) && !seen.contains(item) by {
                if items.contains(item) && !seen.contains(item) {
                    let at = choose|at: int| 0 <= at < items.len() && items[at] == item;
                    assert(tail[at - 1] == item);
                }
                if tail.contains(item) {
                    let at = choose|at: int| 0 <= at < tail.len() && tail[at] == item;
                    assert(items[at + 1] == item);
                }
            }
        } else {
            let longer = seen.push(head);
            let rest = spec_unseen(tail, longer);
            lemma_unseen(tail, longer);
            assert(longer[seen.len() as int] == head);
            assert(!rest.contains(head));
            assert forall|i: int, j: int|
                0 <= i < firsts.len() && 0 <= j < firsts.len() && i != j implies firsts[i]
                != firsts[j] by {
                if i > 0 && j > 0 {
                    assert(firsts[i] == rest[i - 1] && firsts[j] == rest[j - 1]);
                } else if i > 0 {
                    assert(rest.contains(rest[i - 1]));
                } else {
                    assert(rest.contains(rest[j - 1]));
                }
            }
            assert forall|item: M| #[trigger]
                firsts.contains(item) <==> items.contains(item) && !seen.contains(item) by {
                if firsts.contains(item) {
                    let at = choose|at: int| 0 <= at < firsts.len() && firsts[at] == item;
                    if at > 0 {
                        assert(rest[at - 1] == item);
                        assert(rest.contains(item));
                        let place = choose|place: int| 0 <= place < tail.len() && tail[place] == item;
                        assert(items[place + 1] == item);
                        if seen.contains(item) {
                            let old = choose|old: int| 0 <= old < seen.len() && seen[old] == item;
                            assert(longer[old] == item);
                        }
                    }
                }
                if items.contains(item) && !seen.contains(item) {
                    if item == head {
                        assert(firsts[0] == item);
                    } else {
                        let at = choose|at: int| 0 <= at < items.len() && items[at] == item;
                        assert(tail[at - 1] == item);
                        if longer.contains(item) {
                            let old = choose|old: int| 0 <= old < longer.len() && longer[old] == item;
                            if old < seen.len() {
                                assert(seen[old] == item);
                            }
                        }
                        assert(rest.contains(item));
                        let place = choose|place: int| 0 <= place < rest.len() && rest[place] == item;
                        assert(firsts[place + 1] == item);
                    }
                }
            }
        }
    }
}

/// What is left of a source without duplicates is the first occurrence of
/// every item that is left underneath and was not seen before.
pub proof fn lemma_remove_duplicates_rest<I: Finite>(
    state: (I::State, Seq<<I::Item as Term>::Model>),
)
    ensures
        spec_rest::<RemoveDuplicates<I>>(state) == spec_unseen(spec_rest::<I>(state.0), state.1),
    decreases I::bound(state.0),
{
    I::lemma_bound(state.0);
    RemoveDuplicates::<I>::lemma_bound(state);
    match I::spec_next(state.0) {
        (None, _) => {},
        (Some(item), after) => {
            let below = spec_rest::<I>(state.0);
            assert(below[0] == item);
            assert(below.drop_first() =~= spec_rest::<I>(after));
            if state.1.contains(item) {
                lemma_remove_duplicates_rest::<I>((after, state.1));
            } else {
                lemma_remove_duplicates_rest::<I>((after, state.1.push(item)));
            }
        },
    }
}

} // verus!
