//! Deterministic seeds: a 64-bit generator state paired with a size budget,
//! and the ways to hand a budget down to the children of a value.

use crate::term::array_from_vec;
use vstd::prelude::*;

verus! {

/// The generator state that follows `state`: the state plus a fixed odd
/// constant, wrapping at 64 bits.
pub open spec fn wyrand_state(state: u64) -> u64 {
    ((state as int + 0x2d35_8dcc_aa6c_78a5) % 0x1_0000_0000_0000_0000) as u64
}

/// The 128-bit product of two 64-bit words, folded to 64 bits by xor of its
/// low and high halves.
pub open spec fn wyrand_mix(first: u64, second: u64) -> u64 {
    let total = first as int * second as int;
    ((total % 0x1_0000_0000_0000_0000) as u64) ^ ((total / 0x1_0000_0000_0000_0000) as u64)
}

/// The number that the generator hands out on reaching `state`.
pub open spec fn wyrand_output(state: u64) -> u64 {
    wyrand_mix(state, state ^ 0x8bb8_4b93_962e_acc9)
}

/// One step of the `wyrand` generator, by `wyrand::WyRand::gen_u64`: the
/// state advances by a wrapping addition of the generator's increment, and
/// the output is the folded product of the new state and the new state xor
/// the generator's second constant. The result is the output first and the
/// new state second.
#[verifier::external_body]
fn wyrand_gen(state: u64) -> (drawn: (u64, u64))
    ensures
        drawn.1 == wyrand_state(state),
        drawn.0 == wyrand_output(wyrand_state(state)),
{
    wyrand::WyRand::gen_u64(state)
}

/// How many cut points at the front of `cuts` are at least `cut`.
pub open spec fn rank(cuts: Seq<usize>, cut: usize) -> nat
    decreases cuts.len(),
{
    if cuts.len() == 0 || cuts[0] < cut {
        0
    } else {
        1 + rank(cuts.drop_first(), cut)
    }
}

/// Whether no cut point is followed by a greater one.
pub open spec fn is_descending(cuts: Seq<usize>) -> bool {
    forall|i: int, j: int| 0 <= i <= j < cuts.len() ==> cuts[i] >= cuts[j]
}

/// The cut points in descending order: each one in turn is put behind those
/// that are at least as great.
pub open spec fn descending(cuts: Seq<usize>) -> Seq<usize>
    decreases cuts.len(),
{
    if cuts.len() == 0 {
        cuts
    } else {
        let rest = descending(cuts.drop_last());
        rest.insert(rank(rest, cuts.last()) as int, cuts.last())
    }
}

/// The sum of the size budgets of some seeds.
pub open spec fn total_size(seeds: Seq<Seed>) -> nat
    decreases seeds.len(),
{
    if seeds.len() == 0 {
        0
    } else {
        total_size(seeds.drop_last()) + seeds.last().size as nat
    }
}

/// `rank` is the first place at which a smaller cut point stands.
pub proof fn lemma_rank(cuts: Seq<usize>, cut: usize)
    ensures
        rank(cuts, cut) <= cuts.len(),
        forall|i: int| 0 <= i < rank(cuts, cut) ==> cuts[i] >= cut,
        rank(cuts, cut) < cuts.len() ==> cuts[rank(cuts, cut) as int] < cut,
    decreases cuts.len(),
{
    if cuts.len() == 0 || cuts[0] < cut {
    } else {
        let rest = cuts.drop_first();
        lemma_rank(rest, cut);
        assert forall|i: int| 0 <= i < rank(cuts, cut) implies cuts[i] >= cut by {
            if i > 0 {
                assert(cuts[i] == rest[i - 1]);
            }
        }
        if rank(cuts, cut) < cuts.len() {
            assert(cuts[rank(cuts, cut) as int] == rest[rank(rest, cut) as int]);
        }
    }
}

/// A place before which all cut points are at least `cut`, and at which a
/// smaller one stands or the sequence ends, is the rank of `cut`.
pub proof fn lemma_rank_is(cuts: Seq<usize>, cut: usize, at: int)
    requires
        0 <= at <= cuts.len(),
        forall|i: int| 0 <= i < at ==> cuts[i] >= cut,
        at < cuts.len() ==> cuts[at] < cut,
    ensures
        rank(cuts, cut) == at,
    decreases cuts.len(),
{
    if at > 0 {
        let rest = cuts.drop_first();
        assert forall|i: int| 0 <= i < at - 1 implies rest[i] >= cut by {
            assert(rest[i] == cuts[i + 1]);
        }
        lemma_rank_is(rest, cut, at - 1);
    }
}

/// Putting a cut point at its rank keeps a descending sequence descending,
/// and adds that cut point and no other.
pub proof fn lemma_insert_at_rank(cuts: Seq<usize>, cut: usize)
    requires
        is_descending(cuts),
    ensures
        is_descending(cuts.insert(rank(cuts, cut) as int, cut)),
        forall|other: usize|
            cuts.insert(rank(cuts, cut) as int, cut).contains(other) <==> (cuts.contains(other)
                || other == cut),
{
    lemma_rank(cuts, cut);
    let at = rank(cuts, cut) as int;
    let placed = cuts.insert(at, cut);
    assert forall|i: int, j: int| 0 <= i <= j < placed.len() implies placed[i] >= placed[j] by {
        if i < at && j > at {
            assert(cuts[i] >= cuts[j - 1]);
        } else if i > at {
            assert(cuts[i - 1] >= cuts[j - 1]);
        } else if i == at && j > at {
            assert(cuts[at] >= cuts[j - 1]);
        }
    }
    assert forall|other: usize| placed.contains(other) <==> (cuts.contains(other) || other
        == cut) by {
        if placed.contains(other) {
            let i = choose|i: int| 0 <= i < placed.len() && placed[i] == other;
            if i < at {
                assert(cuts[i] == other);
            } else if i > at {
                assert(cuts[i - 1] == other);
            }
        }
        if cuts.contains(other) {
            let i = choose|i: int| 0 <= i < cuts.len() && cuts[i] == other;
            if i < at {
                assert(placed[i] == other);
            } else {
                assert(placed[i + 1] == other);
            }
        }
        if other == cut {
            assert(placed[at] == other);
        }
    }
}

/// `descending` arranges the same cut points, as many as there were, so that
/// none is followed by a greater one.
pub proof fn lemma_descending(cuts: Seq<usize>)
    ensures
        descending(cuts).len() == cuts.len(),
        is_descending(descending(cuts)),
        forall|cut: usize| descending(cuts).contains(cut) <==> cuts.contains(cut),
    decreases cuts.len(),
{
    if cuts.len() > 0 {
        let front = cuts.drop_last();
        lemma_descending(front);
        lemma_rank(descending(front), cuts.last());
        lemma_insert_at_rank(descending(front), cuts.last());
        assert forall|cut: usize| descending(cuts).contains(cut) <==> cuts.contains(cut) by {
            if cuts.contains(cut) {
                let i = choose|i: int| 0 <= i < cuts.len() && cuts[i] == cut;
                if i < cuts.len() - 1 {
                    assert(front[i] == cut);
                }
            }
            if front.contains(cut) {
                let i = choose|i: int| 0 <= i < front.len() && front[i] == cut;
                assert(cuts[i] == cut);
            }
        }
    }
}

/// Seeds whose budgets are the gaps between consecutive cut points have, in
/// sum, the gap between the first cut point and the last.
pub proof fn lemma_total_size_of_gaps(seeds: Seq<Seed>, cuts: Seq<usize>)
    requires
        cuts.len() == seeds.len() + 1,
        is_descending(cuts),
        forall|i: int| 0 <= i < seeds.len() ==> (#[trigger] seeds[i]).size == cuts[i] - cuts[i + 1],
    ensures
        total_size(seeds) == cuts[0] - cuts.last(),
    decreases seeds.len(),
{
    if seeds.len() > 0 {
        let front = seeds.drop_last();
        let fewer = cuts.drop_last();
        assert forall|i: int| 0 <= i < front.len() implies (#[trigger] front[i]).size == fewer[i]
            - fewer[i + 1] by {
            assert(front[i] == seeds[i]);
        }
        lemma_total_size_of_gaps(front, fewer);
        assert(seeds.last() == seeds[seeds.len() - 1]);
    }
}

/// Deterministic pseudorandom number generator with a size budget.
///
/// `size` bounds how many constructors of infinite cardinality may still be
/// used below the value that this seed generates. A seed is neither `Clone`
/// nor `Copy`: it is used up by the value it makes.
#[derive(Debug)]
pub struct Seed {
    /// State of the generator.
    pub state: u64,
    /// Remaining size budget.
    pub size: usize,
}

/// An endless supply of seeds: the `n`th one has size budget `n`.
pub struct Seeds(pub Seed);

/// An endless supply of child seeds that use up a parent's budget: each child
/// takes a pseudorandom part of what is left.
pub struct SeedStream(pub Seed);

impl Seed {
    /// The state with which every run starts.
    pub open spec fn initial_state() -> u64 {
        1337_1337_1337_1337_1337u64
    }

    /// This seed after one number was drawn from it.
    pub open spec fn next(self) -> Seed {
        Seed { state: wyrand_state(self.state), size: self.size }
    }

    /// The number that this seed hands out next.
    pub open spec fn output(self) -> u64 {
        wyrand_output(wyrand_state(self.state))
    }

    /// This seed after `count` numbers were drawn from it.
    pub open spec fn skip(self, count: nat) -> Seed
        decreases count,
    {
        if count == 0 {
            self
        } else {
            self.skip((count - 1) as nat).next()
        }
    }

    /// The number that this seed hands out after `count` others.
    pub open spec fn draw(self, count: nat) -> u64 {
        self.skip(count).output()
    }

    /// This seed with another size budget.
    pub open spec fn with_size(self, size: usize) -> Seed {
        Seed { state: self.state, size }
    }

    /// What `should_recurse` answers, and the seed it leaves behind.
    ///
    /// With a budget of `usize::MAX` the answer is yes without a draw.
    /// Otherwise one number is drawn, and the answer is no exactly when it is
    /// divisible by `size + 1`. A yes reserves one unit of the budget.
    pub open spec fn spec_should_recurse(self) -> (bool, Seed) {
        if self.size == usize::MAX {
            (true, self.with_size((self.size - 1) as usize))
        } else if self.output() as int % (self.size + 1) == 0 {
            (false, self.next())
        } else {
            (true, self.next().with_size((self.size - 1) as usize))
        }
    }

    /// A partition hands out as many children as asked for, none with more
    /// than the whole budget; and if there is a child at all, the budgets of
    /// the children add up to the whole budget exactly.
    pub proof fn lemma_partition(self, size: usize, parts: nat)
        ensures
            self.spec_partition(size, parts).len() == parts,
            forall|i: int|
                0 <= i < parts ==> (#[trigger] self.spec_partition(size, parts)[i]).size <= size,
            parts >= 1 ==> total_size(self.spec_partition(size, parts)) == size,
    {
        let samples = self.spec_samples(size, parts);
        let all = seq![0usize, size] + samples;
        let cuts = self.spec_cuts(size, parts);
        let children = self.spec_partition(size, parts);
        lemma_descending(all);
        assert(all[0] == 0 && all[1] == size);
        assert(all.contains(0) && all.contains(size));
        assert forall|k: int| 0 <= k < all.len() implies all[k] <= size by {
            if k >= 2 {
                assert(all[k] == samples[k - 2]);
            }
        }
        assert forall|k: int| 0 <= k < cuts.len() implies cuts[k] <= size by {
            assert(cuts.contains(cuts[k]));
            assert(all.contains(cuts[k]));
            let at = choose|at: int| 0 <= at < all.len() && all[at] == cuts[k];
            assert(all[at] <= size);
        }
        if parts >= 1 {
            lemma_total_size_of_gaps(children, cuts);
            assert(cuts.contains(size) && cuts.contains(0));
            let top = choose|k: int| 0 <= k < cuts.len() && cuts[k] == size;
            let bottom = choose|k: int| 0 <= k < cuts.len() && cuts[k] == 0;
            assert(cuts[0] >= cuts[top]);
            assert(cuts[bottom] >= cuts.last());
        }
    }

    /// The seed with which every run starts, with the given size budget.
    #[must_use]
    pub fn new(size: usize) -> (seed: Self)
        ensures
            seed == (Seed { state: Self::initial_state(), size }),
    {
        Seed { state: 1337_1337_1337_1337_1337u64, size }
    }

    /// Generate a pseudorandom `u64`, ignoring this seed's size budget.
    #[must_use]
    pub fn prng(&mut self) -> (drawn: u64)
        ensures
            drawn == old(self).output(),
            *final(self) == old(self).next(),
    {
        let (drawn, state) = wyrand_gen(self.state);
        self.state = state;
        drawn
    }

    /// Generate a pseudorandom `bool`: the lowest bit of the next number.
    #[must_use]
    pub fn prng_bool(&mut self) -> (drawn: bool)
        ensures
            drawn == ((old(self).output() & 1) != 0),
            *final(self) == old(self).next(),
    {
        (self.prng() & 1) != 0
    }

    /// Generate a pseudorandom number below `bound`: the next number modulo
    /// `bound`.
    #[must_use]
    pub fn prng_below(&mut self, bound: usize) -> (drawn: usize)
        requires
            bound > 0,
        ensures
            drawn == old(self).output() as int % bound as int,
            drawn < bound,
            *final(self) == old(self).next(),
    {
        let raw = self.prng();
        (raw % (bound as u64)) as usize
    }

    /// The pseudorandom cut points of a partition of `size` into `parts`:
    /// one fewer than there are parts, each a drawn number modulo `size + 1`.
    pub open spec fn spec_samples(self, size: usize, parts: nat) -> Seq<usize> {
        Seq::new(
            if parts == 0 {
                0
            } else {
                (parts - 1) as nat
            },
            |j: int| (self.draw(j as nat) as int % (size + 1)) as usize,
        )
    }

    /// All cut points of a partition of `size` into `parts`, in descending
    /// order: the two ends, `0` and `size`, and the pseudorandom ones.
    pub open spec fn spec_cuts(self, size: usize, parts: nat) -> Seq<usize> {
        descending(seq![0usize, size] + self.spec_samples(size, parts))
    }

    /// The children that `partition` makes: the budget of each is the gap
    /// between two consecutive cut points, and its state is a number drawn
    /// after the cut points were.
    pub open spec fn spec_partition(self, size: usize, parts: nat) -> Seq<Seed> {
        let cuts = self.spec_cuts(size, parts);
        let drawn = self.spec_samples(size, parts).len();
        Seq::new(
            parts,
            |i: int|
                Seed { state: self.draw((drawn + i) as nat), size: (cuts[i] - cuts[i + 1]) as usize },
        )
    }

    /// The children that `split` makes: the state of each is a drawn number,
    /// and none has a budget.
    pub open spec fn spec_split(self, parts: nat) -> Seq<Seed> {
        Seq::new(parts, |i: int| Seed { state: self.draw(i as nat), size: 0 })
    }

    /// Use up this seed to make `N` independent children without any size
    /// budget, for generation that does not recurse.
    #[must_use]
    pub fn split<const N: usize>(self) -> (children: [Seed; N])
        ensures
            children@ == self.spec_split(N as nat),
    {
        array_from_vec(self.split_among(N))
    }

    /// Use up this seed to make `parts` independent children without any
    /// size budget: `split` for a number of children that is only known at
    /// run time.
    #[must_use]
    pub fn split_among(self, parts: usize) -> (children: Vec<Seed>)
        ensures
            children@ == self.spec_split(parts as nat),
    {
        let mut parent = self;
        let mut children: Vec<Seed> = Vec::with_capacity(parts);
        let mut i: usize = 0;
        while i < parts
            invariant
                i <= parts,
                parent == self.skip(i as nat),
                children.len() == i,
                forall|j: int|
                    0 <= j < i ==> children@[j] == (Seed { state: self.draw(j as nat), size: 0 }),
            decreases parts - i,
        {
            let state = parent.prng();
            children.push(Seed { state, size: 0 });
            i += 1;
        }
        assert(children@ =~= self.spec_split(parts as nat));
        children
    }

    /// Use up this seed to split a size budget among `N` children, by stars
    /// and bars: `N - 1` pseudorandom cut points between `0` and `size` cut
    /// the budget into `N` parts, and each child takes one part and a
    /// pseudorandom state of its own.
    #[must_use]
    pub fn partition<const N: usize>(self, size: usize) -> (children: [Seed; N])
        ensures
            children@ == self.spec_partition(size, N as nat),
            N >= 1 ==> total_size(children@) == size,
    {
        array_from_vec(self.partition_among(size, N))
    }

    /// Use up this seed to split a size budget among `parts` children:
    /// `partition` for a number of children that is only known at run time.
    #[must_use]
    pub fn partition_among(self, size: usize, parts: usize) -> (children: Vec<Seed>)
        ensures
            children@ == self.spec_partition(size, parts as nat),
            parts >= 1 ==> total_size(children@) == size,
    {
        let mut parent = self;
        let ghost samples = self.spec_samples(size, parts as nat);
        let mut cuts: Vec<usize> = Vec::with_capacity(2);
        let ghost ends = seq![0usize, size];
        insert_cut(&mut cuts, 0);
        insert_cut(&mut cuts, size);
        proof {
            let none = Seq::<usize>::empty();
            let low = seq![0usize];
            assert(descending(none) == none);
            assert(low.drop_last() =~= none);
            assert(low.last() == 0);
            assert(descending(low) == none.insert(rank(none, 0) as int, 0));
            assert(ends.drop_last() =~= low);
            assert(ends.last() == size);
            lemma_rank(descending(low), size);
            assert(descending(ends) == descending(low).insert(
                rank(descending(low), size) as int,
                size,
            ));
            assert(ends + samples.take(0) =~= ends);
        }
        let mut j: usize = 1;
        while j < parts
            invariant
                1 <= j,
                j <= parts || (parts == 0 && j == 1),
                samples == self.spec_samples(size, parts as nat),
                parent == self.skip((j - 1) as nat),
                ends == seq![0usize, size],
                cuts@ == descending(ends + samples.take(j - 1)),
            decreases parts - j,
        {
            let cut = parent.prng_upto(size);
            assert(cut == samples[j - 1]);
            insert_cut(&mut cuts, cut);
            proof {
                let longer = ends + samples.take(j as int);
                assert(longer.drop_last() =~= ends + samples.take(j - 1));
                assert(longer.last() == cut);
            }
            j += 1;
        }
        let ghost drawn = samples.len();
        assert(drawn == j - 1);
        assert(samples.take(drawn as int) =~= samples);
        proof {
            lemma_descending(ends + samples);
        }
        let mut children: Vec<Seed> = Vec::with_capacity(parts);
        let mut i: usize = 0;
        while i < parts
            invariant
                i <= parts,
                drawn == samples.len(),
                samples == self.spec_samples(size, parts as nat),
                parent == self.skip((drawn + i) as nat),
                cuts@ == self.spec_cuts(size, parts as nat),
                cuts@.len() == parts + 1 || parts == 0,
                is_descending(cuts@),
                children.len() == i,
                forall|k: int|
                    0 <= k < i ==> children@[k] == (Seed {
                        state: self.draw((drawn + k) as nat),
                        size: (cuts@[k] - cuts@[k + 1]) as usize,
                    }),
            decreases parts - i,
        {
            let state = parent.prng();
            let part = cuts[i] - cuts[i + 1];
            children.push(Seed { state, size: part });
            i += 1;
        }
        proof {
            assert(children@ =~= self.spec_partition(size, parts as nat));
            self.lemma_partition(size, parts as nat);
        }
        children
    }

    /// Use up this seed to make an endless supply of children that share its
    /// size budget.
    #[must_use]
    pub fn stream(self) -> (children: SeedStream)
        ensures
            children.0 == self,
    {
        SeedStream(self)
    }

    /// Generate a pseudorandom number up to and including `limit`: the next
    /// number modulo `limit + 1`.
    #[must_use]
    pub fn prng_upto(&mut self, limit: usize) -> (drawn: usize)
        ensures
            drawn == old(self).output() as int % (limit + 1),
            drawn <= limit,
            *final(self) == old(self).next(),
    {
        let raw = self.prng();
        ((raw as u128) % (limit as u128 + 1)) as usize
    }

    /// With a chance of one in `size + 1`, stop recursing right now;
    /// otherwise go on, and reserve one unit of the size budget for the node
    /// that is about to be made.
    #[must_use]
    pub fn should_recurse(&mut self) -> (recurse: bool)
        ensures
            (recurse, *final(self)) == old(self).spec_should_recurse(),
            recurse ==> final(self).size + 1 == old(self).size,
            !recurse ==> final(self).size == old(self).size,
    {
        match self.size.checked_add(1) {
            None => {
                self.size = self.size - 1;
                true
            },
            Some(bound) => {
                let drawn = self.prng_below(bound);
                if drawn == 0 {
                    false
                } else {
                    assert(old(self).size > 0) by {
                        if old(self).size == 0 {
                            assert(old(self).output() as int % 1 == 0);
                        }
                    }
                    self.size = self.size - 1;
                    true
                }
            },
        }
    }
}

impl Default for Seed {
    fn default() -> (seed: Self)
        ensures
            seed == (Seed { state: Seed::initial_state(), size: 0 }),
    {
        Seed::new(0)
    }
}

/// Put a cut point into a descending vector of cut points, at its rank.
fn insert_cut(cuts: &mut Vec<usize>, cut: usize)
    ensures
        final(cuts)@ == old(cuts)@.insert(rank(old(cuts)@, cut) as int, cut),
{
    let mut at: usize = 0;
    while at < cuts.len() && cuts[at] >= cut
        invariant
            at <= cuts.len(),
            forall|i: int| 0 <= i < at ==> cuts@[i] >= cut,
        decreases cuts.len() - at,
    {
        at += 1;
    }
    proof {
        lemma_rank_is(cuts@, cut, at as int);
    }
    cuts.insert(at, cut);
}

impl SeedStream {
    /// What `next` hands out, and the stream it leaves behind.
    ///
    /// While a budget is left, one number is drawn and the child takes that
    /// number modulo the budget out of it; then the child's state is drawn.
    pub open spec fn spec_next(self) -> (Seed, SeedStream) {
        if self.0.size == 0 {
            (Seed { state: self.0.output(), size: 0 }, SeedStream(self.0.next()))
        } else {
            let part = (self.0.output() as int % self.0.size as int) as usize;
            (
                Seed { state: self.0.next().output(), size: part },
                SeedStream(self.0.next().next().with_size((self.0.size - part) as usize)),
            )
        }
    }

    /// The next child. There always is one.
    #[must_use]
    pub fn next(&mut self) -> (child: Seed)
        ensures
            (child, *final(self)) == old(self).spec_next(),
            child.size + final(self).0.size == old(self).0.size,
    {
        let part = if self.0.size == 0 {
            0
        } else {
            let bound = self.0.size;
            self.0.prng_below(bound)
        };
        self.0.size = self.0.size - part;
        let state = self.0.prng();
        Seed { state, size: part }
    }
}

impl Seeds {
    /// What `next` hands out, and the supply it leaves behind.
    ///
    /// The seed handed out has the current budget and a drawn state, and
    /// the budget grows by one. The supply ends where the budget cannot grow.
    pub open spec fn spec_next(self) -> (Option<Seed>, Seeds) {
        if self.0.size == usize::MAX {
            (None, Seeds(self.0.next()))
        } else {
            (
                Some(Seed { state: self.0.output(), size: self.0.size }),
                Seeds(self.0.next().with_size((self.0.size + 1) as usize)),
            )
        }
    }

    /// The next seed, one unit larger than the one before.
    pub fn next(&mut self) -> (seed: Option<Seed>)
        ensures
            (seed, *final(self)) == old(self).spec_next(),
    {
        let state = self.0.prng();
        let size = self.0.size;
        match size.checked_add(1) {
            None => None,
            Some(larger) => {
                self.0.size = larger;
                Some(Seed { state, size })
            },
        }
    }
}

/// An endless supply of increasingly large seeds, from size zero upwards.
pub fn seeds() -> (supply: Seeds)
    ensures
        supply.0 == (Seed { state: Seed::initial_state(), size: 0 }),
{
    Seeds(Seed::new(0))
}

} // verus!
