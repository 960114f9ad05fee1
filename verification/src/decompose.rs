//! Values as bare trees: a value is decomposed into a tree without data at
//! its nodes, shrunk as a tree, and put together again.

use crate::conjure::{Conjure, Uninstantiable};
use crate::count::{Cardinality, Count};
use crate::impls::vec::{dup_range, lemma_weight_update, shrink_contiguous, shrink_horizontal,
    spec_contiguous, spec_horizontal, spec_weight};
use crate::seed::Seed;
use crate::shrink::{agrees, answers, holds, stepped_model, total};
use crate::term::{dup_all, models, Term};
use vstd::prelude::*;

verus! {

/// A tree without data at its nodes: the mathematical value of a
/// decomposition.
pub struct Tree {
    /// The subtrees, in order.
    pub children: Seq<Tree>,
}

/// A tree with nothing at each node, held as the vector of its subtrees.
#[derive(Debug, Default, PartialEq, Eq, PartialOrd, Ord, Hash)]
pub struct Decomposition(pub Vec<Decomposition>);

impl Term for Decomposition {
    type Model = Tree;

    open spec fn model(&self) -> Tree
        decreases self,
    {
        Tree {
            children: Seq::new(
                self.0@.len(),
                |i: int|
                    if 0 <= i < self.0@.len() {
                        self.0@[i].model()
                    } else {
                        Tree { children: Seq::empty() }
                    },
            ),
        }
    }

    fn dup(&self) -> (copy: Self)
        decreases self,
    {
        let mut children: Vec<Decomposition> = Vec::with_capacity(self.0.len());
        let mut i: usize = 0;
        while i < self.0.len()
            invariant
                i <= self.0.len(),
                children.len() == i,
                forall|j: int| 0 <= j < i ==> children@[j].model() == self.0@[j].model(),
            decreases self.0.len() - i,
        {
            children.push(self.0[i].dup());
            i += 1;
        }
        let copy = Decomposition(children);
        assert(copy.model().children =~= self.model().children);
        copy
    }

    fn same(&self, other: &Self) -> (equal: bool)
        decreases self,
    {
        if self.0.len() != other.0.len() {
            assert(self.model().children.len() != other.model().children.len());
            return false;
        }
        let mut i: usize = 0;
        while i < self.0.len()
            invariant
                i <= self.0.len(),
                self.0.len() == other.0.len(),
                forall|j: int| 0 <= j < i ==> self.0@[j].model() == other.0@[j].model(),
            decreases self.0.len() - i,
        {
            if !self.0[i].same(&other.0[i]) {
                assert(self.model().children[i as int] != other.model().children[i as int]);
                return false;
            }
            i += 1;
        }
        assert(self.model().children =~= other.model().children);
        true
    }
}

impl Decomposition {
    /// The models of the subtrees of a decomposition are the subtrees of
    /// its model.
    pub proof fn lemma_children(self)
        ensures
            self.model().children == models(self.0@),
    {
        assert(self.model().children =~= models(self.0@));
    }

    /// The tree without subtrees.
    pub fn trivial() -> (leaf: Self)
        ensures
            leaf.model() == spec_trivial(),
    {
        let leaf = Decomposition(Vec::new());
        assert(leaf.model().children =~= Seq::<Tree>::empty());
        leaf
    }

    /// The tree with the given subtrees.
    pub fn of(children: Vec<Decomposition>) -> (tree: Self)
        ensures
            tree.model() == (Tree { children: models(children@) }),
    {
        let tree = Decomposition(children);
        proof {
            tree.lemma_children();
        }
        tree
    }
}

/// The tree without subtrees.
pub open spec fn spec_trivial() -> Tree {
    Tree { children: Seq::empty() }
}

/// The number of nodes of a tree, not counting its root.
pub open spec fn spec_nodes(tree: Tree) -> nat
    decreases tree, 0nat,
{
    spec_forest_nodes(tree.children, tree.children.len())
}

/// The number of nodes of the first `count` trees of a sequence.
pub open spec fn spec_forest_nodes(trees: Seq<Tree>, count: nat) -> nat
    decreases trees, count,
{
    if count == 0 || count > trees.len() {
        0
    } else {
        spec_forest_nodes(trees, (count - 1) as nat) + 1 + spec_nodes(trees[count - 1])
    }
}

/// The number of nodes of a tree, as a function.
pub open spec fn nodes_of() -> spec_fn(Tree) -> nat {
    |tree: Tree| spec_nodes(tree)
}

/// The weight of a sequence of trees, by their numbers of nodes, is the
/// number of nodes of the sequence.
pub proof fn lemma_forest_weight(trees: Seq<Tree>, count: nat)
    requires
        count <= trees.len(),
    ensures
        spec_weight(nodes_of(), trees.take(count as int)) == spec_forest_nodes(trees, count),
    decreases count,
{
    if count > 0 {
        lemma_forest_weight(trees, (count - 1) as nat);
        assert(trees.take(count as int).drop_last() =~= trees.take(count - 1));
    }
}

/// The number of nodes of a sequence of trees is its weight by their numbers
/// of nodes.
pub proof fn lemma_nodes_weight(trees: Seq<Tree>)
    ensures
        spec_weight(nodes_of(), trees) == spec_forest_nodes(trees, trees.len()),
{
    lemma_forest_weight(trees, trees.len());
    assert(trees.take(trees.len() as int) =~= trees);
}

impl Count for Decomposition {
    open spec fn spec_cardinality() -> Cardinality {
        Cardinality::Infinite
    }

    fn cardinality() -> (c: Cardinality) {
        Cardinality::Infinite
    }
}

/// The subtrees that a seed grows: while the seed says to recurse, the rest
/// of the budget is partitioned among one more subtree and the subtrees that
/// follow it.
pub open spec fn spec_grow_trees(seed: Seed) -> Seq<Tree>
    decreases seed.size,
{
    let (recurse, rest) = seed.spec_should_recurse();
    if recurse {
        proof {
            rest.lemma_partition(rest.size, 2);
        }
        let children = rest.spec_partition(rest.size, 2);
        seq![Tree { children: spec_grow_trees(children[0]) }] + spec_grow_trees(children[1])
    } else {
        Seq::empty()
    }
}

impl Conjure for Decomposition {
    open spec fn spec_conjure(seed: Seed) -> Result<Tree, Uninstantiable> {
        Ok(Tree { children: spec_grow_trees(seed) })
    }

    /// The tree without subtrees.
    open spec fn spec_leaf(seed: Seed) -> Result<Tree, Uninstantiable> {
        Ok(spec_trivial())
    }

    /// The tree without subtrees.
    open spec fn spec_corners() -> Seq<Tree> {
        seq![spec_trivial()]
    }

    /// A tree has one shape.
    open spec fn spec_variants() -> Seq<Cardinality> {
        seq![Cardinality::Infinite]
    }

    open spec fn spec_build(index: int, seed: Seed) -> Result<Tree, Uninstantiable> {
        if index == 0 {
            Self::spec_conjure(seed)
        } else {
            Err(Uninstantiable)
        }
    }

    fn conjure(seed: Seed) -> (made: Result<Self, Uninstantiable>)
        decreases seed.size,
    {
        let mut made: Vec<Decomposition> = Vec::new();
        let mut rest = seed;
        assert(models(made@) + spec_grow_trees(rest) =~= spec_grow_trees(seed));
        loop
            invariant
                rest.size <= seed.size,
                models(made@) + spec_grow_trees(rest) == spec_grow_trees(seed),
            decreases rest.size,
        {
            let ghost before = rest;
            if !rest.should_recurse() {
                assert(spec_grow_trees(before) =~= Seq::<Tree>::empty());
                assert(models(made@) + spec_grow_trees(before) =~= models(made@));
                return Ok(Decomposition::of(made));
            }
            proof {
                rest.lemma_partition(rest.size, 2);
            }
            let size = rest.size;
            let mut children = rest.partition_among(size, 2);
            let tail = children.pop().unwrap();
            let head = children.pop().unwrap();
            let item = match Decomposition::conjure(head) {
                Ok(item) => item,
                Err(error) => {
                    return Err(error);
                },
            };
            proof {
                crate::term::lemma_models_push(made@, item);
                assert(models(made@).push(item.model()) + spec_grow_trees(tail) =~= models(made@)
                    + spec_grow_trees(before));
            }
            made.push(item);
            rest = tail;
        }
    }

    fn leaf(seed: Seed) -> (made: Result<Self, Uninstantiable>) {
        Ok(Decomposition::trivial())
    }

    fn corners() -> (all: Vec<Self>) {
        let mut all: Vec<Decomposition> = Vec::new();
        all.push(Decomposition::trivial());
        assert(models(all@) =~= seq![spec_trivial()]);
        all
    }

    fn variants() -> (all: Vec<Cardinality>) {
        let mut all = Vec::new();
        all.push(Cardinality::Infinite);
        assert(all@ =~= seq![Cardinality::Infinite]);
        all
    }

    fn build(index: usize, seed: Seed) -> (made: Result<Self, Uninstantiable>) {
        if index == 0 {
            Self::conjure(seed)
        } else {
            Err(Uninstantiable)
        }
    }
}

/// Types whose values can be taken apart into a bare tree and put together
/// again.
pub trait Decompose: Term {
    /// The tree that stands for a value.
    spec fn spec_decompose(model: Self::Model) -> Tree;

    /// The value that a tree stands for. Data that no value needs is
    /// ignored.
    spec fn spec_recompose(tree: Tree) -> Option<Self::Model>;

    /// Taking a value apart and putting it together gives the value back.
    proof fn lemma_roundtrip(&self)
        ensures
            Self::spec_recompose(Self::spec_decompose(self.model())) == Some(self.model()),
    ;

    /// Decompose this value into a tree with no data at its nodes.
    fn decompose(&self) -> (tree: Decomposition)
        ensures
            tree.model() == Self::spec_decompose(self.model()),
    ;

    /// Make a value of this type from a tree with no data at its nodes.
    fn from_decomposition(d: &Decomposition) -> (made: Option<Self>)
        ensures
            stepped_model(made) == Self::spec_recompose(d.model()),
    ;
}

impl Decompose for Decomposition {
    open spec fn spec_decompose(model: Tree) -> Tree {
        model
    }

    open spec fn spec_recompose(tree: Tree) -> Option<Tree> {
        Some(tree)
    }

    proof fn lemma_roundtrip(&self) {
    }

    fn decompose(&self) -> (tree: Decomposition) {
        self.dup()
    }

    fn from_decomposition(d: &Decomposition) -> (made: Option<Self>) {
        Some(d.dup())
    }
}

/// Check that one value is what its decomposition stands for.
fn check_roundtrip_once<T: Decompose>(t: &T) -> (ok: bool)
    ensures
        ok,
{
    proof {
        t.lemma_roundtrip();
    }
    let decomposed = t.decompose();
    match T::from_decomposition(&decomposed) {
        Some(recomposed) => recomposed.same(t),
        None => false,
    }
}

/// The number of generated values that `check_roundtrip` checks.
pub const ROUNDTRIPS: usize = 100;

/// Check that every corner case of `T`, and a hundred generated values of
/// sizes from zero upwards, are what their decompositions stand for.
///
/// `T` must have values. The answer is always yes: this runs what the
/// contracts of `T` promise.
pub fn check_roundtrip<T: Conjure + Decompose>() -> (ok: bool)
    requires
        T::spec_cardinality() != Cardinality::Empty,
    ensures
        ok,
{
    let corners = T::corners();
    let mut i: usize = 0;
    while i < corners.len()
        invariant
            i <= corners.len(),
        decreases corners.len() - i,
    {
        if !check_roundtrip_once(&corners[i]) {
            return false;
        }
        i += 1;
    }
    let mut seed = Seed::new(0);
    let mut size: usize = 0;
    while size < ROUNDTRIPS
        invariant
            size <= ROUNDTRIPS,
            T::spec_cardinality() != Cardinality::Empty,
        decreases ROUNDTRIPS - size,
    {
        let state = seed.prng();
        match T::conjure(Seed { state, size }) {
            Ok(t) => {
                if !check_roundtrip_once(&t) {
                    return false;
                }
            },
            Err(_) => {
                return false;
            },
        }
        size += 1;
    }
    true
}

/// The siblings of a subtree: those before it and those after it.
pub struct Frame {
    /// The siblings before the subtree.
    pub before: Vec<Decomposition>,
    /// The siblings after the subtree.
    pub after: Vec<Decomposition>,
}

impl Frame {
    /// The models of the siblings before and after.
    pub open spec fn spec_siblings(self) -> (Seq<Tree>, Seq<Tree>) {
        (models(self.before@), models(self.after@))
    }
}

/// The siblings of every subtree on a path, the outermost first.
pub open spec fn spec_frames(frames: Seq<Frame>) -> Seq<(Seq<Tree>, Seq<Tree>)> {
    Seq::new(frames.len(), |i: int| frames[i].spec_siblings())
}

/// The outermost sequence of trees around `list`: at every frame, from the
/// innermost outwards, the sequence becomes the subtrees of one tree, which
/// is put between its siblings.
pub open spec fn spec_plug(frames: Seq<(Seq<Tree>, Seq<Tree>)>, list: Seq<Tree>) -> Seq<Tree>
    decreases frames.len(),
{
    if frames.len() == 0 {
        list
    } else {
        spec_plug(
            frames.drop_last(),
            frames.last().0 + seq![Tree { children: list }] + frames.last().1,
        )
    }
}

/// A property of the outermost sequence of trees, as a property of the
/// sequence inside the given frames.
pub open spec fn in_frames(
    meaning: spec_fn(Seq<Tree>) -> bool,
    frames: Seq<(Seq<Tree>, Seq<Tree>)>,
) -> spec_fn(Seq<Tree>) -> bool {
    |part: Seq<Tree>| meaning(spec_plug(frames, part))
}

/// What shrinking all the way down ends with, from a sequence of trees
/// inside the given frames and with the given number of levels still to
/// descend: the sequence is shrunk horizontally, and then the subtrees of
/// each tree that is left are shrunk in the same way, one level further
/// down.
pub open spec fn spec_vertical_in(
    frames: Seq<(Seq<Tree>, Seq<Tree>)>,
    list: Seq<Tree>,
    meaning: spec_fn(Seq<Tree>) -> bool,
    depth: nat,
) -> Seq<Tree>
    decreases depth, 1nat, 0nat,
{
    if depth == 0 {
        list
    } else {
        spec_descend(frames, spec_horizontal(list, in_frames(meaning, frames)), 0, meaning, depth)
    }
}

/// What shrinking the subtrees of the trees from `from` on ends with, each
/// in turn inside the trees as they are by then.
pub open spec fn spec_descend(
    frames: Seq<(Seq<Tree>, Seq<Tree>)>,
    acc: Seq<Tree>,
    from: int,
    meaning: spec_fn(Seq<Tree>) -> bool,
    depth: nat,
) -> Seq<Tree>
    decreases depth, 0nat, acc.len() - from,
{
    if depth == 0 || from < 0 || from >= acc.len() {
        acc
    } else {
        let deeper = frames.push((acc.subrange(0, from), acc.subrange(from + 1, acc.len() as int)));
        let child = spec_vertical_in(deeper, acc[from].children, meaning, (depth - 1) as nat);
        spec_descend(frames, acc.update(from, Tree { children: child }), from + 1, meaning, depth)
    }
}

/// What `shrink_vertical` ends with, from a sequence of trees: no tree is
/// deeper than it has nodes, so there are levels enough to reach every
/// node.
pub open spec fn spec_vertical(list: Seq<Tree>, meaning: spec_fn(Seq<Tree>) -> bool) -> Seq<Tree> {
    spec_vertical_in(Seq::empty(), list, meaning, spec_forest_nodes(list, list.len()))
}

/// Whether every answer of a property that takes its values whole is the
/// one that `meaning` gives for the model of the value asked about.
pub open spec fn agrees_by_value<T: Term, P: Fn(T) -> bool>(
    property: &P,
    meaning: spec_fn(T::Model) -> bool,
) -> bool {
    forall|term: T, answer: bool| #[trigger]
        property.ensures((term,), answer) ==> answer == meaning(term.model())
}

/// A property of the values of `T`, as a property of the sequences of trees
/// that are the subtrees of their decompositions: a sequence that stands for
/// no value passes.
pub open spec fn standing_for<T: Decompose>(meaning: spec_fn(T::Model) -> bool) -> spec_fn(
    Seq<Tree>,
) -> bool {
    |list: Seq<Tree>|
        match T::spec_recompose(Tree { children: list }) {
            None => true,
            Some(model) => meaning(model),
        }
}

/// Put a sequence of trees back into the frames it was taken from.
fn plug(frames: &Vec<Frame>, list: &Vec<Decomposition>) -> (whole: Vec<Decomposition>)
    ensures
        models(whole@) == spec_plug(spec_frames(frames@), models(list@)),
{
    let mut whole = dup_all(list.as_slice());
    let mut depth = frames.len();
    assert(spec_frames(frames@).take(depth as int) =~= spec_frames(frames@));
    while depth > 0
        invariant
            depth <= frames.len(),
            spec_plug(spec_frames(frames@).take(depth as int), models(whole@)) == spec_plug(
                spec_frames(frames@),
                models(list@),
            ),
        decreases depth,
    {
        proof {
            let outer = spec_frames(frames@).take(depth as int);
            assert(outer.drop_last() =~= spec_frames(frames@).take(depth - 1));
            assert(outer.last() == frames@[depth - 1].spec_siblings());
        }
        depth -= 1;
        let frame = &frames[depth];
        let mut around = dup_all(frame.before.as_slice());
        let inner = Decomposition::of(whole);
        proof {
            crate::term::lemma_models_push(around@, inner);
        }
        around.push(inner);
        let mut k: usize = 0;
        let ghost front = models(around@);
        while k < frame.after.len()
            invariant
                k <= frame.after.len(),
                models(around@) == front + models(frame.after@).take(k as int),
            decreases frame.after.len() - k,
        {
            let sibling = frame.after[k].dup();
            proof {
                crate::term::lemma_models_push(around@, sibling);
                assert(front + models(frame.after@).take(k + 1) =~= (front + models(
                    frame.after@,
                ).take(k as int)).push(sibling.model()));
            }
            around.push(sibling);
            k += 1;
        }
        proof {
            assert(models(frame.after@).take(k as int) =~= models(frame.after@));
            assert(models(around@) =~= models(frame.before@) + seq![inner.model()] + models(
                frame.after@,
            ));
        }
        whole = around;
    }
    proof {
        assert(spec_frames(frames@).take(0) =~= Seq::empty());
    }
    whole
}

/// Copy the frames of a path and add one more, innermost.
fn deepen(frames: &Vec<Frame>, before: Vec<Decomposition>, after: Vec<Decomposition>) -> (deeper:
    Vec<Frame>)
    ensures
        spec_frames(deeper@) == spec_frames(frames@).push((models(before@), models(after@))),
{
    let mut deeper: Vec<Frame> = Vec::with_capacity(frames.len());
    let mut i: usize = 0;
    while i < frames.len()
        invariant
            i <= frames.len(),
            deeper.len() == i,
            forall|j: int| 0 <= j < i ==> deeper@[j].spec_siblings() == frames@[j].spec_siblings(),
        decreases frames.len() - i,
    {
        let frame = &frames[i];
        deeper.push(
            Frame {
                before: dup_all(frame.before.as_slice()),
                after: dup_all(frame.after.as_slice()),
            },
        );
        i += 1;
    }
    deeper.push(Frame { before, after });
    assert(spec_frames(deeper@) =~= spec_frames(frames@).push((models(before@), models(after@))));
    deeper
}

/// Shrink a sequence of trees that stands inside the given frames: first
/// the sequence itself, horizontally, and then the subtrees of each tree that
/// is left, in the same way. The property is always asked about the
/// outermost sequence.
fn shrink_vertical_in<P: Fn(&Vec<Decomposition>) -> bool>(
    frames: &Vec<Frame>,
    list: &Vec<Decomposition>,
    property: &P,
) -> (kept: Vec<Decomposition>)
    requires
        total(property),
    ensures
        spec_forest_nodes(models(kept@), kept@.len()) <= spec_forest_nodes(
            models(list@),
            list@.len(),
        ),
        models(kept@) == models(list@) || holds(
            property,
            spec_plug(spec_frames(frames@), models(kept@)),
        ),
        forall|meaning: spec_fn(Seq<Tree>) -> bool, depth: nat|
            agrees(property, meaning) && depth >= spec_forest_nodes(models(list@), list@.len())
                ==> models(kept@) == #[trigger] spec_vertical_in(
                spec_frames(frames@),
                models(list@),
                meaning,
                depth,
            ),
    decreases spec_forest_nodes(models(list@), list@.len()),
{
    let ghost around = spec_frames(frames@);
    let ghost start = models(list@);
    let ghost budget = spec_forest_nodes(start, start.len());
    let plugged = |part: &Vec<Decomposition>| -> (answer: bool)
        ensures
            answers(property, spec_plug(spec_frames(frames@), models(part@)), answer),
        {
            let whole = plug(frames, part);
            property(&whole)
        };
    proof {
        assert forall|meaning: spec_fn(Seq<Tree>) -> bool| #[trigger]
            agrees(property, meaning) implies agrees(&plugged, in_frames(meaning, around)) by {}
    }
    let mut acc = shrink_horizontal(list, &plugged);
    proof {
        lemma_nodes_weight(models(acc@));
        lemma_nodes_weight(start);
        assert(spec_weight(nodes_of(), models(acc@)) + list.len() - acc.len() <= spec_weight(
            nodes_of(),
            start,
        ));
        if budget == 0 && list.len() > 0 {
            assert(spec_forest_nodes(start, start.len()) >= 1);
        }
        assert forall|meaning: spec_fn(Seq<Tree>) -> bool, depth: nat|
            agrees(property, meaning) && depth >= budget implies spec_descend(
            around,
            models(acc@),
            0,
            meaning,
            depth,
        ) == #[trigger] spec_vertical_in(around, start, meaning, depth) by {
            if depth == 0 {
                assert(models(acc@) =~= start);
            }
        }
    }
    let mut i: usize = 0;
    while i < acc.len()
        invariant
            total(property),
            around == spec_frames(frames@),
            start == models(list@),
            budget == spec_forest_nodes(start, start.len()),
            i <= acc.len(),
            spec_forest_nodes(models(acc@), acc@.len()) <= budget,
            models(acc@) == start || holds(property, spec_plug(around, models(acc@))),
            forall|meaning: spec_fn(Seq<Tree>) -> bool, depth: nat|
                agrees(property, meaning) && depth >= budget ==> spec_descend(
                    around,
                    models(acc@),
                    i as int,
                    meaning,
                    depth,
                ) == #[trigger] spec_vertical_in(around, start, meaning, depth),
        decreases acc.len() - i,
    {
        let before = dup_range(&acc, 0, i);
        let after = dup_range(&acc, i + 1, acc.len());
        let deeper = deepen(frames, before, after);
        let ghost old_acc = models(acc@);
        let ghost old_children = old_acc[i as int].children;
        proof {
            acc@[i as int].lemma_children();
            lemma_nodes_weight(old_acc);
            lemma_nodes_weight(old_children);
            lemma_weight_update(nodes_of(), old_acc, i as int, old_acc[i as int]);
            crate::impls::vec::lemma_weight_subrange(nodes_of(), old_acc, i as int, i + 1);
            let one = old_acc.subrange(i as int, i + 1);
            assert(one.drop_last() =~= Seq::<Tree>::empty());
            assert(spec_weight(nodes_of(), one.drop_last()) == 0);
            assert(one.last() == old_acc[i as int]);
        }
        let child = shrink_vertical_in(&deeper, &acc[i].0, property);
        let smaller = Decomposition::of(child);
        proof {
            lemma_weight_update(nodes_of(), old_acc, i as int, smaller.model());
            lemma_nodes_weight(smaller.model().children);
            assert(spec_frames(deeper@).drop_last() =~= around);
            assert(old_acc.subrange(0, i as int) + seq![smaller.model()] + old_acc.subrange(
                i + 1,
                old_acc.len() as int,
            ) =~= old_acc.update(i as int, smaller.model()));
            if smaller.model() == old_acc[i as int] {
                assert(old_acc.update(i as int, smaller.model()) =~= old_acc);
            }
            assert forall|meaning: spec_fn(Seq<Tree>) -> bool, depth: nat|
                agrees(property, meaning) && depth >= budget implies spec_descend(
                around,
                old_acc.update(i as int, smaller.model()),
                i + 1,
                meaning,
                depth,
            ) == #[trigger] spec_vertical_in(around, start, meaning, depth) by {
                assert(depth >= 1);
                assert(smaller.model().children == spec_vertical_in(
                    spec_frames(deeper@),
                    old_children,
                    meaning,
                    (depth - 1) as nat,
                ));
                assert(spec_descend(around, old_acc, i as int, meaning, depth) == spec_descend(
                    around,
                    old_acc.update(i as int, smaller.model()),
                    i + 1,
                    meaning,
                    depth,
                ));
            }
        }
        acc[i] = smaller;
        proof {
            assert(models(acc@) =~= old_acc.update(i as int, smaller.model()));
            lemma_nodes_weight(models(acc@));
        }
        i += 1;
    }
    acc
}

impl Decomposition {
    /// Narrow a sequence of trees to a minimal contiguous part that still
    /// passes the property, by a binary search from both ends.
    pub fn shrink_horizontal_contiguous<P: Fn(&Vec<Decomposition>) -> bool>(
        counterexample: &Vec<Decomposition>,
        property: &P,
    ) -> (part: Vec<Decomposition>)
        requires
            total(property),
        ensures
            part.len() <= counterexample.len(),
            models(part@) == models(counterexample@) || holds(property, models(part@)),
            forall|meaning: spec_fn(Seq<Tree>) -> bool| #[trigger]
                agrees(property, meaning) ==> models(part@) == models(counterexample@).subrange(
                    spec_contiguous(models(counterexample@), meaning).0,
                    spec_contiguous(models(counterexample@), meaning).1,
                ),
    {
        let (from, to) = shrink_contiguous(counterexample, property);
        proof {
            if from == 0 && to == counterexample.len() {
                assert(models(counterexample@).subrange(0, to as int) =~= models(
                    counterexample@,
                ));
            }
        }
        dup_range(counterexample, from, to)
    }

    /// Narrow a sequence of trees to a minimal contiguous part, then remove
    /// every single tree but the first that the rest passes without.
    pub fn shrink_horizontal<P: Fn(&Vec<Decomposition>) -> bool>(
        counterexample: &Vec<Decomposition>,
        property: &P,
    ) -> (kept: Vec<Decomposition>)
        requires
            total(property),
        ensures
            kept.len() <= counterexample.len(),
            models(kept@) == models(counterexample@) || holds(property, models(kept@)),
            forall|meaning: spec_fn(Seq<Tree>) -> bool| #[trigger]
                agrees(property, meaning) ==> models(kept@) == spec_horizontal(
                    models(counterexample@),
                    meaning,
                ),
    {
        shrink_horizontal(counterexample, property)
    }

    /// Shrink a sequence of trees horizontally, and then the subtrees of
    /// each tree that is left in the same way, all the way down. The answer
    /// is the tree that has what is left as its subtrees: it has no more
    /// nodes than there were, and passes the property unless nothing changed.
    pub fn shrink_vertical<P: Fn(&Vec<Decomposition>) -> bool>(
        counterexample: &Vec<Decomposition>,
        property: &P,
    ) -> (shrunk: Self)
        requires
            total(property),
        ensures
            spec_nodes(shrunk.model()) <= spec_forest_nodes(
                models(counterexample@),
                counterexample@.len(),
            ),
            shrunk.model().children == models(counterexample@) || holds(
                property,
                shrunk.model().children,
            ),
            forall|meaning: spec_fn(Seq<Tree>) -> bool| #[trigger]
                agrees(property, meaning) ==> shrunk.model().children == spec_vertical(
                    models(counterexample@),
                    meaning,
                ),
    {
        let frames: Vec<Frame> = Vec::new();
        proof {
            assert(spec_frames(frames@) =~= Seq::empty());
        }
        let kept = shrink_vertical_in(&frames, counterexample, property);
        proof {
            assert forall|meaning: spec_fn(Seq<Tree>) -> bool| #[trigger]
                agrees(property, meaning) implies models(kept@) == spec_vertical(
                models(counterexample@),
                meaning,
            ) by {
                assert(models(kept@) == spec_vertical_in(
                    spec_frames(frames@),
                    models(counterexample@),
                    meaning,
                    spec_forest_nodes(models(counterexample@), counterexample@.len()),
                ));
            }
        }
        Decomposition::of(kept)
    }

    /// Shrink the decomposition of a value of `T` for as long as the value
    /// that it stands for passes the property. A tree that stands for no
    /// value counts as passing.
    pub fn shrink<T: Decompose, P: Fn(T) -> bool>(counterexample: &Decomposition, property: P) -> (shrunk:
        Self)
        requires
            forall|t: T| #[trigger] property.requires((t,)),
        ensures
            spec_nodes(shrunk.model()) <= spec_nodes(counterexample.model()),
            shrunk.model() == counterexample.model() || stands_for_passing::<T, P>(
                &property,
                shrunk.model(),
            ),
            forall|meaning: spec_fn(T::Model) -> bool| #[trigger]
                agrees_by_value(&property, meaning) ==> shrunk.model().children == spec_vertical(
                    counterexample.model().children,
                    standing_for::<T>(meaning),
                ),
    {
        let asked = &property;
        let on_tree = |list: &Vec<Decomposition>| -> (answer: bool)
            ensures
                answer ==> stands_for_passing::<T, P>(asked, Tree { children: models(list@) }),
                match T::spec_recompose(Tree { children: models(list@) }) {
                    None => answer,
                    Some(model) => exists|term: T|
                        term.model() == model && #[trigger] asked.ensures((term,), answer),
                },
            {
                let tree = Decomposition::of(dup_all(list.as_slice()));
                match T::from_decomposition(&tree) {
                    None => true,
                    Some(t) => asked(t),
                }
            };
        proof {
            counterexample.lemma_children();
            assert forall|meaning: spec_fn(T::Model) -> bool| #[trigger]
                agrees_by_value(asked, meaning) implies agrees(
                &on_tree,
                standing_for::<T>(meaning),
            ) by {}
        }
        let shrunk = Self::shrink_vertical(&counterexample.0, &on_tree);
        proof {
            if shrunk.model().children != models(counterexample.0@) {
                let list = choose|list: Vec<Decomposition>|
                    list.model() == shrunk.model().children && #[trigger] on_tree.ensures(
                        (&list,),
                        true,
                    );
                assert(Tree { children: models(list@) } == shrunk.model());
            }
        }
        shrunk
    }
}

/// Whether a tree stands for no value of `T`, or for one on which the
/// property can answer `true`.
pub open spec fn stands_for_passing<T: Decompose, P: Fn(T) -> bool>(property: &P, tree: Tree) -> bool {
    T::spec_recompose(tree) is None || exists|t: T|
        Some(t.model()) == T::spec_recompose(tree) && #[trigger] property.ensures((t,), true)
}

} // verus!
