//! Decompositions of common types into bare trees.

use crate::decompose::{spec_trivial, Decompose, Decomposition, Tree};
use crate::shrink::stepped_model;
use crate::term::{array_from_vec, models, Term};
use vstd::prelude::*;

verus! {

/// The subtree at a place, or the tree without subtrees where there is
/// none: missing data reads as trivial.
pub open spec fn spec_child(tree: Tree, at: int) -> Tree {
    if 0 <= at < tree.children.len() {
        tree.children[at]
    } else {
        spec_trivial()
    }
}

/// A copy of the subtree at a place, or the tree without subtrees where
/// there is none.
pub fn child(d: &Decomposition, at: usize) -> (subtree: Decomposition)
    ensures
        subtree.model() == spec_child(d.model(), at as int),
{
    proof {
        d.lemma_children();
    }
    if at < d.0.len() {
        d.0[at].dup()
    } else {
        Decomposition::trivial()
    }
}

impl Decompose for bool {
    /// `false` is the tree without subtrees, and `true` the tree with one.
    open spec fn spec_decompose(model: bool) -> Tree {
        if model {
            Tree { children: seq![spec_trivial()] }
        } else {
            spec_trivial()
        }
    }

    open spec fn spec_recompose(tree: Tree) -> Option<bool> {
        Some(tree.children.len() > 0)
    }

    proof fn lemma_roundtrip(&self) {
    }

    fn decompose(&self) -> (tree: Decomposition) {
        let mut children: Vec<Decomposition> = Vec::new();
        if *self {
            children.push(Decomposition::trivial());
            assert(models(children@) =~= seq![spec_trivial()]);
        } else {
            assert(models(children@) =~= Seq::<Tree>::empty());
        }
        Decomposition::of(children)
    }

    fn from_decomposition(d: &Decomposition) -> (made: Option<Self>) {
        proof {
            d.lemma_children();
        }
        Some(d.0.len() > 0)
    }
}

impl Decompose for u8 {
    /// A number is the tree with that many subtrees, each without subtrees.
    open spec fn spec_decompose(model: u8) -> Tree {
        Tree { children: Seq::new(model as nat, |i: int| spec_trivial()) }
    }

    /// A tree is the number of its subtrees, or the greatest number if it
    /// has more.
    open spec fn spec_recompose(tree: Tree) -> Option<u8> {
        if tree.children.len() > u8::MAX {
            Some(u8::MAX)
        } else {
            Some(tree.children.len() as u8)
        }
    }

    proof fn lemma_roundtrip(&self) {
    }

    fn decompose(&self) -> (tree: Decomposition) {
        let mut children: Vec<Decomposition> = Vec::with_capacity(*self as usize);
        let mut i: u8 = 0;
        while i < *self
            invariant
                i <= *self,
                children.len() == i,
                forall|j: int| 0 <= j < i ==> children@[j].model() == spec_trivial(),
            decreases *self - i,
        {
            children.push(Decomposition::trivial());
            i += 1;
        }
        assert(models(children@) =~= Seq::new(*self as nat, |i: int| spec_trivial()));
        Decomposition::of(children)
    }

    fn from_decomposition(d: &Decomposition) -> (made: Option<Self>) {
        proof {
            d.lemma_children();
        }
        if d.0.len() > 255 {
            Some(255)
        } else {
            Some(d.0.len() as u8)
        }
    }
}

/// The values that the first `count` subtrees of a tree stand for, where
/// missing subtrees read as trivial; `None` if one of them stands for no
/// value.
pub open spec fn spec_recompose_all<T: Decompose>(tree: Tree, count: nat) -> Option<Seq<T::Model>>
    decreases count,
{
    if count == 0 {
        Some(Seq::empty())
    } else {
        match spec_recompose_all::<T>(tree, (count - 1) as nat) {
            None => None,
            Some(front) => match T::spec_recompose(spec_child(tree, count - 1)) {
                None => None,
                Some(last) => Some(front.push(last)),
            },
        }
    }
}

/// The tree whose subtrees stand for the items of a sequence.
pub open spec fn spec_decompose_all<T: Decompose>(items: Seq<T::Model>) -> Tree {
    Tree { children: Seq::new(items.len(), |i: int| T::spec_decompose(items[i])) }
}

/// The tree of a sequence stands for the sequence.
pub proof fn lemma_roundtrip_all<T: Decompose>(items: Seq<T>, count: nat)
    requires
        count <= items.len(),
    ensures
        spec_recompose_all::<T>(spec_decompose_all::<T>(models(items)), count) == Some(
            models(items).take(count as int),
        ),
    decreases count,
{
    if count == 0 {
        assert(models(items).take(0) =~= Seq::<T::Model>::empty());
    } else {
        lemma_roundtrip_all::<T>(items, (count - 1) as nat);
        items[count - 1].lemma_roundtrip();
        assert(models(items).take(count - 1).push(models(items)[count - 1]) =~= models(
            items,
        ).take(count as int));
    }
}

/// The tree whose subtrees stand for the items of a sequence.
pub fn decompose_all<T: Decompose>(items: &[T]) -> (tree: Decomposition)
    ensures
        tree.model() == spec_decompose_all::<T>(models(items@)),
{
    let mut children: Vec<Decomposition> = Vec::with_capacity(items.len());
    let mut i: usize = 0;
    while i < items.len()
        invariant
            i <= items.len(),
            children.len() == i,
            forall|j: int|
                0 <= j < i ==> children@[j].model() == T::spec_decompose(items@[j].model()),
        decreases items.len() - i,
    {
        children.push(items[i].decompose());
        i += 1;
    }
    assert(models(children@) =~= spec_decompose_all::<T>(models(items@)).children);
    Decomposition::of(children)
}

/// The values that the first `count` subtrees of a tree stand for, where
/// missing subtrees read as trivial.
pub fn recompose_all<T: Decompose>(d: &Decomposition, count: usize) -> (made: Option<Vec<T>>)
    ensures
        stepped_model(made) == spec_recompose_all::<T>(d.model(), count as nat),
        made matches Some(items) ==> items.len() == count,
{
    let mut items: Vec<T> = Vec::with_capacity(count);
    let mut i: usize = 0;
    assert(models(items@) =~= Seq::<T::Model>::empty());
    while i < count
        invariant
            i <= count,
            items.len() == i,
            spec_recompose_all::<T>(d.model(), i as nat) == Some(models(items@)),
        decreases count - i,
    {
        let subtree = child(d, i);
        match T::from_decomposition(&subtree) {
            None => {
                proof {
                    lemma_recompose_all_fails::<T>(d.model(), (i + 1) as nat, count as nat);
                }
                return None;
            },
            Some(item) => {
                proof {
                    crate::term::lemma_models_push(items@, item);
                }
                items.push(item);
            },
        }
        i += 1;
    }
    Some(items)
}

/// Once some subtree stands for no value, no longer run of subtrees stands
/// for values.
pub proof fn lemma_recompose_all_fails<T: Decompose>(tree: Tree, failed: nat, count: nat)
    requires
        failed <= count,
        spec_recompose_all::<T>(tree, failed) is None,
    ensures
        spec_recompose_all::<T>(tree, count) is None,
    decreases count,
{
    if failed < count {
        lemma_recompose_all_fails::<T>(tree, failed, (count - 1) as nat);
    }
}

impl<T: Decompose> Decompose for Vec<T> {
    /// A vector is the tree whose subtrees stand for its items.
    open spec fn spec_decompose(model: Seq<T::Model>) -> Tree {
        spec_decompose_all::<T>(model)
    }

    /// A tree is the vector of the values that its subtrees stand for.
    open spec fn spec_recompose(tree: Tree) -> Option<Seq<T::Model>> {
        spec_recompose_all::<T>(tree, tree.children.len())
    }

    proof fn lemma_roundtrip(&self) {
        lemma_roundtrip_all::<T>(self@, self@.len());
        assert(self.model().take(self@.len() as int) =~= self.model());
    }

    fn decompose(&self) -> (tree: Decomposition) {
        decompose_all(self.as_slice())
    }

    fn from_decomposition(d: &Decomposition) -> (made: Option<Self>) {
        proof {
            d.lemma_children();
        }
        recompose_all::<T>(d, d.0.len())
    }
}

impl<T: Decompose, const N: usize> Decompose for [T; N] {
    /// An array is the tree whose subtrees stand for its items.
    open spec fn spec_decompose(model: Seq<T::Model>) -> Tree {
        spec_decompose_all::<T>(model)
    }

    /// A tree is the array of the values that its first `N` subtrees stand
    /// for, where missing subtrees read as trivial.
    open spec fn spec_recompose(tree: Tree) -> Option<Seq<T::Model>> {
        spec_recompose_all::<T>(tree, N as nat)
    }

    proof fn lemma_roundtrip(&self) {
        lemma_roundtrip_all::<T>(self@, N as nat);
        assert(self.model().take(N as int) =~= self.model());
    }

    fn decompose(&self) -> (tree: Decomposition) {
        decompose_all(self.as_slice())
    }

    fn from_decomposition(d: &Decomposition) -> (made: Option<Self>) {
        match recompose_all::<T>(d, N) {
            None => None,
            Some(items) => Some(array_from_vec(items)),
        }
    }
}

impl<A: Decompose, B: Decompose> Decompose for (A, B) {
    /// A pair is the tree with two subtrees, one for each component.
    open spec fn spec_decompose(model: (A::Model, B::Model)) -> Tree {
        Tree { children: seq![A::spec_decompose(model.0), B::spec_decompose(model.1)] }
    }

    /// A tree is the pair of the values that its first two subtrees stand
    /// for, where missing subtrees read as trivial.
    open spec fn spec_recompose(tree: Tree) -> Option<(A::Model, B::Model)> {
        match A::spec_recompose(spec_child(tree, 0)) {
            None => None,
            Some(a) => match B::spec_recompose(spec_child(tree, 1)) {
                None => None,
                Some(b) => Some((a, b)),
            },
        }
    }

    proof fn lemma_roundtrip(&self) {
        self.0.lemma_roundtrip();
        self.1.lemma_roundtrip();
    }

    fn decompose(&self) -> (tree: Decomposition) {
        let mut children: Vec<Decomposition> = Vec::with_capacity(2);
        children.push(self.0.decompose());
        children.push(self.1.decompose());
        assert(models(children@) =~= seq![
            A::spec_decompose(self.0.model()),
            B::spec_decompose(self.1.model()),
        ]);
        Decomposition::of(children)
    }

    fn from_decomposition(d: &Decomposition) -> (made: Option<Self>) {
        let a = match A::from_decomposition(&child(d, 0)) {
            Some(a) => a,
            None => {
                return None;
            },
        };
        let b = match B::from_decomposition(&child(d, 1)) {
            Some(b) => b,
            None => {
                return None;
            },
        };
        Some((a, b))
    }
}

impl<T: Decompose, E: Decompose> Decompose for Result<T, E> {
    /// A result is the tree with two subtrees: the first says whether it is
    /// an error, and the second stands for what is inside.
    open spec fn spec_decompose(model: Result<T::Model, E::Model>) -> Tree {
        match model {
            Ok(ok) => Tree {
                children: seq![<bool as Decompose>::spec_decompose(false), T::spec_decompose(ok)],
            },
            Err(err) => Tree {
                children: seq![<bool as Decompose>::spec_decompose(true), E::spec_decompose(err)],
            },
        }
    }

    open spec fn spec_recompose(tree: Tree) -> Option<Result<T::Model, E::Model>> {
        if spec_child(tree, 0).children.len() > 0 {
            match E::spec_recompose(spec_child(tree, 1)) {
                None => None,
                Some(err) => Some(Err(err)),
            }
        } else {
            match T::spec_recompose(spec_child(tree, 1)) {
                None => None,
                Some(ok) => Some(Ok(ok)),
            }
        }
    }

    proof fn lemma_roundtrip(&self) {
        match self {
            Ok(ok) => ok.lemma_roundtrip(),
            Err(err) => err.lemma_roundtrip(),
        }
    }

    fn decompose(&self) -> (tree: Decomposition) {
        let mut children: Vec<Decomposition> = Vec::with_capacity(2);
        match self {
            Ok(ok) => {
                children.push(false.decompose());
                children.push(ok.decompose());
                assert(models(children@) =~= seq![
                    <bool as Decompose>::spec_decompose(false),
                    T::spec_decompose(ok.model()),
                ]);
            },
            Err(err) => {
                children.push(true.decompose());
                children.push(err.decompose());
                assert(models(children@) =~= seq![
                    <bool as Decompose>::spec_decompose(true),
                    E::spec_decompose(err.model()),
                ]);
            },
        }
        Decomposition::of(children)
    }

    fn from_decomposition(d: &Decomposition) -> (made: Option<Self>) {
        let error = match <bool as Decompose>::from_decomposition(&child(d, 0)) {
            Some(error) => error,
            None => {
                return None;
            },
        };
        let inside = child(d, 1);
        if error {
            match E::from_decomposition(&inside) {
                Some(err) => Some(Err(err)),
                None => None,
            }
        } else {
            match T::from_decomposition(&inside) {
                Some(ok) => Some(Ok(ok)),
                None => None,
            }
        }
    }
}

} // verus!
