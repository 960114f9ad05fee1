use pbt::either::Either;
use pbt::iter::{
    collect, pairs, AutoReload, Cache, CartesianProduct, Fuse, Items, RemoveDuplicates, Source,
};

#[test]
fn fuse_does_not_repeat() {
    let mut iter = Fuse::new(0..3_u8);
    assert_eq!(iter.next(), Some(0));
    assert_eq!(iter.next(), Some(1));
    assert_eq!(iter.next(), Some(2));
    assert_eq!(iter.next(), None);
    assert_eq!(iter.next(), None);
    assert_eq!(iter.next(), None);
}

#[test]
fn auto_reload_repeats() {
    let mut iter = AutoReload::new(|| 0..3_u8);
    assert_eq!(iter.next(), Some(0));
    assert_eq!(iter.next(), Some(1));
    assert_eq!(iter.next(), Some(2));
    assert_eq!(iter.next(), None);
    assert_eq!(iter.next(), Some(0));
    assert_eq!(iter.next(), Some(1));
    assert_eq!(iter.next(), Some(2));
    assert_eq!(iter.next(), None);
    assert_eq!(iter.next(), Some(0));
    assert_eq!(iter.next(), Some(1));
    assert_eq!(iter.next(), Some(2));
    assert_eq!(iter.next(), None);
}

#[test]
fn cartesian_product_does_not_repeat() {
    let mut iter = CartesianProduct::new(0..3_u8, || 0..3_u8);
    assert_eq!(iter.next(), Some((0, 0)));
    assert_eq!(iter.next(), Some((0, 1)));
    assert_eq!(iter.next(), Some((0, 2)));
    assert_eq!(iter.next(), Some((1, 0)));
    assert_eq!(iter.next(), Some((1, 1)));
    assert_eq!(iter.next(), Some((1, 2)));
    assert_eq!(iter.next(), Some((2, 0)));
    assert_eq!(iter.next(), Some((2, 1)));
    assert_eq!(iter.next(), Some((2, 2)));
    assert_eq!(iter.next(), None);
    assert_eq!(iter.next(), None); // <-- This is the real test!
    assert_eq!(iter.next(), None);
}

#[test]
fn cartesian_triple() {
    let mut iter = CartesianProduct::new(0..3_u8, || CartesianProduct::new(0..3_u8, || 0..3_u8));

    assert_eq!(iter.next(), Some((0, (0, 0))));
    assert_eq!(iter.next(), Some((0, (0, 1))));
    assert_eq!(iter.next(), Some((0, (0, 2))));
    assert_eq!(iter.next(), Some((0, (1, 0))));
    assert_eq!(iter.next(), Some((0, (1, 1))));
    assert_eq!(iter.next(), Some((0, (1, 2))));
    assert_eq!(iter.next(), Some((0, (2, 0))));
    assert_eq!(iter.next(), Some((0, (2, 1))));
    assert_eq!(iter.next(), Some((0, (2, 2))));
    assert_eq!(iter.next(), Some((1, (0, 0))));
    assert_eq!(iter.next(), Some((1, (0, 1))));
    assert_eq!(iter.next(), Some((1, (0, 2))));
    assert_eq!(iter.next(), Some((1, (1, 0))));
    assert_eq!(iter.next(), Some((1, (1, 1))));
    assert_eq!(iter.next(), Some((1, (1, 2))));
    assert_eq!(iter.next(), Some((1, (2, 0))));
    assert_eq!(iter.next(), Some((1, (2, 1))));
    assert_eq!(iter.next(), Some((1, (2, 2))));
    assert_eq!(iter.next(), Some((2, (0, 0))));
    assert_eq!(iter.next(), Some((2, (0, 1))));
    assert_eq!(iter.next(), Some((2, (0, 2))));
    assert_eq!(iter.next(), Some((2, (1, 0))));
    assert_eq!(iter.next(), Some((2, (1, 1))));
    assert_eq!(iter.next(), Some((2, (1, 2))));
    assert_eq!(iter.next(), Some((2, (2, 0))));
    assert_eq!(iter.next(), Some((2, (2, 1))));
    assert_eq!(iter.next(), Some((2, (2, 2))));
    assert_eq!(iter.next(), None);
    assert_eq!(iter.next(), None);
    assert_eq!(iter.next(), None);
}

#[test]
fn remove_duplicates_12345() {
    let unfiltered = [1, 2, 1, 3, 2, 4, 3, 1, 4, 1, 5, 2_u8];
    let iter = RemoveDuplicates::new(Items::new(unfiltered.to_vec()));
    assert_eq!(iter.collect(), vec![1, 2, 3, 4, 5]);
}

#[test]
fn cache_repeats_until_cleared() {
    let mut iter = Cache::new(0..2_u8);
    assert_eq!(iter.next(), Some(0));
    assert_eq!(iter.next(), Some(0));
    iter.clear();
    assert_eq!(iter.next(), Some(1));
    assert_eq!(iter.next(), Some(1));
    iter.clear();
    assert_eq!(iter.next(), None);
    assert_eq!(iter.next(), None);
}

#[test]
fn fuse_reloads_when_inactive() {
    let mut iter = Fuse::new(0..1_u8);
    assert_eq!(iter.next(), Some(0));
    assert_eq!(iter.next(), None);
    iter.reload(5..7_u8);
    assert_eq!(iter.next(), Some(5));
    assert_eq!(iter.next(), Some(6));
    assert_eq!(iter.next(), None);
}

#[test]
fn cartesian_product_with_empty_rows() {
    let mut iter = CartesianProduct::new(0..3_u8, || 0..0_u8);
    assert_eq!(iter.next(), None);
    assert_eq!(iter.next(), None);
}

#[test]
fn collect_hands_out_every_item() {
    assert_eq!(collect(Fuse::new(Items::new(vec![7_u8, 8, 9]))), vec![7, 8, 9]);
}

#[test]
fn pairs_are_what_a_product_hands_out() {
    let firsts = vec![1_u8, 2, 3];
    let seconds = vec![true, false];
    let mut product = CartesianProduct::new(Items::new(firsts.clone()), || {
        Items::new(vec![true, false])
    });
    let mut handed = vec![];
    while let Some(pair) = product.next() {
        handed.push(pair);
    }
    assert_eq!(pairs(&firsts, &seconds), handed);
    assert_eq!(
        handed,
        vec![(1, true), (1, false), (2, true), (2, false), (3, true), (3, false)]
    );
    assert_eq!(pairs(&firsts, &Vec::<bool>::new()), vec![]);
    assert_eq!(pairs(&Vec::<u8>::new(), &seconds), vec![]);
}

#[test]
fn either_runs_the_source_it_holds() {
    let mut left: Either<std::ops::Range<u8>, Items<u8>> = Either::A(0..2);
    assert_eq!(left.next(), Some(0));
    assert_eq!(left.next(), Some(1));
    assert_eq!(left.next(), None);
    let right: Either<std::ops::Range<u8>, Items<u8>> = Either::B(Items::new(vec![9, 8]));
    assert_eq!(collect(right), vec![9, 8]);
}

#[test]
fn remove_duplicates_is_itself_a_source() {
    let mut iter = RemoveDuplicates::new(Items::new(vec![1_u8, 1, 2, 1]));
    assert_eq!(iter.next(), Some(1));
    assert_eq!(iter.next(), Some(2));
    assert_eq!(iter.next(), None);
    assert_eq!(iter.next(), None);
}

#[test]
fn auto_reload_calls_the_factory_lazily() {
    let calls = std::cell::Cell::new(0_usize);
    let mut iter = AutoReload::new(|| {
        calls.set(calls.get() + 1);
        0..2_u8
    });
    assert_eq!(calls.get(), 0);
    assert_eq!(iter.next(), Some(0));
    assert_eq!(calls.get(), 1);
    assert_eq!(iter.next(), Some(1));
    assert_eq!(iter.next(), None);
    assert_eq!(calls.get(), 1);
    assert_eq!(iter.next(), Some(0));
    assert_eq!(calls.get(), 2);
}

#[test]
fn auto_reload_of_an_empty_source_starts_with_none() {
    let calls = std::cell::Cell::new(0_usize);
    let mut iter = AutoReload::new(|| {
        calls.set(calls.get() + 1);
        0..0_u8
    });
    assert_eq!(calls.get(), 0);
    assert_eq!(iter.next(), None);
    assert_eq!(calls.get(), 1);
    assert_eq!(iter.next(), None);
    assert_eq!(calls.get(), 2);
}

#[test]
fn cartesian_product_computes_nothing_before_next() {
    let calls = std::cell::Cell::new(0_usize);
    let mut iter = CartesianProduct::new(0..2_u8, || {
        calls.set(calls.get() + 1);
        0..2_u8
    });
    assert_eq!(calls.get(), 0);
    assert_eq!(iter.next(), Some((0, 0)));
    assert_eq!(calls.get(), 1);
    assert_eq!(iter.next(), Some((0, 1)));
    assert_eq!(calls.get(), 1);
    assert_eq!(iter.next(), Some((1, 0)));
    assert_eq!(calls.get(), 2);
    assert_eq!(iter.next(), Some((1, 1)));
    assert_eq!(iter.next(), None);
    assert_eq!(calls.get(), 2);
}

#[test]
fn cartesian_product_of_no_first_components_never_calls_the_factory() {
    let calls = std::cell::Cell::new(0_usize);
    let mut iter = CartesianProduct::new(0..0_u8, || {
        calls.set(calls.get() + 1);
        0..2_u8
    });
    assert_eq!(iter.next(), None);
    assert_eq!(iter.next(), None);
    assert_eq!(calls.get(), 0);
}
