use pbt::seed::{seeds, Seed};

#[test]
fn prng_follows_the_generator() {
    let mut seed = Seed::new(0);
    assert_eq!(seed.state, 13371337133713371337);
    assert_eq!(seed.prng(), 4307845124001111442);
    assert_eq!(seed.state, 16629002949357873518);
    assert_eq!(seed.prng(), 13468402419539315666);
    assert_eq!(seed.prng(), 12205397237430806800);
    assert_eq!(seed.prng(), 10589603763825426137);
    assert_eq!(seed.state, 7955256322581828445);
}

#[test]
fn prng_from_other_states() {
    let mut zero = Seed { state: 0, size: 0 };
    assert_eq!(zero.prng(), 11116517241604665558);
    assert_eq!(zero.state, 3257665815644502181);
    let mut other = Seed { state: 123, size: 0 };
    assert_eq!(other.prng(), 14454209769343133693);
    assert_eq!(other.state, 3257665815644502304);
}

#[test]
fn prng_bool_is_the_lowest_bit() {
    let mut seed = Seed::new(0);
    assert!(!seed.prng_bool());
    assert!(!seed.prng_bool());
    assert!(!seed.prng_bool());
    assert!(seed.prng_bool());
}

#[test]
fn prng_below_and_upto_are_remainders() {
    let mut seed = Seed::new(0);
    assert_eq!(seed.prng_below(256), 146);
    assert_eq!(seed.prng_upto(255), 210);
    assert_eq!(seed.prng_upto(usize::MAX), 12205397237430806800_u64 as usize);
    assert_eq!(seed.prng_below(1), 0);
}

#[test]
fn default_seed_has_no_budget() {
    let seed = Seed::default();
    assert_eq!(seed.size, 0);
    assert_eq!(seed.state, Seed::new(0).state);
}

#[test]
fn partition_sums_to_the_size() {
    for size in 0..200_usize {
        let one = Seed::new(size).partition::<1>(size);
        assert_eq!(one[0].size, size);
        let two = Seed::new(size).partition::<2>(size);
        assert_eq!(two.iter().map(|s| s.size).sum::<usize>(), size);
        let five = Seed::new(size).partition::<5>(size);
        assert_eq!(five.iter().map(|s| s.size).sum::<usize>(), size);
        let many = Seed::new(0).partition_among(size, 17);
        assert_eq!(many.len(), 17);
        assert_eq!(many.iter().map(|s| s.size).sum::<usize>(), size);
    }
}

#[test]
fn partition_of_the_greatest_size() {
    let parts = Seed::new(0).partition::<3>(usize::MAX);
    let mut sum = 0_usize;
    for part in parts.iter() {
        sum = sum.checked_add(part.size).unwrap();
    }
    assert_eq!(sum, usize::MAX);
}

#[test]
fn partition_into_no_parts() {
    let parts = Seed::new(5).partition::<0>(5);
    assert_eq!(parts.len(), 0);
}

#[test]
fn partition_cuts_at_the_drawn_points() {
    // One cut point, 4307845124001111442 % 11 == 2: the parts are 10 - 2 and 2 - 0.
    let parts = Seed::new(0).partition::<2>(10);
    assert_eq!(4307845124001111442_u64 % 11, 2);
    assert_eq!(parts[0].size, 8);
    assert_eq!(parts[1].size, 2);
    assert_eq!(parts[0].state, 13468402419539315666);
    assert_eq!(parts[1].state, 12205397237430806800);
}

#[test]
fn split_gives_fresh_states_without_budget() {
    let children = Seed::new(9).split::<3>();
    assert_eq!(children[0].state, 4307845124001111442);
    assert_eq!(children[1].state, 13468402419539315666);
    assert_eq!(children[2].state, 12205397237430806800);
    assert!(children.iter().all(|child| child.size == 0));
    assert_eq!(Seed::new(9).split_among(0).len(), 0);
}

#[test]
fn should_recurse_never_recurses_without_budget() {
    let mut seed = Seed::new(0);
    for _ in 0..100 {
        assert!(!seed.should_recurse());
        assert_eq!(seed.size, 0);
    }
}

#[test]
fn should_recurse_reserves_one_unit() {
    // 4307845124001111442 % 4 == 2, so a seed of size 3 recurses.
    let mut seed = Seed::new(3);
    assert!(seed.should_recurse());
    assert_eq!(seed.size, 2);
    // 13468402419539315666 % 3 == 2 and 12205397237430806800 % 2 == 0.
    assert!(seed.should_recurse());
    assert_eq!(seed.size, 1);
    assert!(!seed.should_recurse());
    assert_eq!(seed.size, 1);
}

#[test]
fn should_recurse_at_the_greatest_size() {
    let mut seed = Seed::new(usize::MAX);
    let state = seed.state;
    assert!(seed.should_recurse());
    assert_eq!(seed.size, usize::MAX - 1);
    assert_eq!(seed.state, state);
}

#[test]
fn seeds_grow_by_one() {
    let mut supply = seeds();
    for size in 0..1000 {
        let seed = supply.next().unwrap();
        assert_eq!(seed.size, size);
    }
}

#[test]
fn seeds_end_where_the_size_cannot_grow() {
    let mut supply = seeds();
    supply.0.size = usize::MAX;
    assert!(supply.next().is_none());
}

#[test]
fn stream_uses_up_the_budget() {
    let mut stream = Seed::new(100).stream();
    let mut left = 100;
    for _ in 0..50 {
        let child = stream.next();
        assert!(child.size <= left);
        left -= child.size;
        assert_eq!(stream.0.size, left);
    }
    let mut empty = Seed::new(0).stream();
    assert_eq!(empty.next().size, 0);
    assert_eq!(empty.next().state, 13468402419539315666);
}
