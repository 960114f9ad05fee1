use pbt::conjure::{
    conjure_by_variants, internal_nodes, leaf_by_variants, leaves, variants, Conjure, Uninstantiable,
};
use pbt::count::{Cardinality, Count};
use pbt::impls::arrays::power;
use pbt::impls::result::side;
use pbt::impls::vec::item_seeds;
use pbt::samples::{Pair, Peano, Void, Wrapper};
use pbt::seed::Seed;

#[test]
fn unit_corners() {
    let corners: Vec<()> = <() as ::pbt::conjure::Conjure>::corners();
    assert_eq!(corners, vec![()]);
}

#[test]
fn bool_corners() {
    assert_eq!(bool::corners(), vec![false, true]);
}

#[test]
fn integer_corners() {
    assert_eq!(i8::corners(), vec![0, 1, i8::MAX, i8::MIN, -1]);
    assert_eq!(u8::corners(), vec![0, 1, 127, 128, 255]);
    assert_eq!(i64::corners(), vec![0, 1, i64::MAX, i64::MIN, -1]);
    assert_eq!(u16::corners(), vec![0, 1, 32767, 32768, 65535]);
}

#[test]
fn option_corners_start_with_none() {
    assert_eq!(<Option<bool>>::corners(), vec![None, Some(false), Some(true)]);
}

#[test]
fn result_corners_are_oks_then_errs() {
    assert_eq!(
        <Result<bool, ()>>::corners(),
        vec![Ok(false), Ok(true), Err(())]
    );
}

#[test]
fn pair_corners_vary_the_first_component_slowest() {
    assert_eq!(
        <(bool, bool)>::corners(),
        vec![(false, false), (false, true), (true, false), (true, true)]
    );
}

#[test]
fn vec_corners_are_empty_then_singletons() {
    assert_eq!(<Vec<bool>>::corners(), vec![vec![], vec![false], vec![true]]);
}

#[test]
fn array_corners_vary_the_first_item_slowest() {
    assert_eq!(
        <[bool; 2]>::corners(),
        vec![[false, false], [false, true], [true, false], [true, true]]
    );
    assert_eq!(<[bool; 1]>::corners(), vec![[false], [true]]);
    assert_eq!(<[u8; 3]>::corners().len(), 125);
    assert_eq!(<[u8; 3]>::corners()[7], [0, 1, 127]);
    assert_eq!(<[(); 4]>::corners(), vec![[(), (), (), ()]]);
}

#[test]
fn array_without_items_has_one_corner() {
    assert_eq!(<[bool; 0]>::corners(), vec![[]]);
    assert_eq!(<[Void; 0]>::corners(), vec![[]]);
}

#[test]
fn array_of_the_empty_type_has_no_corners() {
    assert_eq!(<[Void; 2]>::corners(), Vec::<[Void; 2]>::new());
}

#[test]
fn power_lists_every_sequence_of_the_items() {
    assert_eq!(
        power(&vec![1_u8, 2], 3),
        vec![
            vec![1, 1, 1],
            vec![1, 1, 2],
            vec![1, 2, 1],
            vec![1, 2, 2],
            vec![2, 1, 1],
            vec![2, 1, 2],
            vec![2, 2, 1],
            vec![2, 2, 2]
        ]
    );
    assert_eq!(power(&vec![1_u8, 2], 0), vec![Vec::<u8>::new()]);
    assert_eq!(power(&Vec::<u8>::new(), 2), Vec::<Vec<u8>>::new());
}

#[test]
fn empty_type_is_never_conjured() {
    for size in 0..50 {
        assert_eq!(Void::conjure(Seed::new(size)), Err(Uninstantiable));
        assert_eq!(Void::leaf(Seed::new(size)), Err(Uninstantiable));
        assert_eq!(<(u8, Void)>::conjure(Seed::new(size)), Err(Uninstantiable));
        assert_eq!(<[Void; 2]>::conjure(Seed::new(size)), Err(Uninstantiable));
        assert_eq!(<Result<Void, Void>>::leaf(Seed::new(size)), Err(Uninstantiable));
        assert_eq!(<Box<Void>>::conjure(Seed::new(size)), Err(Uninstantiable));
    }
    assert!(matches!(Void::cardinality(), Cardinality::Empty));
    assert!(matches!(<(u8, Void)>::cardinality(), Cardinality::Empty));
    assert!(matches!(<Result<Void, Void>>::cardinality(), Cardinality::Empty));
}

#[test]
fn instantiable_types_are_always_conjured() {
    for size in 0..50 {
        assert!(u8::conjure(Seed::new(size)).is_ok());
        assert!(i64::leaf(Seed::new(size)).is_ok());
        assert!(<Option<Void>>::conjure(Seed::new(size)).is_ok());
        assert!(<Vec<Void>>::conjure(Seed::new(size)).is_ok());
        assert!(<Result<Void, u8>>::conjure(Seed::new(size)).is_ok());
        assert!(<[Void; 0]>::conjure(Seed::new(size)).is_ok());
        assert!(<[u8; 3]>::leaf(Seed::new(size)).is_ok());
        assert!(Peano::conjure(Seed::new(size)).is_ok());
        assert!(Pair::leaf(Seed::new(size)).is_ok());
    }
    assert!(matches!(<Option<Void>>::cardinality(), Cardinality::Finite));
    assert!(matches!(<Vec<Void>>::cardinality(), Cardinality::Finite));
    assert!(matches!(<[Void; 0]>::cardinality(), Cardinality::Finite));
    assert!(matches!(<Vec<u8>>::cardinality(), Cardinality::Infinite));
    assert!(matches!(Peano::cardinality(), Cardinality::Infinite));
}

#[test]
fn conjure_is_deterministic() {
    for size in 0..30 {
        assert_eq!(
            <Vec<(u8, Option<i16>)>>::conjure(Seed::new(size)),
            <Vec<(u8, Option<i16>)>>::conjure(Seed::new(size))
        );
        assert_eq!(Peano::conjure(Seed::new(size)), Peano::conjure(Seed::new(size)));
    }
}

#[test]
fn integers_take_the_low_bits_of_the_first_draw() {
    assert_eq!(u64::conjure(Seed::new(0)), Ok(4307845124001111442));
    assert_eq!(u8::conjure(Seed::new(0)), Ok(146));
    assert_eq!(i8::conjure(Seed::new(0)), Ok(146_u8 as i8));
    assert_eq!(u16::leaf(Seed::new(7)), Ok(4307845124001111442_u64 as u16));
    assert_eq!(bool::conjure(Seed::new(0)), Ok(false));
}

#[test]
fn vector_of_empty_type_is_empty() {
    assert_eq!(<Vec<Void>>::conjure(Seed::new(100)).map(|v| v.len()), Ok(0));
}

#[test]
fn zero_budget_makes_leaves() {
    assert_eq!(<Vec<u8>>::conjure(Seed::new(0)), Ok(vec![]));
    assert_eq!(Peano::conjure(Seed::new(0)), Ok(Peano::O));
    assert_eq!(<Vec<u8>>::leaf(Seed::new(9)), Ok(vec![]));
}

#[test]
fn budget_bounds_the_number_of_internal_nodes() {
    for size in 0..200 {
        let made = <Vec<u8>>::conjure(Seed::new(size)).unwrap();
        assert!(made.len() <= size);
        let deep = Peano::conjure(Seed::new(size)).unwrap();
        assert!(!deep.at_least(size + 1));
    }
}

#[test]
fn variants_are_partitioned_by_cardinality() {
    assert_eq!(<Option<Vec<u8>>>::variants().len(), 2);
    assert_eq!(internal_nodes::<Option<Vec<u8>>>(), vec![1]);
    assert_eq!(leaves::<Option<Vec<u8>>>(), vec![0]);
    assert_eq!(leaves::<Option<u8>>(), vec![0, 1]);
    assert_eq!(internal_nodes::<Option<u8>>(), Vec::<usize>::new());
    assert_eq!(leaves::<Result<Void, u8>>(), vec![1]);
    let peano = variants::<Peano>();
    assert_eq!(peano.internal_nodes, vec![1]);
    assert_eq!(peano.leaves, vec![0]);
    let void = variants::<Void>();
    assert!(void.internal_nodes.is_empty() && void.leaves.is_empty());
}

#[test]
fn dispatch_by_variants_agrees_with_peano() {
    for size in 0..50 {
        assert_eq!(
            conjure_by_variants::<Peano>(Seed::new(size)),
            Peano::conjure(Seed::new(size))
        );
        assert_eq!(leaf_by_variants::<Peano>(Seed::new(size)), Ok(Peano::O));
    }
    assert_eq!(leaf_by_variants::<Void>(Seed::new(3)), Err(Uninstantiable));
    assert_eq!(conjure_by_variants::<Void>(Seed::new(3)), Err(Uninstantiable));
}

#[test]
fn build_makes_the_chosen_alternative() {
    assert_eq!(<Option<u8>>::build(0, Seed::new(5)), Ok(None));
    assert!(matches!(<Option<u8>>::build(1, Seed::new(5)), Ok(Some(_))));
    assert!(matches!(<Result<u8, bool>>::build(0, Seed::new(5)), Ok(Ok(_))));
    assert!(matches!(<Result<u8, bool>>::build(1, Seed::new(5)), Ok(Err(_))));
    assert_eq!(Peano::build(0, Seed::new(5)), Ok(Peano::O));
    assert!(Peano::build(1, Seed::new(5)).unwrap() >= 1);
    assert_eq!(u8::build(0, Seed::new(0)), Ok(146));
}

#[test]
fn build_fails_without_an_alternative_or_on_an_empty_one() {
    assert_eq!(Void::build(0, Seed::new(5)), Err(Uninstantiable));
    assert_eq!(<Option<Void>>::build(1, Seed::new(5)), Err(Uninstantiable));
    assert_eq!(<Option<u8>>::build(2, Seed::new(5)), Err(Uninstantiable));
    assert_eq!(<Result<Void, u8>>::build(0, Seed::new(5)), Err(Uninstantiable));
    assert_eq!(Peano::build(2, Seed::new(5)), Err(Uninstantiable));
    assert_eq!(u8::build(1, Seed::new(5)), Err(Uninstantiable));
    assert_eq!(<(u8, Void)>::build(0, Seed::new(5)), Err(Uninstantiable));
}

#[test]
fn wrapper_conjures_its_field() {
    assert!(<Wrapper<u8>>::conjure(Seed::new(3)).is_ok());
    assert_eq!(<Wrapper<Void>>::conjure(Seed::new(3)), Err(Uninstantiable));
}

#[test]
fn triple_corners_vary_the_last_component_fastest() {
    assert_eq!(
        <(bool, (), bool)>::corners(),
        vec![
            (false, (), false),
            (false, (), true),
            (true, (), false),
            (true, (), true)
        ]
    );
    assert_eq!(<(bool,)>::corners(), vec![(false,), (true,)]);
    assert_eq!(<(bool, Void)>::corners(), vec![]);
}

#[test]
fn tuples_partition_the_budget() {
    for size in 0..50 {
        let (a, b, c) = <(Vec<u8>, Vec<u8>, Vec<u8>)>::conjure(Seed::new(size)).unwrap();
        assert!(a.len() + b.len() + c.len() <= size);
        let (only,) = <(Vec<u8>,)>::conjure(Seed::new(size)).unwrap();
        assert!(only.len() <= size);
        assert_eq!(
            <(u8, u8, Void)>::conjure(Seed::new(size)),
            Err(Uninstantiable)
        );
        assert_eq!(<(Void,)>::leaf(Seed::new(size)), Err(Uninstantiable));
    }
    assert!(matches!(<(u8, u8, Void)>::cardinality(), Cardinality::Empty));
    assert!(matches!(<(u8, Vec<u8>, u8)>::cardinality(), Cardinality::Infinite));
    assert!(matches!(<(u8,)>::cardinality(), Cardinality::Finite));
}

#[test]
fn vector_items_are_what_the_item_seeds_generate() {
    for size in 0..60 {
        let seeds = item_seeds(Seed::new(size));
        let expected: Vec<u16> = seeds.into_iter().map(|s| u16::conjure(s).unwrap()).collect();
        assert_eq!(<Vec<u16>>::conjure(Seed::new(size)), Ok(expected));
        let budgets: usize = item_seeds(Seed::new(size)).iter().map(|s| s.size + 1).sum();
        assert!(budgets <= size);
    }
    assert_eq!(item_seeds(Seed::new(0)).len(), 0);
    // A seed of size 3 recurses twice: see the draws in the seed tests.
    let seeds = item_seeds(Seed::new(3));
    assert!(seeds.len() >= 1);
    assert!(seeds[0].size <= 2);
}

#[test]
fn side_is_the_only_instantiable_one_or_a_coin_flip() {
    assert!(side::<Void, Void>(Seed::new(0)).is_none());
    let (error, rest) = side::<Void, u8>(Seed::new(4)).unwrap();
    assert!(error && rest.state == Seed::new(4).state);
    let (error, rest) = side::<u8, Void>(Seed::new(4)).unwrap();
    assert!(!error && rest.state == Seed::new(4).state);
    // The first number drawn is even: `Ok`.
    let (error, rest) = side::<u8, u8>(Seed::new(4)).unwrap();
    assert!(!error);
    assert_eq!(rest.state, 16629002949357873518);
    assert!(matches!(<Result<u8, u8>>::conjure(Seed::new(4)), Ok(Ok(_))));
}

#[test]
fn seeds_are_conjured_exactly() {
    let made = Seed::conjure(Seed { state: 7, size: 9 }).unwrap();
    assert_eq!((made.state, made.size), (7, 9));
    let corners = Seed::corners();
    assert_eq!(corners.len(), 25);
    assert_eq!((corners[0].state, corners[0].size), (0, 0));
    assert_eq!((corners[6].state, corners[6].size), (1, 1));
    assert_eq!(
        (corners[24].state, corners[24].size),
        (u64::MAX, usize::MAX)
    );
    let leaf = Seed::leaf(Seed::new(5)).unwrap();
    assert_eq!(leaf.state, u64::conjure(Seed { state: 4307845124001111442, size: 0 }).unwrap());
    assert!(matches!(Seed::cardinality(), Cardinality::Finite));
    assert_eq!(usize::corners(), vec![0, 1, usize::MAX / 2, usize::MAX / 2 + 1, usize::MAX]);
    assert_eq!(usize::conjure(Seed::new(0)), Ok(4307845124001111442_u64 as usize));
}

#[test]
fn wide_tuples_partition_the_budget_and_combine_corners() {
    for size in 0..40 {
        let made = <(Vec<u8>, Vec<u8>, Vec<u8>, Vec<u8>)>::conjure(Seed::new(size)).unwrap();
        assert!(made.0.len() + made.1.len() + made.2.len() + made.3.len() <= size);
        let ten = <(u8, bool, (), i8, u16, Vec<u8>, Option<u8>, i64, u32, bool)>::conjure(
            Seed::new(size),
        )
        .unwrap();
        assert!(ten.5.len() <= size);
        assert_eq!(
            <(u8, u8, u8, Void, u8)>::conjure(Seed::new(size)),
            Err(Uninstantiable)
        );
        assert_eq!(
            <(u8, u8, u8, u8, u8, u8, Void)>::leaf(Seed::new(size)),
            Err(Uninstantiable)
        );
    }
    assert_eq!(
        <(bool, (), (), bool)>::corners(),
        vec![
            (false, (), (), false),
            (false, (), (), true),
            (true, (), (), false),
            (true, (), (), true)
        ]
    );
    assert_eq!(<(bool, bool, bool, bool, bool)>::corners().len(), 32);
    assert_eq!(
        <(bool, bool, bool, bool, bool)>::corners()[5],
        (false, false, true, false, true)
    );
    assert!(matches!(
        <(u8, u8, u8, u8, u8, u8, u8, u8, Vec<u8>, u8)>::cardinality(),
        Cardinality::Infinite
    ));
    assert!(matches!(<(u8, u8, u8, Void)>::cardinality(), Cardinality::Empty));
}
