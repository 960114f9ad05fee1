use pbt::conjure::Conjure;
use pbt::impls::vec::{dup_range, shrink_contiguous, shrink_horizontal, shrink_in_place};
use pbt::samples::{Pair, Peano, Wrapper};
use pbt::seed::Seed;
use pbt::shrink::{minimal, Shrink};
use pbt::term::{dup_all, same_all, Term};

#[test]
fn bool_steps_to_false() {
    assert_eq!(true.step(&|_: &bool| true), Some(false));
    assert_eq!(true.step(&|b: &bool| *b), None);
    assert_eq!(false.step(&|_: &bool| true), None);
}

#[test]
fn unit_has_no_step() {
    assert_eq!(().step(&|_: &()| true), None);
}

#[test]
fn unsigned_ladder_takes_the_first_candidate_that_passes() {
    // From 100 the candidates are 0, 50, 75, 88, 94, 97, 99.
    assert_eq!(100_u8.step(&|_: &u8| true), Some(0));
    assert_eq!(100_u8.step(&|u: &u8| *u >= 42), Some(50));
    assert_eq!(100_u8.step(&|u: &u8| *u >= 76), Some(88));
    assert_eq!(100_u8.step(&|u: &u8| *u >= 98), Some(99));
    assert_eq!(100_u8.step(&|u: &u8| *u >= 100), None);
    assert_eq!(0_u8.step(&|_: &u8| true), None);
    assert_eq!(u64::MAX.step(&|u: &u64| *u > 0), Some(u64::MAX - u64::MAX / 2));
}

#[test]
fn ladder_asks_in_order() {
    let asked = std::cell::RefCell::new(vec![]);
    let _ = 100_u16.step(&|u: &u16| {
        asked.borrow_mut().push(*u);
        false
    });
    assert_eq!(asked.into_inner(), vec![0, 50, 75, 88, 94, 97, 99]);
}

#[test]
fn signed_tries_the_negation_first() {
    assert_eq!((-5_i8).step(&|i: &i8| *i != 0), Some(5));
    assert_eq!((-5_i8).step(&|i: &i8| *i < 0), Some(-3));
    assert_eq!(5_i8.step(&|i: &i8| *i >= 5), None);
    assert_eq!(i8::MIN.step(&|_: &i8| true), Some(0));
    assert_eq!(i8::MIN.step(&|i: &i8| *i < -100), Some(-112));
    assert_eq!((-1_i64).step(&|i: &i64| *i < 0), None);
}

#[test]
fn minimal_reaches_the_threshold() {
    let mut seed = Seed::new(0);
    for _ in 0..1000 {
        let mut least = seed.prng() as u8;
        let mut greater = seed.prng() as u8;
        if least > greater {
            std::mem::swap(&mut least, &mut greater);
        }
        let shrunk = minimal(&greater, |i: &u8| *i >= least);
        assert_eq!(least, shrunk, "{greater:?} should have shrunk to {least:?}");
    }
}

#[test]
fn minimal_reaches_the_threshold_of_wider_integers() {
    let mut seed = Seed::new(0);
    for _ in 0..200 {
        let (a, b) = (seed.prng(), seed.prng());
        let (least, greater) = if a <= b { (a, b) } else { (b, a) };
        assert_eq!(minimal(&greater, |i: &u64| *i >= least), least);
        let (least, greater) = (least as u32 as u64 as u32, greater as u32);
        let (least, greater) = if least <= greater { (least, greater) } else { (greater, least) };
        assert_eq!(minimal(&greater, |i: &u32| *i >= least), least);
        let (least, greater) = ((a >> 49) as i16, (b >> 49) as i16);
        let (least, greater) = if least <= greater { (least, greater) } else { (greater, least) };
        assert_eq!(minimal(&greater, |i: &i16| *i >= least), least);
    }
}

#[test]
fn minimal_passes_and_has_no_step_left() {
    let mut seed = Seed::new(0);
    for size in 0..100 {
        let start = <Vec<(u8, i8)>>::conjure(Seed { state: seed.prng(), size }).unwrap();
        let property = |v: &Vec<(u8, i8)>| v.iter().map(|p| p.0 as usize).sum::<usize>() >= 40;
        let least = minimal(&start, property);
        if property(&start) {
            assert!(property(&least));
        }
        assert_eq!(least.step(&property), None);
        assert_eq!(minimal(&least, property), least);
    }
}

#[test]
fn minimal_of_a_value_that_does_not_pass_is_the_value() {
    assert_eq!(minimal(&5_u8, |_: &u8| false), 5);
}

#[test]
fn vector_shrink_is_idempotent() {
    let property = |v: &Vec<u8>| v.iter().filter(|u| **u >= 10).count() >= 2;
    let start = vec![3, 200, 4, 11, 0, 90, 17];
    let once = minimal(&start, property);
    assert_eq!(once, vec![10, 10]);
    assert_eq!(minimal(&once, property), once);
    assert_eq!(once.step(&property), None);
}

#[test]
fn vector_narrows_then_removes_then_shrinks_in_place() {
    let start = vec![1_u8, 2, 3, 42, 101, 102, 103, 42, 201, 202, 203];
    assert_eq!(start.step(&|v: &Vec<u8>| v.contains(&42)), Some(vec![42]));
    assert_eq!(
        start.step(&|v: &Vec<u8>| v.contains(&3) && v.contains(&201)),
        Some(vec![3, 201])
    );
    assert_eq!(start.step(&|v: &Vec<u8>| v.len() >= 11), Some(vec![0; 11]));
    assert_eq!(start.step(&|v: &Vec<u8>| *v == start), None);
    assert_eq!(Vec::<u8>::new().step(&|_: &Vec<u8>| true), None);
}

#[test]
fn contiguous_part_is_found_by_halving_jumps() {
    let whole: Vec<u8> = (0..10).collect();
    assert_eq!(shrink_contiguous(&whole, &|v: &Vec<u8>| v.contains(&6)), (6, 7));
    assert_eq!(shrink_contiguous(&whole, &|_: &Vec<u8>| false), (0, 10));
    assert_eq!(shrink_contiguous(&whole, &|_: &Vec<u8>| true), (8, 8));
    assert_eq!(
        shrink_contiguous(&whole, &|v: &Vec<u8>| v.contains(&2) && v.contains(&5)),
        (2, 6)
    );
    assert_eq!(shrink_contiguous(&Vec::<u8>::new(), &|_: &Vec<u8>| true), (0, 0));
}

#[test]
fn first_item_is_never_removed_alone() {
    let whole = vec![9_u8, 1, 9];
    let never_shorter_than_two_nines = |v: &Vec<u8>| v.iter().filter(|u| **u == 9).count() >= 2;
    assert_eq!(shrink_horizontal(&whole, &never_shorter_than_two_nines), vec![9, 9]);
    let second_only = |v: &Vec<u8>| v.last() == Some(&7);
    assert_eq!(shrink_horizontal(&vec![5_u8, 6, 7], &second_only), vec![7]);
}

#[test]
fn in_place_shrinking_reports_changes() {
    let (swept, changed) = shrink_in_place(vec![5_u8, 0, 9], &|v: &Vec<u8>| v[0] + v[2] >= 6);
    assert_eq!(swept, vec![0, 0, 7]);
    assert!(changed);
    let (same, changed) = shrink_in_place(vec![5_u8, 0, 9], &|_: &Vec<u8>| false);
    assert_eq!(same, vec![5, 0, 9]);
    assert!(!changed);
}

#[test]
fn pair_shrinks_the_first_then_the_second() {
    assert_eq!((100_u8, 100_u8).step(&|_: &(u8, u8)| true), Some((0, 0)));
    assert_eq!((100_u8, 100_u8).step(&|p: &(u8, u8)| p.0 == 100), Some((100, 0)));
    assert_eq!((100_u8, 100_u8).step(&|p: &(u8, u8)| p.1 == 100), Some((0, 100)));
    assert_eq!((100_u8, 100_u8).step(&|p: &(u8, u8)| *p == (100, 100)), None);
    assert_eq!(
        minimal(&(200_u8, 100_u8), |p: &(u8, u8)| p.0 as u16 + p.1 as u16 >= 150),
        (100, 50)
    );
}

#[test]
fn option_shrinks_in_place() {
    assert_eq!(Some(100_u8).step(&|_: &Option<u8>| true), Some(Some(0)));
    assert_eq!(None::<u8>.step(&|_: &Option<u8>| true), None);
    assert_eq!(Some(0_u8).step(&|_: &Option<u8>| true), None);
}

#[test]
fn result_shrinks_in_place() {
    assert_eq!(Ok::<u8, bool>(9).step(&|_: &Result<u8, bool>| true), Some(Ok(0)));
    assert_eq!(Err::<u8, bool>(true).step(&|_: &Result<u8, bool>| true), Some(Err(false)));
    assert_eq!(Err::<u8, bool>(false).step(&|_: &Result<u8, bool>| true), None);
}

#[test]
fn box_shrinks_as_its_content() {
    assert_eq!(Box::new(100_u8).step(&|b: &Box<u8>| **b >= 42), Some(Box::new(50)));
}

#[test]
fn array_shrinks_each_item_once() {
    assert_eq!([100_u8, 100, 100].step(&|_: &[u8; 3]| true), Some([0, 0, 0]));
    assert_eq!([100_u8, 7].step(&|a: &[u8; 2]| a[0] >= 60), Some([75, 0]));
    assert_eq!([0_u8, 0].step(&|_: &[u8; 2]| true), None);
    assert_eq!(<[u8; 0]>::step(&[], &|_: &[u8; 0]| true), None);
}

#[test]
fn peano_steps_to_the_least_number_that_passes() {
    let seven = Peano::from_usize(7);
    assert_eq!(seven.step(&|p: &Peano| p.at_least(3)), Some(Peano::from_usize(3)));
    assert_eq!(seven.step(&|_: &Peano| true), Some(Peano::O));
    assert_eq!(seven.step(&|p: &Peano| p.at_least(7)), None);
    assert_eq!(Peano::O.step(&|_: &Peano| true), None);
    assert!(Peano::from_usize(3).at_least(3) && !Peano::from_usize(3).at_least(4));
}

#[test]
fn structs_shrink_as_their_fields() {
    let pair = Pair(Peano::from_usize(4), Peano::from_usize(6));
    assert_eq!(
        pair.step(&|p: &Pair| p.1.at_least(2)),
        Some(Pair(Peano::O, Peano::from_usize(2)))
    );
    assert_eq!(
        Wrapper(100_u8).step(&|w: &Wrapper<u8>| w.0 >= 42),
        Some(Wrapper(50))
    );
}

#[test]
fn copies_and_comparisons_are_exact() {
    let nested = vec![Some((1_u8, vec![Ok::<i8, bool>(-3)])), None];
    assert_eq!(nested.dup(), nested);
    assert!(nested.same(&nested.dup()));
    assert!(!nested.same(&vec![None]));
    assert!(!Some(1_u8).same(&Some(2)));
    assert!([1_u8, 2].same(&[1_u8, 2].dup()));
    assert!(!Box::new(1_u8).same(&Box::new(2)));
    assert!(!(1_u8, 2_u8, 3_u8).same(&(1, 2, 4)));
    assert_eq!((7_u8,).dup(), (7,));
    assert!(Peano::from_usize(3).same(&Peano::from_usize(3).dup()));
    assert!(!Peano::from_usize(3).same(&Peano::from_usize(2)));
    assert_eq!(dup_all(&[1_u8, 2, 3]), vec![1, 2, 3]);
    assert!(same_all(&[1_u8, 2], &[1, 2]) && !same_all(&[1_u8, 2], &[1]));
    assert_eq!(dup_range(&vec![1_u8, 2, 3, 4], 1, 3), vec![2, 3]);
}

#[test]
fn one_tuple_shrinks_as_its_component() {
    assert_eq!((100_u8,).step(&|t: &(u8,)| t.0 >= 42), Some((50,)));
    assert_eq!((0_u8,).step(&|_: &(u8,)| true), None);
}

#[test]
fn triple_shrinks_the_first_then_the_rest() {
    assert_eq!(
        (100_u8, true, 100_u8).step(&|_: &(u8, bool, u8)| true),
        Some((0, false, 0))
    );
    assert_eq!(
        (100_u8, true, 100_u8).step(&|t: &(u8, bool, u8)| t.0 == 100 && t.1),
        Some((100, true, 0))
    );
    assert_eq!(
        (100_u8, true, 100_u8).step(&|t: &(u8, bool, u8)| *t == (100, true, 100)),
        None
    );
    assert_eq!(
        minimal(&(9_u8, 9_u8, 9_u8), |t: &(u8, u8, u8)| t.0 + t.1 + t.2 >= 20),
        (5, 7, 8)
    );
}

#[test]
fn peano_compares_with_machine_integers() {
    let three = Peano::from_usize(3);
    assert!(three.equals(3) && !three.equals(2) && !three.equals(4));
    assert!(Peano::O.equals(0) && !Peano::O.equals(1));
    assert!(three.at_least(0) && three.at_least(3) && !three.at_least(4));
    assert!(three == 3 && three != 4 && three >= 3 && three > 2 && three < 4 && three <= 3);
    assert!(!(three > 3) && !(three < 3) && Peano::O < 1 && Peano::O <= 0);
    assert!(Peano::from_usize(2) < Peano::from_usize(3));
}

#[test]
fn wide_tuples_shrink_the_first_then_the_rest() {
    assert_eq!(
        (9_u8, true, 9_u8, 9_u8).step(&|_: &(u8, bool, u8, u8)| true),
        Some((0, false, 0, 0))
    );
    assert_eq!(
        (9_u8, true, 9_u8, 9_u8).step(&|t: &(u8, bool, u8, u8)| t.0 == 9 && t.2 == 9),
        Some((9, false, 9, 0))
    );
    assert_eq!(
        (1_u8, 1_u8, 1_u8, 1_u8, 1_u8, 1_u8, 1_u8, 1_u8, 1_u8, 1_u8)
            .step(&|t: &(u8, u8, u8, u8, u8, u8, u8, u8, u8, u8)| t.9 == 1),
        Some((0, 0, 0, 0, 0, 0, 0, 0, 0, 1))
    );
    assert_eq!(
        (0_u8, false, 0_u8, 0_u8, 0_u8).step(&|_: &(u8, bool, u8, u8, u8)| true),
        None
    );
    assert_eq!(
        minimal(&(200_u8, 200_u8, 200_u8, 200_u8), |t: &(u8, u8, u8, u8)| {
            t.0 as u32 + t.1 as u32 + t.2 as u32 + t.3 as u32 >= 100
        }),
        (0, 0, 0, 100)
    );
    assert!((1_u8, 2_u8, 3_u8, 4_u8).same(&(1, 2, 3, 4).dup()));
    assert!(!(1_u8, 2_u8, 3_u8, 4_u8).same(&(1, 2, 3, 5)));
}
