use pbt::samples::{Pair, Peano, Void, Wrapper};
use pbt::{witness, NotFound};

#[test]
fn void() {
    let result = witness(|_v: &Void| true);
    assert_eq!(result, Err(NotFound));
}

#[test]
fn ge_ten() {
    let found = witness(|p: &Peano| *p >= 10);
    let ten = {
        let mut acc = Peano::O;
        for _ in 0..10 {
            acc = Peano::S(Box::new(acc));
        }
        acc
    };
    assert_eq!(found, Ok(ten));
}

#[test]
fn ge_42() {
    let found = witness(|p: &Peano| *p >= 42);
    let forty_two = {
        let mut acc = Peano::O;
        for _ in 0..42 {
            acc = Peano::S(Box::new(acc));
        }
        acc
    };
    assert_eq!(found, Ok(forty_two));
}

#[test]
fn wrapper_ge_42() {
    let found = witness(|p: &Wrapper<Peano>| p.0 >= 42);
    let forty_two = {
        let mut acc = Peano::O;
        for _ in 0..42 {
            acc = Peano::S(Box::new(acc));
        }
        Wrapper(acc)
    };
    assert_eq!(found, Ok(forty_two));
}

#[test]
fn ordered_pair() {
    let counterexample = witness(|p: &Pair| p.0 > p.1);
    let minimal = Pair(Peano::S(Box::new(Peano::O)), Peano::O);
    assert_eq!(counterexample, Ok(minimal));
}

#[test]
fn u8_at_least_42() {
    let found = witness(|u: &u8| *u >= 42);
    assert_eq!(found, Ok(42));
}

#[test]
fn vec_of_three() {
    let found = witness(|v: &Vec<i8>| v.len() >= 3);
    assert_eq!(found, Ok(vec![0, 0, 0]));
}

#[test]
fn witness_is_deterministic() {
    let sum_at_least = |v: &Vec<(u8, Option<i16>)>| v.iter().map(|p| p.0 as u32).sum::<u32>() >= 300;
    let first = witness(sum_at_least);
    let second = witness(sum_at_least);
    assert!(first.is_ok());
    assert_eq!(first, second);
    assert_eq!(witness(|p: &Peano| p.at_least(5)), witness(|p: &Peano| p.at_least(5)));
}

#[test]
fn witness_gives_up_after_all_trials() {
    let asked = std::cell::Cell::new(0_usize);
    let found = witness(|_: &u8| {
        asked.set(asked.get() + 1);
        false
    });
    assert_eq!(found, Err(NotFound));
    assert_eq!(asked.get(), pbt::witness::TRIALS);
    assert_eq!(pbt::witness::TRIALS, 1000);
}

#[test]
fn witness_is_minimal() {
    let found = witness(|p: &(u8, u8)| p.0 >= 3 && p.1 >= 200).unwrap();
    assert_eq!(found, (3, 200));
    let longer = witness(|v: &Vec<bool>| v.iter().filter(|b| **b).count() >= 2).unwrap();
    assert_eq!(longer, vec![true, true]);
}

#[test]
fn witness_tries_the_zero_budget_first() {
    assert_eq!(witness(|v: &Vec<u8>| v.is_empty()), Ok(vec![]));
    assert_eq!(witness(|_: &()| true), Ok(()));
    assert_eq!(witness(|b: &bool| !*b), Ok(false));
}
