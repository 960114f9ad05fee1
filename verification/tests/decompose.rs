use pbt::decompose::{check_roundtrip, Decompose, Decomposition};

#[test]
fn decompose_decomposition_roundtrip() {
    assert!(check_roundtrip::<Decomposition>());
}

#[test]
fn arrays_decomposition_roundtrip() {
    assert!(check_roundtrip::<[Vec<u8>; 3]>());
}

#[test]
fn result_decomposition_roundtrip() {
    assert!(check_roundtrip::<Result<Vec<u8>, Vec<u8>>>());
}

#[test]
fn tuples_decomposition_roundtrip() {
    assert!(check_roundtrip::<(Vec<u8>, Vec<u8>)>());
}

#[test]
fn vec_decomposition_roundtrip() {
    assert!(check_roundtrip::<Vec<Vec<u8>>>());
}

#[test]
fn shrink_list_contains_42() {
    type T = Vec<u8>;
    let property = |list: T| list.contains(&42);
    let counterexample: T = vec![1, 2, 3, 42, 101, 102, 103, 42, 201, 202, 203];
    let decomposed = counterexample.decompose();
    let shrunk = Decomposition::shrink(&decomposed, property);
    let recomposed = T::from_decomposition(&shrunk).unwrap();
    assert_eq!(vec![42], recomposed);
}

#[test]
fn shrink_list_contains_gt_42() {
    type T = Vec<u8>;
    let property = |list: T| list.iter().any(|&u| u >= 42);
    let counterexample: T = vec![1, 2, 3, 101, 102, 103, 201, 202, 203];
    let decomposed = counterexample.decompose();
    let shrunk = Decomposition::shrink(&decomposed, property);
    let recomposed = T::from_decomposition(&shrunk).unwrap();
    assert_eq!(vec![42], recomposed);
}

#[test]
fn decompositions_of_scalars() {
    assert_eq!(false.decompose(), Decomposition(vec![]));
    assert_eq!(true.decompose(), Decomposition(vec![Decomposition(vec![])]));
    assert_eq!(3_u8.decompose().0.len(), 3);
    assert_eq!(u8::from_decomposition(&Decomposition(vec![])), Some(0));
    assert_eq!(u8::from_decomposition(&255_u8.decompose()), Some(255));
    let wide = Decomposition((0..300).map(|_| Decomposition(vec![])).collect());
    assert_eq!(u8::from_decomposition(&wide), Some(255));
}

#[test]
fn missing_subtrees_read_as_trivial() {
    assert_eq!(
        <(u8, bool)>::from_decomposition(&Decomposition(vec![])),
        Some((0, false))
    );
    assert_eq!(
        <[u8; 2]>::from_decomposition(&Decomposition(vec![2_u8.decompose()])),
        Some([2, 0])
    );
    assert_eq!(
        <Result<u8, u8>>::from_decomposition(&Decomposition(vec![])),
        Some(Ok(0))
    );
    assert_eq!(
        <Result<u8, u8>>::from_decomposition(&Err::<u8, u8>(4).decompose()),
        Some(Err(4))
    );
}

#[test]
fn horizontal_shrinking_keeps_what_is_needed() {
    let trees: Vec<Decomposition> = (0..9_u8).map(|n| n.decompose()).collect();
    let has_five = |list: &Vec<Decomposition>| list.iter().any(|tree| tree.0.len() == 5);
    assert_eq!(
        Decomposition::shrink_horizontal_contiguous(&trees, &has_five),
        vec![5_u8.decompose()]
    );
    let has_two_and_six = |list: &Vec<Decomposition>| {
        list.iter().any(|tree| tree.0.len() == 2) && list.iter().any(|tree| tree.0.len() == 6)
    };
    assert_eq!(
        Decomposition::shrink_horizontal(&trees, &has_two_and_six),
        vec![2_u8.decompose(), 6_u8.decompose()]
    );
    let never = |_list: &Vec<Decomposition>| false;
    assert_eq!(Decomposition::shrink_horizontal(&trees, &never), trees);
}

#[test]
fn vertical_shrinking_reaches_into_subtrees() {
    let trees = vec![9_u8.decompose(), 7_u8.decompose()];
    let some_at_least_three =
        |list: &Vec<Decomposition>| list.iter().any(|tree| tree.0.len() >= 3);
    assert_eq!(
        Decomposition::shrink_vertical(&trees, &some_at_least_three),
        Decomposition(vec![3_u8.decompose()])
    );
}
