use pbt::count::Cardinality::{Empty, Finite, Infinite};

#[test]
fn sum_has_empty_as_identity_and_infinite_absorbs() {
    for a in [Empty, Finite, Infinite] {
        assert_eq!(Empty.sum(a), a);
        assert_eq!(a.sum(Empty), a);
        assert_eq!(Infinite.sum(a), Infinite);
        assert_eq!(a.sum(Infinite), Infinite);
        assert_eq!(a.of_sum(Finite), a.sum(Finite));
    }
    assert_eq!(Finite.sum(Finite), Finite);
}

#[test]
fn prod_has_empty_absorbing_then_infinite() {
    for a in [Empty, Finite, Infinite] {
        assert_eq!(Empty.prod(a), Empty);
        assert_eq!(a.prod(Empty), Empty);
        assert_eq!(Finite.prod(a), a);
        assert_eq!(a.of_prod(Finite), a);
    }
    assert_eq!(Infinite.prod(Finite), Infinite);
    assert_eq!(Infinite.prod(Infinite), Infinite);
}

#[test]
fn cardinality_tests() {
    assert!(Empty.is_empty() && !Finite.is_empty() && !Infinite.is_empty());
    assert!(!Empty.is_finite() && Finite.is_finite() && !Infinite.is_finite());
    assert!(!Empty.is_infinite() && !Finite.is_infinite() && Infinite.is_infinite());
}
