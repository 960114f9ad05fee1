use pbt::size::{MaybeInfinite, MaybeInstantiable, MaybeOverflow, Size};
use std::cmp::Ordering::{Equal, Greater, Less};

#[test]
fn max_size_u8() {
    assert_eq!(
        u8::max_size(),
        MaybeInstantiable::Instantiable(MaybeInfinite::Finite(MaybeOverflow::Contained(0x_FF)))
    );
}

#[test]
fn max_size_u16() {
    assert_eq!(
        u16::max_size(),
        MaybeInstantiable::Instantiable(MaybeInfinite::Finite(MaybeOverflow::Contained(
            0x_FF_FF
        )))
    );
}

#[test]
fn max_size_u32() {
    assert_eq!(
        u32::max_size(),
        MaybeInstantiable::Instantiable(MaybeInfinite::Finite(MaybeOverflow::Contained(
            0x_FFFF_FFFF
        )))
    );
}

#[test]
fn u8_size_is_self() {
    for orig in u8::MIN..=u8::MAX {
        assert_eq!(orig.size(), MaybeOverflow::Contained(usize::from(orig)));
    }
}

#[test]
fn plus_adds_or_overflows() {
    assert_eq!(MaybeOverflow::Contained(2).plus(3), MaybeOverflow::Contained(5));
    assert!(matches!(
        MaybeOverflow::Contained(usize::MAX).plus(1),
        MaybeOverflow::Overflow
    ));
    assert!(matches!(MaybeOverflow::Overflow.plus(0), MaybeOverflow::Overflow));
}

#[test]
fn map_applies_to_instantiable_only() {
    assert_eq!(
        MaybeInstantiable::Instantiable(20_u8).map(|x| x + 1),
        MaybeInstantiable::Instantiable(21)
    );
    assert_eq!(
        MaybeInstantiable::<u8>::Uninstantiable.map(|x| x + 1),
        MaybeInstantiable::Uninstantiable
    );
}

#[test]
fn infinite_and_overflow_equal_nothing() {
    assert!(MaybeInfinite::<u8>::Infinite != MaybeInfinite::Infinite);
    assert!(MaybeOverflow::<u8>::Overflow != MaybeOverflow::Overflow);
    assert!(MaybeInfinite::Finite(1_u8) == MaybeInfinite::Finite(1));
    assert!(MaybeInfinite::Finite(1_u8) != MaybeInfinite::Infinite);
    assert!(MaybeInstantiable::<u8>::Uninstantiable == MaybeInstantiable::Uninstantiable);
}

#[test]
fn sizes_of_composites() {
    assert_eq!(().size(), MaybeOverflow::Contained(0));
    assert_eq!(true.size(), MaybeOverflow::Contained(1));
    assert_eq!(false.size(), MaybeOverflow::Contained(0));
    assert_eq!(Some(7_u8).size(), MaybeOverflow::Contained(8));
    assert_eq!(None::<u8>.size(), MaybeOverflow::Contained(0));
    assert_eq!(vec![1_u8, 2, 3].size(), MaybeOverflow::Contained(9));
    assert_eq!(
        <Option<bool>>::max_size(),
        MaybeInstantiable::Instantiable(MaybeInfinite::Finite(MaybeOverflow::Contained(2)))
    );
    assert!(matches!(
        <Vec<bool>>::max_size(),
        MaybeInstantiable::Instantiable(MaybeInfinite::Infinite)
    ));
    assert!(matches!(
        vec![usize::MAX as u32 as u64 as u32; 0].size(),
        MaybeOverflow::Contained(0)
    ));
}

#[test]
fn missing_bounds_come_last_and_do_not_compare_with_themselves() {
    assert_eq!(
        MaybeInfinite::Finite(1_u8).partial_cmp(&MaybeInfinite::Finite(2)),
        Some(Less)
    );
    assert_eq!(
        MaybeInfinite::Infinite.partial_cmp(&MaybeInfinite::Finite(2_u8)),
        Some(Greater)
    );
    assert_eq!(
        MaybeInfinite::<u8>::Infinite.partial_cmp(&MaybeInfinite::Infinite),
        None
    );
    assert_eq!(
        MaybeOverflow::Contained(3_u8).partial_cmp(&MaybeOverflow::Overflow),
        Some(Less)
    );
    assert_eq!(
        MaybeOverflow::<u8>::Overflow.partial_cmp(&MaybeOverflow::Overflow),
        None
    );
    assert_eq!(
        MaybeInstantiable::<u8>::Uninstantiable.partial_cmp(&MaybeInstantiable::Uninstantiable),
        Some(Equal)
    );
    assert_eq!(
        MaybeInstantiable::Uninstantiable.partial_cmp(&MaybeInstantiable::Instantiable(0_u8)),
        Some(Less)
    );
    assert!(MaybeInstantiable::Instantiable(5_u8) > MaybeInstantiable::Instantiable(4));
}
