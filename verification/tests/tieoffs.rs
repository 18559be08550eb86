use num_bigint::BigUint;
use topstitch::tieoff::Tieoff;

fn num(t: &Tieoff) -> BigUint {
    BigUint::from_bytes_le(&t.value)
}

fn bytes(n: u128) -> Vec<u8> {
    n.to_le_bytes().to_vec()
}

#[test]
fn tieoff_values_must_fit_their_width() {
    let t = Tieoff::new(bytes(0b10), 2);
    assert_eq!((num(&t), t.width), (BigUint::from(2u32), 2));
    assert!(Tieoff::try_new(bytes(3), 2).is_some());
    assert!(Tieoff::try_new(bytes(4), 2).is_none());
    assert!(Tieoff::try_new(bytes(0), 0).is_some());
    assert!(Tieoff::try_new(bytes(1), 0).is_none());
}

#[test]
fn tieoff_slices_and_merges() {
    let t = Tieoff::new(bytes(0x15), 6);
    let s = t.slice_with_offset_and_width(1, 3);
    assert_eq!((num(&s), s.width), (BigUint::from(2u32), 3));
    let s = t.slice_with_offset_and_width(2, 4);
    assert_eq!((num(&s), s.width), (BigUint::from(5u32), 4));
    let hi = Tieoff::new(bytes(0b10), 2);
    let lo = Tieoff::new(bytes(0b1), 1);
    let m = hi.try_merge(&lo).unwrap();
    assert_eq!((num(&m), m.width), (BigUint::from(5u32), 3));
    let big = Tieoff::new(bytes(1u128 << 70), 80);
    let top = big.slice_with_offset_and_width(64, 8);
    assert_eq!(num(&top), BigUint::from(64u32));
    let joined = big.try_merge(&Tieoff::new(bytes(7), 3)).unwrap();
    assert_eq!(num(&joined), (BigUint::from(1u32) << 73u32) + BigUint::from(7u32));
    assert_eq!(joined.width, 83);
}
