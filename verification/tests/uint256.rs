use vote_ledger::uint256::Uint256;

fn bytes_ending(tail: &[u8]) -> [u8; 32] {
    let mut bytes = [0u8; 32];
    bytes[32 - tail.len()..].copy_from_slice(tail);
    bytes
}

#[test]
fn from_u128_writes_big_endian_bytes() {
    assert_eq!(Uint256::from_u128(258).to_be_bytes(), bytes_ending(&[1, 2]));
    assert_eq!(Uint256::from_u128(0).to_be_bytes(), [0u8; 32]);
    assert_eq!(Uint256::from_u128(u128::MAX).to_be_bytes(), bytes_ending(&[0xff; 16]));
    assert_eq!(
        Uint256::from_u128(0x0102_0304_0506_0708_090a_0b0c_0d0e_0f10).to_be_bytes(),
        bytes_ending(&[1, 2, 3, 4, 5, 6, 7, 8, 9, 10, 11, 12, 13, 14, 15, 16])
    );
}

#[test]
fn zero_is_zero() {
    assert_eq!(Uint256::zero(), Uint256::from_u128(0));
    assert_eq!(Uint256::zero().to_be_bytes(), [0u8; 32]);
    assert_eq!(Uint256::default(), Uint256::zero());
}

#[test]
fn bytes_round_trip() {
    let mut bytes = [0u8; 32];
    for (i, b) in bytes.iter_mut().enumerate() {
        *b = (i * 7 + 3) as u8;
    }
    assert_eq!(Uint256::from_be_bytes(bytes).to_be_bytes(), bytes);
}

#[test]
fn checked_add_is_the_sum() {
    let a = Uint256::from_u128(100);
    let b = Uint256::from_u128(250);
    assert_eq!(a.checked_add(&b), Some(Uint256::from_u128(350)));
    assert_eq!(a.checked_add(&Uint256::zero()), Some(a));
    assert_eq!(Uint256::zero().checked_add(&b), Some(b));
}

#[test]
fn checked_add_carries_past_128_bits() {
    let max = Uint256::from_u128(u128::MAX);
    let one = Uint256::from_u128(1);
    let mut expected = [0u8; 32];
    expected[15] = 1;
    assert_eq!(max.checked_add(&one), Some(Uint256::from_be_bytes(expected)));
    let mut doubled = bytes_ending(&[0xff; 16]);
    doubled[15] = 1;
    doubled[31] = 0xfe;
    assert_eq!(max.checked_add(&max), Some(Uint256::from_be_bytes(doubled)));
}

#[test]
fn checked_add_reports_overflow() {
    let top = Uint256::from_be_bytes([0xff; 32]);
    assert_eq!(top.checked_add(&Uint256::from_u128(1)), None);
    assert_eq!(top.checked_add(&top), None);
    assert_eq!(top.checked_add(&Uint256::zero()), Some(top));
    let mut half = [0u8; 32];
    half[0] = 0x80;
    let half = Uint256::from_be_bytes(half);
    assert_eq!(half.checked_add(&half), None);
    let mut below = [0xffu8; 32];
    below[0] = 0x7f;
    assert_eq!(half.checked_add(&Uint256::from_be_bytes(below)), Some(top));
}

#[test]
fn gt_is_the_order_of_the_numbers() {
    let small = Uint256::from_u128(255);
    let large = Uint256::from_u128(256);
    assert!(large.gt(&small));
    assert!(!small.gt(&large));
    assert!(!small.gt(&small));
    // the most significant byte decides, whatever follows
    let mut high = [0u8; 32];
    high[0] = 1;
    let high = Uint256::from_be_bytes(high);
    assert!(high.gt(&Uint256::from_u128(u128::MAX)));
    assert!(!Uint256::from_u128(u128::MAX).gt(&high));
    assert!(!Uint256::zero().gt(&Uint256::zero()));
    assert!(Uint256::from_u128(1).gt(&Uint256::zero()));
}
