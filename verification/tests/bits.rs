use smartpool::bits::{any_present, span_mask};

#[test]
fn span_mask_holds_the_claimed_bits() {
    assert_eq!(span_mask(0, 4), 0xf);
    assert_eq!(span_mask(4, 8), 0xf0);
    assert_eq!(span_mask(0, 64), u64::MAX);
    assert_eq!(span_mask(63, 64), 1 << 63);
    assert_eq!(span_mask(7, 7), 0);
    assert_eq!(span_mask(9, 3), 0);
}

#[test]
fn any_present_needs_a_common_bit() {
    assert!(any_present(0b1010, 0b0010));
    assert!(!any_present(0b1010, 0b0101));
    assert!(!any_present(0, u64::MAX));
}
