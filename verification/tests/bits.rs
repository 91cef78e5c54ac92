use roper::bits::{hamming, zero_bits};

#[test]
fn zero_bits_counts_inside_the_word() {
    assert_eq!(zero_bits(0, 8), 64);
    assert_eq!(zero_bits(0, 4), 32);
    assert_eq!(zero_bits(0, 2), 16);
    assert_eq!(zero_bits(u64::MAX, 8), 0);
    assert_eq!(zero_bits(u64::MAX, 4), 0);
    assert_eq!(zero_bits(0xff, 2), 8);
    assert_eq!(zero_bits(0xff, 4), 24);
    assert_eq!(zero_bits(0xff, 8), 56);
}

#[test]
fn zero_bits_ignores_what_lies_outside_the_word() {
    assert_eq!(zero_bits(0xffff_0000_0000_0000, 4), 32);
    assert_eq!(zero_bits(0x0000_0000_ffff_0000, 2), 16);
    assert_eq!(zero_bits(0x1234_5678_0000_00f0, 2), 12);
}

#[test]
fn hamming_counts_differing_bits() {
    assert_eq!(hamming(0, 0), 0);
    assert_eq!(hamming(0xdead_beef, 0xdead_beef), 0);
    assert_eq!(hamming(0, u64::MAX), 64);
    assert_eq!(hamming(0b1010, 0b0110), 2);
    assert_eq!(hamming(1, 0), 1);
}
