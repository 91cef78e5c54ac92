use roper::word::{decode_word, encode_word, Endian};

#[test]
fn encode_little_endian_eight_bytes() {
    let bytes = encode_word(0x1122_3344_5566_7788, 8, Endian::Little);
    assert_eq!(bytes, vec![0x88, 0x77, 0x66, 0x55, 0x44, 0x33, 0x22, 0x11]);
}

#[test]
fn encode_big_endian_eight_bytes() {
    let bytes = encode_word(0x1122_3344_5566_7788, 8, Endian::Big);
    assert_eq!(bytes, vec![0x11, 0x22, 0x33, 0x44, 0x55, 0x66, 0x77, 0x88]);
}

#[test]
fn encode_four_bytes_keeps_the_low_half() {
    assert_eq!(
        encode_word(0x1122_3344_5566_7788, 4, Endian::Little),
        vec![0x88, 0x77, 0x66, 0x55]
    );
    assert_eq!(
        encode_word(0x1122_3344_5566_7788, 4, Endian::Big),
        vec![0x55, 0x66, 0x77, 0x88]
    );
}

#[test]
fn encode_two_bytes_keeps_the_low_quarter() {
    assert_eq!(encode_word(0x1122_3344_5566_7788, 2, Endian::Little), vec![0x88, 0x77]);
    assert_eq!(encode_word(0x1122_3344_5566_7788, 2, Endian::Big), vec![0x77, 0x88]);
}

#[test]
fn decode_reads_only_the_first_word() {
    let bytes = [0x01, 0x02, 0x03, 0x04, 0x05, 0x06, 0x07, 0x08, 0xff, 0xff];
    assert_eq!(decode_word(&bytes, 8, Endian::Little), 0x0807_0605_0403_0201);
    assert_eq!(decode_word(&bytes, 8, Endian::Big), 0x0102_0304_0506_0708);
    assert_eq!(decode_word(&bytes, 4, Endian::Little), 0x0403_0201);
    assert_eq!(decode_word(&bytes, 4, Endian::Big), 0x0102_0304);
    assert_eq!(decode_word(&bytes, 2, Endian::Little), 0x0201);
    assert_eq!(decode_word(&bytes, 2, Endian::Big), 0x0102);
}

#[test]
fn a_word_that_fits_comes_back_unchanged() {
    let cases: [(u64, usize); 9] = [
        (0, 2),
        (0xffff, 2),
        (0x1234, 2),
        (0, 4),
        (0xffff_ffff, 4),
        (0xdead_beef, 4),
        (0, 8),
        (u64::MAX, 8),
        (0x0123_4567_89ab_cdef, 8),
    ];
    for (word, size) in cases {
        for endian in [Endian::Little, Endian::Big] {
            let bytes = encode_word(word, size, endian);
            assert_eq!(bytes.len(), size);
            assert_eq!(decode_word(&bytes, size, endian), word);
        }
    }
}

#[test]
fn a_word_that_does_not_fit_comes_back_cut() {
    let bytes = encode_word(0x1_0000_0001, 4, Endian::Big);
    assert_eq!(decode_word(&bytes, 4, Endian::Big), 1);
    let bytes = encode_word(0xabcd_1234, 2, Endian::Little);
    assert_eq!(decode_word(&bytes, 2, Endian::Little), 0x1234);
}

#[test]
fn byte_orders_differ() {
    assert_ne!(
        encode_word(0x0102, 2, Endian::Little),
        encode_word(0x0102, 2, Endian::Big)
    );
}
