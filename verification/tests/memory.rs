use roper::memory::{starts_with, MemoryImage, Segment};
use roper::word::Endian;

fn image() -> MemoryImage {
    MemoryImage {
        segments: vec![
            Segment { base: 0x1000, bytes: vec![1, 2, 3, 4, 5, 6, 7, 8, 9, 10, 11, 12], executable: true },
            Segment { base: 0x2000, bytes: vec![0xaa, 0xbb, 3, 4, 0xcc], executable: false },
            Segment { base: 0x3000, bytes: vec![0x90; 20], executable: true },
        ],
        word_size: 4,
        endian: Endian::Little,
    }
}

#[test]
fn dereference_gives_the_rest_of_the_segment() {
    let memory = image();
    assert_eq!(memory.try_dereference(0x1000), Some(&[1u8, 2, 3, 4, 5, 6, 7, 8, 9, 10, 11, 12][..]));
    assert_eq!(memory.try_dereference(0x100a), Some(&[11u8, 12][..]));
    assert_eq!(memory.try_dereference(0x2004), Some(&[0xccu8][..]));
}

#[test]
fn dereference_outside_every_segment_gives_nothing() {
    let memory = image();
    assert_eq!(memory.try_dereference(0), None);
    assert_eq!(memory.try_dereference(0xfff), None);
    assert_eq!(memory.try_dereference(0x100c), None);
    assert_eq!(memory.try_dereference(0x2005), None);
    assert_eq!(memory.try_dereference(u64::MAX), None);
}

#[test]
fn dereference_takes_the_first_segment_that_holds_the_address() {
    let memory = MemoryImage {
        segments: vec![
            Segment { base: 0x10, bytes: vec![1, 2], executable: false },
            Segment { base: 0x10, bytes: vec![7, 8, 9], executable: false },
        ],
        word_size: 2,
        endian: Endian::Big,
    };
    assert_eq!(memory.try_dereference(0x11), Some(&[2u8][..]));
    assert_eq!(memory.try_dereference(0x12), Some(&[9u8][..]));
}

#[test]
fn reverse_lookup_finds_an_address_that_holds_the_pattern() {
    let memory = image();
    assert_eq!(memory.reverse_lookup(&[3, 4, 5]), Some(0x1002));
    assert_eq!(memory.reverse_lookup(&[0xbb, 3, 4, 0xcc]), Some(0x2001));
    let found = memory.reverse_lookup(&[3, 4]).unwrap();
    assert!(starts_with(memory.try_dereference(found).unwrap(), &[3, 4]));
    let found = memory.reverse_lookup(&[0x90, 0x90]).unwrap();
    assert!((0x3000..0x3013).contains(&found));
}

#[test]
fn reverse_lookup_of_an_absent_pattern_gives_nothing() {
    let memory = image();
    assert_eq!(memory.reverse_lookup(&[4, 3]), None);
    assert_eq!(memory.reverse_lookup(&[11, 12, 13]), None);
    assert_eq!(memory.reverse_lookup(&[0xcc, 0x90]), None);
    let empty = MemoryImage { segments: vec![], word_size: 8, endian: Endian::Little };
    assert_eq!(empty.reverse_lookup(&[0]), None);
}

#[test]
fn reverse_lookup_at_the_top_of_the_address_space() {
    let memory = MemoryImage {
        segments: vec![Segment { base: u64::MAX - 1, bytes: vec![5, 6, 7, 8], executable: false }],
        word_size: 2,
        endian: Endian::Little,
    };
    assert_eq!(memory.reverse_lookup(&[6]), Some(u64::MAX));
    assert_eq!(memory.reverse_lookup(&[7]), None);
}

#[test]
fn executable_size_counts_executable_segments_only() {
    assert_eq!(image().size_of_executable_memory(), 32);
    let none = MemoryImage { segments: vec![], word_size: 8, endian: Endian::Big };
    assert_eq!(none.size_of_executable_memory(), 0);
}

#[test]
fn starts_with_compares_prefixes() {
    assert!(starts_with(&[1, 2, 3], &[1, 2]));
    assert!(starts_with(&[1, 2, 3], &[]));
    assert!(starts_with(&[1, 2, 3], &[1, 2, 3]));
    assert!(!starts_with(&[1, 2, 3], &[1, 2, 3, 4]));
    assert!(!starts_with(&[1, 2, 3], &[2]));
    assert!(!starts_with(&[], &[0]));
}

#[test]
fn well_formed_images_have_a_word_size_of_a_target() {
    for (word_size, ok) in [(0usize, false), (1, false), (2, true), (3, false), (4, true), (8, true), (16, false)] {
        let memory = MemoryImage { segments: vec![], word_size, endian: Endian::Little };
        assert_eq!(memory.is_well_formed(), ok);
    }
}
