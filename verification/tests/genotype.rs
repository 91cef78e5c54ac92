use roper::config::{default_max_init_len, default_min_init_len, Arch, Config, Mode};
use roper::fitness::Weighting;
use roper::genotype::{bit, Genotype, MutationKind};
use roper::memory::{starts_with, MemoryImage, Segment};
use roper::word::{decode_word, encode_word, Endian};

fn config(soup: Vec<u64>, min_init_len: usize, max_init_len: usize) -> Config {
    Config {
        binary_file: String::from("target.bin"),
        gadget_file: String::from("gadgets.json"),
        soup,
        arch: Arch::X86,
        mode: Mode::Mode32,
        population_size: 100,
        num_offspring: 2,
        tournament_size: 4,
        min_init_len,
        max_init_len,
        max_final_len: 128,
        observer_window_size: 10,
        data_file: None,
        register_pattern: None,
        pattern: None,
        output_registers: vec![],
        randomize_registers: false,
        random_seed: 0,
        max_steps: 1000,
        weighting: Weighting::new(),
    }
}

fn genotype(name: &str, mask: u64, chromosome: Vec<u64>) -> Genotype {
    Genotype { crossover_mask: mask, chromosome, tag: 7, name: String::from(name), parents: vec![] }
}

fn image() -> MemoryImage {
    MemoryImage {
        segments: vec![
            Segment {
                base: 0x1000,
                bytes: vec![0x78, 0x56, 0x34, 0x12, 0xef, 0xbe, 0xad, 0xde, 0x01, 0x02, 0x03, 0x04],
                executable: true,
            },
            Segment { base: 0x2000, bytes: vec![0x10, 0x20, 0x30, 0x40], executable: false },
        ],
        word_size: 4,
        endian: Endian::Little,
    }
}

fn is_subsequence(part: &[u64], whole: &[u64]) -> bool {
    let mut at = 0;
    for gene in part {
        while at < whole.len() && whole[at] != *gene {
            at += 1;
        }
        if at == whole.len() {
            return false;
        }
        at += 1;
    }
    true
}

#[test]
fn defaults_of_the_initial_length() {
    assert_eq!(default_min_init_len(), 1);
    assert_eq!(default_max_init_len(), 64);
}

#[test]
fn bit_reads_the_mask_round_its_length() {
    assert!(bit(1, 0));
    assert!(!bit(1, 1));
    assert!(bit(0b100, 2));
    assert!(bit(1 << 63, 63));
    assert!(!bit(1 << 63, 62));
    assert!(bit(1, 64));
    assert!(bit(0b100, 66));
    assert!(!bit(0b100, 67));
    assert!(bit(u64::MAX, 1000));
    assert!(!bit(0, 1000));
}

#[test]
fn children_carry_the_xor_of_the_masks() {
    let a = genotype("a", 0b1100, vec![1, 2, 3, 4]);
    let b = genotype("b", 0b1010, vec![5, 6, 7, 8]);
    let params = config(vec![], 1, 2);
    let children = a.crossover(&b, &params);
    assert_eq!(children.len(), 2);
    assert_eq!(children[0].crossover_mask, 0b0110);
    assert_eq!(children[1].crossover_mask, 0b0110);
    let other_way = b.crossover(&a, &params);
    assert_eq!(other_way[0].crossover_mask, 0b0110);
    assert_eq!(other_way[1].crossover_mask, 0b0110);
}

#[test]
fn children_take_the_fathers_genes_where_the_mask_is_set() {
    let a = genotype("a", 0b1100, vec![1, 2, 3, 4]);
    let b = genotype("b", 0b1010, vec![5, 6, 7, 8]);
    let children = a.crossover(&b, &config(vec![], 1, 2));
    assert_eq!(children[0].chromosome, vec![1, 6, 7, 4]);
    assert_eq!(children[1].chromosome, vec![5, 2, 3, 8]);
}

#[test]
fn a_short_father_is_read_round_his_length() {
    let a = genotype("a", u64::MAX, vec![10, 11, 12, 13, 14, 15, 16]);
    let b = genotype("b", 0, vec![1, 2, 3]);
    let children = a.crossover(&b, &config(vec![], 1, 2));
    assert_eq!(children[0].chromosome, vec![1, 2, 3, 1, 2, 3, 1]);
    assert_eq!(children[1].chromosome, vec![10, 11, 12]);
}

#[test]
fn a_long_chromosome_reads_the_mask_round_its_length() {
    let mother: Vec<u64> = (0..130).collect();
    let father: Vec<u64> = (1000..1130).collect();
    let a = genotype("a", 0b1, mother.clone());
    let b = genotype("b", 0, father.clone());
    let children = a.crossover(&b, &config(vec![], 1, 2));
    for i in 0..130usize {
        let want = if i % 64 == 0 { father[i] } else { mother[i] };
        assert_eq!(children[0].chromosome[i], want);
    }
}

#[test]
fn an_empty_father_gives_nothing() {
    let a = genotype("a", u64::MAX, vec![1, 2, 3]);
    let b = genotype("b", 0, vec![]);
    let children = a.crossover(&b, &config(vec![], 1, 2));
    assert_eq!(children[0].chromosome, vec![1, 2, 3]);
    assert_eq!(children[1].chromosome, Vec::<u64>::new());
}

#[test]
fn children_are_named_after_mother_and_father() {
    let a = genotype("alpha", 3, vec![1]);
    let b = genotype("beta", 5, vec![2]);
    let children = a.crossover(&b, &config(vec![], 1, 2));
    assert_eq!(children[0].name, "");
    assert_eq!(children[1].name, "");
    assert_eq!(children[0].parents, vec![String::from("alpha"), String::from("beta")]);
    assert_eq!(children[1].parents, vec![String::from("beta"), String::from("alpha")]);
}

#[test]
fn mutation_kinds_by_draw() {
    assert_eq!(MutationKind::from_draw(0), MutationKind::Dereference);
    assert_eq!(MutationKind::from_draw(1), MutationKind::Indirection);
    assert_eq!(MutationKind::from_draw(2), MutationKind::Increment);
    assert_eq!(MutationKind::from_draw(3), MutationKind::Decrement);
}

#[test]
fn dereference_takes_the_word_at_the_address() {
    let memory = image();
    let mut g = genotype("g", 0, vec![0x1000, 0x1001, 0x1004]);
    g.apply_mutation(0, MutationKind::Dereference, 0, &memory);
    assert_eq!(g.chromosome, vec![0x1234_5678, 0x1001, 0x1004]);
    g.apply_mutation(1, MutationKind::Dereference, 0, &memory);
    assert_eq!(g.chromosome, vec![0x1234_5678, 0xef12_3456, 0x1004]);
}

#[test]
fn dereference_needs_more_than_eight_bytes() {
    let memory = image();
    let mut g = genotype("g", 0, vec![0x1004, 0x1003, 0x2000, 0x9999]);
    let before = g.clone();
    g.apply_mutation(0, MutationKind::Dereference, 0, &memory);
    g.apply_mutation(2, MutationKind::Dereference, 0, &memory);
    g.apply_mutation(3, MutationKind::Dereference, 0, &memory);
    assert_eq!(g, before);
    g.apply_mutation(1, MutationKind::Dereference, 0, &memory);
    assert_eq!(g.chromosome, vec![0x1004, 0xadbe_ef12, 0x2000, 0x9999]);
}

#[test]
fn dereference_follows_the_byte_order() {
    let mut memory = image();
    memory.endian = Endian::Big;
    memory.word_size = 2;
    let mut g = genotype("g", 0, vec![0x1000]);
    g.apply_mutation(0, MutationKind::Dereference, 0, &memory);
    assert_eq!(g.chromosome, vec![0x7856]);
}

#[test]
fn indirection_finds_a_pointer_to_the_gene() {
    let memory = image();
    let mut g = genotype("g", 0, vec![0xdead_beef, 0x4030_2010, 0x5555]);
    g.apply_mutation(0, MutationKind::Indirection, 0, &memory);
    assert_eq!(g.chromosome[0], 0x1004);
    g.apply_mutation(1, MutationKind::Indirection, 0, &memory);
    assert_eq!(g.chromosome[1], 0x2000);
    g.apply_mutation(2, MutationKind::Indirection, 0, &memory);
    assert_eq!(g.chromosome[2], 0x5555);
    assert_eq!(g.chromosome.len(), 3);
}

#[test]
fn indirection_then_dereference_gives_the_gene_back() {
    let memory = image();
    let mut g = genotype("g", 0, vec![0x1234_5678]);
    g.apply_mutation(0, MutationKind::Indirection, 0, &memory);
    assert_eq!(g.chromosome, vec![0x1000]);
    g.apply_mutation(0, MutationKind::Dereference, 0, &memory);
    assert_eq!(g.chromosome, vec![0x1234_5678]);
}

#[test]
fn increment_and_decrement_wrap_round() {
    let memory = image();
    let mut g = genotype("g", 0, vec![10, u64::MAX, 3, 0]);
    g.apply_mutation(0, MutationKind::Increment, 0xff, &memory);
    g.apply_mutation(1, MutationKind::Increment, 2, &memory);
    g.apply_mutation(2, MutationKind::Decrement, 3, &memory);
    g.apply_mutation(3, MutationKind::Decrement, 1, &memory);
    assert_eq!(g.chromosome, vec![265, 1, 0, u64::MAX]);
    assert_eq!(g.name, "g");
    assert_eq!(g.tag, 7);
    assert_eq!(g.crossover_mask, 0);
}

#[test]
fn mutate_changes_at_most_one_gene_in_an_allowed_way() {
    let memory = image();
    let params = config(vec![], 1, 2);
    let start = genotype("g", 9, vec![0x1000, 0x1234_5678, 0x2001, 77, 0xdead_beef]);
    for _ in 0..400 {
        let mut g = start.clone();
        g.mutate(&params, &memory);
        assert_eq!(g.chromosome.len(), start.chromosome.len());
        assert_eq!(g.name, start.name);
        assert_eq!(g.tag, start.tag);
        assert_eq!(g.crossover_mask, start.crossover_mask);
        assert_eq!(g.parents, start.parents);
        let changed: Vec<usize> =
            (0..5).filter(|i| g.chromosome[*i] != start.chromosome[*i]).collect();
        assert!(changed.len() <= 1);
        for i in changed {
            let old = start.chromosome[i];
            let new = g.chromosome[i];
            let stepped = new.wrapping_sub(old) < 256 || old.wrapping_sub(new) < 256;
            let dereferenced = match memory.try_dereference(old) {
                Some(span) => span.len() > 8 && decode_word(span, 4, Endian::Little) == new,
                None => false,
            };
            let indirected = match memory.try_dereference(new) {
                Some(span) => starts_with(span, &encode_word(old, 4, Endian::Little)),
                None => false,
            };
            assert!(stepped || dereferenced || indirected);
        }
    }
}

#[test]
fn a_founder_has_a_length_in_range() {
    let soup: Vec<u64> = (0..200).map(|i| 0x1000 + 8 * i).collect();
    for (min, max) in [(1usize, 2usize), (1, 64), (5, 6), (10, 50), (0, 1), (0, 3)] {
        let params = config(soup.clone(), min, max);
        for _ in 0..50 {
            let founder = Genotype::random(&params, String::from("f"));
            assert!(founder.chromosome.len() >= min);
            assert!(founder.chromosome.len() < max);
        }
    }
}

#[test]
fn a_founder_samples_the_soup_in_order_without_repetition() {
    let soup: Vec<u64> = vec![50, 3, 99, 3, 7, 1000, 12, 0, 81, 50, 4, 4, 17, 23, 5];
    let params = config(soup.clone(), 3, 12);
    for _ in 0..200 {
        let founder = Genotype::random(&params, String::from("f"));
        assert!(is_subsequence(&founder.chromosome, &soup));
    }
    let rising: Vec<u64> = (0..40).map(|i| 100 + 3 * i).collect();
    let params = config(rising, 1, 30);
    for _ in 0..200 {
        let founder = Genotype::random(&params, String::from("f"));
        assert!(founder.chromosome.windows(2).all(|pair| pair[0] < pair[1]));
    }
}

#[test]
fn a_founder_has_a_name_and_no_parents() {
    let params = config(vec![1, 2, 3, 4], 2, 3);
    let founder = Genotype::random(&params, String::from("founder"));
    assert_eq!(founder.name, "founder");
    assert!(founder.parents.is_empty());
    assert_eq!(founder.chromosome.len(), 2);
}

#[test]
fn a_small_soup_gives_all_it_has() {
    let params = config(vec![9, 8, 7], 10, 20);
    let founder = Genotype::random(&params, String::from("f"));
    assert_eq!(founder.chromosome, vec![9, 8, 7]);
    let params = config(vec![], 1, 64);
    let founder = Genotype::random(&params, String::from("f"));
    assert!(founder.chromosome.is_empty());
}

#[test]
fn founders_differ() {
    let soup: Vec<u64> = (0..1000).collect();
    let params = config(soup, 20, 60);
    let first = Genotype::random(&params, String::from("f"));
    let mut differs = false;
    for _ in 0..20 {
        let next = Genotype::random(&params, String::from("f"));
        if next.chromosome != first.chromosome || next.tag != first.tag {
            differs = true;
        }
    }
    assert!(differs);
}

#[test]
fn a_sample_is_put_in_the_soups_order() {
    let soup = vec![10, 20, 30, 40, 50, 60];
    let founder = Genotype::from_sample(&soup, &vec![4, 0, 5, 2], 0xf0, 11, String::from("s"));
    assert_eq!(founder.chromosome, vec![10, 30, 50, 60]);
    assert_eq!(founder.crossover_mask, 0xf0);
    assert_eq!(founder.tag, 11);
    assert_eq!(founder.name, "s");
    assert!(founder.parents.is_empty());
    let none = Genotype::from_sample(&soup, &vec![], 0, 0, String::new());
    assert!(none.chromosome.is_empty());
}
