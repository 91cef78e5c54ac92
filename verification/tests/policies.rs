use indexmap::IndexMap;
use roper::config::{Arch, Config, Mode};
use roper::creature::Creature;
use roper::fitness::{Objective, Weighting};
use roper::fitness_functions::{
    code_coverage_ff, just_novelty_ff, register_conjunction_ff, register_entropy_ff,
    register_pattern_ff, score_coverage,
};
use roper::genotype::Genotype;
use roper::memory::{MemoryImage, Segment};
use roper::pattern::{RegisterName, RegisterPattern, RegisterPatternConfig, RegisterTable};
use roper::profile::{Block, CpuError, Profile, Reading, RegisterState, WriteEvent};
use roper::score::ONE;
use roper::sketch::Sketches;
use roper::word::Endian;

fn all_objectives() -> [Objective; 10] {
    [
        Objective::RegisterNovelty,
        Objective::GadgetsExecuted,
        Objective::RegisterError,
        Objective::MemWriteNovelty,
        Objective::CrashCount,
        Objective::RegisterEntropy,
        Objective::Zeroes,
        Objective::MemWriteRatio,
        Objective::CodeCoverage,
        Objective::CodeFrequency,
    ]
}

fn pattern(entries: &[(&str, u64)]) -> RegisterPattern {
    let table = RegisterTable {
        registers: vec![
            RegisterName { name: String::from("R1"), id: 1 },
            RegisterName { name: String::from("R2"), id: 2 },
            RegisterName { name: String::from("R3"), id: 3 },
        ],
    };
    let mut map = IndexMap::new();
    for (name, value) in entries {
        map.insert(String::from(*name), *value);
    }
    RegisterPattern::resolve(&RegisterPatternConfig(map), &table).unwrap()
}

fn config(pattern: Option<RegisterPattern>) -> Config {
    let mut weighting = Weighting::new();
    for objective in all_objectives() {
        weighting.set(objective, 1);
    }
    Config {
        binary_file: String::new(),
        gadget_file: String::new(),
        soup: vec![],
        arch: Arch::X86,
        mode: Mode::Mode32,
        population_size: 10,
        num_offspring: 2,
        tournament_size: 4,
        min_init_len: 1,
        max_init_len: 64,
        max_final_len: 128,
        observer_window_size: 10,
        data_file: None,
        register_pattern: None,
        pattern,
        output_registers: vec![],
        randomize_registers: false,
        random_seed: 0,
        max_steps: 100,
        weighting,
    }
}

fn reading(register: u32, values: &[u64]) -> Reading {
    Reading { register, values: values.to_vec() }
}

fn write(address: u64) -> WriteEvent {
    WriteEvent { address, size: 4, value: 0x41 }
}

fn profile() -> Profile {
    Profile {
        registers: vec![
            RegisterState { readings: vec![reading(1, &[5]), reading(2, &[6, 7])] },
            RegisterState { readings: vec![reading(1, &[5]), reading(2, &[8])] },
        ],
        write_logs: vec![vec![write(0x100), write(0x200)], vec![write(0x100)]],
        gadgets_executed: vec![0x1000, 0x1004, 0x1008],
        cpu_errors: vec![CpuError { code: 6, count: 2 }, CpuError { code: 8, count: 1 }],
        paths: vec![
            vec![Block { entry: 0x1000, size: 4 }, Block { entry: 0x1002, size: 4 }],
            vec![Block { entry: 0x1000, size: 2 }, Block { entry: 0x1004, size: 1 }],
        ],
        executable: true,
    }
}

fn creature(profile: Option<Profile>) -> Creature {
    let genotype = Genotype {
        crossover_mask: 1,
        chromosome: vec![1, 2, 3],
        tag: 2,
        name: String::from("c"),
        parents: vec![],
    };
    let mut creature = Creature::new(genotype);
    creature.payload = Some(vec![0x90]);
    creature.profile = profile;
    creature
}

fn memory() -> MemoryImage {
    MemoryImage {
        segments: vec![
            Segment { base: 0x1000, bytes: vec![0x90; 12], executable: true },
            Segment { base: 0x2000, bytes: vec![0; 50], executable: false },
            Segment { base: 0x3000, bytes: vec![0x90; 20], executable: true },
        ],
        word_size: 4,
        endian: Endian::Little,
    }
}

fn score(creature: &Creature, objective: Objective) -> Option<u64> {
    creature.fitness.as_ref().unwrap().get(objective)
}

#[test]
fn policies_leave_an_individual_without_profile_alone() {
    let config = config(Some(pattern(&[("R1", 5)])));
    let memory = memory();
    let mut sketches = Sketches::new();
    let fresh = sketches.clone();
    let start = creature(None);
    let c = just_novelty_ff(start.clone(), &mut sketches, &config);
    assert_eq!(c, start);
    let c = register_pattern_ff(c, &mut sketches, &config);
    assert_eq!(c, start);
    let c = register_entropy_ff(c, &mut sketches, &config, 5);
    assert_eq!(c, start);
    let c = register_conjunction_ff(c, &mut sketches, &config, &memory);
    assert_eq!(c, start);
    let c = code_coverage_ff(c, &mut sketches, &config, &memory);
    assert_eq!(c, start);
    assert_eq!(sketches, fresh);
}

#[test]
fn just_novelty_scores_mean_novelty_and_gadgets() {
    let config = config(None);
    let mut sketches = Sketches::new();
    let c = just_novelty_ff(creature(Some(profile())), &mut sketches, &config);
    assert_eq!(score(&c, Objective::RegisterNovelty), Some((500_000 + 500_000 + 333_333 + 500_000) / 4));
    assert_eq!(score(&c, Objective::GadgetsExecuted), Some(3_000_000));
    assert_eq!(score(&c, Objective::RegisterError), None);
    assert_eq!(c.profile, Some(profile()));
    assert_eq!(sketches.register_error.query(&[1, 5]), 333_333);
    assert_eq!(sketches.register_error.query(&[2, 6, 7]), 500_000);
    assert_eq!(sketches.register_error.query(&[2, 8]), 500_000);
    assert_eq!(sketches.memory_writes, Sketches::new().memory_writes);
    assert_eq!(sketches.addresses_visited, Sketches::new().addresses_visited);
}

#[test]
fn just_novelty_falls_for_the_second_individual() {
    let config = config(None);
    let mut sketches = Sketches::new();
    let first = just_novelty_ff(creature(Some(profile())), &mut sketches, &config);
    let second = just_novelty_ff(creature(Some(profile())), &mut sketches, &config);
    assert_eq!(score(&first, Objective::RegisterNovelty), Some(458_333));
    assert_eq!(score(&second, Objective::RegisterNovelty), Some((250_000 + 333_333 + 200_000 + 333_333) / 4));
}

#[test]
fn just_novelty_without_readings_scores_zero() {
    let config = config(None);
    let mut sketches = Sketches::new();
    let mut empty = Profile::non_executable();
    empty.executable = true;
    let c = just_novelty_ff(creature(Some(empty)), &mut sketches, &config);
    assert_eq!(score(&c, Objective::RegisterNovelty), Some(0));
    assert_eq!(score(&c, Objective::GadgetsExecuted), Some(0));
    assert_eq!(sketches, Sketches::new());
}

#[test]
fn an_objective_without_weight_is_not_scored() {
    let mut config = config(None);
    config.weighting = Weighting::new();
    config.weighting.set(Objective::GadgetsExecuted, 1);
    let mut sketches = Sketches::new();
    let c = just_novelty_ff(creature(Some(profile())), &mut sketches, &config);
    assert_eq!(score(&c, Objective::RegisterNovelty), None);
    assert_eq!(score(&c, Objective::GadgetsExecuted), Some(3_000_000));
    assert_eq!(sketches.register_error.query(&[1, 5]), 333_333);
}

#[test]
fn register_pattern_scores_all_five_objectives() {
    let config = config(Some(pattern(&[("R1", 5), ("R2", 6)])));
    let mut sketches = Sketches::new();
    let c = register_pattern_ff(creature(Some(profile())), &mut sketches, &config);
    assert_eq!(score(&c, Objective::RegisterError), Some(3_000_000));
    assert_eq!(score(&c, Objective::RegisterNovelty), Some(500_000));
    assert_eq!(score(&c, Objective::MemWriteNovelty), Some((500_000 + 500_000 + 333_333) / 3));
    assert_eq!(score(&c, Objective::CrashCount), Some(3_000_000));
    assert_eq!(score(&c, Objective::GadgetsExecuted), Some(3_000_000));
    assert_eq!(score(&c, Objective::Zeroes), None);
    assert_eq!(sketches.register_error.query(&[2, 8]), 500_000);
    assert_eq!(sketches.register_error.query(&[1, 5]), ONE);
    assert_eq!(sketches.memory_writes.query(&[0x100, 4, 0x41]), 333_333);
    assert_eq!(sketches.memory_writes.query(&[0x200, 4, 0x41]), 500_000);
    assert_eq!(sketches.addresses_visited, Sketches::new().addresses_visited);
}

#[test]
fn a_final_snapshot_that_matches_the_pattern_has_no_error() {
    let config = config(Some(pattern(&[("R2", 8), ("R1", 5)])));
    let mut sketches = Sketches::new();
    let c = register_pattern_ff(creature(Some(profile())), &mut sketches, &config);
    assert_eq!(score(&c, Objective::RegisterError), Some(0));
    assert_eq!(score(&c, Objective::RegisterNovelty), Some(500_000));
    assert_eq!(sketches.register_error.query(&[2, 6, 7]), 500_000);
}

#[test]
fn register_pattern_without_wrong_readings_or_writes() {
    let config = config(Some(pattern(&[("R1", 5)])));
    let mut sketches = Sketches::new();
    let mut quiet = profile();
    quiet.write_logs = vec![vec![], vec![]];
    let c = register_pattern_ff(creature(Some(quiet)), &mut sketches, &config);
    assert_eq!(score(&c, Objective::RegisterError), Some(0));
    assert_eq!(score(&c, Objective::RegisterNovelty), Some(0));
    assert_eq!(score(&c, Objective::MemWriteNovelty), Some(ONE));
    assert_eq!(sketches, Sketches::new());
}

#[test]
fn register_pattern_needs_a_pattern_and_a_snapshot() {
    let mut sketches = Sketches::new();
    let start = creature(Some(profile()));
    let c = register_pattern_ff(start.clone(), &mut sketches, &config(None));
    assert_eq!(c, start);
    let mut bare = profile();
    bare.registers = vec![];
    let start = creature(Some(bare));
    let c = register_pattern_ff(start.clone(), &mut sketches, &config(Some(pattern(&[("R1", 5)]))));
    assert_eq!(c, start);
    assert_eq!(sketches, Sketches::new());
}

#[test]
fn register_entropy_scores_what_the_caller_measured() {
    let config = config(None);
    let mut sketches = Sketches::new();
    let c = register_entropy_ff(creature(Some(profile())), &mut sketches, &config, 918_295);
    assert_eq!(score(&c, Objective::RegisterEntropy), Some(918_295));
    assert_eq!(score(&c, Objective::RegisterNovelty), Some(500_000));
    assert_eq!(score(&c, Objective::GadgetsExecuted), Some(3_000_000));
    assert_eq!(sketches.register_error.query(&[5, 8]), 500_000);
    let c = register_entropy_ff(creature(Some(profile())), &mut sketches, &config, 0);
    assert_eq!(score(&c, Objective::RegisterNovelty), Some(333_333));
}

#[test]
fn policies_that_read_the_final_snapshot_need_one() {
    let config = config(None);
    let memory = memory();
    let mut sketches = Sketches::new();
    let mut bare = profile();
    bare.registers = vec![];
    let start = creature(Some(bare));
    let c = register_entropy_ff(start.clone(), &mut sketches, &config, 1);
    assert_eq!(c, start);
    let c = register_conjunction_ff(start.clone(), &mut sketches, &config, &memory);
    assert_eq!(c, start);
    assert_eq!(sketches, Sketches::new());
}

#[test]
fn register_conjunction_counts_common_zero_bits_in_the_word() {
    let config = config(None);
    let mut sketches = Sketches::new();
    let mut p = profile();
    p.registers.push(RegisterState {
        readings: vec![reading(1, &[0xffff_ffff_0000_ff0f, 1]), reading(2, &[0x0fff])],
    });
    let mut memory = memory();
    let c = register_conjunction_ff(creature(Some(p.clone())), &mut sketches, &config, &memory);
    assert_eq!(score(&c, Objective::Zeroes), Some(24_000_000));
    assert_eq!(score(&c, Objective::GadgetsExecuted), Some(3_000_000));
    assert_eq!(score(&c, Objective::RegisterNovelty), Some(500_000));
    assert_eq!(score(&c, Objective::MemWriteRatio), Some(750_000));
    assert_eq!(sketches.register_error.query(&[1, 0xffff_ffff_0000_ff0f, 1, 2, 0x0fff]), 500_000);
    memory.word_size = 2;
    let c = register_conjunction_ff(creature(Some(p.clone())), &mut sketches, &config, &memory);
    assert_eq!(score(&c, Objective::Zeroes), Some(8_000_000));
    assert_eq!(score(&c, Objective::RegisterNovelty), Some(333_333));
    memory.word_size = 8;
    let c = register_conjunction_ff(creature(Some(p)), &mut sketches, &config, &memory);
    assert_eq!(score(&c, Objective::Zeroes), Some(56_000_000));
}

#[test]
fn code_coverage_scores_what_was_left_untouched() {
    let config = config(None);
    let memory = memory();
    let mut sketches = Sketches::new();
    let c = code_coverage_ff(creature(Some(profile())), &mut sketches, &config, &memory);
    assert_eq!(score(&c, Objective::CodeCoverage), Some(ONE - 6 * ONE / 32));
    assert_eq!(score(&c, Objective::CodeFrequency), Some(500_000));
    assert_eq!(score(&c, Objective::GadgetsExecuted), Some(3_000_000));
    assert_eq!(score(&c, Objective::MemWriteRatio), Some(250_000));
    for addr in 0x1000..0x1006u64 {
        assert_eq!(sketches.addresses_visited.query(&[addr]), 500_000);
    }
    assert_eq!(sketches.addresses_visited.query(&[0x1006]), ONE);
    assert_eq!(sketches.register_error, Sketches::new().register_error);
    assert_eq!(sketches.memory_writes, Sketches::new().memory_writes);
    let again = code_coverage_ff(creature(Some(profile())), &mut sketches, &config, &memory);
    assert_eq!(score(&again, Objective::CodeFrequency), Some(333_333));
}

#[test]
fn a_run_that_visits_the_whole_region_leaves_nothing() {
    let config = config(None);
    let memory = MemoryImage {
        segments: vec![Segment { base: 0x4000, bytes: vec![0x90; 16], executable: true }],
        word_size: 8,
        endian: Endian::Little,
    };
    let mut p = profile();
    p.paths = vec![vec![Block { entry: 0x4000, size: 8 }], vec![Block { entry: 0x4008, size: 8 }]];
    let mut sketches = Sketches::new();
    let c = code_coverage_ff(creature(Some(p)), &mut sketches, &config, &memory);
    assert_eq!(score(&c, Objective::CodeCoverage), Some(0));
    assert_eq!(score(&c, Objective::CodeFrequency), Some(500_000));
}

#[test]
fn code_coverage_of_a_run_without_blocks() {
    let config = config(None);
    let memory = memory();
    let mut p = profile();
    p.paths = vec![];
    let mut sketches = Sketches::new();
    let c = code_coverage_ff(creature(Some(p)), &mut sketches, &config, &memory);
    assert_eq!(score(&c, Objective::CodeCoverage), Some(ONE));
    assert_eq!(score(&c, Objective::CodeFrequency), Some(ONE));
    assert_eq!(score(&c, Objective::MemWriteRatio), Some(ONE));
    assert_eq!(sketches, Sketches::new());
}

#[test]
fn code_coverage_of_an_empty_or_overrun_region() {
    let config = config(None);
    let nothing = MemoryImage { segments: vec![], word_size: 4, endian: Endian::Big };
    let mut sketches = Sketches::new();
    let c = code_coverage_ff(creature(Some(profile())), &mut sketches, &config, &nothing);
    assert_eq!(score(&c, Objective::CodeCoverage), Some(0));
    let small = MemoryImage {
        segments: vec![Segment { base: 0, bytes: vec![0; 4], executable: true }],
        word_size: 4,
        endian: Endian::Big,
    };
    let c = code_coverage_ff(creature(Some(profile())), &mut sketches, &config, &small);
    assert_eq!(score(&c, Objective::CodeCoverage), Some(0));
}

#[test]
fn score_coverage_takes_the_addresses_in_the_order_given() {
    let config = config(None);
    let mut sketches = Sketches::new();
    let c = score_coverage(creature(Some(profile())), &vec![7, 8, 9, 10], 16, &mut sketches, &config);
    assert_eq!(score(&c, Objective::CodeCoverage), Some(750_000));
    assert_eq!(score(&c, Objective::CodeFrequency), Some(500_000));
    let c = score_coverage(creature(Some(profile())), &vec![7, 11], 3, &mut sketches, &config);
    assert_eq!(score(&c, Objective::CodeCoverage), Some(333_334));
    assert_eq!(score(&c, Objective::CodeFrequency), Some((333_333 + 500_000) / 2));
    assert_eq!(score(&c, Objective::GadgetsExecuted), Some(3_000_000));
    assert_eq!(score(&c, Objective::MemWriteRatio), Some(250_000));
}
