//! The fitness policies. Each reads the profile of a run, records what it
//! saw in the novelty sketches, and scores the individual on its objectives.
//! An individual without a profile is handed back as it came.

use crate::bits::{zero_bits, zeros_below};
use crate::config::Config;
use crate::coverage::{addresses_visited, lists_visited};
use crate::creature::Creature;
use crate::fitness::{no_scores, with_score, Objective, Weighted};
use crate::memory::MemoryImage;
use crate::pattern::{distance_of, targets, wrong_keys, RegisterPattern};
use crate::profile::{
    capped_count, conjunction_of, held_values, joined_keys, total_faults, total_len, Profile,
    Reading, RegisterState, WriteEvent,
};
use crate::score::{lemma_ratio_of_part, ratio, ratio_score, whole, whole_score, ONE};
use crate::sketch::{inserted, key_views, mean, mean_novelty, novelty_of, observed, Sketches};
use vstd::prelude::*;

verus! {

/// The lists of `parts`, one after the other.
pub open spec fn concat_all(parts: Seq<Seq<Seq<u64>>>) -> Seq<Seq<u64>>
    decreases parts.len(),
{
    if parts.len() == 0 {
        Seq::empty()
    } else {
        concat_all(parts.drop_last()) + parts.last()
    }
}

/// The keys of `readings`, in order.
pub open spec fn reading_keys(readings: Seq<Reading>) -> Seq<Seq<u64>> {
    Seq::new(readings.len(), |i: int| readings[i].key())
}

/// The keys of all readings of all snapshots, in order.
pub open spec fn observation_keys(states: Seq<RegisterState>) -> Seq<Seq<u64>> {
    concat_all(Seq::new(states.len(), |i: int| reading_keys(states[i].readings@)))
}

/// Moves the keys of `part` to the end of `keys`.
fn append_keys(keys: &mut Vec<Vec<u64>>, part: Vec<Vec<u64>>)
    ensures
        key_views(final(keys)@) == key_views(old(keys)@) + key_views(part@),
{
    let mut part = part;
    let ghost moved = part@;
    keys.append(&mut part);
    proof {
        assert(key_views(keys@) =~= key_views(old(keys)@) + key_views(moved));
    }
}

/// The keys of the readings of one snapshot.
fn keys_of_readings(state: &RegisterState) -> (keys: Vec<Vec<u64>>)
    ensures
        key_views(keys@) == reading_keys(state.readings@),
{
    let mut keys: Vec<Vec<u64>> = Vec::new();
    let mut i: usize = 0;
    while i < state.readings.len()
        invariant
            i <= state.readings@.len(),
            key_views(keys@) == reading_keys(state.readings@).take(i as int),
        decreases state.readings@.len() - i,
    {
        let ghost before = keys@;
        keys.push(state.readings[i].sketch_key());
        proof {
            assert(key_views(keys@) =~= key_views(before).push(state.readings@[i as int].key()));
        }
        i += 1;
    }
    proof {
        assert(reading_keys(state.readings@).take(i as int) == reading_keys(state.readings@));
    }
    keys
}

/// The keys of the readings of all snapshots.
fn keys_of_observations(states: &Vec<RegisterState>) -> (keys: Vec<Vec<u64>>)
    ensures
        key_views(keys@) == observation_keys(states@),
{
    let ghost parts = Seq::new(states@.len(), |i: int| reading_keys(states@[i].readings@));
    let mut keys: Vec<Vec<u64>> = Vec::new();
    let mut i: usize = 0;
    while i < states.len()
        invariant
            i <= states@.len(),
            parts == Seq::new(states@.len(), |i: int| reading_keys(states@[i].readings@)),
            key_views(keys@) == concat_all(parts.take(i as int)),
        decreases states@.len() - i,
    {
        proof {
            assert(parts.take(i as int + 1).drop_last() == parts.take(i as int));
            assert(parts.take(i as int + 1).last() == reading_keys(states@[i as int].readings@));
        }
        append_keys(&mut keys, keys_of_readings(&states[i]));
        i += 1;
    }
    proof {
        assert(parts.take(i as int) == parts);
    }
    keys
}

/// What the novelty policy scores: the mean novelty of all register
/// readings (0 where there are none) and the number of gadgets that ran.
pub open spec fn just_novelty_scores(
    profile: Profile,
    registers_seen: Seq<Seq<u64>>,
    weights: Seq<Option<i64>>,
) -> Seq<Option<u64>> {
    with_score(
        with_score(
            no_scores(),
            weights,
            Objective::RegisterNovelty,
            mean_novelty(registers_seen, observation_keys(profile.registers@), 0),
        ),
        weights,
        Objective::GadgetsExecuted,
        whole_score(profile.gadgets_executed@.len()),
    )
}

/// Whether `scored` and `after` are what the novelty policy makes of
/// `creature` and `before`.
pub open spec fn just_novelty_outcome(
    creature: Creature,
    before: Sketches,
    after: Sketches,
    scored: Creature,
    config: &Config,
) -> bool {
    &&& after.wf()
    &&& scored.same_but_fitness(&creature)
    &&& match creature.profile {
        None => scored.fitness == creature.fitness && after == before,
        Some(profile) => {
            &&& after.register_error@ == observed(
                before.register_error@,
                observation_keys(profile.registers@),
            )
            &&& after.memory_writes == before.memory_writes
            &&& after.addresses_visited == before.addresses_visited
            &&& scored.fitness matches Some(fitness)
            &&& fitness.wf()
            &&& fitness.weighting.weights@ == config.weighting.weights@
            &&& fitness.scores@ == just_novelty_scores(
                profile,
                before.register_error@,
                config.weighting.weights@,
            )
        },
    }
}

/// Scores novelty alone: every register reading of every snapshot is
/// recorded in the register sketch, and the individual is scored on the mean
/// novelty of those readings and on the number of gadgets that ran.
pub fn just_novelty_ff(creature: Creature, sketch: &mut Sketches, config: &Config) -> (scored:
    Creature)
    requires
        old(sketch).wf(),
        config.wf(),
        creature.wf(),
    ensures
        just_novelty_outcome(creature, *old(sketch), *final(sketch), scored, config),
{
    let mut creature = creature;
    let fitness = match &creature.profile {
        Some(profile) => {
            let keys = keys_of_observations(&profile.registers);
            let sum = sketch.register_error.observe_all(&keys);
            let register_novelty = mean(sum, keys.len(), 0);
            let mut fitness = Weighted::new(&config.weighting);
            fitness.insert(Objective::RegisterNovelty, register_novelty);
            fitness.insert(
                Objective::GadgetsExecuted,
                whole(profile.gadgets_executed.len() as u64),
            );
            Some(fitness)
        },
        None => None,
    };
    if fitness.is_some() {
        creature.fitness = fitness;
    }
    creature
}

/// The keys of the wrong readings of all snapshots, in order.
pub open spec fn all_wrong_keys(entries: Seq<(u32, u64)>, states: Seq<RegisterState>) -> Seq<
    Seq<u64>,
> {
    concat_all(Seq::new(states.len(), |i: int| wrong_keys(entries, states[i].readings@)))
}

/// The keys of `events`, in order.
pub open spec fn event_keys(events: Seq<WriteEvent>) -> Seq<Seq<u64>> {
    Seq::new(events.len(), |i: int| events[i].key())
}

/// The keys of all writes of all logs, in order.
pub open spec fn write_keys(logs: Seq<Vec<WriteEvent>>) -> Seq<Seq<u64>> {
    concat_all(Seq::new(logs.len(), |i: int| event_keys(logs[i]@)))
}

/// The keys of the wrong readings of all snapshots.
fn keys_of_wrong_readings(pattern: &RegisterPattern, states: &Vec<RegisterState>) -> (keys: Vec<
    Vec<u64>,
>)
    requires
        forall|i: int| 0 <= i < states@.len() ==> (#[trigger] states@[i]).wf(),
    ensures
        key_views(keys@) == all_wrong_keys(targets(pattern.0), states@),
{
    let ghost entries = targets(pattern.0);
    let ghost parts = Seq::new(states@.len(), |i: int| wrong_keys(entries, states@[i].readings@));
    let mut keys: Vec<Vec<u64>> = Vec::new();
    let mut i: usize = 0;
    while i < states.len()
        invariant
            i <= states@.len(),
            entries == targets(pattern.0),
            forall|i: int| 0 <= i < states@.len() ==> (#[trigger] states@[i]).wf(),
            parts == Seq::new(states@.len(), |i: int| wrong_keys(entries, states@[i].readings@)),
            key_views(keys@) == concat_all(parts.take(i as int)),
        decreases states@.len() - i,
    {
        proof {
            assert(parts.take(i as int + 1).drop_last() == parts.take(i as int));
            assert(parts.take(i as int + 1).last() == wrong_keys(
                entries,
                states@[i as int].readings@,
            ));
        }
        append_keys(&mut keys, pattern.incorrect_register_states(&states[i]));
        i += 1;
    }
    proof {
        assert(parts.take(i as int) == parts);
    }
    keys
}

/// The keys of the writes of one log.
fn keys_of_events(events: &Vec<WriteEvent>) -> (keys: Vec<Vec<u64>>)
    ensures
        key_views(keys@) == event_keys(events@),
{
    let mut keys: Vec<Vec<u64>> = Vec::new();
    let mut i: usize = 0;
    while i < events.len()
        invariant
            i <= events@.len(),
            key_views(keys@) == event_keys(events@).take(i as int),
        decreases events@.len() - i,
    {
        let ghost before = keys@;
        keys.push(events[i].sketch_key());
        proof {
            assert(key_views(keys@) =~= key_views(before).push(events@[i as int].key()));
        }
        i += 1;
    }
    proof {
        assert(event_keys(events@).take(i as int) == event_keys(events@));
    }
    keys
}

/// The keys of the writes of all logs.
fn keys_of_writes(logs: &Vec<Vec<WriteEvent>>) -> (keys: Vec<Vec<u64>>)
    ensures
        key_views(keys@) == write_keys(logs@),
{
    let ghost parts = Seq::new(logs@.len(), |i: int| event_keys(logs@[i]@));
    let mut keys: Vec<Vec<u64>> = Vec::new();
    let mut i: usize = 0;
    while i < logs.len()
        invariant
            i <= logs@.len(),
            parts == Seq::new(logs@.len(), |i: int| event_keys(logs@[i]@)),
            key_views(keys@) == concat_all(parts.take(i as int)),
        decreases logs@.len() - i,
    {
        proof {
            assert(parts.take(i as int + 1).drop_last() == parts.take(i as int));
            assert(parts.take(i as int + 1).last() == event_keys(logs@[i as int]@));
        }
        append_keys(&mut keys, keys_of_events(&logs[i]));
        i += 1;
    }
    proof {
        assert(parts.take(i as int) == parts);
    }
    keys
}

/// What the pattern policy scores: the distance of the final snapshot from
/// the pattern, the mean novelty of the wrong readings (0 where there are
/// none), the mean novelty of the writes (`ONE` where there are none), the
/// number of faults, and the number of gadgets that ran.
pub open spec fn register_pattern_scores(
    profile: Profile,
    entries: Seq<(u32, u64)>,
    registers_seen: Seq<Seq<u64>>,
    writes_seen: Seq<Seq<u64>>,
    weights: Seq<Option<i64>>,
) -> Seq<Option<u64>> {
    let distance = capped_count(distance_of(entries, profile.registers@.last().readings@));
    let error = with_score(
        no_scores(),
        weights,
        Objective::RegisterError,
        whole_score(distance as nat),
    );
    let novelty = with_score(
        error,
        weights,
        Objective::RegisterNovelty,
        mean_novelty(registers_seen, all_wrong_keys(entries, profile.registers@), 0),
    );
    let writes = with_score(
        novelty,
        weights,
        Objective::MemWriteNovelty,
        mean_novelty(writes_seen, write_keys(profile.write_logs@), ONE),
    );
    let crashes = with_score(
        writes,
        weights,
        Objective::CrashCount,
        whole_score(capped_count(total_faults(profile.cpu_errors@)) as nat),
    );
    with_score(
        crashes,
        weights,
        Objective::GadgetsExecuted,
        whole_score(profile.gadgets_executed@.len()),
    )
}

/// Whether the pattern policy has something to score: a profile with a
/// final snapshot, and a pattern to hold it against.
pub open spec fn pattern_applies(creature: Creature, config: &Config) -> bool {
    &&& creature.profile matches Some(profile)
    &&& profile.registers@.len() > 0
    &&& config.pattern is Some
}

/// Whether `scored` and `after` are what the pattern policy makes of
/// `creature` and `before`.
pub open spec fn register_pattern_outcome(
    creature: Creature,
    before: Sketches,
    after: Sketches,
    scored: Creature,
    config: &Config,
) -> bool {
    &&& after.wf()
    &&& scored.same_but_fitness(&creature)
    &&& !pattern_applies(creature, config) ==> scored.fitness == creature.fitness && after
        == before
    &&& pattern_applies(creature, config) ==> {
        let profile = creature.profile.unwrap();
        let entries = targets(config.pattern.unwrap().0);
        &&& after.register_error@ == observed(
            before.register_error@,
            all_wrong_keys(entries, profile.registers@),
        )
        &&& after.memory_writes@ == observed(
            before.memory_writes@,
            write_keys(profile.write_logs@),
        )
        &&& after.addresses_visited == before.addresses_visited
        &&& scored.fitness matches Some(fitness)
        &&& fitness.wf()
        &&& fitness.weighting.weights@ == config.weighting.weights@
        &&& fitness.scores@ == register_pattern_scores(
            profile,
            entries,
            before.register_error@,
            before.memory_writes@,
            config.weighting.weights@,
        )
    }
}

/// Scores the run against the register pattern. The wrong readings of every
/// snapshot go to the register sketch and every write goes to the write
/// sketch. Without a profile, a final snapshot or a pattern there is nothing
/// to score, and the individual and the sketches stay as they were.
pub fn register_pattern_ff(creature: Creature, sketch: &mut Sketches, config: &Config) -> (scored:
    Creature)
    requires
        old(sketch).wf(),
        config.wf(),
        creature.wf(),
    ensures
        register_pattern_outcome(creature, *old(sketch), *final(sketch), scored, config),
{
    let mut creature = creature;
    let fitness = match (&creature.profile, &config.pattern) {
        (Some(profile), Some(pattern)) => {
            if profile.registers.len() > 0 {
                let last = &profile.registers[profile.registers.len() - 1];
                let register_error = pattern.distance_from_register_state(last);
                let mut fitness = Weighted::new(&config.weighting);
                fitness.insert(Objective::RegisterError, whole(register_error));

                let wrong = keys_of_wrong_readings(pattern, &profile.registers);
                let wrong_sum = sketch.register_error.observe_all(&wrong);
                fitness.insert(Objective::RegisterNovelty, mean(wrong_sum, wrong.len(), 0));

                let writes = keys_of_writes(&profile.write_logs);
                let write_sum = sketch.memory_writes.observe_all(&writes);
                fitness.insert(Objective::MemWriteNovelty, mean(write_sum, writes.len(), ONE));

                fitness.insert(Objective::CrashCount, whole(profile.crash_count()));
                fitness.insert(
                    Objective::GadgetsExecuted,
                    whole(profile.gadgets_executed.len() as u64),
                );
                Some(fitness)
            } else {
                None
            }
        },
        _ => None,
    };
    if fitness.is_some() {
        creature.fitness = fitness;
    }
    creature
}

/// What the entropy policy scores: the entropy of the final snapshot as the
/// caller measured it, the novelty of the snapshot's values, and the number
/// of gadgets that ran.
pub open spec fn register_entropy_scores(
    profile: Profile,
    entropy: u64,
    registers_seen: Seq<Seq<u64>>,
    weights: Seq<Option<i64>>,
) -> Seq<Option<u64>> {
    let key = held_values(profile.registers@.last().readings@);
    with_score(
        with_score(
            with_score(no_scores(), weights, Objective::RegisterEntropy, entropy),
            weights,
            Objective::RegisterNovelty,
            novelty_of(inserted(registers_seen, key), key),
        ),
        weights,
        Objective::GadgetsExecuted,
        whole_score(profile.gadgets_executed@.len()),
    )
}

/// Whether a policy that reads the final snapshot has something to score.
pub open spec fn has_final_snapshot(creature: Creature) -> bool {
    creature.profile matches Some(profile) && profile.registers@.len() > 0
}

/// Whether `scored` and `after` are what the entropy policy makes of
/// `creature` and `before`.
pub open spec fn register_entropy_outcome(
    creature: Creature,
    entropy: u64,
    before: Sketches,
    after: Sketches,
    scored: Creature,
    config: &Config,
) -> bool {
    &&& after.wf()
    &&& scored.same_but_fitness(&creature)
    &&& !has_final_snapshot(creature) ==> scored.fitness == creature.fitness && after == before
    &&& has_final_snapshot(creature) ==> {
        let profile = creature.profile.unwrap();
        &&& after.register_error@ == inserted(
            before.register_error@,
            held_values(profile.registers@.last().readings@),
        )
        &&& after.memory_writes == before.memory_writes
        &&& after.addresses_visited == before.addresses_visited
        &&& scored.fitness matches Some(fitness)
        &&& fitness.wf()
        &&& fitness.weighting.weights@ == config.weighting.weights@
        &&& fitness.scores@ == register_entropy_scores(
            profile,
            entropy,
            before.register_error@,
            config.weighting.weights@,
        )
    }
}

/// Scores the entropy of the final register values. `entropy` is that
/// entropy as a score; it takes logarithms, so the caller measures it. The
/// values of the final snapshot go to the register sketch as one key.
/// Without a profile or a final snapshot the individual and the sketches
/// stay as they were.
pub fn register_entropy_ff(
    creature: Creature,
    sketch: &mut Sketches,
    config: &Config,
    entropy: u64,
) -> (scored: Creature)
    requires
        old(sketch).wf(),
        config.wf(),
        creature.wf(),
    ensures
        register_entropy_outcome(creature, entropy, *old(sketch), *final(sketch), scored, config),
{
    let mut creature = creature;
    let fitness = match &creature.profile {
        Some(profile) => {
            if profile.registers.len() > 0 {
                let last = &profile.registers[profile.registers.len() - 1];
                let just_regs = last.values();
                let mut fitness = Weighted::new(&config.weighting);
                fitness.insert(Objective::RegisterEntropy, entropy);
                let novelty = sketch.register_error.observe(just_regs.as_slice());
                fitness.insert(Objective::RegisterNovelty, novelty);
                fitness.insert(
                    Objective::GadgetsExecuted,
                    whole(profile.gadgets_executed.len() as u64),
                );
                Some(fitness)
            } else {
                None
            }
        },
        None => None,
    };
    if fitness.is_some() {
        creature.fitness = fitness;
    }
    creature
}

/// What the conjunction policy scores: the clear bits, inside the target's
/// word, of the bitwise and of the final register values; the number of
/// gadgets that ran; the novelty of the final snapshot; and the writes for
/// each basic block that ran.
pub open spec fn register_conjunction_scores(
    profile: Profile,
    word_size: nat,
    registers_seen: Seq<Seq<u64>>,
    weights: Seq<Option<i64>>,
) -> Seq<Option<u64>> {
    let last = profile.registers@.last();
    let key = joined_keys(last.readings@);
    let zeroes = with_score(
        no_scores(),
        weights,
        Objective::Zeroes,
        whole_score(zeros_below(conjunction_of(last.readings@), 8 * word_size)),
    );
    let gadgets = with_score(
        zeroes,
        weights,
        Objective::GadgetsExecuted,
        whole_score(profile.gadgets_executed@.len()),
    );
    let novelty = with_score(
        gadgets,
        weights,
        Objective::RegisterNovelty,
        novelty_of(inserted(registers_seen, key), key),
    );
    with_score(
        novelty,
        weights,
        Objective::MemWriteRatio,
        ratio_score(
            capped_count(total_len(profile.write_logs@)) as nat,
            capped_count(total_len(profile.paths@)) as nat,
            0,
        ),
    )
}

/// Whether `scored` and `after` are what the conjunction policy makes of
/// `creature` and `before` for a target with words of `word_size` bytes.
pub open spec fn register_conjunction_outcome(
    creature: Creature,
    word_size: nat,
    before: Sketches,
    after: Sketches,
    scored: Creature,
    config: &Config,
) -> bool {
    &&& after.wf()
    &&& scored.same_but_fitness(&creature)
    &&& !has_final_snapshot(creature) ==> scored.fitness == creature.fitness && after == before
    &&& has_final_snapshot(creature) ==> {
        let profile = creature.profile.unwrap();
        &&& after.register_error@ == inserted(
            before.register_error@,
            joined_keys(profile.registers@.last().readings@),
        )
        &&& after.memory_writes == before.memory_writes
        &&& after.addresses_visited == before.addresses_visited
        &&& scored.fitness matches Some(fitness)
        &&& fitness.wf()
        &&& fitness.weighting.weights@ == config.weighting.weights@
        &&& fitness.scores@ == register_conjunction_scores(
            profile,
            word_size,
            before.register_error@,
            config.weighting.weights@,
        )
    }
}

/// Scores how many bits all final register values have clear in common,
/// counted inside the target's word. The final snapshot goes to the register
/// sketch as one key. Without a profile or a final snapshot the individual
/// and the sketches stay as they were.
pub fn register_conjunction_ff(
    creature: Creature,
    sketch: &mut Sketches,
    config: &Config,
    memory: &MemoryImage,
) -> (scored: Creature)
    requires
        old(sketch).wf(),
        config.wf(),
        creature.wf(),
        memory.wf(),
    ensures
        register_conjunction_outcome(
            creature,
            memory.word_size as nat,
            *old(sketch),
            *final(sketch),
            scored,
            config,
        ),
{
    let mut creature = creature;
    let fitness = match &creature.profile {
        Some(profile) => {
            if profile.registers.len() > 0 {
                let last = &profile.registers[profile.registers.len() - 1];
                let conj = last.conjunction();
                let score = zero_bits(conj, memory.word_size);
                let mut fitness = Weighted::new(&config.weighting);
                fitness.insert(Objective::Zeroes, whole(score as u64));
                fitness.insert(
                    Objective::GadgetsExecuted,
                    whole(profile.gadgets_executed.len() as u64),
                );
                let key = last.sketch_key();
                let novelty = sketch.register_error.observe(key.as_slice());
                fitness.insert(Objective::RegisterNovelty, novelty);
                fitness.insert(Objective::MemWriteRatio, profile.mem_write_ratio());
                Some(fitness)
            } else {
                None
            }
        },
        None => None,
    };
    if fitness.is_some() {
        creature.fitness = fitness;
    }
    creature
}

/// The keys of `addresses`, in order: each address is its own key.
pub open spec fn address_keys(addresses: Seq<u64>) -> Seq<Seq<u64>> {
    Seq::new(addresses.len(), |i: int| seq![addresses[i]])
}

/// What is left of `ONE` after `score`; nothing where `score` is above it.
pub open spec fn remainder(score: u64) -> u64 {
    if score >= ONE {
        0
    } else {
        (ONE - score) as u64
    }
}

/// What is left of `ONE` after `score`; nothing where `score` is above it.
pub fn remainder_of(score: u64) -> (rest: u64)
    ensures
        rest == remainder(score),
{
    if score >= ONE {
        0
    } else {
        ONE - score
    }
}

/// What the coverage policy scores: the part of the executable region that
/// the run did not visit (nothing where the region is empty or the run
/// visited more addresses than the region has), the mean novelty of the
/// visited addresses (`ONE` where there are none), the number of gadgets
/// that ran, and what is left of `ONE` after the writes for each basic block.
pub open spec fn code_coverage_scores(
    profile: Profile,
    addresses: Seq<u64>,
    code_size: nat,
    addresses_seen: Seq<Seq<u64>>,
    weights: Seq<Option<i64>>,
) -> Seq<Option<u64>> {
    let coverage = with_score(
        no_scores(),
        weights,
        Objective::CodeCoverage,
        remainder(ratio_score(capped_count(addresses.len()) as nat, code_size, ONE)),
    );
    let frequency = with_score(
        coverage,
        weights,
        Objective::CodeFrequency,
        mean_novelty(addresses_seen, address_keys(addresses), ONE),
    );
    let gadgets = with_score(
        frequency,
        weights,
        Objective::GadgetsExecuted,
        whole_score(profile.gadgets_executed@.len()),
    );
    with_score(
        gadgets,
        weights,
        Objective::MemWriteRatio,
        remainder(
            ratio_score(
                capped_count(total_len(profile.write_logs@)) as nat,
                capped_count(total_len(profile.paths@)) as nat,
                0,
            ),
        ),
    )
}

/// Whether `scored` and `after` are what the coverage policy makes of
/// `creature` and `before` when the visited addresses come in the order
/// `addresses`.
pub open spec fn coverage_outcome(
    creature: Creature,
    addresses: Seq<u64>,
    code_size: nat,
    before: Sketches,
    after: Sketches,
    scored: Creature,
    config: &Config,
) -> bool {
    &&& scored.same_but_fitness(&creature)
    &&& after.wf()
    &&& after.addresses_visited@ == observed(before.addresses_visited@, address_keys(addresses))
    &&& after.register_error == before.register_error
    &&& after.memory_writes == before.memory_writes
    &&& scored.fitness matches Some(fitness)
    &&& fitness.wf()
    &&& fitness.weighting.weights@ == config.weighting.weights@
    &&& fitness.scores@ == code_coverage_scores(
        creature.profile.unwrap(),
        addresses,
        code_size,
        before.addresses_visited@,
        config.weighting.weights@,
    )
}

/// Scores the coverage of a run whose visited addresses are `addresses`, in
/// an executable region of `code_size` bytes. The addresses go to the
/// address sketch in the order given.
pub fn score_coverage(
    creature: Creature,
    addresses: &Vec<u64>,
    code_size: usize,
    sketch: &mut Sketches,
    config: &Config,
) -> (scored: Creature)
    requires
        old(sketch).wf(),
        config.wf(),
        creature.profile is Some,
    ensures
        coverage_outcome(
            creature,
            addresses@,
            code_size as nat,
            *old(sketch),
            *final(sketch),
            scored,
            config,
        ),
{
    let mut creature = creature;
    let mut keys: Vec<Vec<u64>> = Vec::new();
    let mut i: usize = 0;
    while i < addresses.len()
        invariant
            i <= addresses@.len(),
            key_views(keys@) == address_keys(addresses@).take(i as int),
        decreases addresses@.len() - i,
    {
        let mut key: Vec<u64> = Vec::new();
        key.push(addresses[i]);
        let ghost before = keys@;
        keys.push(key);
        proof {
            assert(key_views(keys@) =~= key_views(before).push(seq![addresses@[i as int]]));
        }
        i += 1;
    }
    proof {
        assert(address_keys(addresses@).take(i as int) == address_keys(addresses@));
    }
    let sum = sketch.addresses_visited.observe_all(&keys);
    let avg_freq = mean(sum, keys.len(), ONE);
    let code_coverage = remainder_of(ratio(addresses.len() as u64, code_size as u64, ONE));
    let mut fitness = Weighted::new(&config.weighting);
    fitness.insert(Objective::CodeCoverage, code_coverage);
    fitness.insert(Objective::CodeFrequency, avg_freq);
    let fitness = match &creature.profile {
        Some(profile) => {
            fitness.insert(
                Objective::GadgetsExecuted,
                whole(profile.gadgets_executed.len() as u64),
            );
            fitness.insert(Objective::MemWriteRatio, remainder_of(profile.mem_write_ratio()));
            fitness
        },
        None => fitness,
    };
    creature.fitness = Some(fitness);
    creature
}

/// Whether `scored` and `after` are what the coverage policy makes of
/// `creature` and `before` for an executable region of `code_size` bytes:
/// the outcome for some order of the visited addresses.
pub open spec fn code_coverage_outcome(
    creature: Creature,
    code_size: nat,
    before: Sketches,
    after: Sketches,
    scored: Creature,
    config: &Config,
) -> bool {
    match creature.profile {
        None => after.wf() && scored.same_but_fitness(&creature) && scored.fitness
            == creature.fitness && after == before,
        Some(profile) => exists|addresses: Seq<u64>|
            lists_visited(addresses, profile.paths@) && #[trigger] coverage_outcome(
                creature,
                addresses,
                code_size,
                before,
                after,
                scored,
                config,
            ),
    }
}

/// Scores how little of the executable region the run touched. Every
/// address inside a basic block that ran goes to the address sketch, once.
/// The order in which they go is not fixed, so the outcome is that of
/// `score_coverage` for some order of the visited addresses. Without a
/// profile the individual and the sketches stay as they were.
pub fn code_coverage_ff(
    creature: Creature,
    sketch: &mut Sketches,
    config: &Config,
    memory: &MemoryImage,
) -> (scored: Creature)
    requires
        old(sketch).wf(),
        config.wf(),
    ensures
        code_coverage_outcome(
            creature,
            crate::memory::executable_size(memory.segments@),
            *old(sketch),
            *final(sketch),
            scored,
            config,
        ),
{
    let addresses = match &creature.profile {
        Some(profile) => Some(addresses_visited(profile)),
        None => None,
    };
    match addresses {
        Some(addresses) => {
            let code_size = memory.size_of_executable_memory();
            score_coverage(creature, &addresses, code_size, sketch, config)
        },
        None => creature,
    }
}

/// A run that visits as many addresses as the executable region has bytes
/// leaves nothing of it untouched: the coverage score is 0, also for an empty
/// region.
pub proof fn lemma_full_visit_leaves_nothing(code_size: nat)
    ensures
        remainder(ratio_score(code_size, code_size, ONE)) == 0,
{
    if code_size > 0 {
        lemma_ratio_of_part(code_size, code_size, ONE);
    }
}

} // verus!
