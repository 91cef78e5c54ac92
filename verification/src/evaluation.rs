//! The evaluator: it takes an individual from genome to score. Building the
//! payload and running it are the work of an interpreter and an emulator
//! outside this library, so development is a step function: it says what is
//! to be done next, and takes the result in.

use crate::chance::{seeded_values, seeded_words};
use crate::config::Config;
use crate::creature::Creature;
use crate::fitness::Weighted;
use crate::fitness_functions::{
    code_coverage_ff, code_coverage_outcome, just_novelty_ff, just_novelty_outcome,
    register_conjunction_ff, register_conjunction_outcome, register_entropy_ff,
    register_entropy_outcome, register_pattern_ff, register_pattern_outcome,
};
use crate::memory::{executable_size, MemoryImage};
use crate::pattern::{
    all_known, id_of, named_targets, resolved, targets, RegisterName, RegisterPattern,
    RegisterTable,
};
use crate::profile::Profile;
use crate::sketch::Sketches;
use vstd::prelude::*;

verus! {

/// The fitness policies.
#[derive(Clone, Copy, Debug, PartialEq, Eq, Structural)]
pub enum FitnessPolicy {
    JustNovelty,
    RegisterPattern,
    RegisterEntropy,
    RegisterConjunction,
    CodeCoverage,
}

/// What came back from outside since the last step.
#[derive(Clone, Debug, PartialEq, Eq)]
pub enum DevelopEvent {
    /// Nothing: development starts, or starts again.
    Start,
    /// The interpreter built this payload.
    Payload(Vec<u8>),
    /// The emulator ran the payload and recorded this profile.
    Profile(Profile),
}

/// What is to be done outside before the next step.
#[derive(Clone, Copy, Debug, PartialEq, Eq, Structural)]
pub enum DevelopAction {
    /// Run the interpreter on the chromosome, without arguments, for at most
    /// `max_steps` steps, and hand back the payload.
    RunInterpreter { max_steps: usize },
    /// Run the payload in the emulator and hand back the profile.
    RunEmulator,
    /// Nothing: the individual has a profile.
    Done,
}

/// Why no evaluator could be made.
#[derive(Clone, Copy, Debug, PartialEq, Eq, Structural)]
pub enum SpawnError {
    /// The register pattern names a register, at this place, that the
    /// architecture does not have.
    UnknownPatternRegister(usize),
    /// The output registers name a register, at this place, that the
    /// architecture does not have.
    UnknownOutputRegister(usize),
}

/// Whether the architecture has every one of `names`.
pub open spec fn names_known(names: Seq<String>, registers: Seq<RegisterName>) -> bool {
    forall|i: int| 0 <= i < names.len() ==> id_of(registers, (#[trigger] names[i])@) is Some
}

/// The numbers of the registers called `names`.
pub open spec fn numbers_of(names: Seq<String>, registers: Seq<RegisterName>) -> Seq<u32> {
    Seq::new(names.len(), |i: int| id_of(registers, names[i]@).unwrap())
}

/// The registers that `entries` name, in order.
pub open spec fn registers_of(entries: Seq<(u32, u64)>) -> Seq<u32> {
    Seq::new(entries.len(), |i: int| entries[i].0)
}

/// `registers` without the repetitions that follow one another directly.
pub open spec fn deduped(registers: Seq<u32>) -> Seq<u32>
    decreases registers.len(),
{
    if registers.len() == 0 {
        Seq::empty()
    } else {
        let rest = deduped(registers.drop_last());
        if rest.len() > 0 && rest.last() == registers.last() {
            rest
        } else {
            rest.push(registers.last())
        }
    }
}

/// The registers to read after a run: the configured ones and, where there
/// is a pattern, those of the pattern after them, without direct
/// repetitions.
pub open spec fn outputs_of(configured: Seq<u32>, pattern: Option<Seq<(u32, u64)>>) -> Seq<u32> {
    match pattern {
        Some(entries) => deduped(configured + registers_of(entries)),
        None => configured,
    }
}

/// What the step makes of the individual before it decides: a payload or a
/// profile that comes in fills the place that is still empty, and a payload
/// that turns out empty gets the profile of a run that never was.
pub open spec fn taken_in(creature: Creature, event: DevelopEvent) -> (Option<Vec<u8>>, bool) {
    let payload = match event {
        DevelopEvent::Payload(bytes) => if creature.payload is None {
            Some(bytes)
        } else {
            creature.payload
        },
        _ => creature.payload,
    };
    (payload, creature.profile is Some || event is Profile)
}

/// What is to be done next for an individual with the given payload, and
/// with or without a profile.
pub open spec fn next_action(
    payload: Option<Vec<u8>>,
    profiled: bool,
    max_steps: usize,
) -> DevelopAction {
    match payload {
        None => DevelopAction::RunInterpreter { max_steps },
        Some(bytes) => if !profiled && bytes@.len() > 0 {
            DevelopAction::RunEmulator
        } else {
            DevelopAction::Done
        },
    }
}

/// Whether `step` is what one step of development makes of `creature` when
/// `event` comes in.
pub open spec fn is_step(
    creature: Creature,
    event: DevelopEvent,
    max_steps: usize,
    step: (Creature, DevelopAction),
) -> bool {
    &&& step.0.genotype == creature.genotype
    &&& step.0.fitness == creature.fitness
    &&& step.0.payload == taken_in(creature, event).0
    &&& step.1 == next_action(taken_in(creature, event).0, taken_in(creature, event).1, max_steps)
    &&& match creature.profile {
        Some(profile) => step.0.profile == Some(profile),
        None => match event {
            DevelopEvent::Profile(profile) => step.0.profile == Some(profile),
            _ => match step.0.payload {
                Some(bytes) => if bytes@.len() == 0 {
                    step.0.profile matches Some(profile) && !profile.executable && profile.wf()
                } else {
                    step.0.profile is None
                },
                None => step.0.profile is None,
            },
        },
    }
    &&& step.1 == DevelopAction::Done ==> step.0.profile is Some
}

/// Scores individuals under one policy, with the sketches of one session.
#[derive(Debug)]
pub struct Evaluator {
    pub config: Config,
    pub sketches: Sketches,
    pub fitness_fn: FitnessPolicy,
    /// The registers to read after a run.
    pub output_registers: Vec<u32>,
    /// The register values that a run starts from: for each start state one
    /// value for each output register.
    pub inputs: Vec<Vec<u64>>,
}

/// Whether `scored` and `after` are what the policy makes of `creature` and
/// `before`.
pub open spec fn policy_outcome(
    policy: FitnessPolicy,
    creature: Creature,
    before: Sketches,
    after: Sketches,
    scored: Creature,
    config: &Config,
    memory: &MemoryImage,
    entropy: u64,
) -> bool {
    match policy {
        FitnessPolicy::JustNovelty => just_novelty_outcome(creature, before, after, scored, config),
        FitnessPolicy::RegisterPattern => register_pattern_outcome(
            creature,
            before,
            after,
            scored,
            config,
        ),
        FitnessPolicy::RegisterEntropy => register_entropy_outcome(
            creature,
            entropy,
            before,
            after,
            scored,
            config,
        ),
        FitnessPolicy::RegisterConjunction => register_conjunction_outcome(
            creature,
            memory.word_size as nat,
            before,
            after,
            scored,
            config,
        ),
        FitnessPolicy::CodeCoverage => code_coverage_outcome(
            creature,
            executable_size(memory.segments@),
            before,
            after,
            scored,
            config,
        ),
    }
}

impl Evaluator {
    /// Whether the configuration and the sketches are well formed.
    pub open spec fn wf(&self) -> bool {
        self.config.wf() && self.sketches.wf()
    }

    /// Whether the configuration and the sketches are well formed.
    pub fn is_well_formed(&self) -> (ok: bool)
        ensures
            ok == self.wf(),
    {
        self.config.is_well_formed() && self.sketches.is_well_formed()
    }

    /// An evaluator for one session. The names of the register pattern and
    /// of the output registers are looked up in `table`; a name that the
    /// architecture does not have is an error, that of the pattern first.
    /// The registers to read are the configured ones, followed, where there
    /// is a pattern, by the pattern's, without direct repetitions. A run
    /// starts with every one of them at 1, or, where the configuration asks
    /// for random registers, at the values that the configured seed gives.
    /// The sketches start empty.
    pub fn spawn(config: Config, fitness_fn: FitnessPolicy, table: &RegisterTable) -> (spawned:
        Result<Evaluator, SpawnError>)
        requires
            config.wf(),
        ensures
            match spawned {
                Ok(evaluator) => {
                    &&& evaluator.wf()
                    &&& evaluator.sketches.is_fresh()
                    &&& evaluator.fitness_fn == fitness_fn
                    &&& evaluator.config.same_but_pattern(&config)
                    &&& names_known(config.output_registers@, table.registers@)
                    &&& match config.register_pattern {
                        Some(named) => {
                            &&& all_known(named_targets(named.0), table.registers@)
                            &&& evaluator.config.pattern matches Some(found)
                            &&& targets(found.0) == resolved(
                                named_targets(named.0),
                                table.registers@,
                            )
                            &&& evaluator.output_registers@ == outputs_of(
                                numbers_of(config.output_registers@, table.registers@),
                                Some(targets(found.0)),
                            )
                        },
                        None => {
                            &&& evaluator.config.pattern is None
                            &&& evaluator.output_registers@ == numbers_of(
                                config.output_registers@,
                                table.registers@,
                            )
                        },
                    }
                    &&& evaluator.inputs@.len() == 1
                    &&& evaluator.inputs@[0]@ == if config.randomize_registers {
                        seeded_words(config.random_seed, evaluator.output_registers@.len())
                    } else {
                        Seq::new(evaluator.output_registers@.len(), |i: int| 1u64)
                    }
                },
                Err(SpawnError::UnknownPatternRegister(at)) => {
                    &&& config.register_pattern matches Some(named)
                    &&& at < named_targets(named.0).len()
                    &&& id_of(table.registers@, named_targets(named.0)[at as int].0) is None
                    &&& all_known(named_targets(named.0).take(at as int), table.registers@)
                },
                Err(SpawnError::UnknownOutputRegister(at)) => {
                    &&& config.register_pattern matches Some(named) ==> all_known(
                        named_targets(named.0),
                        table.registers@,
                    )
                    &&& at < config.output_registers@.len()
                    &&& id_of(table.registers@, config.output_registers@[at as int]@) is None
                    &&& names_known(config.output_registers@.take(at as int), table.registers@)
                },
            },
    {
        let mut config = config;
        let pattern = match &config.register_pattern {
            Some(named) => match RegisterPattern::resolve(named, table) {
                Ok(found) => Some(found),
                Err(at) => {
                    return Err(SpawnError::UnknownPatternRegister(at));
                },
            },
            None => None,
        };
        let mut out_reg = match registers_called(&config.output_registers, table) {
            Ok(numbers) => numbers,
            Err(at) => {
                return Err(SpawnError::UnknownOutputRegister(at));
            },
        };
        let output_registers = match &pattern {
            Some(found) => {
                let ghost configured = out_reg@;
                let mut i: usize = 0;
                while i < found.len()
                    invariant
                        i <= targets(found.0).len(),
                        out_reg@ == configured + registers_of(targets(found.0)).take(i as int),
                    decreases targets(found.0).len() - i,
                {
                    let (register, _) = found.entry(i);
                    out_reg.push(register);
                    proof {
                        assert(registers_of(targets(found.0)).take(i as int + 1) == registers_of(
                            targets(found.0),
                        ).take(i as int).push(register));
                    }
                    i += 1;
                }
                proof {
                    assert(registers_of(targets(found.0)).take(i as int) == registers_of(
                        targets(found.0),
                    ));
                }
                dedup(&out_reg)
            },
            None => out_reg,
        };
        let state = if config.randomize_registers {
            seeded_values(config.random_seed, output_registers.len())
        } else {
            let mut ones: Vec<u64> = Vec::new();
            let mut i: usize = 0;
            while i < output_registers.len()
                invariant
                    i <= output_registers@.len(),
                    ones@ == Seq::new(i as nat, |k: int| 1u64),
                decreases output_registers@.len() - i,
            {
                ones.push(1);
                proof {
                    assert(ones@ =~= Seq::new((i + 1) as nat, |k: int| 1u64));
                }
                i += 1;
            }
            ones
        };
        let mut inputs: Vec<Vec<u64>> = Vec::new();
        inputs.push(state);
        config.pattern = pattern;
        let sketches = Sketches::new();
        Ok(Evaluator { config, sketches, fitness_fn, output_registers, inputs })
    }

    /// One step of development. What comes in with `event` is taken in: a
    /// payload where the individual has none, a profile where it has none.
    /// Then the step decides. Without a payload the interpreter is to run.
    /// With a payload that is not empty and no profile the emulator is to
    /// run. An empty payload is never run: the individual gets the profile
    /// of a payload that cannot be run, and is done. With a profile the
    /// individual is done and stays as it is.
    pub fn develop(&self, creature: Creature, event: DevelopEvent) -> (step: (
        Creature,
        DevelopAction,
    ))
        ensures
            is_step(creature, event, self.config.max_steps, step),
    {
        let mut creature = creature;
        match event {
            DevelopEvent::Start => {},
            DevelopEvent::Payload(bytes) => {
                if creature.payload.is_none() {
                    creature.payload = Some(bytes);
                }
            },
            DevelopEvent::Profile(profile) => {
                if creature.profile.is_none() {
                    creature.profile = Some(profile);
                }
            },
        }
        if creature.profile.is_some() {
            let action = action_for(&creature, self.config.max_steps);
            return (creature, action);
        }
        let empty_payload = match &creature.payload {
            Some(bytes) => Some(bytes.len() == 0),
            None => None,
        };
        match empty_payload {
            None => (creature, DevelopAction::RunInterpreter { max_steps: self.config.max_steps }),
            Some(false) => (creature, DevelopAction::RunEmulator),
            Some(true) => {
                creature.profile = Some(Profile::non_executable());
                (creature, DevelopAction::Done)
            },
        }
    }

    /// The first step of development for each of `inbound`, in the order in
    /// which they came. The steps do not touch the sketches, so they may as
    /// well be taken side by side.
    pub fn development_pipeline(&self, inbound: Vec<Creature>) -> (steps: Vec<
        (Creature, DevelopAction),
    >)
        ensures
            steps@.len() == inbound@.len(),
            forall|i: int|
                0 <= i < inbound@.len() ==> is_step(
                    inbound@[i],
                    DevelopEvent::Start,
                    self.config.max_steps,
                    #[trigger] steps@[i],
                ),
    {
        let mut steps: Vec<(Creature, DevelopAction)> = Vec::new();
        for creature in it: inbound
            invariant
                steps@.len() == it.index(),
                forall|i: int|
                    0 <= i < steps@.len() ==> is_step(
                        it.seq()[i],
                        DevelopEvent::Start,
                        self.config.max_steps,
                        #[trigger] steps@[i],
                    ),
        {
            steps.push(self.develop(creature, DevelopEvent::Start));
        }
        steps
    }

    /// Scores an individual that has a profile. One that could not be run
    /// fails: it gets the worst score on every objective, and the sketches
    /// stay as they are. Any other is scored by the evaluator's policy, which
    /// records what it saw in the sketches. `entropy` is read by the entropy
    /// policy alone.
    pub fn apply_fitness_function(
        &mut self,
        creature: Creature,
        memory: &MemoryImage,
        entropy: u64,
    ) -> (scored: Creature)
        requires
            old(self).wf(),
            creature.profile is Some,
            creature.wf(),
            memory.wf(),
        ensures
            final(self).wf(),
            final(self).config == old(self).config,
            final(self).fitness_fn == old(self).fitness_fn,
            final(self).output_registers == old(self).output_registers,
            final(self).inputs == old(self).inputs,
            scored.same_but_fitness(&creature),
            !creature.profile.unwrap().executable ==> {
                &&& final(self).sketches == old(self).sketches
                &&& scored.fitness matches Some(fitness)
                &&& fitness.wf()
                &&& fitness.weighting.weights@ == old(self).config.weighting.weights@
                &&& fitness.is_failure()
            },
            creature.profile.unwrap().executable ==> policy_outcome(
                old(self).fitness_fn,
                creature,
                old(self).sketches,
                final(self).sketches,
                scored,
                &old(self).config,
                memory,
                entropy,
            ),
    {
        let executable = match &creature.profile {
            Some(profile) => profile.executable,
            None => false,
        };
        if !executable {
            let mut creature = creature;
            let mut fitness = Weighted::new(&self.config.weighting);
            fitness.declare_failure();
            creature.fitness = Some(fitness);
            creature
        } else {
            match self.fitness_fn {
                FitnessPolicy::JustNovelty => just_novelty_ff(
                    creature,
                    &mut self.sketches,
                    &self.config,
                ),
                FitnessPolicy::RegisterPattern => register_pattern_ff(
                    creature,
                    &mut self.sketches,
                    &self.config,
                ),
                FitnessPolicy::RegisterEntropy => register_entropy_ff(
                    creature,
                    &mut self.sketches,
                    &self.config,
                    entropy,
                ),
                FitnessPolicy::RegisterConjunction => register_conjunction_ff(
                    creature,
                    &mut self.sketches,
                    &self.config,
                    memory,
                ),
                FitnessPolicy::CodeCoverage => code_coverage_ff(
                    creature,
                    &mut self.sketches,
                    &self.config,
                    memory,
                ),
            }
        }
    }
}

/// What is to be done next for `creature`.
fn action_for(creature: &Creature, max_steps: usize) -> (action: DevelopAction)
    ensures
        action == next_action(creature.payload, creature.profile is Some, max_steps),
{
    match &creature.payload {
        None => DevelopAction::RunInterpreter { max_steps },
        Some(bytes) => {
            if creature.profile.is_none() && bytes.len() > 0 {
                DevelopAction::RunEmulator
            } else {
                DevelopAction::Done
            }
        },
    }
}

/// The numbers of the registers called `names`, or the place of the first
/// name that the architecture does not have.
fn registers_called(names: &Vec<String>, table: &RegisterTable) -> (numbers: Result<
    Vec<u32>,
    usize,
>)
    ensures
        match numbers {
            Ok(found) => names_known(names@, table.registers@) && found@ == numbers_of(
                names@,
                table.registers@,
            ),
            Err(at) => at < names@.len() && id_of(table.registers@, names@[at as int]@) is None
                && names_known(names@.take(at as int), table.registers@),
        },
{
    let mut found: Vec<u32> = Vec::new();
    let mut i: usize = 0;
    while i < names.len()
        invariant
            i <= names@.len(),
            names_known(names@.take(i as int), table.registers@),
            found@ == numbers_of(names@, table.registers@).take(i as int),
        decreases names@.len() - i,
    {
        match table.lookup(&names[i]) {
            Some(id) => {
                found.push(id);
                proof {
                    assert forall|k: int| 0 <= k < i + 1 implies id_of(
                        table.registers@,
                        (#[trigger] names@.take(i as int + 1)[k])@,
                    ) is Some by {
                        if k < i {
                            assert(names@.take(i as int)[k] == names@[k]);
                        }
                    }
                }
            },
            None => {
                return Err(i);
            },
        }
        i += 1;
    }
    proof {
        assert(names@.take(i as int) == names@);
        assert(numbers_of(names@, table.registers@).take(i as int) == numbers_of(
            names@,
            table.registers@,
        ));
    }
    Ok(found)
}

/// `registers` without the repetitions that follow one another directly.
fn dedup(registers: &Vec<u32>) -> (kept: Vec<u32>)
    ensures
        kept@ == deduped(registers@),
{
    let mut kept: Vec<u32> = Vec::new();
    let mut i: usize = 0;
    while i < registers.len()
        invariant
            i <= registers@.len(),
            kept@ == deduped(registers@.take(i as int)),
        decreases registers@.len() - i,
    {
        proof {
            assert(registers@.take(i as int + 1).drop_last() == registers@.take(i as int));
            assert(registers@.take(i as int + 1).last() == registers@[i as int]);
        }
        let register = registers[i];
        if kept.len() == 0 || kept[kept.len() - 1] != register {
            kept.push(register);
        }
        i += 1;
    }
    proof {
        assert(registers@.take(i as int) == registers@);
    }
    kept
}

/// Development is idempotent: a step on an individual that has a payload
/// and a profile hands it back unchanged, whatever comes in, and asks for
/// nothing more.
pub proof fn lemma_profiled_stays(
    creature: Creature,
    event: DevelopEvent,
    max_steps: usize,
    step: (Creature, DevelopAction),
)
    requires
        creature.payload is Some,
        creature.profile is Some,
        is_step(creature, event, max_steps, step),
    ensures
        step.0 == creature,
        step.1 == DevelopAction::Done,
{
}

/// An empty payload is never run: the step after it came in, or any later
/// step before there is a profile, marks the individual as not executable
/// and does not ask for the emulator.
pub proof fn lemma_empty_payload_is_not_run(
    creature: Creature,
    event: DevelopEvent,
    max_steps: usize,
    step: (Creature, DevelopAction),
)
    requires
        creature.profile is None,
        !(event is Profile),
        taken_in(creature, event).0 matches Some(bytes) && bytes@.len() == 0,
        is_step(creature, event, max_steps, step),
    ensures
        step.1 == DevelopAction::Done,
        step.0.profile matches Some(profile) && !profile.executable,
{
}

/// Development only goes forward: a step never takes an individual back to
/// an earlier stage.
pub proof fn lemma_development_advances(
    creature: Creature,
    event: DevelopEvent,
    max_steps: usize,
    step: (Creature, DevelopAction),
)
    requires
        is_step(creature, event, max_steps, step),
    ensures
        step.0.stage_of().rank() >= creature.stage_of().rank(),
{
}

} // verus!
