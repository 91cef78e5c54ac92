//! The settings of a run.

use crate::fitness::Weighting;
use crate::pattern::{RegisterPattern, RegisterPatternConfig};
use vstd::prelude::*;

verus! {

/// The processor architectures that a target can have.
#[derive(Clone, Copy, Debug, PartialEq, Eq, Structural)]
pub enum Arch {
    Arm,
    Arm64,
    Mips,
    X86,
    Ppc,
    Sparc,
    M68k,
}

/// The modes that a processor can run in.
#[derive(Clone, Copy, Debug, PartialEq, Eq, Structural)]
pub enum Mode {
    LittleEndian,
    BigEndian,
    Mode16,
    Mode32,
    Mode64,
    Thumb,
    MClass,
    V8,
}

/// The settings that the genetic operators and the evaluator read.
#[derive(Debug)]
pub struct Config {
    pub binary_file: String,
    pub gadget_file: String,
    /// The vocabulary of gene values that founders are sampled from.
    pub soup: Vec<u64>,
    /// The architecture of the target. The word size and the byte order that
    /// follow from architecture and mode come with the memory image.
    pub arch: Arch,
    /// The mode of the target's processor.
    pub mode: Mode,
    pub population_size: usize,
    pub num_offspring: usize,
    pub tournament_size: usize,
    /// The least length of a founder's chromosome.
    pub min_init_len: usize,
    /// The length that a founder's chromosome stays below.
    pub max_init_len: usize,
    pub max_final_len: usize,
    pub observer_window_size: usize,
    pub data_file: Option<String>,
    /// The register pattern by register name, if the run has one.
    pub register_pattern: Option<RegisterPatternConfig>,
    /// The register pattern by register number, once the names were looked
    /// up.
    pub pattern: Option<RegisterPattern>,
    /// The names of the registers to read after a run.
    pub output_registers: Vec<String>,
    /// Whether a run starts from random register values.
    pub randomize_registers: bool,
    /// The seed of those random values.
    pub random_seed: u64,
    /// The number of steps that the interpreter may take to build a payload.
    pub max_steps: usize,
    /// The weights of the objectives.
    pub weighting: Weighting,
}

impl Config {
    /// Whether the weighting has a place for every objective.
    pub open spec fn wf(&self) -> bool {
        self.weighting.wf()
    }

    /// Whether the weighting has a place for every objective.
    pub fn is_well_formed(&self) -> (ok: bool)
        ensures
            ok == self.wf(),
    {
        self.weighting.is_well_formed()
    }

    /// The number of individuals that a tournament draws.
    pub fn tournament_size(&self) -> (size: usize)
        ensures
            size == self.tournament_size,
    {
        self.tournament_size
    }

    /// The number of individuals in a population.
    pub fn population_size(&self) -> (size: usize)
        ensures
            size == self.population_size,
    {
        self.population_size
    }

    /// The number of individuals that an observer looks back on.
    pub fn observer_window_size(&self) -> (size: usize)
        ensures
            size == self.observer_window_size,
    {
        self.observer_window_size
    }

    /// The number of children that a mating gives.
    pub fn num_offspring(&self) -> (count: usize)
        ensures
            count == self.num_offspring,
    {
        self.num_offspring
    }

    /// The greatest length that a chromosome may grow to.
    pub fn max_length(&self) -> (len: usize)
        ensures
            len == self.max_final_len,
    {
        self.max_final_len
    }

    /// Whether `self` is `other` but for the pattern by register number.
    pub open spec fn same_but_pattern(&self, other: &Config) -> bool {
        &&& self.binary_file == other.binary_file
        &&& self.gadget_file == other.gadget_file
        &&& self.soup == other.soup
        &&& self.arch == other.arch
        &&& self.mode == other.mode
        &&& self.population_size == other.population_size
        &&& self.num_offspring == other.num_offspring
        &&& self.tournament_size == other.tournament_size
        &&& self.min_init_len == other.min_init_len
        &&& self.max_init_len == other.max_init_len
        &&& self.max_final_len == other.max_final_len
        &&& self.observer_window_size == other.observer_window_size
        &&& self.data_file == other.data_file
        &&& self.register_pattern == other.register_pattern
        &&& self.output_registers == other.output_registers
        &&& self.randomize_registers == other.randomize_registers
        &&& self.random_seed == other.random_seed
        &&& self.max_steps == other.max_steps
        &&& self.weighting == other.weighting
    }
}

/// The least length of a founder's chromosome where none is configured.
pub fn default_min_init_len() -> (len: usize)
    ensures
        len == 1,
{
    1
}

/// The bound on a founder's chromosome where none is configured.
pub fn default_max_init_len() -> (len: usize)
    ensures
        len == 64,
{
    64
}

} // verus!
