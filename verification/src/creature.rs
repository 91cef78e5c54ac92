//! An individual on its way from genome to score.

use crate::fitness::Weighted;
use crate::genotype::Genotype;
use crate::profile::Profile;
use vstd::prelude::*;

verus! {

/// How far an individual has come.
#[derive(Clone, Copy, Debug, PartialEq, Eq, Structural)]
pub enum Stage {
    /// Nothing but a genome.
    Unborn,
    /// The payload was built.
    PayloadGenerated,
    /// The payload was run.
    Profiled,
    /// The payload was found not to be runnable.
    DeclaredNonExecutable,
    /// The individual was scored.
    Scored,
}

impl Stage {
    /// How far the stage is from the start.
    pub open spec fn rank(self) -> int {
        match self {
            Stage::Unborn => 0,
            Stage::PayloadGenerated => 1,
            Stage::Profiled => 2,
            Stage::DeclaredNonExecutable => 2,
            Stage::Scored => 3,
        }
    }
}

/// An individual: its genome and, as they become known, the payload built
/// from it, the profile of its run and its fitness.
#[derive(Clone, Debug, PartialEq, Eq)]
pub struct Creature {
    pub genotype: Genotype,
    pub payload: Option<Vec<u8>>,
    pub profile: Option<Profile>,
    pub fitness: Option<Weighted>,
}

impl Creature {
    /// Whether the profile, if there is one, is well formed.
    pub open spec fn wf(&self) -> bool {
        self.profile matches Some(profile) ==> profile.wf()
    }

    /// How far the individual has come.
    pub open spec fn stage_of(&self) -> Stage {
        if self.fitness is Some {
            Stage::Scored
        } else {
            match self.profile {
                Some(profile) => if profile.executable {
                    Stage::Profiled
                } else {
                    Stage::DeclaredNonExecutable
                },
                None => if self.payload is Some {
                    Stage::PayloadGenerated
                } else {
                    Stage::Unborn
                },
            }
        }
    }

    /// Whether `self` is `before` but for its fitness.
    pub open spec fn same_but_fitness(&self, before: &Creature) -> bool {
        &&& self.genotype == before.genotype
        &&& self.payload == before.payload
        &&& self.profile == before.profile
    }

    /// Whether the profile, if there is one, is well formed.
    pub fn is_well_formed(&self) -> (ok: bool)
        ensures
            ok == self.wf(),
    {
        match &self.profile {
            Some(profile) => profile.is_well_formed(),
            None => true,
        }
    }

    /// An individual with nothing but a genome.
    pub fn new(genotype: Genotype) -> (creature: Creature)
        ensures
            creature.genotype == genotype,
            creature.payload is None,
            creature.profile is None,
            creature.fitness is None,
            creature.stage_of() == Stage::Unborn,
    {
        Creature { genotype, payload: None, profile: None, fitness: None }
    }

    /// How far the individual has come.
    pub fn stage(&self) -> (stage: Stage)
        ensures
            stage == self.stage_of(),
    {
        if self.fitness.is_some() {
            return Stage::Scored;
        }
        match &self.profile {
            Some(profile) => {
                if profile.executable {
                    Stage::Profiled
                } else {
                    Stage::DeclaredNonExecutable
                }
            },
            None => {
                if self.payload.is_some() {
                    Stage::PayloadGenerated
                } else {
                    Stage::Unborn
                }
            },
        }
    }
}

} // verus!
