//! Weighted fitness: a score for each named objective, and the weights that
//! say which objectives count.

use crate::score::WORST;
use vstd::prelude::*;

verus! {

/// The number of objectives.
pub const OBJECTIVES: usize = 10;

/// The objectives that the fitness policies score.
#[derive(Clone, Copy, Debug, PartialEq, Eq, Structural)]
pub enum Objective {
    RegisterNovelty,
    GadgetsExecuted,
    RegisterError,
    MemWriteNovelty,
    CrashCount,
    RegisterEntropy,
    Zeroes,
    MemWriteRatio,
    CodeCoverage,
    CodeFrequency,
}

impl Objective {
    /// The place of the objective in a table of objectives.
    pub open spec fn slot(self) -> int {
        match self {
            Objective::RegisterNovelty => 0,
            Objective::GadgetsExecuted => 1,
            Objective::RegisterError => 2,
            Objective::MemWriteNovelty => 3,
            Objective::CrashCount => 4,
            Objective::RegisterEntropy => 5,
            Objective::Zeroes => 6,
            Objective::MemWriteRatio => 7,
            Objective::CodeCoverage => 8,
            Objective::CodeFrequency => 9,
        }
    }

    /// The place of the objective in a table of objectives.
    pub fn index(self) -> (at: usize)
        ensures
            at == self.slot(),
            at < OBJECTIVES,
    {
        match self {
            Objective::RegisterNovelty => 0,
            Objective::GadgetsExecuted => 1,
            Objective::RegisterError => 2,
            Objective::MemWriteNovelty => 3,
            Objective::CrashCount => 4,
            Objective::RegisterEntropy => 5,
            Objective::Zeroes => 6,
            Objective::MemWriteRatio => 7,
            Objective::CodeCoverage => 8,
            Objective::CodeFrequency => 9,
        }
    }

    /// The objective at a place of the table of objectives.
    pub fn from_index(at: usize) -> (objective: Objective)
        requires
            at < OBJECTIVES,
        ensures
            objective.slot() == at,
    {
        if at == 0 {
            Objective::RegisterNovelty
        } else if at == 1 {
            Objective::GadgetsExecuted
        } else if at == 2 {
            Objective::RegisterError
        } else if at == 3 {
            Objective::MemWriteNovelty
        } else if at == 4 {
            Objective::CrashCount
        } else if at == 5 {
            Objective::RegisterEntropy
        } else if at == 6 {
            Objective::Zeroes
        } else if at == 7 {
            Objective::MemWriteRatio
        } else if at == 8 {
            Objective::CodeCoverage
        } else {
            Objective::CodeFrequency
        }
    }

    /// The name of the objective, as a configuration writes it.
    pub open spec fn name_of(self) -> Seq<char> {
        match self {
            Objective::RegisterNovelty => "register_novelty"@,
            Objective::GadgetsExecuted => "gadgets_executed"@,
            Objective::RegisterError => "register_error"@,
            Objective::MemWriteNovelty => "mem_write_novelty"@,
            Objective::CrashCount => "crash_count"@,
            Objective::RegisterEntropy => "register_entropy"@,
            Objective::Zeroes => "zeroes"@,
            Objective::MemWriteRatio => "mem_write_ratio"@,
            Objective::CodeCoverage => "code_coverage"@,
            Objective::CodeFrequency => "code_frequency"@,
        }
    }

    /// The objective called `name`, or `None` where no objective is called
    /// so.
    pub fn from_name(name: &str) -> (objective: Option<Objective>)
        ensures
            match objective {
                Some(found) => found.name_of() == name@,
                None => forall|other: Objective| other.name_of() != name@,
            },
    {
        let wanted = name.to_owned();
        let mut at: usize = 0;
        while at < OBJECTIVES
            invariant
                at <= OBJECTIVES,
                wanted@ == name@,
                forall|other: Objective| other.slot() < at ==> other.name_of() != name@,
            decreases OBJECTIVES - at,
        {
            let candidate = Objective::from_index(at);
            if candidate.name().to_owned() == wanted {
                return Some(candidate);
            }
            proof {
                assert forall|other: Objective| other.slot() < at + 1 implies other.name_of()
                    != name@ by {
                    if other.slot() == at {
                        assert(other == candidate);
                    }
                }
            }
            at += 1;
        }
        None
    }

    /// The name that the objective has in a configuration.
    pub fn name(self) -> (name: &'static str)
        ensures
            name@ == self.name_of(),
    {
        match self {
            Objective::RegisterNovelty => "register_novelty",
            Objective::GadgetsExecuted => "gadgets_executed",
            Objective::RegisterError => "register_error",
            Objective::MemWriteNovelty => "mem_write_novelty",
            Objective::CrashCount => "crash_count",
            Objective::RegisterEntropy => "register_entropy",
            Objective::Zeroes => "zeroes",
            Objective::MemWriteRatio => "mem_write_ratio",
            Objective::CodeCoverage => "code_coverage",
            Objective::CodeFrequency => "code_frequency",
        }
    }
}

/// The weight of each objective that counts. An objective without a weight
/// cannot be scored.
#[derive(Clone, Debug, PartialEq, Eq)]
pub struct Weighting {
    pub weights: Vec<Option<i64>>,
}

impl Weighting {
    /// Whether there is a place for every objective.
    pub open spec fn wf(&self) -> bool {
        self.weights@.len() == OBJECTIVES
    }

    /// The weight of `objective`, if it has one.
    pub open spec fn weight(&self, objective: Objective) -> Option<i64> {
        self.weights@[objective.slot()]
    }

    /// Whether there is a place for every objective.
    pub fn is_well_formed(&self) -> (ok: bool)
        ensures
            ok == self.wf(),
    {
        self.weights.len() == OBJECTIVES
    }

    /// A weighting under which no objective counts.
    pub fn new() -> (weighting: Weighting)
        ensures
            weighting.wf(),
            weighting.weights@ == Seq::new(OBJECTIVES as nat, |at: int| None::<i64>),
    {
        let mut weights: Vec<Option<i64>> = Vec::new();
        let mut i: usize = 0;
        while i < OBJECTIVES
            invariant
                i <= OBJECTIVES,
                weights@.len() == i,
                forall|k: int| 0 <= k < i ==> (#[trigger] weights@[k]) is None,
            decreases OBJECTIVES - i,
        {
            weights.push(None);
            i += 1;
        }
        proof {
            assert(weights@ =~= Seq::new(OBJECTIVES as nat, |at: int| None::<i64>));
        }
        Weighting { weights }
    }

    /// Gives `objective` the weight `weight`.
    pub fn set(&mut self, objective: Objective, weight: i64)
        requires
            old(self).wf(),
        ensures
            final(self).wf(),
            final(self).weights@ == old(self).weights@.update(objective.slot(), Some(weight)),
    {
        self.weights.set(objective.index(), Some(weight));
    }

    /// The weight of `objective`, if it has one.
    pub fn get(&self, objective: Objective) -> (weight: Option<i64>)
        requires
            self.wf(),
        ensures
            weight == self.weight(objective),
    {
        self.weights[objective.index()]
    }

    /// A copy of the weighting.
    pub fn duplicate(&self) -> (copy: Weighting)
        ensures
            copy.weights@ == self.weights@,
    {
        let mut weights: Vec<Option<i64>> = Vec::new();
        let mut i: usize = 0;
        while i < self.weights.len()
            invariant
                i <= self.weights@.len(),
                weights@ == self.weights@.take(i as int),
            decreases self.weights@.len() - i,
        {
            weights.push(self.weights[i]);
            i += 1;
        }
        proof {
            assert(self.weights@.take(i as int) == self.weights@);
        }
        Weighting { weights }
    }
}

/// No objective scored.
pub open spec fn no_scores() -> Seq<Option<u64>> {
    Seq::new(OBJECTIVES as nat, |at: int| None)
}

/// The scores after `objective` was scored under `weights`: an objective
/// without a weight stays without a score.
pub open spec fn with_score(
    scores: Seq<Option<u64>>,
    weights: Seq<Option<i64>>,
    objective: Objective,
    score: u64,
) -> Seq<Option<u64>> {
    if weights[objective.slot()] is Some {
        scores.update(objective.slot(), Some(score))
    } else {
        scores
    }
}

/// The scores of an individual that could not be evaluated: the worst score
/// on every objective that has a weight, and none on the others.
pub open spec fn failure_scores(weights: Seq<Option<i64>>) -> Seq<Option<u64>> {
    Seq::new(
        weights.len(),
        |at: int|
            if weights[at] is Some {
                Some(WORST)
            } else {
                None
            },
    )
}

/// The fitness of one individual: a score for each objective that was
/// scored, under a weighting.
#[derive(Clone, Debug, PartialEq, Eq)]
pub struct Weighted {
    pub weighting: Weighting,
    pub scores: Vec<Option<u64>>,
}

impl Weighted {
    /// Whether there is a place for every objective, and only objectives
    /// with a weight have a score.
    pub open spec fn wf(&self) -> bool {
        &&& self.weighting.wf()
        &&& self.scores@.len() == OBJECTIVES
        &&& forall|at: int|
            0 <= at < OBJECTIVES && (#[trigger] self.scores@[at]) is Some
                ==> self.weighting.weights@[at] is Some
    }

    /// The score of `objective`, if it has one.
    pub open spec fn score(&self, objective: Objective) -> Option<u64> {
        self.scores@[objective.slot()]
    }

    /// Whether `objective` can be scored: whether it has a weight.
    pub open spec fn insertable(&self, objective: Objective) -> bool {
        self.weighting.weight(objective) is Some
    }

    /// Whether these are the scores of an individual that could not be
    /// evaluated.
    pub open spec fn is_failure(&self) -> bool {
        self.scores@ == failure_scores(self.weighting.weights@)
    }

    /// Whether there is a place for every objective, and only objectives
    /// with a weight have a score.
    pub fn is_well_formed(&self) -> (ok: bool)
        ensures
            ok == self.wf(),
    {
        if !self.weighting.is_well_formed() || self.scores.len() != OBJECTIVES {
            return false;
        }
        let mut at: usize = 0;
        while at < OBJECTIVES
            invariant
                at <= OBJECTIVES,
                self.weighting.wf(),
                self.scores@.len() == OBJECTIVES,
                forall|k: int|
                    0 <= k < at && (#[trigger] self.scores@[k]) is Some
                        ==> self.weighting.weights@[k] is Some,
            decreases OBJECTIVES - at,
        {
            if self.scores[at].is_some() && self.weighting.weights[at].is_none() {
                return false;
            }
            at += 1;
        }
        true
    }

    /// A fitness without scores under the given weighting.
    pub fn new(weighting: &Weighting) -> (fitness: Weighted)
        requires
            weighting.wf(),
        ensures
            fitness.wf(),
            fitness.weighting.weights@ == weighting.weights@,
            fitness.scores@ == no_scores(),
    {
        let mut scores: Vec<Option<u64>> = Vec::new();
        let mut i: usize = 0;
        while i < OBJECTIVES
            invariant
                i <= OBJECTIVES,
                scores@.len() == i,
                forall|k: int| 0 <= k < i ==> (#[trigger] scores@[k]) is None,
            decreases OBJECTIVES - i,
        {
            scores.push(None);
            i += 1;
        }
        proof {
            assert(scores@ =~= no_scores());
        }
        Weighted { weighting: weighting.duplicate(), scores }
    }

    /// Scores `objective`, if it has a weight; an objective without one is
    /// left without a score.
    pub fn insert(&mut self, objective: Objective, score: u64)
        requires
            old(self).wf(),
        ensures
            final(self).wf(),
            final(self).weighting == old(self).weighting,
            final(self).scores@ == with_score(
                old(self).scores@,
                old(self).weighting.weights@,
                objective,
                score,
            ),
    {
        let at = objective.index();
        if self.weighting.weights[at].is_some() {
            self.scores.set(at, Some(score));
        }
    }

    /// The score of `objective`, if it has one.
    pub fn get(&self, objective: Objective) -> (score: Option<u64>)
        requires
            self.wf(),
        ensures
            score == self.score(objective),
    {
        self.scores[objective.index()]
    }

    /// Marks the individual as one that could not be evaluated: every
    /// objective that can be scored gets the worst score, whatever it had
    /// before.
    pub fn declare_failure(&mut self)
        requires
            old(self).wf(),
        ensures
            final(self).wf(),
            final(self).weighting == old(self).weighting,
            final(self).is_failure(),
            forall|objective: Objective|
                (#[trigger] final(self).score(objective)) is Some ==> final(self).score(objective)
                    == Some(WORST),
    {
        let mut at: usize = 0;
        while at < OBJECTIVES
            invariant
                at <= OBJECTIVES,
                self.weighting == old(self).weighting,
                self.weighting.wf(),
                self.scores@.len() == OBJECTIVES,
                forall|k: int|
                    0 <= k < at ==> (#[trigger] self.scores@[k]) == failure_scores(
                        self.weighting.weights@,
                    )[k],
                forall|k: int|
                    at <= k < OBJECTIVES ==> (#[trigger] self.scores@[k]) == old(self).scores@[k],
                old(self).wf(),
            decreases OBJECTIVES - at,
        {
            if self.weighting.weights[at].is_some() {
                self.scores.set(at, Some(WORST));
            } else {
                self.scores.set(at, None);
            }
            at += 1;
        }
        proof {
            assert(self.scores@ =~= failure_scores(self.weighting.weights@));
        }
    }
}

/// The failure scores depend on the weighting alone: two individuals under
/// one weighting fail alike. Every score among them is the worst.
pub proof fn lemma_failure_is_worst(weights: Seq<Option<i64>>, at: int)
    requires
        0 <= at < weights.len(),
    ensures
        failure_scores(weights).len() == weights.len(),
        failure_scores(weights)[at] is Some <==> weights[at] is Some,
        failure_scores(weights)[at] is Some ==> failure_scores(weights)[at] == Some(WORST),
{
}

} // verus!
