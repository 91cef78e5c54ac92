use roper::fitness::{Objective, Weighted, Weighting, OBJECTIVES};
use roper::score::{ratio, whole, ONE, WORST};

fn all_objectives() -> [Objective; 10] {
    [
        Objective::RegisterNovelty,
        Objective::GadgetsExecuted,
        Objective::RegisterError,
        Objective::MemWriteNovelty,
        Objective::CrashCount,
        Objective::RegisterEntropy,
        Objective::Zeroes,
        Objective::MemWriteRatio,
        Objective::CodeCoverage,
        Objective::CodeFrequency,
    ]
}

#[test]
fn objectives_have_places_and_names() {
    assert_eq!(OBJECTIVES, 10);
    for (at, objective) in all_objectives().into_iter().enumerate() {
        assert_eq!(objective.index(), at);
    }
    assert_eq!(Objective::RegisterNovelty.name(), "register_novelty");
    assert_eq!(Objective::GadgetsExecuted.name(), "gadgets_executed");
    assert_eq!(Objective::RegisterError.name(), "register_error");
    assert_eq!(Objective::MemWriteNovelty.name(), "mem_write_novelty");
    assert_eq!(Objective::CrashCount.name(), "crash_count");
    assert_eq!(Objective::RegisterEntropy.name(), "register_entropy");
    assert_eq!(Objective::Zeroes.name(), "zeroes");
    assert_eq!(Objective::MemWriteRatio.name(), "mem_write_ratio");
    assert_eq!(Objective::CodeCoverage.name(), "code_coverage");
    assert_eq!(Objective::CodeFrequency.name(), "code_frequency");
}

#[test]
fn a_new_weighting_weighs_nothing() {
    let weighting = Weighting::new();
    for objective in all_objectives() {
        assert_eq!(weighting.get(objective), None);
    }
}

#[test]
fn weights_are_kept_by_objective() {
    let mut weighting = Weighting::new();
    weighting.set(Objective::Zeroes, -3);
    weighting.set(Objective::CrashCount, 2);
    weighting.set(Objective::Zeroes, 5);
    assert_eq!(weighting.get(Objective::Zeroes), Some(5));
    assert_eq!(weighting.get(Objective::CrashCount), Some(2));
    assert_eq!(weighting.get(Objective::CodeCoverage), None);
    assert_eq!(weighting.duplicate(), weighting);
}

#[test]
fn only_a_weighted_objective_is_scored() {
    let mut weighting = Weighting::new();
    weighting.set(Objective::RegisterError, 1);
    let mut fitness = Weighted::new(&weighting);
    assert_eq!(fitness.get(Objective::RegisterError), None);
    fitness.insert(Objective::RegisterError, 17);
    fitness.insert(Objective::CrashCount, 99);
    assert_eq!(fitness.get(Objective::RegisterError), Some(17));
    assert_eq!(fitness.get(Objective::CrashCount), None);
    fitness.insert(Objective::RegisterError, 18);
    assert_eq!(fitness.get(Objective::RegisterError), Some(18));
}

#[test]
fn failure_is_the_worst_score_on_every_weighted_objective() {
    let mut weighting = Weighting::new();
    weighting.set(Objective::RegisterError, 1);
    weighting.set(Objective::GadgetsExecuted, -1);
    weighting.set(Objective::CodeFrequency, 4);
    let mut fitness = Weighted::new(&weighting);
    fitness.declare_failure();
    for objective in all_objectives() {
        let want = match objective {
            Objective::RegisterError | Objective::GadgetsExecuted | Objective::CodeFrequency => {
                Some(u64::MAX)
            }
            _ => None,
        };
        assert_eq!(fitness.get(objective), want);
    }
    assert_eq!(WORST, u64::MAX);
}

#[test]
fn failure_does_not_depend_on_earlier_scores() {
    let mut weighting = Weighting::new();
    weighting.set(Objective::Zeroes, 1);
    weighting.set(Objective::CrashCount, 1);
    let mut fresh = Weighted::new(&weighting);
    let mut used = Weighted::new(&weighting);
    used.insert(Objective::Zeroes, 3);
    used.insert(Objective::CrashCount, 0);
    fresh.declare_failure();
    used.declare_failure();
    assert_eq!(fresh, used);
    used.declare_failure();
    assert_eq!(fresh, used);
}

#[test]
fn failure_under_no_weights_scores_nothing() {
    let mut fitness = Weighted::new(&Weighting::new());
    fitness.declare_failure();
    assert_eq!(fitness.scores, vec![None; 10]);
}

#[test]
fn whole_numbers_as_scores() {
    assert_eq!(ONE, 1_000_000);
    assert_eq!(whole(0), 0);
    assert_eq!(whole(1), 1_000_000);
    assert_eq!(whole(37), 37_000_000);
    assert_eq!(whole(u64::MAX), u64::MAX);
    assert_eq!(whole(18_446_744_073_709), 18_446_744_073_709_000_000);
    assert_eq!(whole(18_446_744_073_710), u64::MAX);
}

#[test]
fn ratios_as_scores() {
    assert_eq!(ratio(1, 2, 0), 500_000);
    assert_eq!(ratio(1, 3, 0), 333_333);
    assert_eq!(ratio(3, 3, 0), 1_000_000);
    assert_eq!(ratio(0, 3, 9), 0);
    assert_eq!(ratio(7, 2, 0), 3_500_000);
    assert_eq!(ratio(5, 0, 0), 0);
    assert_eq!(ratio(5, 0, ONE), ONE);
    assert_eq!(ratio(u64::MAX, 1, 0), u64::MAX);
}

#[test]
fn objectives_are_found_by_name() {
    for objective in all_objectives() {
        assert_eq!(Objective::from_name(objective.name()), Some(objective));
        assert_eq!(Objective::from_index(objective.index()), objective);
    }
    assert_eq!(Objective::from_name("zeroes"), Some(Objective::Zeroes));
    assert_eq!(Objective::from_name("Zeroes"), None);
    assert_eq!(Objective::from_name(""), None);
    assert_eq!(Objective::from_name("register"), None);
}

#[test]
fn well_formed_fitness_has_a_place_for_every_objective() {
    let mut weighting = Weighting::new();
    assert!(weighting.is_well_formed());
    weighting.set(Objective::Zeroes, 1);
    let mut fitness = Weighted::new(&weighting);
    fitness.insert(Objective::Zeroes, 2);
    assert!(fitness.is_well_formed());
    fitness.scores[0] = Some(1);
    assert!(!fitness.is_well_formed());
    fitness.scores[0] = None;
    fitness.scores.pop();
    assert!(!fitness.is_well_formed());
    weighting.weights.push(None);
    assert!(!weighting.is_well_formed());
}
