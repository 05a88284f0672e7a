use talloc_solver::costs::{constraint_from_name, cost_word, Constraint, CostConfig, CostCount, CostPossibility};
use talloc_solver::errors::Error;

fn entries(pairs: &[(&str, CostPossibility)]) -> Vec<(String, CostPossibility)> {
    pairs.iter().map(|(n, v)| (n.to_string(), *v)).collect()
}

fn full(extra: &[(&str, CostPossibility)]) -> Vec<(String, CostPossibility)> {
    let mut v = entries(&[
        ("assigned_possible", CostPossibility::Value(1)),
        ("assigned_dislike", CostPossibility::Value(2)),
        ("unassigned_session", CostPossibility::Value(3)),
        ("below_min_tut", CostPossibility::Value(4)),
        ("below_min_lab", CostPossibility::Value(5)),
        ("below_min_class", CostPossibility::Value(6)),
        ("above_max_tut", CostPossibility::Value(7)),
        ("above_max_lab", CostPossibility::Value(8)),
        ("above_max_class", CostPossibility::Value(9)),
        ("direct_overlap", CostPossibility::Infinity),
        ("padded_overlap", CostPossibility::Value(0)),
        ("same_day_overlap", CostPossibility::Value(11)),
    ]);
    v.extend(entries(extra));
    v
}

#[test]
fn defaults_fill_in_missing_weights() {
    let cfg = CostConfig::from_entries(&full(&[])).unwrap();
    assert_eq!(cfg.get(Constraint::AssignedPreferred), CostPossibility::Value(0));
    assert_eq!(cfg.get(Constraint::AssignedImpossible), CostPossibility::Infinity);
    assert_eq!(cfg.get(Constraint::MismatchedInitialSolution), CostPossibility::Value(0));
    assert_eq!(cfg.get(Constraint::SameDayOverlap), CostPossibility::Value(11));
    assert!(cfg.should_count(Constraint::DirectOverlap));
    assert!(!cfg.should_count(Constraint::PaddedOverlap));
    assert!(cfg.should_count(Constraint::SameDayOverlap));
}

#[test]
fn duplicate_weight_is_an_error() {
    let r = CostConfig::from_entries(&full(&[("unassigned_session", CostPossibility::Value(1))]));
    assert!(matches!(r, Err(Error::DuplicateCost { .. })));
}

#[test]
fn missing_weight_is_an_error() {
    let mut v = full(&[]);
    v.retain(|(n, _)| n != "below_min_lab");
    let r = CostConfig::from_entries(&v);
    assert!(matches!(r, Err(Error::MissingCost { .. })));
}

#[test]
fn unknown_weight_is_an_error() {
    let r = CostConfig::from_entries(&full(&[("no_such_cost", CostPossibility::Value(1))]));
    assert!(matches!(r, Err(Error::UnknownCost { .. })));
}

#[test]
fn constraint_names_round_trip() {
    for i in 0..15 {
        let k = Constraint::from_index(i);
        assert_eq!(constraint_from_name(k.name()), Some(k));
    }
    assert_eq!(Constraint::AboveMaxClass.name(), "above_max_class");
    assert_eq!(constraint_from_name("Direct_Overlap"), None);
}

#[test]
fn total_is_weighted_sum() {
    let cfg = CostConfig::from_entries(&full(&[])).unwrap();
    let mut c = CostCount::new();
    c.add_cost(Constraint::AssignedDislike, 3);
    c.add_cost_1(Constraint::UnassignedSession);
    c.add_cost(Constraint::AboveMaxClass, 2);
    c.add_cost(Constraint::PaddedOverlap, 40);
    assert_eq!(c.total_cost(&cfg), Some(3 * 2 + 3 + 2 * 9));
}

#[test]
fn infinite_weight_with_positive_count_is_infinite() {
    let cfg = CostConfig::from_entries(&full(&[])).unwrap();
    let mut c = CostCount::new();
    c.add_cost_1(Constraint::DirectOverlap);
    assert_eq!(c.total_cost(&cfg), None);
    let zero = CostCount::new();
    assert_eq!(zero.total_cost(&cfg), Some(0));
}

#[test]
fn overflowing_total_is_infinite() {
    let cfg = CostConfig::from_entries(&full(&[("mismatched_initial_solution", CostPossibility::Value(u64::MAX))])).unwrap();
    let mut c = CostCount::new();
    c.add_cost(Constraint::MismatchedInitialSolution, 2);
    assert_eq!(c.total_cost(&cfg), None);
}

#[test]
fn raising_a_finite_weight_does_not_lower_the_total() {
    let low = CostConfig::from_entries(&full(&[])).unwrap();
    let high = CostConfig::from_entries(&full(&[("assigned_preferred", CostPossibility::Value(4))])).unwrap();
    let mut c = CostCount::new();
    c.add_cost(Constraint::AssignedPreferred, 2);
    c.add_cost(Constraint::BelowMinTut, 1);
    let (a, b) = (c.total_cost(&low).unwrap(), c.total_cost(&high).unwrap());
    assert_eq!(a, 4);
    assert_eq!(b, 12);
    assert!(a <= b);
}

#[test]
fn counts_saturate() {
    let mut c = CostCount::new();
    c.add_cost(Constraint::SameDayOverlap, u32::MAX);
    c.add_cost_1(Constraint::SameDayOverlap);
    assert_eq!(c.get(Constraint::SameDayOverlap), u32::MAX);
}

#[test]
fn describe_lists_every_kind() {
    let mut c = CostCount::new();
    c.add_cost(Constraint::UnassignedSession, 12);
    let text = c.describe(2);
    assert_eq!(text.lines().count(), 15);
    assert!(text.contains("  unassigned_session: 12\n"));
    assert!(text.starts_with("  assigned_preferred: 0\n"));
}

#[test]
fn infinity_words() {
    assert_eq!(cost_word("inf"), Some(CostPossibility::Infinity));
    assert_eq!(cost_word("infinity"), Some(CostPossibility::Infinity));
    assert_eq!(cost_word("Infinity"), Some(CostPossibility::Infinity));
    assert_eq!(cost_word("INF"), None);
    assert_eq!(cost_word("5"), None);
}
