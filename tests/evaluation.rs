use talloc_solver::availabilities::AvailabilityMatrix;
use talloc_solver::classes::Mode;
use talloc_solver::costs::{Constraint, CostConfig, CostPossibility};
use talloc_solver::evaluator::{Problem, Solution};
use talloc_solver::instructor::{ClassTypeRequirement, Instructor, InstructorId};
use talloc_solver::session::{OverlapMatrix, OverlapRequirement, Session, SessionId, SessionType};
use talloc_solver::talloc::Availability;
use talloc_solver::utils::{Day, SessionDuration, TimeOfDay};

fn session(id: u16, day: Day, start: u8, hours: u8, typ: SessionType, mode: Mode, name: &str) -> Session {
    Session {
        session_id: SessionId(id),
        day,
        start_time: TimeOfDay(start),
        duration: SessionDuration { hours },
        typ,
        mode,
        class_name: name.to_string(),
    }
}

fn instructor(id: u16, zid: &str, min_t: u8, max_t: u8) -> Instructor {
    Instructor {
        instructor_id: InstructorId(id),
        name: format!("Name {zid}"),
        zid: zid.to_string(),
        class_type_requirement: ClassTypeRequirement {
            min_tutes: min_t,
            max_tutes: max_t,
            min_lab_assists: 0,
            max_lab_assists: 5,
            min_total_classes: 0,
            max_total_classes: 10,
        },
        seniority: None,
    }
}

fn config(overrides: &[(&str, CostPossibility)]) -> CostConfig {
    let mut entries: Vec<(String, CostPossibility)> = Vec::new();
    let defaults = [
        ("assigned_possible", 1),
        ("assigned_dislike", 3),
        ("unassigned_session", 5),
        ("below_min_tut", 0),
        ("below_min_lab", 0),
        ("below_min_class", 0),
        ("above_max_tut", 0),
        ("above_max_lab", 0),
        ("above_max_class", 0),
        ("direct_overlap", 100),
        ("padded_overlap", 10),
        ("same_day_overlap", 1),
    ];
    for (name, value) in defaults {
        if !overrides.iter().any(|(n, _)| *n == name) {
            entries.push((name.to_string(), CostPossibility::Value(value)));
        }
    }
    for (name, value) in overrides {
        entries.push((name.to_string(), *value));
    }
    CostConfig::from_entries(&entries).expect("valid config")
}

struct Fixture {
    sessions: Vec<Session>,
    instructors: Vec<Instructor>,
    availabilities: AvailabilityMatrix,
    sharp: OverlapMatrix,
    padded: OverlapMatrix,
    same_day: OverlapMatrix,
    config: CostConfig,
    initial: Solution,
}

impl Fixture {
    fn new(sessions: Vec<Session>, instructors: Vec<Instructor>, level: Availability, config: CostConfig) -> Fixture {
        let availabilities = AvailabilityMatrix::filled(sessions.len(), instructors.len(), level);
        let sharp = OverlapMatrix::from_sessions(&sessions, OverlapRequirement::Sharp);
        let padded = OverlapMatrix::from_sessions(&sessions, OverlapRequirement::WithPadding);
        let same_day = OverlapMatrix::from_sessions(&sessions, OverlapRequirement::SameDay);
        let initial = Solution::empty(sessions.len(), false);
        Fixture { sessions, instructors, availabilities, sharp, padded, same_day, config, initial }
    }

    fn problem(&self) -> Problem<'_> {
        Problem {
            sessions: &self.sessions,
            instructors: &self.instructors,
            availabilities: &self.availabilities,
            overlap_sharp: &self.sharp,
            overlap_padded: &self.padded,
            overlap_same_day: &self.same_day,
            cost_config: &self.config,
            initial_solution: &self.initial,
        }
    }
}

#[test]
fn overlap_tie_break_counts_direct_overlap() {
    let sessions = vec![
        session(0, Day::Mon, 10, 2, SessionType::LabAssist, Mode::F2F, "A"),
        session(1, Day::Mon, 11, 2, SessionType::LabAssist, Mode::F2F, "B"),
    ];
    let cfg = config(&[
        ("direct_overlap", CostPossibility::Value(100)),
        ("padded_overlap", CostPossibility::Value(10)),
        ("same_day_overlap", CostPossibility::Value(1)),
    ]);
    let f = Fixture::new(sessions, vec![instructor(0, "z1", 0, 5)], Availability::Preferred, cfg);
    let sol = Solution::new(vec![Some(InstructorId(0)), Some(InstructorId(0))]);
    let (counts, _) = sol.evaluate(f.problem(), None);
    assert_eq!(counts.get(Constraint::DirectOverlap), 1);
    assert_eq!(counts.get(Constraint::PaddedOverlap), 0);
    assert_eq!(counts.get(Constraint::SameDayOverlap), 0);
    assert_eq!(counts.total_cost(&f.config), Some(100));
}

#[test]
fn touching_sessions_count_as_padded_overlap() {
    let sessions = vec![
        session(0, Day::Tue, 10, 2, SessionType::LabAssist, Mode::F2F, "A"),
        session(1, Day::Tue, 12, 2, SessionType::LabAssist, Mode::F2F, "B"),
        session(2, Day::Tue, 16, 1, SessionType::LabAssist, Mode::F2F, "C"),
    ];
    let f = Fixture::new(sessions, vec![instructor(0, "z1", 0, 5)], Availability::Preferred, config(&[]));
    let sol = Solution::new(vec![Some(InstructorId(0)); 3]);
    let (counts, _) = sol.evaluate(f.problem(), None);
    assert_eq!(counts.get(Constraint::DirectOverlap), 0);
    assert_eq!(counts.get(Constraint::PaddedOverlap), 1);
    assert_eq!(counts.get(Constraint::SameDayOverlap), 2);
}

#[test]
fn initial_solution_mismatch_is_counted_once() {
    let sessions = vec![
        session(0, Day::Mon, 9, 3, SessionType::TutLab, Mode::F2F, "A"),
        session(1, Day::Wed, 9, 3, SessionType::TutLab, Mode::F2F, "B"),
    ];
    let cfg = config(&[("mismatched_initial_solution", CostPossibility::Value(7)), ("unassigned_session", CostPossibility::Value(0))]);
    let mut f = Fixture::new(sessions, vec![instructor(0, "z1", 0, 5), instructor(1, "z2", 0, 5)], Availability::Preferred, cfg);
    f.initial = Solution::new(vec![Some(InstructorId(0)), Some(InstructorId(1))]);
    let sol = Solution::new(vec![Some(InstructorId(1)), Some(InstructorId(1))]);
    let (counts, _) = sol.evaluate(f.problem(), None);
    assert_eq!(counts.get(Constraint::MismatchedInitialSolution), 1);
    assert_eq!(counts.total_cost(&f.config), Some(7));
}

#[test]
fn mismatch_not_counted_when_weight_is_zero() {
    let sessions = vec![session(0, Day::Mon, 9, 3, SessionType::TutLab, Mode::F2F, "A")];
    let mut f = Fixture::new(sessions, vec![instructor(0, "z1", 0, 5), instructor(1, "z2", 0, 5)], Availability::Preferred, config(&[]));
    f.initial = Solution::new(vec![Some(InstructorId(0))]);
    let sol = Solution::new(vec![Some(InstructorId(1))]);
    let (counts, _) = sol.evaluate(f.problem(), None);
    assert_eq!(counts.get(Constraint::MismatchedInitialSolution), 0);
}

#[test]
fn evaluation_is_repeatable_and_reuses_buffer() {
    let sessions = vec![
        session(0, Day::Mon, 9, 3, SessionType::TutLab, Mode::F2F, "A"),
        session(1, Day::Mon, 10, 2, SessionType::LabAssist, Mode::Online, "A"),
        session(2, Day::Thu, 14, 3, SessionType::TutLab, Mode::F2F, "B"),
    ];
    let mut f = Fixture::new(sessions, vec![instructor(0, "z1", 1, 1), instructor(1, "z2", 1, 2)], Availability::Possible, config(&[]));
    f.availabilities.set_availability(SessionId(2), InstructorId(1), Availability::Dislike);
    let sol = Solution::new(vec![Some(InstructorId(0)), Some(InstructorId(0)), Some(InstructorId(1))]);
    let (first, buffer) = sol.evaluate(f.problem(), None);
    let (second, _) = sol.evaluate(f.problem(), Some(buffer));
    let (third, _) = sol.evaluate(f.problem(), None);
    for i in 0..15 {
        let k = Constraint::from_index(i);
        assert_eq!(first.get(k), second.get(k));
        assert_eq!(first.get(k), third.get(k));
    }
    assert_eq!(first.get(Constraint::AssignedPossible), 2);
    assert_eq!(first.get(Constraint::AssignedDislike), 1);
    assert_eq!(first.get(Constraint::DirectOverlap), 1);
}

#[test]
fn workload_bounds_are_counted_by_distance() {
    let sessions = vec![
        session(0, Day::Mon, 9, 3, SessionType::TutLab, Mode::F2F, "A"),
        session(1, Day::Tue, 9, 3, SessionType::TutLab, Mode::F2F, "B"),
        session(2, Day::Wed, 9, 3, SessionType::TutLab, Mode::F2F, "C"),
    ];
    let mut a = instructor(0, "z1", 0, 1);
    a.class_type_requirement.min_lab_assists = 2;
    let b = instructor(1, "z2", 2, 3);
    let f = Fixture::new(sessions, vec![a, b], Availability::Preferred, config(&[]));
    let sol = Solution::new(vec![Some(InstructorId(0)), Some(InstructorId(0)), Some(InstructorId(0))]);
    let (counts, _) = sol.evaluate(f.problem(), None);
    assert_eq!(counts.get(Constraint::AboveMaxTut), 2);
    assert_eq!(counts.get(Constraint::BelowMinLab), 2);
    assert_eq!(counts.get(Constraint::BelowMinTut), 2);
    assert_eq!(counts.get(Constraint::AssignedPreferred), 3);
}

#[test]
fn empty_instructor_list_gives_only_unassigned_costs() {
    let sessions = vec![
        session(0, Day::Mon, 9, 3, SessionType::TutLab, Mode::F2F, "A"),
        session(1, Day::Mon, 10, 2, SessionType::LabAssist, Mode::F2F, "A"),
    ];
    let f = Fixture::new(sessions, vec![], Availability::Preferred, config(&[]));
    let sol = Solution::empty(2, false);
    let (counts, _) = sol.evaluate(f.problem(), None);
    for i in 0..15 {
        let k = Constraint::from_index(i);
        let expected = if i == Constraint::UnassignedSession.raw_index() { 2 } else { 0 };
        assert_eq!(counts.get(k), expected);
    }
    assert_eq!(counts.total_cost(&f.config), Some(10));
}

#[test]
fn empty_session_list_gives_zero_cost() {
    let f = Fixture::new(vec![], vec![instructor(0, "z1", 0, 2)], Availability::Preferred, config(&[]));
    let sol = Solution::empty(0, false);
    let (counts, _) = sol.evaluate(f.problem(), None);
    assert_eq!(counts.total_cost(&f.config), Some(0));
}

#[test]
fn impossible_assignment_is_infinite() {
    let sessions = vec![session(0, Day::Fri, 12, 3, SessionType::TutLab, Mode::F2F, "A")];
    let f = Fixture::new(sessions, vec![instructor(0, "z1", 0, 2)], Availability::Impossible, config(&[]));
    let assigned = Solution::new(vec![Some(InstructorId(0))]);
    let (counts, _) = assigned.evaluate(f.problem(), None);
    assert_eq!(counts.get(Constraint::AssignedImpossible), 1);
    assert_eq!(counts.total_cost(&f.config), None);
    let unassigned = Solution::empty(1, false);
    let (counts, _) = unassigned.evaluate(f.problem(), None);
    assert_eq!(counts.total_cost(&f.config), Some(5));
}
