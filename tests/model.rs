use talloc_solver::availabilities::{check_availability, AvailabilityMatrix};
use talloc_solver::checks::{check_problem, BoundCondition, TotalCondition};
use talloc_solver::classes::{Class, Mode};
use talloc_solver::costs::{CostConfig, CostPossibility};
use talloc_solver::errors::Error;
use talloc_solver::evaluator::{Problem, Solution};
use talloc_solver::initial_solution::solution_from_tsv;
use talloc_solver::instructor::{ClassTypeRequirement, Instructor, InstructorId};
use talloc_solver::overrides::{apply_overrides, matches_spec};
use talloc_solver::session::{classes_to_sessions, OverlapMatrix, OverlapRequirement, Session, SessionId, SessionType};
use talloc_solver::talloc::{talloc_api_applications_endpoint, talloc_api_current_term_endpoint, ApplicantRecord, ApplicationGrid, Availability, TallocApplication, TallocApps, GRID_CELLS};
use talloc_solver::solution_output::{count_assigned, instructor_stats_from_solution, show_diff, solution_output_tsv};
use talloc_solver::tsv::Tsv;
use talloc_solver::utils::{Day, TimeOfDay};

fn class(name: &str, day: Day, start: u8, mode: Mode) -> Class {
    Class { name: name.to_string(), day, start: TimeOfDay(start), mode, ignore_tut: false, ignore_lab: false }
}

fn instructor(id: u16, zid: &str) -> Instructor {
    Instructor {
        instructor_id: InstructorId(id),
        name: format!("Name {zid}"),
        zid: zid.to_string(),
        class_type_requirement: ClassTypeRequirement {
            min_tutes: 0,
            max_tutes: 2,
            min_lab_assists: 0,
            max_lab_assists: 2,
            min_total_classes: 0,
            max_total_classes: 4,
        },
        seniority: None,
    }
}

fn grid(value: Option<u8>) -> ApplicationGrid {
    ApplicationGrid { cells: vec![value; GRID_CELLS] }
}

fn set_cell(g: &mut ApplicationGrid, day: usize, hour: usize, value: Option<u8>) {
    g.cells[day * 24 + hour] = value;
}

#[test]
fn classes_become_sessions_in_order() {
    let mut classes = vec![class("A", Day::Mon, 9, Mode::F2F), class("B", Day::Tue, 13, Mode::Online)];
    classes[1].ignore_tut = true;
    let sessions = classes_to_sessions(&classes);
    assert_eq!(sessions.len(), 3);
    assert_eq!(sessions[0].session_id, SessionId(0));
    assert_eq!(sessions[0].typ, SessionType::TutLab);
    assert_eq!(sessions[0].duration.hours(), 3);
    assert_eq!(sessions[1].typ, SessionType::LabAssist);
    assert_eq!(sessions[1].start_time, TimeOfDay(10));
    assert_eq!(sessions[1].duration.hours(), 2);
    assert_eq!(sessions[2].session_id, SessionId(2));
    assert_eq!(sessions[2].class_name, "B");
    assert_eq!(sessions[2].start_time, TimeOfDay(14));
    assert_eq!(sessions[2].short_description(), "B lab");
    assert_eq!(sessions[0].short_description(), "A tut+lab");
}

#[test]
fn overlap_matrices_are_symmetric_and_nested() {
    let classes = vec![
        class("A", Day::Mon, 9, Mode::F2F),
        class("B", Day::Mon, 12, Mode::F2F),
        class("C", Day::Mon, 12, Mode::Online),
        class("D", Day::Mon, 16, Mode::F2F),
        class("E", Day::Tue, 9, Mode::F2F),
    ];
    let sessions = classes_to_sessions(&classes);
    let n = sessions.len();
    let sharp = OverlapMatrix::from_sessions(&sessions, OverlapRequirement::Sharp);
    let padded = OverlapMatrix::from_sessions(&sessions, OverlapRequirement::WithPadding);
    let same_day = OverlapMatrix::from_sessions(&sessions, OverlapRequirement::SameDay);
    for a in 0..n {
        let ia = SessionId(a as u16);
        for m in [&sharp, &padded, &same_day] {
            assert!(!m.is_overlap(ia, ia));
        }
        for b in 0..n {
            let ib = SessionId(b as u16);
            for m in [&sharp, &padded, &same_day] {
                assert_eq!(m.is_overlap(ia, ib), m.is_overlap(ib, ia));
            }
            if sharp.is_overlap(ia, ib) {
                assert!(padded.is_overlap(ia, ib));
            }
            if padded.is_overlap(ia, ib) {
                assert!(same_day.is_overlap(ia, ib));
            }
        }
    }
    assert!(sharp.is_overlap(SessionId(0), SessionId(1)));
    assert!(!sharp.is_overlap(SessionId(0), SessionId(2)));
    assert!(padded.is_overlap(SessionId(0), SessionId(2)));
    assert!(sharp.is_overlap(SessionId(0), SessionId(4)));
    assert!(same_day.is_overlap(SessionId(0), SessionId(6)));
    assert!(!padded.is_overlap(SessionId(0), SessionId(6)));
    assert!(!same_day.is_overlap(SessionId(0), SessionId(8)));
}

#[test]
fn availability_is_least_available_hour() {
    let sessions = classes_to_sessions(&vec![class("A", Day::Wed, 9, Mode::Online)]);
    let mut g = grid(Some(0b1111));
    set_cell(&mut g, 2, 10, Some(0b0111));
    let app = TallocApplication::Application(&g);
    assert_eq!(check_availability(app, &sessions[0]), Some(Availability::Dislike));
    assert_eq!(check_availability(app, &sessions[1]), Some(Availability::Dislike));
    set_cell(&mut g, 2, 10, Some(0b1111));
    let app = TallocApplication::Application(&g);
    assert_eq!(check_availability(app, &sessions[0]), Some(Availability::Preferred));
    let f2f = classes_to_sessions(&vec![class("B", Day::Wed, 9, Mode::F2F)]);
    let mut mixed = grid(Some(0b1110));
    assert_eq!(check_availability(TallocApplication::Application(&mixed), &f2f[0]), Some(Availability::Possible));
    set_cell(&mut mixed, 2, 11, None);
    assert_eq!(check_availability(TallocApplication::Application(&mixed), &f2f[0]), None);
    assert_eq!(check_availability(TallocApplication::NoApplication, &f2f[0]), Some(Availability::Impossible));
}

#[test]
fn raising_an_hour_never_lowers_availability() {
    let sessions = classes_to_sessions(&vec![class("A", Day::Thu, 9, Mode::F2F)]);
    let mut g = grid(Some(1));
    let before = check_availability(TallocApplication::Application(&g), &sessions[0]);
    set_cell(&mut g, 3, 11, Some(3));
    let after = check_availability(TallocApplication::Application(&g), &sessions[0]);
    assert_eq!(before, Some(Availability::Dislike));
    assert!(after >= before);
}

#[test]
fn build_fails_without_application() {
    let sessions = classes_to_sessions(&vec![class("A", Day::Mon, 9, Mode::F2F)]);
    let instructors = vec![instructor(0, "z1"), instructor(1, "z2")];
    let apps = TallocApps::new(vec![ApplicantRecord { zid: "z1".to_string(), grid: grid(Some(2)) }], false);
    assert_eq!(AvailabilityMatrix::build(&instructors, &sessions, &apps).err(), Some(Error::NoApplication { zid: "z2".to_string() }));
    let tolerant = TallocApps::new(vec![ApplicantRecord { zid: "z1".to_string(), grid: grid(Some(2)) }], true);
    let m = AvailabilityMatrix::build(&instructors, &sessions, &tolerant).unwrap();
    assert_eq!(m.get_availability(SessionId(0), InstructorId(0)), Availability::Possible);
    assert_eq!(m.get_availability(SessionId(1), InstructorId(1)), Availability::Impossible);
    assert!(tolerant.get_application("z2").unwrap().is_default());
    assert!(!tolerant.get_application("z1").unwrap().is_default());
}

#[test]
fn build_fails_on_missing_hour() {
    let sessions = classes_to_sessions(&vec![class("A", Day::Mon, 9, Mode::F2F)]);
    let mut g = grid(Some(2));
    set_cell(&mut g, 0, 11, None);
    let apps = TallocApps::new(vec![ApplicantRecord { zid: "z1".to_string(), grid: g }], false);
    let r = AvailabilityMatrix::build(&vec![instructor(0, "z1")], &sessions, &apps);
    assert!(matches!(r, Err(Error::NoAvailability { .. })));
}

#[test]
fn override_patterns_match() {
    assert!(matches_spec("z123", " * "));
    assert!(matches_spec("Lab", "tut,lab"));
    assert!(!matches_spec("lab", "tut, lab"));
    assert!(!matches_spec("x", "y"));
}

#[test]
fn overrides_write_matching_cells() {
    let sessions = classes_to_sessions(&vec![class("A", Day::Mon, 9, Mode::F2F), class("B", Day::Tue, 9, Mode::F2F)]);
    let instructors = vec![instructor(0, "z1"), instructor(1, "z2")];
    let mut m = AvailabilityMatrix::filled(sessions.len(), instructors.len(), Availability::Possible);
    let t = Tsv::try_from_str("o", "name\tzid\tclass\ttype\toverride\nr1\tz1\t*\ttut\tpreferred\nr2\t*\tB\tlab\tIMPOSSIBLE\n").unwrap();
    let counts = apply_overrides(&t, &mut m, &instructors, &sessions).unwrap();
    assert_eq!(counts, vec![2, 2]);
    assert_eq!(m.get_availability(SessionId(0), InstructorId(0)), Availability::Preferred);
    assert_eq!(m.get_availability(SessionId(2), InstructorId(0)), Availability::Preferred);
    assert_eq!(m.get_availability(SessionId(0), InstructorId(1)), Availability::Possible);
    assert_eq!(m.get_availability(SessionId(3), InstructorId(1)), Availability::Impossible);
    assert_eq!(m.get_availability(SessionId(1), InstructorId(0)), Availability::Possible);
}

#[test]
fn override_matching_nothing_fails() {
    let sessions = classes_to_sessions(&vec![class("A", Day::Mon, 9, Mode::F2F)]);
    let instructors = vec![instructor(0, "z1")];
    let mut m = AvailabilityMatrix::filled(sessions.len(), instructors.len(), Availability::Possible);
    let t = Tsv::try_from_str("o", "name\tzid\tclass\ttype\toverride\nr1\tz9\t*\t*\tdislike\n").unwrap();
    assert_eq!(apply_overrides(&t, &mut m, &instructors, &sessions), Err(Error::UnmatchedOverride { name: "r1".to_string() }));
    let bad = Tsv::try_from_str("o", "name\tzid\tclass\ttype\toverride\nr2\t*\t*\t*\tsometimes\n").unwrap();
    assert_eq!(apply_overrides(&bad, &mut m, &instructors, &sessions), Err(Error::BadOverride { name: "r2".to_string() }));
}

#[test]
fn initial_solution_reads_assignments() {
    let sessions = classes_to_sessions(&vec![class("A", Day::Mon, 9, Mode::F2F), class("B", Day::Tue, 9, Mode::F2F)]);
    let instructors = vec![instructor(0, "z1"), instructor(1, "z2")];
    let t = Tsv::try_from_str("i", "class\ttype\tzid\tname\nA\ttut+lab\tz2\tName z2\nB\tlab\tz1\tWrong\nB\ttut+lab\t-\t-\n").unwrap();
    let (sol, mismatches) = solution_from_tsv(&t, &sessions, &instructors).unwrap();
    assert!(sol.is_nontrivial);
    assert_eq!(sol.assignment, vec![Some(InstructorId(1)), None, None, Some(InstructorId(0))]);
    assert_eq!(mismatches.len(), 1);
    assert_eq!(mismatches[0].recorded_name, "Name z1");
}

#[test]
fn initial_solution_rejects_conflicts() {
    let sessions = classes_to_sessions(&vec![class("A", Day::Mon, 9, Mode::F2F)]);
    let instructors = vec![instructor(0, "z1"), instructor(1, "z2")];
    let t = Tsv::try_from_str("i", "class\ttype\tzid\tname\nA\tlab\tz1\tx\nA\tlab\tz2\ty\n").unwrap();
    assert!(matches!(solution_from_tsv(&t, &sessions, &instructors), Err(Error::BadInitialSolution { .. })));
    let t = Tsv::try_from_str("i", "class\ttype\tzid\tname\nA\tlecture\tz1\tx\n").unwrap();
    assert!(solution_from_tsv(&t, &sessions, &instructors).is_err());
    let t = Tsv::try_from_str("i", "class\ttype\tzid\tname\nA\tlab\tz7\tx\n").unwrap();
    assert!(solution_from_tsv(&t, &sessions, &instructors).is_err());
}

#[test]
fn checks_report_inconsistent_bounds() {
    let sessions = classes_to_sessions(&vec![class("A", Day::Mon, 9, Mode::F2F)]);
    let mut bad = instructor(0, "z1");
    bad.class_type_requirement.min_tutes = 3;
    let instructors = vec![bad, instructor(1, "z2")];
    let m = AvailabilityMatrix::filled(sessions.len(), instructors.len(), Availability::Possible);
    let sharp = OverlapMatrix::from_sessions(&sessions, OverlapRequirement::Sharp);
    let padded = OverlapMatrix::from_sessions(&sessions, OverlapRequirement::WithPadding);
    let same_day = OverlapMatrix::from_sessions(&sessions, OverlapRequirement::SameDay);
    let entries: Vec<(String, CostPossibility)> = [
        "assigned_possible", "assigned_dislike", "unassigned_session", "below_min_tut", "below_min_lab",
        "below_min_class", "above_max_tut", "above_max_lab", "above_max_class", "direct_overlap",
        "padded_overlap", "same_day_overlap", "mismatched_initial_solution",
    ]
    .iter()
    .map(|n| (n.to_string(), CostPossibility::Value(1)))
    .collect();
    let config = CostConfig::from_entries(&entries).unwrap();
    let initial = Solution::empty(sessions.len(), false);
    let problem = Problem {
        sessions: &sessions,
        instructors: &instructors,
        availabilities: &m,
        overlap_sharp: &sharp,
        overlap_padded: &padded,
        overlap_same_day: &same_day,
        cost_config: &config,
        initial_solution: &initial,
    };
    let w = check_problem(problem);
    assert!(w.instructor_violations[0].contains(&BoundCondition::MinTutesAtMostMaxTutes));
    assert!(w.instructor_violations[0].contains(&BoundCondition::MinTutesAndLabsAtMostMinClasses));
    assert!(w.instructor_violations[1].is_empty());
    assert_eq!(w.total_violations.len(), 1);
    assert_eq!(w.total_violations[0].condition, TotalCondition::SumMinTutesAtMostTutes);
    assert_eq!((w.total_violations[0].left, w.total_violations[0].right), (3, 1));
    assert!(w.mismatch_without_initial);
}

#[test]
fn endpoints_name_the_term() {
    assert_eq!(talloc_api_current_term_endpoint(), "https://talloc.cse.unsw.edu.au/api/v1/term/current");
    assert_eq!(talloc_api_applications_endpoint("23T3"), "https://talloc.cse.unsw.edu.au/api/v1/terms/23T3/applications");
}

#[test]
fn availability_report_lists_levels() {
    let sessions = classes_to_sessions(&vec![class("A", Day::Mon, 9, Mode::F2F)]);
    let instructors = vec![instructor(0, "z1")];
    let mut m = AvailabilityMatrix::filled(sessions.len(), instructors.len(), Availability::Possible);
    m.set_availability(SessionId(1), InstructorId(0), Availability::Preferred);
    let report = m.make_availability_report(&sessions, &instructors);
    assert_eq!(
        report,
        "Name z1 (z1) availabilities:\n    Impossible (0 total): none!\n    Dislike (0 total): none!\n    Possible (1 total): A tut+lab\n    Preferred (1 total): A lab\n"
    );
}

struct Small {
    sessions: Vec<Session>,
    instructors: Vec<Instructor>,
    availabilities: AvailabilityMatrix,
    sharp: OverlapMatrix,
    padded: OverlapMatrix,
    same_day: OverlapMatrix,
    config: CostConfig,
    initial: Solution,
}

fn small() -> Small {
    let sessions = classes_to_sessions(&vec![class("A", Day::Mon, 9, Mode::F2F), class("B", Day::Mon, 10, Mode::F2F)]);
    let instructors = vec![instructor(0, "z1"), instructor(1, "z2")];
    let entries: Vec<(String, CostPossibility)> = [
        "assigned_possible", "assigned_dislike", "unassigned_session", "below_min_tut", "below_min_lab",
        "below_min_class", "above_max_tut", "above_max_lab", "above_max_class", "direct_overlap",
        "padded_overlap", "same_day_overlap",
    ]
    .iter()
    .map(|n| (n.to_string(), CostPossibility::Value(1)))
    .collect();
    Small {
        availabilities: AvailabilityMatrix::filled(sessions.len(), instructors.len(), Availability::Dislike),
        sharp: OverlapMatrix::from_sessions(&sessions, OverlapRequirement::Sharp),
        padded: OverlapMatrix::from_sessions(&sessions, OverlapRequirement::WithPadding),
        same_day: OverlapMatrix::from_sessions(&sessions, OverlapRequirement::SameDay),
        config: CostConfig::from_entries(&entries).unwrap(),
        initial: Solution::new(vec![Some(InstructorId(0)), None, None, None]),
        sessions,
        instructors,
    }
}

impl Small {
    fn problem(&self) -> Problem<'_> {
        Problem {
            sessions: &self.sessions,
            instructors: &self.instructors,
            availabilities: &self.availabilities,
            overlap_sharp: &self.sharp,
            overlap_padded: &self.padded,
            overlap_same_day: &self.same_day,
            cost_config: &self.config,
            initial_solution: &self.initial,
        }
    }
}

#[test]
fn solution_table_lists_every_session() {
    let s = small();
    let sol = Solution::new(vec![Some(InstructorId(1)), None, None, Some(InstructorId(0))]);
    assert_eq!(
        solution_output_tsv(&s.problem(), &sol),
        "class\ttype\tzid\tname\nA\ttut+lab\tz2\tName z2\nA\tlab\t-\t-\nB\ttut+lab\t-\t-\nB\tlab\tz1\tName z1\n"
    );
}

#[test]
fn diff_lists_changed_sessions() {
    let s = small();
    let sol = Solution::new(vec![Some(InstructorId(1)), None, None, Some(InstructorId(0))]);
    assert_eq!(
        show_diff(&s.problem(), &sol),
        "Difference from initial solution:\n    A tut+lab: Name z1 (z1) ==> Name z2 (z2)\n    B lab: no assignment ==> Name z1 (z1)\n"
    );
}

#[test]
fn instructor_stats_count_assignments() {
    let s = small();
    let sol = Solution::new(vec![Some(InstructorId(1)), Some(InstructorId(1)), Some(InstructorId(1)), None]);
    assert_eq!(count_assigned(&s.problem(), &sol, InstructorId(1)), (2, 1));
    let stats = instructor_stats_from_solution(&s.problem(), &sol);
    assert!(stats.starts_with("Instructor allocation stats:\nName z1 (z1)\n    Had minT = 0, maxT = 2, minA = 0, maxA = 2, minC = 0, maxC = 4\n"));
    assert!(stats.contains("Name z2 (z2)\n    Had minT = 0, maxT = 2, minA = 0, maxA = 2, minC = 0, maxC = 4\n    Actual tutes = 2, actual labs = 1, actual classes = 3\n    A T: Dislike\n    A L: Dislike\n    B T: Dislike\n"));
}

#[test]
fn overlap_summary_lists_pairs_once() {
    let s = small();
    let text = s.sharp.summarise(&s.sessions);
    assert_eq!(
        text,
        "A tut+lab and A lab overlap\nA tut+lab and B tut+lab overlap\nA tut+lab and B lab overlap\nA lab and B tut+lab overlap\nA lab and B lab overlap\nB tut+lab and B lab overlap\n"
    );
}
