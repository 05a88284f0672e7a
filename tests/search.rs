use talloc_solver::availabilities::AvailabilityMatrix;
use talloc_solver::classes::Mode;
use talloc_solver::costs::{CostConfig, CostPossibility};
use talloc_solver::evaluator::{Problem, Solution};
use talloc_solver::instructor::{ClassTypeRequirement, Instructor, InstructorId};
use talloc_solver::mutation::{mutation_for_draws, Mutation};
use talloc_solver::session::{OverlapMatrix, OverlapRequirement, Session, SessionId, SessionType};
use talloc_solver::solver::{keep_move, offer_result, solve_once, SolverOutput, SolverSeed};
use talloc_solver::talloc::Availability;
use talloc_solver::utils::{Day, SessionDuration, TimeOfDay};

fn session(id: u16, day: Day, start: u8) -> Session {
    Session {
        session_id: SessionId(id),
        day,
        start_time: TimeOfDay(start),
        duration: SessionDuration { hours: 3 },
        typ: SessionType::TutLab,
        mode: Mode::F2F,
        class_name: format!("C{id}"),
    }
}

fn instructor(id: u16, min_t: u8, max_t: u8) -> Instructor {
    Instructor {
        instructor_id: InstructorId(id),
        name: format!("Tutor {id}"),
        zid: format!("z{id}"),
        class_type_requirement: ClassTypeRequirement {
            min_tutes: min_t,
            max_tutes: max_t,
            min_lab_assists: 0,
            max_lab_assists: 0,
            min_total_classes: min_t,
            max_total_classes: max_t,
        },
        seniority: None,
    }
}

fn config(unassigned: u64, preferred: u64, below_min: u64) -> CostConfig {
    let entries: Vec<(String, CostPossibility)> = vec![
        ("assigned_preferred", preferred),
        ("assigned_possible", 1),
        ("assigned_dislike", 2),
        ("unassigned_session", unassigned),
        ("below_min_tut", below_min),
        ("below_min_lab", 0),
        ("below_min_class", 0),
        ("above_max_tut", 10),
        ("above_max_lab", 10),
        ("above_max_class", 10),
        ("direct_overlap", 100),
        ("padded_overlap", 10),
        ("same_day_overlap", 1),
    ]
    .into_iter()
    .map(|(n, v)| (n.to_string(), CostPossibility::Value(v)))
    .collect();
    CostConfig::from_entries(&entries).unwrap()
}

struct Setup {
    sessions: Vec<Session>,
    instructors: Vec<Instructor>,
    availabilities: AvailabilityMatrix,
    sharp: OverlapMatrix,
    padded: OverlapMatrix,
    same_day: OverlapMatrix,
    config: CostConfig,
    initial: Solution,
}

impl Setup {
    fn new(sessions: Vec<Session>, instructors: Vec<Instructor>, level: Availability, config: CostConfig) -> Setup {
        Setup {
            availabilities: AvailabilityMatrix::filled(sessions.len(), instructors.len(), level),
            sharp: OverlapMatrix::from_sessions(&sessions, OverlapRequirement::Sharp),
            padded: OverlapMatrix::from_sessions(&sessions, OverlapRequirement::WithPadding),
            same_day: OverlapMatrix::from_sessions(&sessions, OverlapRequirement::SameDay),
            initial: Solution::empty(sessions.len(), false),
            sessions,
            instructors,
            config,
        }
    }

    fn problem(&self) -> Problem<'_> {
        Problem {
            sessions: &self.sessions,
            instructors: &self.instructors,
            availabilities: &self.availabilities,
            overlap_sharp: &self.sharp,
            overlap_padded: &self.padded,
            overlap_same_day: &self.same_day,
            cost_config: &self.config,
            initial_solution: &self.initial,
        }
    }
}

fn annealing(increase: u64, round: u64, rounds: u64, draw: u32) -> bool {
    let progress = 1.0 - (round as f32) / (rounds as f32);
    let temperature = 5000.0 * progress.powi(6) + 0.1;
    let uniform = (draw >> 8) as f32 / (1u32 << 24) as f32;
    uniform < (-(increase as f32) / temperature).exp()
}

fn many_sessions() -> Setup {
    let days = [Day::Mon, Day::Tue, Day::Wed, Day::Thu, Day::Fri];
    let sessions: Vec<Session> = (0..12u16).map(|i| session(i, days[(i % 5) as usize], 8 + (i % 4) as u8 * 2)).collect();
    let instructors: Vec<Instructor> = (0..4u16).map(|j| instructor(j, 2, 4)).collect();
    let mut s = Setup::new(sessions, instructors, Availability::Possible, config(50, 0, 20));
    s.availabilities.set_availability(SessionId(3), InstructorId(1), Availability::Impossible);
    s.availabilities.set_availability(SessionId(5), InstructorId(2), Availability::Preferred);
    s
}

#[test]
fn trivial_empty_problem_solves_to_zero() {
    let s = Setup::new(vec![], vec![], Availability::Preferred, config(5, 0, 0));
    let out = solve_once(s.problem(), &s.initial, SolverSeed { num_rounds: 100, rng_seed: 1 }, &annealing);
    assert!(out.solution.assignment.is_empty());
    assert_eq!(out.final_cost, Some(0));
}

#[test]
fn forced_single_assignment() {
    let s = Setup::new(vec![session(0, Day::Mon, 9)], vec![instructor(0, 1, 1)], Availability::Preferred, config(50, 3, 20));
    let out = solve_once(s.problem(), &s.initial, SolverSeed { num_rounds: 2000, rng_seed: 7 }, &annealing);
    assert_eq!(out.solution.assignment, vec![Some(InstructorId(0))]);
    assert_eq!(out.final_cost, Some(3));
}

#[test]
fn infeasible_availability_leaves_session_unassigned() {
    let s = Setup::new(vec![session(0, Day::Mon, 9)], vec![instructor(0, 0, 1)], Availability::Impossible, config(5, 0, 0));
    let out = solve_once(s.problem(), &s.initial, SolverSeed { num_rounds: 2000, rng_seed: 3 }, &annealing);
    assert_eq!(out.solution.assignment, vec![None]);
    assert_eq!(out.final_cost, Some(5));
}

#[test]
fn solver_is_deterministic_for_a_seed() {
    let s = many_sessions();
    let seed = SolverSeed { num_rounds: 20000, rng_seed: 42 };
    let a = solve_once(s.problem(), &s.initial, seed, &annealing);
    let b = solve_once(s.problem(), &s.initial, seed, &annealing);
    assert_eq!(a.solution, b.solution);
    assert_eq!(a.final_cost, b.final_cost);
    assert_eq!(a.log, b.log);
    let (counts, _) = a.solution.evaluate(s.problem(), None);
    assert_eq!(counts.total_cost(&s.config), a.final_cost);
}

#[test]
fn solver_improves_on_empty_start() {
    let s = many_sessions();
    let start = {
        let (counts, _) = s.initial.evaluate(s.problem(), None);
        counts.total_cost(&s.config).unwrap()
    };
    let out = solve_once(s.problem(), &s.initial, SolverSeed { num_rounds: 30000, rng_seed: 5 }, &annealing);
    assert!(out.final_cost.unwrap() < start);
    assert!(out.log.starts_with("Beginning solve with seed 5"));
}

fn output(cost: Option<u64>, seed: u64) -> SolverOutput {
    SolverOutput {
        seed: SolverSeed { num_rounds: 1, rng_seed: seed },
        final_cost: cost,
        log: String::new(),
        solution: Solution::empty(0, false),
    }
}

#[test]
fn better_than_orders_costs() {
    assert!(output(Some(3), 0).better_than(None));
    assert!(!output(None, 0).better_than(None));
    assert!(output(Some(3), 0).better_than(Some(&output(None, 1))));
    assert!(output(Some(3), 0).better_than(Some(&output(Some(4), 1))));
    assert!(!output(Some(4), 0).better_than(Some(&output(Some(4), 1))));
    assert!(!output(None, 0).better_than(Some(&output(None, 1))));
    assert!(!output(None, 0).better_than(Some(&output(Some(1), 1))));
}

#[test]
fn best_slot_keeps_the_lowest_cost() {
    let mut best: Option<SolverOutput> = None;
    assert!(!offer_result(&mut best, output(None, 1)));
    assert!(offer_result(&mut best, output(Some(9), 2)));
    assert!(offer_result(&mut best, output(Some(4), 3)));
    assert!(!offer_result(&mut best, output(Some(4), 4)));
    assert!(!offer_result(&mut best, output(Some(7), 5)));
    assert_eq!(best.as_ref().unwrap().seed.rng_seed, 3);
    let mut replaced: Option<SolverOutput> = None;
    for (cost, seed) in [(Some(9), 2), (Some(2), 3), (Some(7), 5)] {
        offer_result(&mut replaced, output(cost, seed));
    }
    assert!(replaced.unwrap().final_cost.unwrap() <= best.unwrap().final_cost.unwrap());
}

fn random_solution(rng: &mut fastrand::Rng, sessions: usize, instructors: usize) -> Solution {
    Solution::new(
        (0..sessions)
            .map(|_| if rng.bool() { Some(InstructorId(rng.usize(0..instructors) as u16)) } else { None })
            .collect(),
    )
}

#[test]
fn random_mutation_round_trip() {
    let s = many_sessions();
    let mut rng = fastrand::Rng::with_seed(99);
    let mut sampled = 0;
    for _ in 0..2000 {
        let start = random_solution(&mut rng, s.sessions.len(), s.instructors.len());
        if let Some(m) = Mutation::make_random(s.problem(), &start, &mut rng) {
            sampled += 1;
            let mut changed = start.clone();
            changed.apply_mutation(&m);
            changed.reverse_mutation(&m);
            assert_eq!(changed, start);
        }
    }
    assert!(sampled > 100);
}

#[test]
fn composite_mutation_round_trip() {
    let mut sol = Solution::new(vec![Some(InstructorId(0)), None, Some(InstructorId(2))]);
    let start = sol.clone();
    let m = Mutation::Mult(
        Box::new(Mutation::Add(SessionId(1), InstructorId(1))),
        Box::new(Mutation::Mult(
            Box::new(Mutation::Swap(SessionId(1), InstructorId(1), InstructorId(2))),
            Box::new(Mutation::Remove(SessionId(0), InstructorId(0))),
        )),
    );
    sol.apply_mutation(&m);
    assert_eq!(sol.assignment, vec![None, Some(InstructorId(2)), Some(InstructorId(2))]);
    sol.reverse_mutation(&m);
    assert_eq!(sol, start);
}

#[test]
fn rotation_exchanges_instructors() {
    let mut sol = Solution::new(vec![Some(InstructorId(0)), Some(InstructorId(1))]);
    let m = Mutation::Mult(
        Box::new(Mutation::Swap(SessionId(0), InstructorId(0), InstructorId(1))),
        Box::new(Mutation::Swap(SessionId(1), InstructorId(1), InstructorId(0))),
    );
    sol.apply_mutation(&m);
    assert_eq!(sol.assignment, vec![Some(InstructorId(1)), Some(InstructorId(0))]);
    sol.reverse_mutation(&m);
    assert_eq!(sol.assignment, vec![Some(InstructorId(0)), Some(InstructorId(1))]);
}

#[test]
fn sampling_needs_sessions() {
    let s = Setup::new(vec![], vec![instructor(0, 0, 1)], Availability::Preferred, config(5, 0, 0));
    let mut rng = fastrand::Rng::with_seed(1);
    for _ in 0..50 {
        assert!(Mutation::make_random(s.problem(), &s.initial, &mut rng).is_none());
    }
}

#[test]
fn sampled_additions_avoid_impossible_instructors() {
    let mut s = Setup::new(vec![session(0, Day::Mon, 9)], vec![instructor(0, 0, 1), instructor(1, 0, 1)], Availability::Preferred, config(5, 0, 0));
    s.availabilities.set_availability(SessionId(0), InstructorId(0), Availability::Impossible);
    let mut rng = fastrand::Rng::with_seed(11);
    for _ in 0..200 {
        if let Some(Mutation::Add(_, i)) = Mutation::make_random(s.problem(), &s.initial, &mut rng) {
            assert_eq!(i, InstructorId(1));
        }
    }
}

#[test]
fn draws_select_the_mutation() {
    let s = many_sessions();
    let sol = Solution::new(
        (0..12u16).map(|i| if i % 3 == 0 { None } else { Some(InstructorId(i % 4)) }).collect(),
    );
    let p = s.problem();
    assert!(matches!(mutation_for_draws(p, &sol, 0, 0, 0, Some(InstructorId(2))), Some(Mutation::Add(SessionId(0), InstructorId(2)))));
    assert!(mutation_for_draws(p, &sol, 0, 0, 0, None).is_none());
    assert!(matches!(mutation_for_draws(p, &sol, 1, 1, 0, None), Some(Mutation::Remove(SessionId(1), InstructorId(1)))));
    match mutation_for_draws(p, &sol, 1, 2, 2, None) {
        Some(Mutation::Mult(a, b)) => {
            assert!(matches!(*a, Mutation::Swap(SessionId(1), InstructorId(1), InstructorId(2))));
            assert!(matches!(*b, Mutation::Swap(SessionId(2), InstructorId(2), InstructorId(1))));
        }
        other => panic!("expected a rotation, got {other:?}"),
    }
    assert!(mutation_for_draws(p, &sol, 1, 2, 1, None).is_none());
    assert!(mutation_for_draws(p, &sol, 1, 2, 3, None).is_none());
    assert!(matches!(mutation_for_draws(p, &sol, 2, 5, 0, Some(InstructorId(3))), Some(Mutation::Swap(SessionId(2), InstructorId(2), InstructorId(3)))));
    assert!(mutation_for_draws(p, &sol, 2, 5, 0, None).is_none());
}

#[test]
fn keep_move_decisions() {
    assert!(!keep_move(Some(5), None, true));
    assert!(!keep_move(None, None, true));
    assert!(keep_move(None, Some(9), false));
    assert!(keep_move(Some(5), Some(5), false));
    assert!(keep_move(Some(5), Some(3), false));
    assert!(!keep_move(Some(5), Some(6), false));
    assert!(keep_move(Some(5), Some(6), true));
}

#[test]
fn zero_rounds_return_the_initial_solution() {
    let s = many_sessions();
    let start = Solution::new((0..12u16).map(|i| Some(InstructorId(i % 4))).collect());
    let out = solve_once(s.problem(), &start, SolverSeed { num_rounds: 0, rng_seed: 8 }, &annealing);
    assert_eq!(out.solution, start);
    let (counts, _) = start.evaluate(s.problem(), None);
    assert_eq!(out.final_cost, counts.total_cost(&s.config));
}

#[test]
fn hopeless_session_stays_unassigned_with_finite_weight() {
    let mut s = many_sessions();
    s.config = {
        let entries: Vec<(String, CostPossibility)> = vec![
            ("assigned_impossible", 1), ("assigned_possible", 1), ("assigned_dislike", 2), ("unassigned_session", 50),
            ("below_min_tut", 0), ("below_min_lab", 0), ("below_min_class", 0), ("above_max_tut", 0),
            ("above_max_lab", 0), ("above_max_class", 0), ("direct_overlap", 100), ("padded_overlap", 10),
            ("same_day_overlap", 1),
        ]
        .into_iter()
        .map(|(n, v)| (n.to_string(), CostPossibility::Value(v)))
        .collect();
        CostConfig::from_entries(&entries).unwrap()
    };
    for j in 0..4u16 {
        s.availabilities.set_availability(SessionId(7), InstructorId(j), Availability::Impossible);
    }
    let out = solve_once(s.problem(), &s.initial, SolverSeed { num_rounds: 20000, rng_seed: 13 }, &annealing);
    assert_eq!(out.solution.assignment[7], None);
}
