use vstd::prelude::*;

use crate::costs::{sat, total_of, Constraint};
use crate::evaluator::{assignment_valid, ideal_count, EvalBuffer, Problem, Solution};
use crate::instructor::InstructorId;
use crate::mutation::{apply_spec, lemma_impossible_session_untouched, lemma_reverse_undoes_recorded, Mutation};
use crate::talloc::Availability;
use crate::random::{rng_u32, seeded_rng};
use crate::text::{append, decimal};

verus! {

/// The budget and seed of one solver run.
#[derive(Debug, Clone, Copy, PartialEq, Eq, Structural)]
pub struct SolverSeed {
    pub num_rounds: u64,
    pub rng_seed: u64,
}

/// The result of one solver run.
pub struct SolverOutput {
    pub seed: SolverSeed,
    /// The final cost; nothing stands for infinity.
    pub final_cost: Option<u64>,
    pub log: String,
    pub solution: Solution,
}

/// The total cost of an assignment; nothing stands for infinity.
pub open spec fn solution_cost(p: Problem, a: Seq<Option<InstructorId>>) -> Option<u64> {
    total_of(|k: Constraint| sat(ideal_count(p, a, k) as int), |k: Constraint| p.cost_config.weight(k))
}

/// Whether cost `a` is better than cost `b`: any finite cost beats infinity, and of two
/// finite costs the smaller wins.
pub open spec fn cost_better(a: Option<u64>, b: Option<u64>) -> bool {
    match (a, b) {
        (Some(x), Some(y)) => x < y,
        (Some(_), None) => true,
        _ => false,
    }
}

/// A cost as a number, infinity above every finite cost.
pub open spec fn cost_key(c: Option<u64>) -> int {
    match c {
        Some(x) => x as int,
        None => u64::MAX + 1,
    }
}

impl SolverOutput {
    pub fn better_than(&self, other: Option<&SolverOutput>) -> (r: bool)
        ensures
            r == match other {
                Some(o) => cost_better(self.final_cost, o.final_cost),
                None => self.final_cost is Some,
            },
    {
        let other_cost = match other {
            Some(output) => output.final_cost,
            None => None,
        };
        match (self.final_cost, other_cost) {
            (None, None) => false,
            (None, Some(_)) => false,
            (Some(_), None) => true,
            (Some(new), Some(old)) => new < old,
        }
    }
}

/// Offers a finished run to the best-result slot: it takes the slot if it is better than
/// what the slot holds. Returns whether it did.
pub fn offer_result(best: &mut Option<SolverOutput>, candidate: SolverOutput) -> (r: bool)
    ensures
        r == match *old(best) {
            Some(o) => cost_better(candidate.final_cost, o.final_cost),
            None => candidate.final_cost is Some,
        },
        r ==> *final(best) == Some(candidate),
        !r ==> *final(best) == *old(best),
{
    let better = match best {
        Some(current) => candidate.better_than(Some(current)),
        None => candidate.better_than(None),
    };
    if better {
        *best = Some(candidate);
    }
    better
}

/// The cost that the best-result slot ends with after the runs finish in the given order,
/// starting empty; infinity if no run had a finite cost.
pub open spec fn best_of(costs: Seq<Option<u64>>) -> Option<u64>
    decreases costs.len(),
{
    if costs.len() == 0 {
        None
    } else if cost_better(costs.last(), best_of(costs.drop_last())) {
        costs.last()
    } else {
        best_of(costs.drop_last())
    }
}

proof fn lemma_best_of_is_min(costs: Seq<Option<u64>>)
    ensures
        forall|k: int| 0 <= k < costs.len() ==> cost_key(best_of(costs)) <= cost_key(#[trigger] costs[k]),
        best_of(costs) is None || exists|k: int| 0 <= k < costs.len() && costs[k] == best_of(costs),
    decreases costs.len(),
{
    if costs.len() > 0 {
        let init = costs.drop_last();
        lemma_best_of_is_min(init);
        assert forall|k: int| 0 <= k < costs.len() implies cost_key(best_of(costs)) <= cost_key(#[trigger] costs[k]) by {
            if k < costs.len() - 1 {
                assert(costs[k] == init[k]);
            }
        }
        if best_of(costs) is Some && best_of(costs) == best_of(init) {
            let k = choose|k: int| 0 <= k < init.len() && init[k] == best_of(init);
            assert(costs[k] == init[k]);
        } else if best_of(costs) is Some {
            assert(costs[costs.len() - 1] == best_of(costs));
        }
    }
}

/// Replacing one run's result by one with a cost no worse never makes the best result worse.
pub proof fn lemma_best_of_monotone(costs: Seq<Option<u64>>, k: int, replacement: Option<u64>)
    requires
        0 <= k < costs.len(),
        cost_key(replacement) <= cost_key(costs[k]),
    ensures
        cost_key(best_of(costs.update(k, replacement))) <= cost_key(best_of(costs)),
{
    let updated = costs.update(k, replacement);
    lemma_best_of_is_min(costs);
    lemma_best_of_is_min(updated);
    if best_of(costs) is Some {
        let w = choose|w: int| 0 <= w < costs.len() && costs[w] == best_of(costs);
        if w == k {
            assert(cost_key(best_of(updated)) <= cost_key(updated[k]));
        } else {
            assert(updated[w] == costs[w]);
        }
    }
}

fn copy_solution(s: &Solution) -> (r: Solution)
    ensures
        r.is_nontrivial == s.is_nontrivial,
        r.assignment@ == s.assignment@,
{
    let mut assignment: Vec<Option<InstructorId>> = Vec::new();
    let mut i: usize = 0;
    while i < s.assignment.len()
        invariant
            i <= s.assignment.len(),
            assignment@ == s.assignment@.take(i as int),
        decreases s.assignment.len() - i,
    {
        assignment.push(s.assignment[i]);
        assert(assignment@ =~= s.assignment@.take(i + 1));
        i = i + 1;
    }
    assert(s.assignment@.take(i as int) =~= s.assignment@);
    Solution { is_nontrivial: s.is_nontrivial, assignment }
}

/// Appends a cost to a log: its digits, or `infinity`.
fn log_cost(log: &mut String, cost: Option<u64>)
    ensures
        final(log)@.len() >= old(log)@.len(),
{
    match cost {
        Some(c) => {
            let digits = decimal(c);
            append(log, digits.as_str());
        },
        None => append(log, "infinity"),
    }
}

/// Whether a round keeps its change: never when the new cost is infinite; always when the
/// current cost is infinite; otherwise when the new cost is no higher, or the acceptance test
/// passed.
pub fn keep_move(current: Option<u64>, new: Option<u64>, accepted: bool) -> (keep: bool)
    ensures
        keep == match (current, new) {
            (_, None) => false,
            (None, Some(_)) => true,
            (Some(c), Some(n)) => n <= c || accepted,
        },
{
    match (current, new) {
        (_, None) => false,
        (None, Some(_)) => true,
        (Some(c), Some(n)) => n <= c || accepted,
    }
}

/// Session `i` is unassigned in the assignment and impossible for every instructor.
pub open spec fn hopeless_unassigned(p: Problem, a: Seq<Option<InstructorId>>, i: int) -> bool {
    a[i] is None && forall|j: nat| j < p.num_instructors() ==> #[trigger] p.availabilities.get(i as nat, j) == Availability::Impossible
}

/// Rounds between progress lines in the log.
pub const REPORTING_INTERVAL: u64 = 25000;

/// One run of simulated annealing from the initial solution. Each round samples a change,
/// applies it and evaluates the result. A change to an infinite cost is undone. Otherwise
/// it is kept if the current cost is infinite or the new cost is no higher; a worse change
/// is kept when `accept(increase, round, rounds, draw)` says so for a fresh random draw,
/// and undone otherwise.
pub fn solve_once<F: Fn(u64, u64, u64, u32) -> bool>(
    problem: Problem,
    initial_solution: &Solution,
    seed: SolverSeed,
    accept: &F,
) -> (r: SolverOutput)
    requires
        problem.wf(),
        initial_solution.wf_for(problem),
        forall|d: u64, round: u64, rounds: u64, draw: u32| accept.requires((d, round, rounds, draw)),
    ensures
        r.seed == seed,
        r.solution.wf_for(problem),
        r.solution.is_nontrivial == initial_solution.is_nontrivial,
        r.final_cost == solution_cost(problem, r.solution.assignment@),
        solution_cost(problem, initial_solution.assignment@) is Some ==> r.final_cost is Some,
        seed.num_rounds == 0 ==> r.solution.assignment@ == initial_solution.assignment@,
        forall|i: int| 0 <= i < problem.num_sessions() && #[trigger] hopeless_unassigned(problem, initial_solution.assignment@, i)
            ==> r.solution.assignment@[i] is None,
{
    let mut rng = seeded_rng(seed.rng_seed);
    let mut solution = copy_solution(initial_solution);
    let (initial_counts, first_buffer) = solution.evaluate(problem, None);
    let mut current_cost = initial_counts.total_cost(problem.cost_config);
    let ghost initial_cost = current_cost;
    proof {
        assert((|k: Constraint| initial_counts.count(k)) =~= (|k: Constraint| sat(ideal_count(problem, solution.assignment@, k) as int)));
    }
    let mut log = String::new();
    append(&mut log, "Beginning solve with seed ");
    append(&mut log, decimal(seed.rng_seed).as_str());
    append(&mut log, " for ");
    append(&mut log, decimal(seed.num_rounds).as_str());
    append(&mut log, " rounds\nInitial cost: ");
    log_cost(&mut log, current_cost);
    append(&mut log, "\n");
    if current_cost.is_none() {
        append(&mut log, "Warning: initial cost is infinite, the result will probably be bad!\n");
    }
    append(&mut log, "Breakdown of initial cost:\n");
    let breakdown = initial_counts.describe(4);
    append(&mut log, breakdown.as_str());
    let mut buffer: Option<EvalBuffer> = Some(first_buffer);
    let mut round: u64 = 0;
    while round < seed.num_rounds
        invariant
            problem.wf(),
            solution.wf_for(problem),
            solution.is_nontrivial == initial_solution.is_nontrivial,
            current_cost == solution_cost(problem, solution.assignment@),
            initial_cost is Some ==> current_cost is Some,
            forall|d: u64, round: u64, rounds: u64, draw: u32| accept.requires((d, round, rounds, draw)),
            round <= seed.num_rounds,
            round == 0 ==> solution.assignment@ == initial_solution.assignment@,
            forall|i: int| 0 <= i < problem.num_sessions() && #[trigger] hopeless_unassigned(problem, initial_solution.assignment@, i)
                ==> solution.assignment@[i] is None,
        decreases seed.num_rounds - round,
    {
        if round % REPORTING_INTERVAL == 0 {
            append(&mut log, "After ");
            append(&mut log, decimal(round).as_str());
            append(&mut log, " rounds current cost is ");
            log_cost(&mut log, current_cost);
            append(&mut log, "\n");
        }
        let mutation = match Mutation::make_random(problem, &solution, &mut rng) {
            Some(mutation) => mutation,
            None => {
                round = round + 1;
                continue;
            },
        };
        let ghost before = solution.assignment@;
        proof {
            lemma_apply_keeps_valid(before, mutation, problem.num_sessions(), problem.num_instructors());
            lemma_reverse_undoes_recorded(before, mutation);
        }
        solution.apply_mutation(&mutation);
        proof {
            assert forall|i: int| 0 <= i < problem.num_sessions() && #[trigger] hopeless_unassigned(problem, initial_solution.assignment@, i)
                implies solution.assignment@[i] is None by {
                assert(hopeless_unassigned(problem, before, i));
                lemma_impossible_session_untouched(problem, before, before, mutation, i);
            }
        }
        let (new_counts, new_buffer) = solution.evaluate(problem, buffer);
        buffer = Some(new_buffer);
        proof {
            assert((|k: Constraint| new_counts.count(k)) =~= (|k: Constraint| sat(ideal_count(problem, solution.assignment@, k) as int)));
        }
        let new_cost = match new_counts.total_cost(problem.cost_config) {
            Some(new_cost) => new_cost,
            None => {
                solution.reverse_mutation(&mutation);
                round = round + 1;
                continue;
            },
        };
        let accepted = match current_cost {
            Some(current) => {
                if new_cost <= current {
                    false
                } else {
                    let draw = rng_u32(&mut rng);
                    accept(new_cost - current, round, seed.num_rounds, draw)
                }
            },
            None => false,
        };
        let keep = keep_move(current_cost, Some(new_cost), accepted);
        if keep {
            current_cost = Some(new_cost);
        } else {
            solution.reverse_mutation(&mutation);
        }
        round = round + 1;
    }
    append(&mut log, "\nFinal cost: ");
    log_cost(&mut log, current_cost);
    append(&mut log, "\n");
    let (final_counts, _) = solution.evaluate(problem, buffer);
    let final_breakdown = final_counts.describe(4);
    append(&mut log, final_breakdown.as_str());
    SolverOutput { seed, final_cost: current_cost, log, solution }
}

proof fn lemma_apply_keeps_valid(a: Seq<Option<InstructorId>>, m: Mutation, num_sessions: nat, num_instructors: nat)
    requires
        assignment_valid(a, num_sessions, num_instructors),
        m.fits(num_sessions, num_instructors),
        num_instructors <= u16::MAX + 1,
    ensures
        assignment_valid(apply_spec(a, m), num_sessions, num_instructors),
        m.fits(num_sessions, (u16::MAX + 1) as nat),
    decreases m,
{
    match m {
        Mutation::Mult(x, y) => {
            lemma_apply_keeps_valid(a, *x, num_sessions, num_instructors);
            lemma_apply_keeps_valid(apply_spec(a, *x), *y, num_sessions, num_instructors);
        },
        _ => {
            assert(assignment_valid(apply_spec(a, m), num_sessions, num_instructors));
        },
    }
}

} // verus!
