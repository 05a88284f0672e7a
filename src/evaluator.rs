use vstd::prelude::*;

use crate::availabilities::AvailabilityMatrix;
use crate::costs::{sat, Constraint, CostConfig, CostCount};
use crate::instructor::{ClassTypeRequirement, Instructor, InstructorId};
use crate::session::{sessions_wf, OverlapMatrix, Session, SessionId, SessionType};
use crate::talloc::Availability;

verus! {

/// Everything the search reads: sessions, instructors, the precomputed relations, the cost
/// weights and the initial solution.
#[derive(Clone, Copy)]
pub struct Problem<'a> {
    pub sessions: &'a Vec<Session>,
    pub instructors: &'a Vec<Instructor>,
    pub availabilities: &'a AvailabilityMatrix,
    pub overlap_sharp: &'a OverlapMatrix,
    pub overlap_padded: &'a OverlapMatrix,
    pub overlap_same_day: &'a OverlapMatrix,
    pub cost_config: &'a CostConfig,
    pub initial_solution: &'a Solution,
}

/// For each session, the instructor assigned to it, if any.
#[derive(Default, Clone, PartialEq, Eq, Debug)]
pub struct Solution {
    /// Whether this is an explicit solution rather than the empty default.
    pub is_nontrivial: bool,
    pub assignment: Vec<Option<InstructorId>>,
}

/// Instructors whose ids are their positions.
pub open spec fn instructors_wf(instructors: Seq<Instructor>) -> bool {
    &&& instructors.len() <= u16::MAX + 1
    &&& forall|j: int| 0 <= j < instructors.len() ==> (#[trigger] instructors[j]).instructor_id.index() == j
}

/// Every assigned instructor exists.
pub open spec fn assignment_valid(a: Seq<Option<InstructorId>>, num_sessions: nat, num_instructors: nat) -> bool {
    &&& a.len() == num_sessions
    &&& forall|i: int| 0 <= i < a.len() ==> (#[trigger] a[i] matches Some(j) ==> j.index() < num_instructors)
}

impl<'a> Problem<'a> {
    pub open spec fn num_sessions(&self) -> nat {
        self.sessions@.len()
    }

    pub open spec fn num_instructors(&self) -> nat {
        self.instructors@.len()
    }

    pub open spec fn wf(&self) -> bool {
        &&& sessions_wf(self.sessions@)
        &&& instructors_wf(self.instructors@)
        &&& self.availabilities.wf()
        &&& self.availabilities.sessions() == self.num_sessions()
        &&& self.availabilities.instructors() == self.num_instructors()
        &&& self.overlap_sharp.wf() && self.overlap_sharp.size() == self.num_sessions()
        &&& self.overlap_padded.wf() && self.overlap_padded.size() == self.num_sessions()
        &&& self.overlap_same_day.wf() && self.overlap_same_day.size() == self.num_sessions()
        &&& self.cost_config.wf()
        &&& assignment_valid(self.initial_solution.assignment@, self.num_sessions(), self.num_instructors())
    }
}

/// The kind that assigning at an availability level counts towards.
pub open spec fn level_kind(a: Availability) -> Constraint {
    match a {
        Availability::Impossible => Constraint::AssignedImpossible,
        Availability::Dislike => Constraint::AssignedDislike,
        Availability::Possible => Constraint::AssignedPossible,
        Availability::Preferred => Constraint::AssignedPreferred,
    }
}

/// What session `i` contributes to kind `k`: one for its assignment level or for being
/// unassigned, and one if it differs from a defined initial assignment while that is counted.
pub open spec fn session_kinds(p: Problem, a: Seq<Option<InstructorId>>, i: int, k: Constraint) -> nat {
    (match a[i] {
        Some(j) => if level_kind(p.availabilities.get(i as nat, j.index())) == k { 1nat } else { 0 },
        None => if k == Constraint::UnassignedSession { 1nat } else { 0 },
    }) + (if k == Constraint::MismatchedInitialSolution && p.cost_config.spec_should_count(k)
        && p.initial_solution.assignment@[i] is Some && p.initial_solution.assignment@[i] != a[i] {
        1nat
    } else {
        0
    })
}

/// Sum of the contributions of the first `n` sessions.
pub open spec fn sessions_count(p: Problem, a: Seq<Option<InstructorId>>, n: nat, k: Constraint) -> nat
    decreases n,
{
    if n == 0 {
        0
    } else {
        sessions_count(p, a, (n - 1) as nat, k) + session_kinds(p, a, n - 1, k)
    }
}

/// The sessions among the first `n` that are assigned to instructor `j`, in order.
pub open spec fn bucket(a: Seq<Option<InstructorId>>, j: nat, n: nat) -> Seq<SessionId>
    decreases n,
{
    if n == 0 {
        Seq::empty()
    } else if a[n - 1] matches Some(x) && x.index() == j {
        bucket(a, j, (n - 1) as nat).push(SessionId((n - 1) as u16))
    } else {
        bucket(a, j, (n - 1) as nat)
    }
}

/// Number of tutorial-with-lab sessions in a list.
pub open spec fn tut_count(p: Problem, b: Seq<SessionId>) -> nat
    decreases b.len(),
{
    if b.len() == 0 {
        0
    } else {
        tut_count(p, b.drop_last()) + if p.sessions@[b.last().index() as int].typ == SessionType::TutLab { 1nat } else { 0 }
    }
}

pub open spec fn below(actual: nat, min: u8) -> nat {
    if actual < min { (min - actual) as nat } else { 0 }
}

pub open spec fn above(actual: nat, max: u8) -> nat {
    if actual > max { (actual - max) as nat } else { 0 }
}

/// How far an instructor with the given sessions falls outside their workload bounds, by kind.
pub open spec fn bound_kinds(p: Problem, b: Seq<SessionId>, req: ClassTypeRequirement, k: Constraint) -> nat {
    let t = tut_count(p, b);
    let l = (b.len() - t) as nat;
    let c = b.len();
    match k {
        Constraint::BelowMinTut => below(t, req.min_tutes),
        Constraint::AboveMaxTut => above(t, req.max_tutes),
        Constraint::BelowMinLab => below(l, req.min_lab_assists),
        Constraint::AboveMaxLab => above(l, req.max_lab_assists),
        Constraint::BelowMinClass => below(c, req.min_total_classes),
        Constraint::AboveMaxClass => above(c, req.max_total_classes),
        _ => 0,
    }
}

/// The overlap kind that a pair of sessions of one instructor counts towards: a direct overlap
/// first, then a padded one, then one on the same day, the last two only while counted.
pub open spec fn pair_kind(p: Problem, x: SessionId, y: SessionId) -> Option<Constraint> {
    if p.overlap_sharp.overlaps(x.index(), y.index()) {
        Some(Constraint::DirectOverlap)
    } else if p.cost_config.spec_should_count(Constraint::PaddedOverlap) && p.overlap_padded.overlaps(x.index(), y.index()) {
        Some(Constraint::PaddedOverlap)
    } else if p.cost_config.spec_should_count(Constraint::SameDayOverlap) && p.overlap_same_day.overlaps(x.index(), y.index()) {
        Some(Constraint::SameDayOverlap)
    } else {
        None
    }
}

/// Pairs `(b[i], b[o])` with `i < n` that count towards `k`.
pub open spec fn row_count(p: Problem, b: Seq<SessionId>, o: int, n: nat, k: Constraint) -> nat
    decreases n,
{
    if n == 0 {
        0
    } else {
        row_count(p, b, o, (n - 1) as nat, k) + if pair_kind(p, b[n - 1], b[o]) == Some(k) { 1nat } else { 0 }
    }
}

/// Pairs of positions `i < o < n` of the list that count towards `k`.
pub open spec fn pairs_count(p: Problem, b: Seq<SessionId>, n: nat, k: Constraint) -> nat
    decreases n,
{
    if n == 0 {
        0
    } else {
        pairs_count(p, b, (n - 1) as nat, k) + row_count(p, b, n - 1, (n - 1) as nat, k)
    }
}

/// What instructor `j` contributes to kind `k`: workload bounds and overlapping pairs.
pub open spec fn instructor_kinds(p: Problem, a: Seq<Option<InstructorId>>, j: nat, k: Constraint) -> nat {
    let b = bucket(a, j, p.num_sessions());
    bound_kinds(p, b, p.instructors@[j as int].class_type_requirement, k) + pairs_count(p, b, b.len(), k)
}

/// Sum of the contributions of the first `m` instructors.
pub open spec fn instructors_count(p: Problem, a: Seq<Option<InstructorId>>, m: nat, k: Constraint) -> nat
    decreases m,
{
    if m == 0 {
        0
    } else {
        instructors_count(p, a, (m - 1) as nat, k) + instructor_kinds(p, a, (m - 1) as nat, k)
    }
}

/// How often an assignment violates each kind of constraint, before counts saturate.
pub open spec fn ideal_count(p: Problem, a: Seq<Option<InstructorId>>, k: Constraint) -> nat {
    sessions_count(p, a, p.num_sessions(), k) + instructors_count(p, a, p.num_instructors(), k)
}

/// The counts are those of the assignment, each held at the largest count.
pub open spec fn counts_of(c: CostCount, p: Problem, a: Seq<Option<InstructorId>>) -> bool {
    &&& c.wf()
    &&& forall|k: Constraint| #[trigger] c.count(k) == sat(ideal_count(p, a, k) as int)
}

/// Evaluation depends on the assignment and the problem alone: two count tables that both
/// describe the same assignment of the same problem agree on every kind.
pub proof fn lemma_evaluate_deterministic(c1: CostCount, c2: CostCount, p: Problem, a: Seq<Option<InstructorId>>, k: Constraint)
    requires
        counts_of(c1, p, a),
        counts_of(c2, p, a),
    ensures
        c1.count(k) == c2.count(k),
{
}

proof fn lemma_sessions_count_empty(p: Problem, a: Seq<Option<InstructorId>>, n: nat, k: Constraint)
    requires
        n <= a.len(),
        n <= p.initial_solution.assignment@.len(),
        forall|i: int| 0 <= i < n ==> (#[trigger] a[i]) is None && p.initial_solution.assignment@[i] is None,
        k != Constraint::UnassignedSession,
    ensures
        sessions_count(p, a, n, k) == 0,
    decreases n,
{
    if n > 0 {
        lemma_sessions_count_empty(p, a, (n - 1) as nat, k);
        assert(a[n - 1] is None);
    }
}

proof fn lemma_bucket_empty(a: Seq<Option<InstructorId>>, j: nat, n: nat)
    requires
        n <= a.len(),
        forall|i: int| 0 <= i < n ==> (#[trigger] a[i]) is None,
    ensures
        bucket(a, j, n).len() == 0,
    decreases n,
{
    if n > 0 {
        assert(a[n - 1] is None);
        lemma_bucket_empty(a, j, (n - 1) as nat);
    }
}

proof fn lemma_instructors_count_idle(p: Problem, a: Seq<Option<InstructorId>>, m: nat, k: Constraint)
    requires
        m <= p.instructors@.len(),
        a.len() == p.num_sessions(),
        forall|i: int| 0 <= i < a.len() ==> (#[trigger] a[i]) is None,
        forall|j: int| 0 <= j < m ==> {
            let r = (#[trigger] p.instructors@[j]).class_type_requirement;
            r.min_tutes == 0 && r.min_lab_assists == 0 && r.min_total_classes == 0
        },
    ensures
        instructors_count(p, a, m, k) == 0,
    decreases m,
{
    if m > 0 {
        lemma_instructors_count_idle(p, a, (m - 1) as nat, k);
        lemma_bucket_empty(a, (m - 1) as nat, p.num_sessions());
        let b = bucket(a, (m - 1) as nat, p.num_sessions());
        assert(tut_count(p, b) == 0);
        assert(pairs_count(p, b, 0, k) == 0);
        let r = p.instructors@[m - 1].class_type_requirement;
        assert(r.min_tutes == 0 && r.min_lab_assists == 0 && r.min_total_classes == 0);
    }
}

/// With no instructors, or with no sessions and no instructor owed a minimum workload, the
/// only cost that an unassigned solution incurs is one unassigned-session count per session.
pub proof fn lemma_trivial_problem_costs(p: Problem, a: Seq<Option<InstructorId>>, k: Constraint)
    requires
        p.wf(),
        assignment_valid(a, p.num_sessions(), p.num_instructors()),
        p.num_instructors() == 0 || (p.num_sessions() == 0 && forall|j: int| 0 <= j < p.num_instructors() ==> {
            let r = (#[trigger] p.instructors@[j]).class_type_requirement;
            r.min_tutes == 0 && r.min_lab_assists == 0 && r.min_total_classes == 0
        }),
    ensures
        forall|i: int| 0 <= i < a.len() ==> (#[trigger] a[i]) is None,
        k != Constraint::UnassignedSession ==> ideal_count(p, a, k) == 0,
        ideal_count(p, a, Constraint::UnassignedSession) == p.num_sessions(),
{
    assert forall|i: int| 0 <= i < a.len() implies (#[trigger] a[i]) is None by {
        if a[i] is Some {
            assert(a[i] matches Some(j) ==> j.index() < p.num_instructors());
        }
    }
    assert forall|i: int| 0 <= i < a.len() implies (#[trigger] p.initial_solution.assignment@[i]) is None by {
        let init = p.initial_solution.assignment@;
        if init[i] is Some {
            assert(init[i] matches Some(j) ==> j.index() < p.num_instructors());
        }
    }
    if k != Constraint::UnassignedSession {
        lemma_sessions_count_empty(p, a, p.num_sessions(), k);
    }
    lemma_sessions_count_unassigned(p, a, p.num_sessions());
    if p.num_instructors() > 0 {
        lemma_instructors_count_idle(p, a, p.num_instructors(), k);
        lemma_instructors_count_idle(p, a, p.num_instructors(), Constraint::UnassignedSession);
    }
}

proof fn lemma_sessions_count_unassigned(p: Problem, a: Seq<Option<InstructorId>>, n: nat)
    requires
        n <= a.len(),
        forall|i: int| 0 <= i < a.len() ==> (#[trigger] a[i]) is None,
    ensures
        sessions_count(p, a, n, Constraint::UnassignedSession) == n,
    decreases n,
{
    if n > 0 {
        lemma_sessions_count_unassigned(p, a, (n - 1) as nat);
        assert(a[n - 1] is None);
    }
}

proof fn lemma_sessions_count_at_least(p: Problem, a: Seq<Option<InstructorId>>, n: nat, i: int, k: Constraint)
    requires
        0 <= i < n,
        n <= a.len(),
    ensures
        sessions_count(p, a, n, k) >= session_kinds(p, a, i, k),
    decreases n,
{
    if i < n - 1 {
        lemma_sessions_count_at_least(p, a, (n - 1) as nat, i, k);
    }
}

/// A session that no instructor can take, while assigning at an impossible level has infinite
/// weight, makes every solution that assigns it infinitely costly.
pub proof fn lemma_impossible_session_forces_unassigned(p: Problem, a: Seq<Option<InstructorId>>, s: int)
    requires
        p.wf(),
        assignment_valid(a, p.num_sessions(), p.num_instructors()),
        0 <= s < p.num_sessions(),
        forall|j: nat| j < p.num_instructors() ==> #[trigger] p.availabilities.get(s as nat, j) == Availability::Impossible,
        p.cost_config.weight(Constraint::AssignedImpossible) is Infinity,
        a[s] is Some,
    ensures
        ideal_count(p, a, Constraint::AssignedImpossible) >= 1,
        crate::costs::total_of(|k: Constraint| sat(ideal_count(p, a, k) as int), |k: Constraint| p.cost_config.weight(k)) is None,
{
    let j = a[s]->Some_0;
    assert(a[s] matches Some(x) ==> x.index() < p.num_instructors());
    assert(p.availabilities.get(s as nat, j.index()) == Availability::Impossible);
    assert(session_kinds(p, a, s, Constraint::AssignedImpossible) >= 1);
    lemma_sessions_count_at_least(p, a, p.num_sessions(), s, Constraint::AssignedImpossible);
    let counts = |k: Constraint| sat(ideal_count(p, a, k) as int);
    let weights = |k: Constraint| p.cost_config.weight(k);
    assert(weights(Constraint::AssignedImpossible) is Infinity && counts(Constraint::AssignedImpossible) > 0);
    crate::costs::lemma_infinite_weight_semantics(counts, weights);
}

/// Reusable per-instructor lists of assigned sessions.
pub struct EvalBuffer {
    pub instructor_allocations: Vec<Vec<SessionId>>,
}

proof fn lemma_sat_add(x: nat, d: nat)
    ensures
        sat((sat(x as int) + d) as int) == sat((x + d) as int),
{
}

proof fn lemma_bucket_facts(a: Seq<Option<InstructorId>>, j: nat, n: nat)
    requires
        n <= a.len(),
        n <= u16::MAX + 1,
    ensures
        bucket(a, j, n).len() <= n,
        forall|t: int| 0 <= t < bucket(a, j, n).len() ==> (#[trigger] bucket(a, j, n)[t]).index() < n,
    decreases n,
{
    if n > 0 {
        lemma_bucket_facts(a, j, (n - 1) as nat);
    }
}

impl Solution {
    pub open spec fn wf_for(&self, p: Problem) -> bool {
        assignment_valid(self.assignment@, p.num_sessions(), p.num_instructors())
    }

    /// The solution with no session assigned.
    pub fn empty(num_sessions: usize, is_nontrivial: bool) -> (r: Solution)
        ensures
            r.is_nontrivial == is_nontrivial,
            r.assignment@.len() == num_sessions,
            forall|i: int| 0 <= i < num_sessions ==> #[trigger] r.assignment@[i] is None,
    {
        let mut assignment: Vec<Option<InstructorId>> = Vec::new();
        while assignment.len() < num_sessions
            invariant
                assignment.len() <= num_sessions,
                forall|i: int| 0 <= i < assignment.len() ==> #[trigger] assignment@[i] is None,
            decreases num_sessions - assignment.len(),
        {
            assignment.push(None);
        }
        Solution { is_nontrivial, assignment }
    }

    /// An explicit solution.
    pub fn new(assignment: Vec<Option<InstructorId>>) -> (r: Solution)
        ensures
            r.is_nontrivial,
            r.assignment == assignment,
    {
        Solution { is_nontrivial: true, assignment }
    }

    /// Counts how often this solution violates each kind of constraint. The buffer, if given,
    /// is reused for the per-instructor session lists and handed back.
    pub fn evaluate(&self, problem: Problem, buffer: Option<EvalBuffer>) -> (r: (CostCount, EvalBuffer))
        requires
            problem.wf(),
            self.wf_for(problem),
        ensures
            counts_of(r.0, problem, self.assignment@),
            r.1.instructor_allocations.len() == problem.num_instructors(),
            forall|j: int| 0 <= j < problem.num_instructors() ==> (#[trigger] r.1.instructor_allocations@[j])@
                == bucket(self.assignment@, j as nat, problem.num_sessions()),
    {
        let ghost a = self.assignment@;
        let ghost p = problem;
        let num_sessions = problem.sessions.len();
        let num_instructors = problem.instructors.len();
        let mut costs = CostCount::new();
        let mut allocations = match buffer {
            Some(b) => b.instructor_allocations,
            None => Vec::new(),
        };
        if allocations.len() != num_instructors {
            allocations = Vec::new();
            while allocations.len() < num_instructors
                invariant
                    allocations.len() <= num_instructors,
                decreases num_instructors - allocations.len(),
            {
                allocations.push(Vec::new());
            }
        }
        let mut j: usize = 0;
        while j < num_instructors
            invariant
                allocations.len() == num_instructors,
                j <= num_instructors,
                forall|x: int| 0 <= x < j ==> (#[trigger] allocations@[x])@.len() == 0,
            decreases num_instructors - j,
        {
            allocations[j].clear();
            j = j + 1;
        }
        let count_mismatch = problem.cost_config.should_count(Constraint::MismatchedInitialSolution);
        let mut i: usize = 0;
        while i < num_sessions
            invariant
                problem.wf(),
                self.wf_for(problem),
                a == self.assignment@,
                p == problem,
                num_sessions == p.num_sessions(),
                num_instructors == p.num_instructors(),
                count_mismatch == p.cost_config.spec_should_count(Constraint::MismatchedInitialSolution),
                i <= num_sessions,
                costs.wf(),
                forall|k: Constraint| #[trigger] costs.count(k) == sat(sessions_count(p, a, i as nat, k) as int),
                allocations.len() == num_instructors,
                forall|x: int| 0 <= x < num_instructors ==> (#[trigger] allocations@[x])@ == bucket(a, x as nat, i as nat),
            decreases num_sessions - i,
        {
            let session_id = problem.sessions[i].session_id;
            assert(session_id.index() == i);
            let kind = match self.assignment[i] {
                Some(instructor_id) => {
                    let availability = problem.availabilities.get_availability(session_id, instructor_id);
                    let kind = match availability {
                        Availability::Impossible => Constraint::AssignedImpossible,
                        Availability::Dislike => Constraint::AssignedDislike,
                        Availability::Possible => Constraint::AssignedPossible,
                        Availability::Preferred => Constraint::AssignedPreferred,
                    };
                    let ghost before = allocations@;
                    allocations[instructor_id.raw_index()].push(session_id);
                    proof {
                        assert forall|x: int| 0 <= x < num_instructors implies (#[trigger] allocations@[x])@ == bucket(a, x as nat, (i + 1) as nat) by {
                            if x != instructor_id.index() {
                                assert(allocations@[x] == before[x]);
                            }
                        }
                    }
                    kind
                },
                None => Constraint::UnassignedSession,
            };
            let ghost mid = costs;
            costs.add_cost_1(kind);
            let mut mismatch = false;
            if count_mismatch {
                match problem.initial_solution.assignment[i] {
                    Some(old_assignment) => {
                        mismatch = match self.assignment[i] {
                            Some(current) => current != old_assignment,
                            None => true,
                        };
                    },
                    None => {},
                }
            }
            let ghost before_mismatch = costs;
            if mismatch {
                costs.add_cost_1(Constraint::MismatchedInitialSolution);
            }
            proof {
                assert forall|k: Constraint| #[trigger] costs.count(k) == sat(sessions_count(p, a, (i + 1) as nat, k) as int) by {
                    let base = sessions_count(p, a, i as nat, k);
                    let first: nat = if k == kind { 1 } else { 0 };
                    let second: nat = if mismatch && k == Constraint::MismatchedInitialSolution { 1 } else { 0 };
                    if k == kind {
                        lemma_sat_add(base, 1);
                    }
                    if mismatch && k == Constraint::MismatchedInitialSolution {
                        lemma_sat_add(base + first, 1);
                    }
                    assert(session_kinds(p, a, i as int, k) == first + second);
                }
                assert forall|x: int| 0 <= x < num_instructors implies (#[trigger] allocations@[x])@ == bucket(a, x as nat, (i + 1) as nat) by {
                }
            }
            i = i + 1;
        }
        let mut j: usize = 0;
        while j < num_instructors
            invariant
                problem.wf(),
                self.wf_for(problem),
                a == self.assignment@,
                p == problem,
                num_sessions == p.num_sessions(),
                num_instructors == p.num_instructors(),
                j <= num_instructors,
                costs.wf(),
                forall|k: Constraint| #[trigger] costs.count(k) == sat((sessions_count(p, a, num_sessions as nat, k) + instructors_count(p, a, j as nat, k)) as int),
                allocations.len() == num_instructors,
                forall|x: int| 0 <= x < num_instructors ==> (#[trigger] allocations@[x])@ == bucket(a, x as nat, num_sessions as nat),
            decreases num_instructors - j,
        {
            let ghost base = |k: Constraint| (sessions_count(p, a, num_sessions as nat, k) + instructors_count(p, a, j as nat, k)) as nat;
            let allocation = &allocations[j];
            let ghost b = allocation@;
            proof {
                lemma_bucket_facts(a, j as nat, num_sessions as nat);
            }
            let num_classes = allocation.len();
            let mut num_tuts: usize = 0;
            let mut t: usize = 0;
            while t < num_classes
                invariant
                    problem.wf(),
                    p == problem,
                    b == allocation@,
                    num_classes == b.len(),
                    num_sessions == p.num_sessions(),
                    forall|x: int| 0 <= x < b.len() ==> (#[trigger] b[x]).index() < num_sessions,
                    t <= num_classes,
                    num_tuts == tut_count(p, b.take(t as int)),
                    num_tuts <= t,
                decreases num_classes - t,
            {
                assert(b.take(t + 1).drop_last() =~= b.take(t as int));
                if problem.sessions[allocation[t].raw_index()].typ == SessionType::TutLab {
                    num_tuts = num_tuts + 1;
                }
                t = t + 1;
            }
            assert(b.take(num_classes as int) =~= b);
            let num_labs = num_classes - num_tuts;
            let req = problem.instructors[j].class_type_requirement;
            let ghost start = costs;
            add_minmax_cost(&mut costs, num_tuts, req.min_tutes, req.max_tutes, Constraint::BelowMinTut, Constraint::AboveMaxTut);
            add_minmax_cost(&mut costs, num_labs, req.min_lab_assists, req.max_lab_assists, Constraint::BelowMinLab, Constraint::AboveMaxLab);
            add_minmax_cost(&mut costs, num_classes, req.min_total_classes, req.max_total_classes, Constraint::BelowMinClass, Constraint::AboveMaxClass);
            proof {
                assert forall|k: Constraint| #[trigger] costs.count(k) == sat((base(k) + bound_kinds(p, b, req, k)) as int) by {
                    if bound_kinds(p, b, req, k) > 0 {
                        lemma_sat_add(base(k), bound_kinds(p, b, req, k));
                    }
                }
            }
            proof {
                assert forall|k: Constraint| #[trigger] pairs_count(p, b, 1, k) == 0 by {
                    assert(pairs_count(p, b, 0, k) == 0);
                    assert(row_count(p, b, 0, 0, k) == 0);
                }
            }
            let mut outer: usize = 1;
            while outer < num_classes
                invariant
                    problem.wf(),
                    p == problem,
                    b == allocation@,
                    num_classes == b.len(),
                    num_sessions == p.num_sessions(),
                    forall|x: int| 0 <= x < b.len() ==> (#[trigger] b[x]).index() < num_sessions,
                    1 <= outer,
                    outer <= num_classes || num_classes == 0,
                    num_classes == 0 ==> outer == 1,
                    costs.wf(),
                    forall|k: Constraint| #[trigger] costs.count(k) == sat((base(k) + bound_kinds(p, b, req, k) + pairs_count(p, b, outer as nat, k)) as int),
                decreases num_classes - outer,
            {
                let mut inner: usize = 0;
                while inner < outer
                    invariant
                        problem.wf(),
                        p == problem,
                        b == allocation@,
                        num_classes == b.len(),
                        num_sessions == p.num_sessions(),
                        forall|x: int| 0 <= x < b.len() ==> (#[trigger] b[x]).index() < num_sessions,
                        outer < num_classes,
                        inner <= outer,
                        costs.wf(),
                        forall|k: Constraint| #[trigger] costs.count(k) == sat((base(k) + bound_kinds(p, b, req, k) + pairs_count(p, b, outer as nat, k) + row_count(p, b, outer as int, inner as nat, k)) as int),
                    decreases outer - inner,
                {
                    let session_1 = allocation[inner];
                    let session_2 = allocation[outer];
                    let kind: Option<Constraint> = if problem.overlap_sharp.is_overlap(session_1, session_2) {
                        Some(Constraint::DirectOverlap)
                    } else if problem.cost_config.should_count(Constraint::PaddedOverlap)
                        && problem.overlap_padded.is_overlap(session_1, session_2) {
                        Some(Constraint::PaddedOverlap)
                    } else if problem.cost_config.should_count(Constraint::SameDayOverlap)
                        && problem.overlap_same_day.is_overlap(session_1, session_2) {
                        Some(Constraint::SameDayOverlap)
                    } else {
                        None
                    };
                    assert(kind == pair_kind(p, b[inner as int], b[outer as int]));
                    match kind {
                        Some(k0) => {
                            let ghost before = costs;
                            costs.add_cost_1(k0);
                            proof {
                                assert forall|k: Constraint| #[trigger] costs.count(k) == sat((base(k) + bound_kinds(p, b, req, k) + pairs_count(p, b, outer as nat, k) + row_count(p, b, outer as int, (inner + 1) as nat, k)) as int) by {
                                    if k == k0 {
                                        lemma_sat_add((base(k) + bound_kinds(p, b, req, k) + pairs_count(p, b, outer as nat, k) + row_count(p, b, outer as int, inner as nat, k)) as nat, 1);
                                    }
                                }
                            }
                        },
                        None => {},
                    }
                    inner = inner + 1;
                }
                outer = outer + 1;
            }
            proof {
                assert(b == bucket(a, j as nat, p.num_sessions()));
                assert forall|k: Constraint| #[trigger] costs.count(k) == sat((sessions_count(p, a, num_sessions as nat, k) + instructors_count(p, a, (j + 1) as nat, k)) as int) by {
                    if num_classes == 0 {
                        assert(pairs_count(p, b, 1, k) == 0);
                        assert(pairs_count(p, b, 0, k) == 0);
                    } else {
                        assert(outer == num_classes);
                    }
                    assert(pairs_count(p, b, outer as nat, k) == pairs_count(p, b, b.len(), k));
                    assert(instructors_count(p, a, (j + 1) as nat, k) == instructors_count(p, a, j as nat, k) + instructor_kinds(p, a, j as nat, k));
                    assert(instructor_kinds(p, a, j as nat, k) == bound_kinds(p, b, req, k) + pairs_count(p, b, b.len(), k));
                }
            }
            j = j + 1;
        }
        (costs, EvalBuffer { instructor_allocations: allocations })
    }
}

/// Adds the shortfall below `min` to `below_kind` and the excess above `max` to `above_kind`.
fn add_minmax_cost(costs: &mut CostCount, actual: usize, min: u8, max: u8, below_kind: Constraint, above_kind: Constraint)
    requires
        old(costs).wf(),
        below_kind != above_kind,
        actual <= u16::MAX + 1,
    ensures
        final(costs).wf(),
        final(costs).count(below_kind) == sat((old(costs).count(below_kind) + below(actual as nat, min)) as int),
        final(costs).count(above_kind) == sat((old(costs).count(above_kind) + above(actual as nat, max)) as int),
        forall|k: Constraint| k != below_kind && k != above_kind ==> #[trigger] final(costs).count(k) == old(costs).count(k),
{
    proof {
        old(costs).lemma_count_bound(below_kind);
        old(costs).lemma_count_bound(above_kind);
    }
    if actual < min as usize {
        costs.add_cost(below_kind, (min as usize - actual) as u32);
    }
    if actual > max as usize {
        costs.add_cost(above_kind, (actual - max as usize) as u32);
    }
}

} // verus!
