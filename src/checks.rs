use vstd::prelude::*;

use crate::costs::Constraint;
use crate::evaluator::Problem;
use crate::instructor::{ClassTypeRequirement, Instructor};
use crate::session::{Session, SessionType};

verus! {

/// A consistency condition on one instructor's workload bounds.
#[derive(Debug, Clone, Copy, PartialEq, Eq, Structural)]
pub enum BoundCondition {
    MinTutesAtMostMaxTutes,
    MinLabsAtMostMaxLabs,
    MinClassesAtMostMaxClasses,
    MinTutesAndLabsAtMostMaxClasses,
    MinClassesAtMostMaxTutesAndLabs,
    MinTutesAndLabsAtMostMinClasses,
    MaxClassesAtMostMaxTutesAndLabs,
}

/// A feasibility condition comparing the summed bounds with the sessions to fill.
#[derive(Debug, Clone, Copy, PartialEq, Eq, Structural)]
pub enum TotalCondition {
    SumMinTutesAtMostTutes,
    TutesAtMostSumMaxTutes,
    SumMinLabsAtMostLabs,
    LabsAtMostSumMaxLabs,
    SumMinClassesAtMostClasses,
    ClassesAtMostSumMaxClasses,
}

/// A failed feasibility condition with its two sides.
#[derive(Debug, Clone, Copy, PartialEq, Eq, Structural)]
pub struct TotalViolation {
    pub condition: TotalCondition,
    pub left: u64,
    pub right: u64,
}

/// What the pre-flight checks found; none of it stops the search.
#[derive(Debug, Clone)]
pub struct ProblemWarnings {
    /// For each instructor, the consistency conditions that their bounds violate.
    pub instructor_violations: Vec<Vec<BoundCondition>>,
    /// The feasibility conditions that fail.
    pub total_violations: Vec<TotalViolation>,
    /// Mismatches with the initial solution are costed, but no initial solution was given.
    pub mismatch_without_initial: bool,
}

/// Whether the bounds meet the condition.
pub open spec fn bound_holds(r: ClassTypeRequirement, c: BoundCondition) -> bool {
    match c {
        BoundCondition::MinTutesAtMostMaxTutes => r.min_tutes <= r.max_tutes,
        BoundCondition::MinLabsAtMostMaxLabs => r.min_lab_assists <= r.max_lab_assists,
        BoundCondition::MinClassesAtMostMaxClasses => r.min_total_classes <= r.max_total_classes,
        BoundCondition::MinTutesAndLabsAtMostMaxClasses => r.min_tutes + r.min_lab_assists <= r.max_total_classes,
        BoundCondition::MinClassesAtMostMaxTutesAndLabs => r.min_total_classes <= r.max_lab_assists + r.max_tutes,
        BoundCondition::MinTutesAndLabsAtMostMinClasses => r.min_tutes + r.min_lab_assists <= r.min_total_classes,
        BoundCondition::MaxClassesAtMostMaxTutesAndLabs => r.max_total_classes <= r.max_lab_assists + r.max_tutes,
    }
}

impl BoundCondition {
    pub open spec fn index(self) -> nat {
        match self {
            BoundCondition::MinTutesAtMostMaxTutes => 0,
            BoundCondition::MinLabsAtMostMaxLabs => 1,
            BoundCondition::MinClassesAtMostMaxClasses => 2,
            BoundCondition::MinTutesAndLabsAtMostMaxClasses => 3,
            BoundCondition::MinClassesAtMostMaxTutesAndLabs => 4,
            BoundCondition::MinTutesAndLabsAtMostMinClasses => 5,
            BoundCondition::MaxClassesAtMostMaxTutesAndLabs => 6,
        }
    }

    fn from_index(i: usize) -> (r: BoundCondition)
        requires
            i < 7,
        ensures
            r.index() == i,
    {
        if i == 0 {
            BoundCondition::MinTutesAtMostMaxTutes
        } else if i == 1 {
            BoundCondition::MinLabsAtMostMaxLabs
        } else if i == 2 {
            BoundCondition::MinClassesAtMostMaxClasses
        } else if i == 3 {
            BoundCondition::MinTutesAndLabsAtMostMaxClasses
        } else if i == 4 {
            BoundCondition::MinClassesAtMostMaxTutesAndLabs
        } else if i == 5 {
            BoundCondition::MinTutesAndLabsAtMostMinClasses
        } else {
            BoundCondition::MaxClassesAtMostMaxTutesAndLabs
        }
    }

    /// Whether the bounds meet this condition.
    pub fn holds(self, r: &ClassTypeRequirement) -> (b: bool)
        ensures
            b == bound_holds(*r, self),
    {
        let (min_t, max_t, min_a, max_a, min_c, max_c) = (
            r.min_tutes as u16,
            r.max_tutes as u16,
            r.min_lab_assists as u16,
            r.max_lab_assists as u16,
            r.min_total_classes as u16,
            r.max_total_classes as u16,
        );
        match self {
            BoundCondition::MinTutesAtMostMaxTutes => min_t <= max_t,
            BoundCondition::MinLabsAtMostMaxLabs => min_a <= max_a,
            BoundCondition::MinClassesAtMostMaxClasses => min_c <= max_c,
            BoundCondition::MinTutesAndLabsAtMostMaxClasses => min_t + min_a <= max_c,
            BoundCondition::MinClassesAtMostMaxTutesAndLabs => min_c <= max_a + max_t,
            BoundCondition::MinTutesAndLabsAtMostMinClasses => min_t + min_a <= min_c,
            BoundCondition::MaxClassesAtMostMaxTutesAndLabs => max_c <= max_a + max_t,
        }
    }
}

/// The conditions that the bounds violate, in the order they are checked.
pub fn bound_violations(r: &ClassTypeRequirement) -> (v: Vec<BoundCondition>)
    ensures
        forall|c: BoundCondition| v@.contains(c) <==> !bound_holds(*r, c),
{
    let mut v: Vec<BoundCondition> = Vec::new();
    let mut i: usize = 0;
    while i < 7
        invariant
            i <= 7,
            forall|c: BoundCondition| c.index() < i ==> (v@.contains(c) <==> !bound_holds(*r, c)),
            forall|k: int| 0 <= k < v@.len() ==> (#[trigger] v@[k]).index() < i,
        decreases 7 - i,
    {
        let c = BoundCondition::from_index(i);
        let ghost before = v@;
        if !c.holds(r) {
            v.push(c);
            assert(v@[v@.len() - 1] == c);
        }
        proof {
            assert forall|c2: BoundCondition| c2.index() < i + 1 implies (v@.contains(c2) <==> !bound_holds(*r, c2)) by {
                if c2.index() == i {
                    assert(c2 == c);
                    if v@.contains(c2) && bound_holds(*r, c2) {
                        let k = choose|k: int| 0 <= k < v@.len() && v@[k] == c2;
                        assert(before[k] == c2);
                    }
                } else {
                    if v@.contains(c2) {
                        let k = choose|k: int| 0 <= k < v@.len() && v@[k] == c2;
                        assert(before.contains(c2)) by { assert(before[k] == c2); }
                    }
                    if before.contains(c2) {
                        let k = choose|k: int| 0 <= k < before.len() && before[k] == c2;
                        assert(v@[k] == c2);
                    }
                }
            }
        }
        i = i + 1;
    }
    v
}

/// Sum of a bound over the first `n` instructors.
pub open spec fn bound_sum(instructors: Seq<Instructor>, n: nat, f: spec_fn(ClassTypeRequirement) -> u8) -> nat
    decreases n,
{
    if n == 0 {
        0
    } else {
        bound_sum(instructors, (n - 1) as nat, f) + f(instructors[n - 1].class_type_requirement) as nat
    }
}

/// Number of the first `n` sessions of the type.
pub open spec fn type_count(sessions: Seq<Session>, n: nat, t: SessionType) -> nat
    decreases n,
{
    if n == 0 {
        0
    } else {
        type_count(sessions, (n - 1) as nat, t) + if sessions[n - 1].typ == t { 1nat } else { 0 }
    }
}

/// The two sides of a feasibility condition: the condition holds when the left is at most
/// the right.
pub open spec fn total_sides(p: Problem, c: TotalCondition) -> (nat, nat) {
    let ins = p.instructors@;
    let n = ins.len();
    let tutes = type_count(p.sessions@, p.sessions@.len(), SessionType::TutLab);
    let labs = type_count(p.sessions@, p.sessions@.len(), SessionType::LabAssist);
    match c {
        TotalCondition::SumMinTutesAtMostTutes => (bound_sum(ins, n, |r: ClassTypeRequirement| r.min_tutes), tutes),
        TotalCondition::TutesAtMostSumMaxTutes => (tutes, bound_sum(ins, n, |r: ClassTypeRequirement| r.max_tutes)),
        TotalCondition::SumMinLabsAtMostLabs => (bound_sum(ins, n, |r: ClassTypeRequirement| r.min_lab_assists), labs),
        TotalCondition::LabsAtMostSumMaxLabs => (labs, bound_sum(ins, n, |r: ClassTypeRequirement| r.max_lab_assists)),
        TotalCondition::SumMinClassesAtMostClasses => (bound_sum(ins, n, |r: ClassTypeRequirement| r.min_total_classes), p.sessions@.len()),
        TotalCondition::ClassesAtMostSumMaxClasses => (p.sessions@.len(), bound_sum(ins, n, |r: ClassTypeRequirement| r.max_total_classes)),
    }
}

/// Whether the summed bounds meet a feasibility condition.
pub open spec fn total_holds(p: Problem, c: TotalCondition) -> bool {
    let ins = p.instructors@;
    let n = ins.len();
    let tutes = type_count(p.sessions@, p.sessions@.len(), SessionType::TutLab);
    let labs = type_count(p.sessions@, p.sessions@.len(), SessionType::LabAssist);
    match c {
        TotalCondition::SumMinTutesAtMostTutes => bound_sum(ins, n, |r: ClassTypeRequirement| r.min_tutes) <= tutes,
        TotalCondition::TutesAtMostSumMaxTutes => tutes <= bound_sum(ins, n, |r: ClassTypeRequirement| r.max_tutes),
        TotalCondition::SumMinLabsAtMostLabs => bound_sum(ins, n, |r: ClassTypeRequirement| r.min_lab_assists) <= labs,
        TotalCondition::LabsAtMostSumMaxLabs => labs <= bound_sum(ins, n, |r: ClassTypeRequirement| r.max_lab_assists),
        TotalCondition::SumMinClassesAtMostClasses => bound_sum(ins, n, |r: ClassTypeRequirement| r.min_total_classes) <= p.sessions@.len(),
        TotalCondition::ClassesAtMostSumMaxClasses => p.sessions@.len() <= bound_sum(ins, n, |r: ClassTypeRequirement| r.max_total_classes),
    }
}

/// The six sums of the instructors' bounds, in the order min and max tutes, labs, classes.
fn sum_bounds(instructors: &Vec<Instructor>) -> (r: [u64; 6])
    requires
        instructors.len() <= u32::MAX,
    ensures
        r[0] == bound_sum(instructors@, instructors.len() as nat, |q: ClassTypeRequirement| q.min_tutes),
        r[1] == bound_sum(instructors@, instructors.len() as nat, |q: ClassTypeRequirement| q.max_tutes),
        r[2] == bound_sum(instructors@, instructors.len() as nat, |q: ClassTypeRequirement| q.min_lab_assists),
        r[3] == bound_sum(instructors@, instructors.len() as nat, |q: ClassTypeRequirement| q.max_lab_assists),
        r[4] == bound_sum(instructors@, instructors.len() as nat, |q: ClassTypeRequirement| q.min_total_classes),
        r[5] == bound_sum(instructors@, instructors.len() as nat, |q: ClassTypeRequirement| q.max_total_classes),
{
    let (mut a, mut b, mut c, mut d, mut e, mut f): (u64, u64, u64, u64, u64, u64) = (0, 0, 0, 0, 0, 0);
    let mut j: usize = 0;
    while j < instructors.len()
        invariant
            j <= instructors.len(),
            instructors.len() <= u32::MAX,
            a == bound_sum(instructors@, j as nat, |q: ClassTypeRequirement| q.min_tutes),
            b == bound_sum(instructors@, j as nat, |q: ClassTypeRequirement| q.max_tutes),
            c == bound_sum(instructors@, j as nat, |q: ClassTypeRequirement| q.min_lab_assists),
            d == bound_sum(instructors@, j as nat, |q: ClassTypeRequirement| q.max_lab_assists),
            e == bound_sum(instructors@, j as nat, |q: ClassTypeRequirement| q.min_total_classes),
            f == bound_sum(instructors@, j as nat, |q: ClassTypeRequirement| q.max_total_classes),
            a <= 255 * j && b <= 255 * j && c <= 255 * j && d <= 255 * j && e <= 255 * j && f <= 255 * j,
        decreases instructors.len() - j,
    {
        let r = instructors[j].class_type_requirement;
        a = a + r.min_tutes as u64;
        b = b + r.max_tutes as u64;
        c = c + r.min_lab_assists as u64;
        d = d + r.max_lab_assists as u64;
        e = e + r.min_total_classes as u64;
        f = f + r.max_total_classes as u64;
        j = j + 1;
    }
    [a, b, c, d, e, f]
}

fn count_type(sessions: &Vec<Session>, t: SessionType) -> (r: u64)
    ensures
        r == type_count(sessions@, sessions.len() as nat, t),
{
    let mut count: u64 = 0;
    let mut i: usize = 0;
    while i < sessions.len()
        invariant
            i <= sessions.len(),
            count == type_count(sessions@, i as nat, t),
            count <= i,
        decreases sessions.len() - i,
    {
        if sessions[i].typ == t {
            count = count + 1;
        }
        i = i + 1;
    }
    count
}

impl TotalCondition {
    pub open spec fn index(self) -> nat {
        match self {
            TotalCondition::SumMinTutesAtMostTutes => 0,
            TotalCondition::TutesAtMostSumMaxTutes => 1,
            TotalCondition::SumMinLabsAtMostLabs => 2,
            TotalCondition::LabsAtMostSumMaxLabs => 3,
            TotalCondition::SumMinClassesAtMostClasses => 4,
            TotalCondition::ClassesAtMostSumMaxClasses => 5,
        }
    }

    fn from_index(i: usize) -> (r: TotalCondition)
        requires
            i < 6,
        ensures
            r.index() == i,
    {
        if i == 0 {
            TotalCondition::SumMinTutesAtMostTutes
        } else if i == 1 {
            TotalCondition::TutesAtMostSumMaxTutes
        } else if i == 2 {
            TotalCondition::SumMinLabsAtMostLabs
        } else if i == 3 {
            TotalCondition::LabsAtMostSumMaxLabs
        } else if i == 4 {
            TotalCondition::SumMinClassesAtMostClasses
        } else {
            TotalCondition::ClassesAtMostSumMaxClasses
        }
    }
}

/// The conditions of a list of failed feasibility conditions.
pub open spec fn conditions_of(v: Seq<TotalViolation>) -> Seq<TotalCondition> {
    v.map_values(|x: TotalViolation| x.condition)
}

/// Checks the problem before solving: each instructor's bounds for consistency, the summed
/// bounds against the sessions to fill, and whether mismatches with an initial solution are
/// costed without one.
pub fn check_problem(problem: Problem) -> (w: ProblemWarnings)
    requires
        problem.wf(),
    ensures
        w.instructor_violations.len() == problem.instructors@.len(),
        forall|j: int, c: BoundCondition| 0 <= j < problem.instructors@.len() ==>
            (#[trigger] w.instructor_violations@[j]@.contains(c) <==> !bound_holds(problem.instructors@[j].class_type_requirement, c)),
        forall|c: TotalCondition| conditions_of(w.total_violations@).contains(c) <==> !total_holds(problem, c),
        forall|k: int| 0 <= k < w.total_violations@.len() ==> total_sides(problem, (#[trigger] w.total_violations@[k]).condition)
            == (w.total_violations@[k].left as nat, w.total_violations@[k].right as nat),
        w.mismatch_without_initial == (problem.cost_config.spec_should_count(Constraint::MismatchedInitialSolution)
            && !problem.initial_solution.is_nontrivial),
{
    let mut instructor_violations: Vec<Vec<BoundCondition>> = Vec::new();
    let mut j: usize = 0;
    while j < problem.instructors.len()
        invariant
            problem.wf(),
            j <= problem.instructors.len(),
            instructor_violations.len() == j,
            forall|x: int, c: BoundCondition| 0 <= x < j ==>
                (#[trigger] instructor_violations@[x]@.contains(c) <==> !bound_holds(problem.instructors@[x].class_type_requirement, c)),
        decreases problem.instructors.len() - j,
    {
        let violations = bound_violations(&problem.instructors[j].class_type_requirement);
        instructor_violations.push(violations);
        j = j + 1;
    }
    let sums = sum_bounds(problem.instructors);
    let tutes = count_type(problem.sessions, SessionType::TutLab);
    let labs = count_type(problem.sessions, SessionType::LabAssist);
    let classes = problem.sessions.len() as u64;
    let mut total_violations: Vec<TotalViolation> = Vec::new();
    let mut i: usize = 0;
    while i < 6
        invariant
            problem.wf(),
            i <= 6,
            forall|c: TotalCondition| c.index() < i ==> (conditions_of(total_violations@).contains(c) <==> !total_holds(problem, c)),
            forall|k: int| 0 <= k < total_violations@.len() ==> (#[trigger] total_violations@[k]).condition.index() < i,
            forall|k: int| 0 <= k < total_violations@.len() ==> total_sides(problem, (#[trigger] total_violations@[k]).condition)
                == (total_violations@[k].left as nat, total_violations@[k].right as nat),
            sums[0] == bound_sum(problem.instructors@, problem.instructors@.len(), |q: ClassTypeRequirement| q.min_tutes),
            sums[1] == bound_sum(problem.instructors@, problem.instructors@.len(), |q: ClassTypeRequirement| q.max_tutes),
            sums[2] == bound_sum(problem.instructors@, problem.instructors@.len(), |q: ClassTypeRequirement| q.min_lab_assists),
            sums[3] == bound_sum(problem.instructors@, problem.instructors@.len(), |q: ClassTypeRequirement| q.max_lab_assists),
            sums[4] == bound_sum(problem.instructors@, problem.instructors@.len(), |q: ClassTypeRequirement| q.min_total_classes),
            sums[5] == bound_sum(problem.instructors@, problem.instructors@.len(), |q: ClassTypeRequirement| q.max_total_classes),
            tutes == type_count(problem.sessions@, problem.sessions@.len(), SessionType::TutLab),
            labs == type_count(problem.sessions@, problem.sessions@.len(), SessionType::LabAssist),
            classes == problem.sessions@.len(),
        decreases 6 - i,
    {
        let c = TotalCondition::from_index(i);
        let (left, right) = match c {
            TotalCondition::SumMinTutesAtMostTutes => (sums[0], tutes),
            TotalCondition::TutesAtMostSumMaxTutes => (tutes, sums[1]),
            TotalCondition::SumMinLabsAtMostLabs => (sums[2], labs),
            TotalCondition::LabsAtMostSumMaxLabs => (labs, sums[3]),
            TotalCondition::SumMinClassesAtMostClasses => (sums[4], classes),
            TotalCondition::ClassesAtMostSumMaxClasses => (classes, sums[5]),
        };
        assert((left <= right) == total_holds(problem, c));
        assert(total_sides(problem, c) == (left as nat, right as nat));
        let ghost before = conditions_of(total_violations@);
        if left > right {
            total_violations.push(TotalViolation { condition: c, left, right });
            assert(conditions_of(total_violations@) =~= before.push(c));
        } else {
            assert(conditions_of(total_violations@) =~= before);
        }
        proof {
            let after = conditions_of(total_violations@);
            assert forall|c2: TotalCondition| c2.index() < i + 1 implies (after.contains(c2) <==> !total_holds(problem, c2)) by {
                if c2.index() == i {
                    if after.contains(c2) && total_holds(problem, c2) {
                        let k = choose|k: int| 0 <= k < after.len() && after[k] == c2;
                        assert(total_violations@[k].condition == c2);
                    }
                    if !total_holds(problem, c2) {
                        assert(after[after.len() - 1] == c2);
                    }
                } else {
                    if after.contains(c2) {
                        let k = choose|k: int| 0 <= k < after.len() && after[k] == c2;
                        assert(before[k] == c2);
                    }
                    if before.contains(c2) {
                        let k = choose|k: int| 0 <= k < before.len() && before[k] == c2;
                        assert(after[k] == c2);
                    }
                }
            }
            assert forall|k: int| 0 <= k < total_violations@.len() implies (#[trigger] total_violations@[k]).condition.index() < i + 1
                && total_sides(problem, total_violations@[k].condition) == (total_violations@[k].left as nat, total_violations@[k].right as nat) by {
                if k < before.len() {
                    assert(total_violations@[k].condition == before[k]);
                }
            }
        }
        i = i + 1;
    }
    let mismatch_without_initial = problem.cost_config.should_count(Constraint::MismatchedInitialSolution)
        && !problem.initial_solution.is_nontrivial;
    ProblemWarnings { instructor_violations, total_violations, mismatch_without_initial }
}

} // verus!
