use vstd::prelude::*;

use crate::evaluator::{assignment_valid, Problem, Solution};
use crate::instructor::InstructorId;
use crate::random::{rng_below_u8, rng_below_usize};
use crate::session::SessionId;
use crate::talloc::Availability;

verus! {

/// A local change to an assignment that records what it replaced, so that it can be undone.
#[derive(Debug)]
pub enum Mutation {
    /// The first change, then the second.
    Mult(Box<Mutation>, Box<Mutation>),
    /// Clears the session, which had the instructor.
    Remove(SessionId, InstructorId),
    /// Assigns the instructor to the session, which had none.
    Add(SessionId, InstructorId),
    /// Replaces the first instructor of the session by the second.
    Swap(SessionId, InstructorId, InstructorId),
}

/// Number of times a random instructor is drawn before giving up.
pub const INSTRUCTOR_TRIES: usize = 16;

/// Deepest nesting of composite changes that sampling produces.
pub const MAX_SAMPLE_DEPTH: u32 = 64;

impl Mutation {
    /// Every session the change touches is below `num_sessions`, every instructor below
    /// `num_instructors`.
    pub open spec fn fits(self, num_sessions: nat, num_instructors: nat) -> bool
        decreases self,
    {
        match self {
            Mutation::Mult(a, b) => a.fits(num_sessions, num_instructors) && b.fits(num_sessions, num_instructors),
            Mutation::Remove(s, i) => s.index() < num_sessions && i.index() < num_instructors,
            Mutation::Add(s, i) => s.index() < num_sessions && i.index() < num_instructors,
            Mutation::Swap(s, i, j) => s.index() < num_sessions && i.index() < num_instructors && j.index() < num_instructors,
        }
    }

    /// Each step finds what it records in the assignment as it stands when the step is applied.
    pub open spec fn admissible(self, a: Seq<Option<InstructorId>>) -> bool
        decreases self,
    {
        match self {
            Mutation::Mult(x, y) => x.admissible(a) && y.admissible(apply_spec(a, *x)),
            Mutation::Remove(s, old) => a[s.index() as int] == Some(old),
            Mutation::Add(s, _) => a[s.index() as int] is None,
            Mutation::Swap(s, old, _) => a[s.index() as int] == Some(old),
        }
    }

    /// Each step records what the given assignment holds at its session.
    pub open spec fn records(self, a: Seq<Option<InstructorId>>) -> bool
        decreases self,
    {
        match self {
            Mutation::Mult(x, y) => x.records(a) && y.records(a),
            Mutation::Remove(s, old) => a[s.index() as int] == Some(old),
            Mutation::Add(s, _) => a[s.index() as int] is None,
            Mutation::Swap(s, old, _) => a[s.index() as int] == Some(old),
        }
    }

    /// Whether the change touches the session at position `i`.
    pub open spec fn touches(self, i: int) -> bool
        decreases self,
    {
        match self {
            Mutation::Mult(x, y) => x.touches(i) || y.touches(i),
            Mutation::Remove(s, _) => s.index() == i,
            Mutation::Add(s, _) => s.index() == i,
            Mutation::Swap(s, _, _) => s.index() == i,
        }
    }
}

/// The assignment after the change.
pub open spec fn apply_spec(a: Seq<Option<InstructorId>>, m: Mutation) -> Seq<Option<InstructorId>>
    decreases m,
{
    match m {
        Mutation::Mult(x, y) => apply_spec(apply_spec(a, *x), *y),
        Mutation::Remove(s, _) => a.update(s.index() as int, None),
        Mutation::Add(s, i) => a.update(s.index() as int, Some(i)),
        Mutation::Swap(s, _, new) => a.update(s.index() as int, Some(new)),
    }
}

/// The assignment after undoing the change: the steps are undone last first.
pub open spec fn reverse_spec(a: Seq<Option<InstructorId>>, m: Mutation) -> Seq<Option<InstructorId>>
    decreases m,
{
    match m {
        Mutation::Mult(x, y) => reverse_spec(reverse_spec(a, *y), *x),
        Mutation::Remove(s, old) => a.update(s.index() as int, Some(old)),
        Mutation::Add(s, _) => a.update(s.index() as int, None),
        Mutation::Swap(s, old, _) => a.update(s.index() as int, Some(old)),
    }
}

proof fn lemma_apply_len(a: Seq<Option<InstructorId>>, m: Mutation)
    requires
        m.fits(a.len(), (u16::MAX + 1) as nat),
    ensures
        apply_spec(a, m).len() == a.len(),
        reverse_spec(a, m).len() == a.len(),
    decreases m,
{
    match m {
        Mutation::Mult(x, y) => {
            lemma_apply_len(a, *x);
            lemma_apply_len(apply_spec(a, *x), *y);
            lemma_apply_len(a, *y);
            lemma_apply_len(reverse_spec(a, *y), *x);
            assert(apply_spec(a, m) == apply_spec(apply_spec(a, *x), *y));
            assert(reverse_spec(a, m) == reverse_spec(reverse_spec(a, *y), *x));
        },
        Mutation::Remove(s, _) => {},
        Mutation::Add(s, _) => {},
        Mutation::Swap(s, _, _) => {},
    }
}

/// Undoing a change right after applying it restores the assignment exactly, whenever the
/// change is admissible for it.
pub proof fn lemma_reverse_undoes_apply(a: Seq<Option<InstructorId>>, m: Mutation)
    requires
        m.admissible(a),
        m.fits(a.len(), (u16::MAX + 1) as nat),
    ensures
        reverse_spec(apply_spec(a, m), m) == a,
    decreases m,
{
    match m {
        Mutation::Mult(x, y) => {
            let a1 = apply_spec(a, *x);
            lemma_apply_len(a, *x);
            lemma_reverse_undoes_apply(a, *x);
            lemma_reverse_undoes_apply(a1, *y);
        },
        Mutation::Remove(s, old) => {
            assert(reverse_spec(apply_spec(a, m), m) =~= a);
        },
        Mutation::Add(s, _) => {
            assert(reverse_spec(apply_spec(a, m), m) =~= a);
        },
        Mutation::Swap(s, old, _) => {
            assert(reverse_spec(apply_spec(a, m), m) =~= a);
        },
    }
}

/// For a composite change: applying the first then the second part, then undoing the second
/// then the first, restores the assignment.
pub proof fn lemma_composite_round_trip(a: Seq<Option<InstructorId>>, x: Mutation, y: Mutation)
    requires
        x.admissible(a),
        y.admissible(apply_spec(a, x)),
        x.fits(a.len(), (u16::MAX + 1) as nat),
        y.fits(a.len(), (u16::MAX + 1) as nat),
    ensures
        reverse_spec(reverse_spec(apply_spec(apply_spec(a, x), y), y), x) == a,
{
    lemma_apply_len(a, x);
    lemma_reverse_undoes_apply(apply_spec(a, x), y);
    lemma_reverse_undoes_apply(a, x);
}

proof fn lemma_apply_untouched(a: Seq<Option<InstructorId>>, m: Mutation, i: int)
    requires
        !m.touches(i),
        0 <= i < a.len(),
        m.fits(a.len(), (u16::MAX + 1) as nat),
    ensures
        apply_spec(a, m)[i] == a[i],
    decreases m,
{
    lemma_apply_len(a, m);
    match m {
        Mutation::Mult(x, y) => {
            lemma_apply_len(a, *x);
            lemma_apply_untouched(a, *x, i);
            lemma_apply_untouched(apply_spec(a, *x), *y, i);
            assert(apply_spec(a, m) == apply_spec(apply_spec(a, *x), *y));
        },
        Mutation::Remove(s, _) => {},
        Mutation::Add(s, _) => {},
        Mutation::Swap(s, _, _) => {},
    }
}

proof fn lemma_reverse_restores_recorded(orig: Seq<Option<InstructorId>>, c: Seq<Option<InstructorId>>, m: Mutation, i: int)
    requires
        m.records(orig),
        m.fits(c.len(), (u16::MAX + 1) as nat),
        orig.len() == c.len(),
        0 <= i < c.len(),
    ensures
        reverse_spec(c, m)[i] == if m.touches(i) { orig[i] } else { c[i] },
    decreases m,
{
    lemma_apply_len(c, m);
    match m {
        Mutation::Mult(x, y) => {
            lemma_apply_len(c, *y);
            lemma_reverse_restores_recorded(orig, c, *y, i);
            lemma_reverse_restores_recorded(orig, reverse_spec(c, *y), *x, i);
        },
        _ => {},
    }
}

/// A change whose every step records what the assignment holds is undone exactly too, even
/// where its steps touch one session more than once.
pub proof fn lemma_reverse_undoes_recorded(a: Seq<Option<InstructorId>>, m: Mutation)
    requires
        m.records(a),
        m.fits(a.len(), (u16::MAX + 1) as nat),
    ensures
        reverse_spec(apply_spec(a, m), m) == a,
{
    let b = apply_spec(a, m);
    lemma_apply_len(a, m);
    lemma_apply_len(b, m);
    assert forall|i: int| 0 <= i < a.len() implies reverse_spec(b, m)[i] == a[i] by {
        lemma_reverse_restores_recorded(a, b, m, i);
        if !m.touches(i) {
            lemma_apply_untouched(a, m, i);
        }
    }
    assert(reverse_spec(b, m) =~= a);
}

impl Solution {
    pub fn apply_mutation(&mut self, mutation: &Mutation)
        requires
            mutation.fits(old(self).assignment@.len(), (u16::MAX + 1) as nat),
        ensures
            final(self).assignment@ == apply_spec(old(self).assignment@, *mutation),
            final(self).is_nontrivial == old(self).is_nontrivial,
        decreases mutation,
    {
        match mutation {
            Mutation::Mult(a, b) => {
                self.apply_mutation(a);
                proof { lemma_apply_len(old(self).assignment@, **a); }
                self.apply_mutation(b);
            },
            Mutation::Remove(session, _removed) => {
                self.assignment.set(session.raw_index(), None);
            },
            Mutation::Add(session, instructor) => {
                self.assignment.set(session.raw_index(), Some(*instructor));
            },
            Mutation::Swap(session, _old, new) => {
                self.assignment.set(session.raw_index(), Some(*new));
            },
        }
    }

    pub fn reverse_mutation(&mut self, mutation: &Mutation)
        requires
            mutation.fits(old(self).assignment@.len(), (u16::MAX + 1) as nat),
        ensures
            final(self).assignment@ == reverse_spec(old(self).assignment@, *mutation),
            final(self).is_nontrivial == old(self).is_nontrivial,
        decreases mutation,
    {
        match mutation {
            Mutation::Mult(a, b) => {
                self.reverse_mutation(b);
                proof { lemma_apply_len(old(self).assignment@, **b); }
                self.reverse_mutation(a);
            },
            Mutation::Remove(session, removed) => {
                self.assignment.set(session.raw_index(), Some(*removed));
            },
            Mutation::Add(session, _added) => {
                self.assignment.set(session.raw_index(), None);
            },
            Mutation::Swap(session, old, _new) => {
                self.assignment.set(session.raw_index(), Some(*old));
            },
        }
    }
}

/// Draws up to a fixed number of instructors for the session and returns the first for
/// whom it is not impossible.
fn rand_instructor_for_session(problem: Problem, session_id: SessionId, rng: &mut fastrand::Rng) -> (r: Option<InstructorId>)
    requires
        problem.wf(),
        session_id.index() < problem.num_sessions(),
    ensures
        r matches Some(i) ==> i.index() < problem.num_instructors()
            && problem.availabilities.get(session_id.index(), i.index()) != Availability::Impossible,
{
    let num_instructors = problem.instructors.len();
    if num_instructors == 0 {
        return None;
    }
    let mut tries: usize = 0;
    while tries < INSTRUCTOR_TRIES
        invariant
            problem.wf(),
            session_id.index() < problem.num_sessions(),
            num_instructors == problem.num_instructors(),
            num_instructors > 0,
        decreases INSTRUCTOR_TRIES - tries,
    {
        let instructor_id = InstructorId::from_index(rng_below_usize(rng, num_instructors));
        if problem.availabilities.get_availability(session_id, instructor_id) != Availability::Impossible {
            return Some(instructor_id);
        }
        tries = tries + 1;
    }
    None
}

/// Whether the change is the two-way rotation of two assigned sessions of the assignment:
/// the first session's instructor and the second's trade places.
pub open spec fn is_rotation(m: Mutation, a: Seq<Option<InstructorId>>) -> bool {
    match m {
        Mutation::Mult(x, y) => match (*x, *y) {
            (Mutation::Swap(s, o, o2), Mutation::Swap(s2, p2, p)) => s != s2 && p2 == o2 && p == o
                && a[s.index() as int] == Some(o) && a[s2.index() as int] == Some(o2),
            _ => false,
        },
        _ => false,
    }
}

/// Every addition and every reassignment that is not part of a rotation names an instructor
/// for whom the session is not impossible.
pub open spec fn avoids_impossible(m: Mutation, p: Problem, a: Seq<Option<InstructorId>>) -> bool
    decreases m,
{
    match m {
        Mutation::Mult(x, y) => is_rotation(m, a) || (avoids_impossible(*x, p, a) && avoids_impossible(*y, p, a)),
        Mutation::Remove(_, _) => true,
        Mutation::Add(s, i) => p.availabilities.get(s.index(), i.index()) != Availability::Impossible,
        Mutation::Swap(s, _, i) => p.availabilities.get(s.index(), i.index()) != Availability::Impossible,
    }
}

/// The single change that the draws select: for an unassigned session, adding the drawn
/// instructor; for an assigned one, removing it when the decision is 1, rotating it with the
/// other drawn session when the decision is 2 (nothing if that is the same session or is
/// unassigned), and otherwise reassigning it to the drawn instructor. Without a drawn
/// instructor where one is needed there is nothing.
pub open spec fn single_mutation_spec(
    a: Seq<Option<InstructorId>>,
    session: nat,
    decision: u8,
    other: nat,
    instructor: Option<InstructorId>,
) -> Option<Mutation> {
    let s = SessionId(session as u16);
    match a[session as int] {
        None => match instructor {
            Some(i) => Some(Mutation::Add(s, i)),
            None => None,
        },
        Some(old) => if decision == 1 {
            Some(Mutation::Remove(s, old))
        } else if decision == 2 {
            if other == session {
                None
            } else {
                match a[other as int] {
                    Some(o2) => Some(Mutation::Mult(
                        Box::new(Mutation::Swap(s, old, o2)),
                        Box::new(Mutation::Swap(SessionId(other as u16), o2, old)),
                    )),
                    None => None,
                }
            }
        } else {
            match instructor {
                Some(i) => Some(Mutation::Swap(s, old, i)),
                None => None,
            }
        },
    }
}

/// The single change that the draws select; see `single_mutation_spec`.
pub fn mutation_for_draws(
    problem: Problem,
    solution: &Solution,
    session: usize,
    decision: u8,
    other: usize,
    instructor: Option<InstructorId>,
) -> (r: Option<Mutation>)
    requires
        problem.wf(),
        solution.wf_for(problem),
        session < problem.num_sessions(),
        other < problem.num_sessions(),
        instructor matches Some(i) ==> i.index() < problem.num_instructors(),
    ensures
        r == single_mutation_spec(solution.assignment@, session as nat, decision, other as nat, instructor),
{
    let session_id = SessionId::from_index(session);
    match solution.assignment[session] {
        Some(old_instructor) => {
            if decision == 1 {
                Some(Mutation::Remove(session_id, old_instructor))
            } else if decision == 2 {
                if other == session {
                    return None;
                }
                match solution.assignment[other] {
                    Some(other_instructor) => Some(Mutation::Mult(
                        Box::new(Mutation::Swap(session_id, old_instructor, other_instructor)),
                        Box::new(Mutation::Swap(SessionId::from_index(other), other_instructor, old_instructor)),
                    )),
                    None => None,
                }
            } else {
                match instructor {
                    Some(i) => Some(Mutation::Swap(session_id, old_instructor, i)),
                    None => None,
                }
            }
        },
        None => match instructor {
            Some(i) => Some(Mutation::Add(session_id, i)),
            None => None,
        },
    }
}

proof fn lemma_single_mutation_facts(
    p: Problem,
    a: Seq<Option<InstructorId>>,
    session: nat,
    decision: u8,
    other: nat,
    instructor: Option<InstructorId>,
)
    requires
        p.wf(),
        assignment_valid(a, p.num_sessions(), p.num_instructors()),
        session < p.num_sessions(),
        other < p.num_sessions(),
        instructor matches Some(i) ==> i.index() < p.num_instructors()
            && p.availabilities.get(session, i.index()) != Availability::Impossible,
    ensures
        single_mutation_spec(a, session, decision, other, instructor) matches Some(m) ==> m.fits(p.num_sessions(), p.num_instructors())
            && m.records(a) && avoids_impossible(m, p, a),
{
    assert(a[session as int] matches Some(j) ==> j.index() < p.num_instructors());
    assert(a[other as int] matches Some(j) ==> j.index() < p.num_instructors());
    if let Some(m) = single_mutation_spec(a, session, decision, other, instructor) {
        if let Mutation::Mult(x, y) = m {
            assert(x.fits(p.num_sessions(), p.num_instructors()) && y.fits(p.num_sessions(), p.num_instructors()));
            assert(x.records(a) && y.records(a));
            assert(is_rotation(m, a));
        }
    }
}

impl Mutation {
    /// Samples a random change to the solution, or nothing when a draw fails. With
    /// probability one in eight the change is two sampled changes in sequence; otherwise it
    /// draws a session and, for an assigned one, a decision below eight, and then the change
    /// that `mutation_for_draws` gives, drawing a second session or an instructor only where
    /// that change needs one.
    pub fn make_random(problem: Problem, solution: &Solution, rng: &mut fastrand::Rng) -> (r: Option<Mutation>)
        requires
            problem.wf(),
            solution.wf_for(problem),
        ensures
            problem.num_sessions() == 0 ==> r is None,
            r matches Some(m) ==> m.fits(problem.num_sessions(), problem.num_instructors())
                && m.records(solution.assignment@) && avoids_impossible(m, problem, solution.assignment@),
    {
        Self::make_random_bounded(problem, solution, rng, MAX_SAMPLE_DEPTH)
    }

    fn make_random_bounded(problem: Problem, solution: &Solution, rng: &mut fastrand::Rng, depth: u32) -> (r: Option<Mutation>)
        requires
            problem.wf(),
            solution.wf_for(problem),
        ensures
            problem.num_sessions() == 0 ==> r is None,
            r matches Some(m) ==> m.fits(problem.num_sessions(), problem.num_instructors())
                && m.records(solution.assignment@) && avoids_impossible(m, problem, solution.assignment@),
        decreases depth,
    {
        let num_sessions = problem.sessions.len();
        if num_sessions == 0 {
            return None;
        }
        if rng_below_u8(rng, 8) == 3 {
            if depth == 0 {
                return None;
            }
            let first = match Self::make_random_bounded(problem, solution, rng, depth - 1) {
                Some(m) => m,
                None => { return None; },
            };
            let second = match Self::make_random_bounded(problem, solution, rng, depth - 1) {
                Some(m) => m,
                None => { return None; },
            };
            let m = Mutation::Mult(Box::new(first), Box::new(second));
            assert(m.fits(problem.num_sessions(), problem.num_instructors()));
            assert(m.records(solution.assignment@));
            assert(avoids_impossible(m, problem, solution.assignment@));
            return Some(m);
        }
        let session = rng_below_usize(rng, num_sessions);
        let session_id = SessionId::from_index(session);
        let mut decision: u8 = 0;
        let mut other: usize = session;
        let mut instructor: Option<InstructorId> = None;
        match solution.assignment[session] {
            Some(_) => {
                decision = rng_below_u8(rng, 8);
                if decision == 2 {
                    other = rng_below_usize(rng, num_sessions);
                } else if decision != 1 {
                    instructor = rand_instructor_for_session(problem, session_id, rng);
                }
            },
            None => {
                instructor = rand_instructor_for_session(problem, session_id, rng);
            },
        }
        proof {
            lemma_single_mutation_facts(problem, solution.assignment@, session as nat, decision, other as nat, instructor);
        }
        mutation_for_draws(problem, solution, session, decision, other, instructor)
    }
}

/// A session that starts unassigned and that every instructor finds impossible stays
/// unassigned under any change that avoids impossible instructors, whatever it is applied to.
pub proof fn lemma_impossible_session_untouched(
    p: Problem,
    a: Seq<Option<InstructorId>>,
    b: Seq<Option<InstructorId>>,
    m: Mutation,
    i: int,
)
    requires
        p.wf(),
        0 <= i < a.len(),
        a.len() == b.len(),
        a[i] is None,
        b[i] is None,
        forall|j: nat| j < p.num_instructors() ==> #[trigger] p.availabilities.get(i as nat, j) == Availability::Impossible,
        m.fits(a.len(), p.num_instructors()),
        m.records(a),
        avoids_impossible(m, p, a),
        p.num_instructors() <= u16::MAX + 1,
    ensures
        apply_spec(b, m)[i] is None,
    decreases m,
{
    lemma_fits_widen(m, a.len(), p.num_instructors());
    lemma_apply_len(b, m);
    match m {
        Mutation::Mult(x, y) => {
            lemma_fits_widen(*x, a.len(), p.num_instructors());
            lemma_apply_len(b, *x);
            if is_rotation(m, a) {
                lemma_apply_untouched(b, *x, i);
                lemma_apply_untouched(apply_spec(b, *x), *y, i);
            } else {
                lemma_impossible_session_untouched(p, a, b, *x, i);
                lemma_impossible_session_untouched(p, a, apply_spec(b, *x), *y, i);
            }
            assert(apply_spec(b, m) == apply_spec(apply_spec(b, *x), *y));
        },
        Mutation::Remove(s, _) => {},
        Mutation::Add(s, j) => {
            if s.index() == i {
                assert(p.availabilities.get(i as nat, j.index()) == Availability::Impossible);
            }
        },
        Mutation::Swap(s, o, _) => {
            assert(s.index() != i);
        },
    }
}

proof fn lemma_fits_widen(m: Mutation, n: nat, k: nat)
    requires
        m.fits(n, k),
        k <= u16::MAX + 1,
    ensures
        m.fits(n, (u16::MAX + 1) as nat),
    decreases m,
{
    match m {
        Mutation::Mult(x, y) => {
            lemma_fits_widen(*x, n, k);
            lemma_fits_widen(*y, n, k);
        },
        _ => {},
    }
}

} // verus!
