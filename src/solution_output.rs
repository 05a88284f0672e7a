use vstd::prelude::*;

use crate::evaluator::{Problem, Solution};
use crate::instructor::{ClassTypeRequirement, InstructorId};
use crate::session::{description, type_label, SessionType};
use crate::text::{append, decimal, decimal_spec, owned};

verus! {

/// The line of the solution file for one session: class, type, and the assigned
/// instructor's zid and name, or `-` for both.
pub open spec fn solution_line(p: Problem, solution: Solution, s: int) -> Seq<char> {
    let session = p.sessions@[s];
    let who = match solution.assignment@[s] {
        Some(id) => (p.instructors@[id.index() as int].zid@, p.instructors@[id.index() as int].name@),
        None => ("-"@, "-"@),
    };
    session.class_name@ + "\t"@ + type_label(session.typ) + "\t"@ + who.0 + "\t"@ + who.1 + "\n"@
}

/// The lines of the first `n` sessions.
pub open spec fn solution_lines(p: Problem, solution: Solution, n: nat) -> Seq<char>
    decreases n,
{
    if n == 0 {
        Seq::empty()
    } else {
        solution_lines(p, solution, (n - 1) as nat) + solution_line(p, solution, n - 1)
    }
}

/// The solution as a table with columns class, type, zid and name.
#[verifier::rlimit(40)]
pub fn solution_output_tsv(problem: &Problem, solution: &Solution) -> (r: String)
    requires
        problem.wf(),
        solution.wf_for(*problem),
    ensures
        r@ == "class\ttype\tzid\tname\n"@ + solution_lines(*problem, *solution, problem.num_sessions()),
{
    let mut out = owned("class\ttype\tzid\tname\n");
    let ghost header = out@;
    let mut s: usize = 0;
    while s < problem.sessions.len()
        invariant
            problem.wf(),
            solution.wf_for(*problem),
            s <= problem.sessions.len(),
            out@ == header + solution_lines(*problem, *solution, s as nat),
        decreases problem.sessions.len() - s,
    {
        let session = &problem.sessions[s];
        let ghost before = out@;
        append(&mut out, session.class_name.as_str());
        append(&mut out, "\t");
        match session.typ {
            SessionType::TutLab => append(&mut out, "tut+lab"),
            SessionType::LabAssist => append(&mut out, "lab"),
        }
        append(&mut out, "\t");
        assert(solution.assignment@[s as int] matches Some(id) ==> id.index() < problem.num_instructors());
        match solution.assignment[s] {
            Some(id) => {
                let instructor = &problem.instructors[id.raw_index()];
                append(&mut out, instructor.zid.as_str());
                append(&mut out, "\t");
                append(&mut out, instructor.name.as_str());
            },
            None => {
                append(&mut out, "-");
                append(&mut out, "\t");
                append(&mut out, "-");
            },
        }
        append(&mut out, "\n");
        assert(out@ =~= before + solution_line(*problem, *solution, s as int));
        assert(header + solution_lines(*problem, *solution, (s + 1) as nat) =~= before + solution_line(*problem, *solution, s as int));
        s = s + 1;
    }
    out
}

/// Whether `a` is a prefix of `b`.
pub open spec fn is_prefix(a: Seq<char>, b: Seq<char>) -> bool {
    a.len() <= b.len() && b.subrange(0, a.len() as int) == a
}

/// Appends text, keeping a given prefix of the output.
fn extend(out: &mut String, t: &str, Ghost(prefix): Ghost<Seq<char>>)
    requires
        is_prefix(prefix, old(out)@),
    ensures
        final(out)@ == old(out)@ + t@,
        is_prefix(prefix, final(out)@),
{
    append(out, t);
    assert(out@.subrange(0, prefix.len() as int) =~= old(out)@.subrange(0, prefix.len() as int));
}

/// How the difference report names an assignment: `name (zid)`, or `no assignment`.
pub open spec fn assignee_text(p: Problem, id: Option<InstructorId>) -> Seq<char> {
    match id {
        Some(i) => p.instructors@[i.index() as int].name@ + " ("@ + p.instructors@[i.index() as int].zid@ + ")"@,
        None => "no assignment"@,
    }
}

/// The difference lines for the first `n` sessions.
pub open spec fn diff_lines(p: Problem, solution: Solution, n: nat) -> Seq<char>
    decreases n,
{
    if n == 0 {
        Seq::empty()
    } else {
        diff_lines(p, solution, (n - 1) as nat) + if differs(p, solution, n - 1) {
            "    "@ + description(p.sessions@[n - 1]) + ": "@ + assignee_text(p, p.initial_solution.assignment@[n - 1])
                + " ==> "@ + assignee_text(p, solution.assignment@[n - 1]) + "\n"@
        } else {
            Seq::empty()
        }
    }
}

fn describe_instructor(problem: &Problem, id: Option<InstructorId>, out: &mut String, Ghost(prefix): Ghost<Seq<char>>)
    requires
        problem.wf(),
        id matches Some(i) ==> i.index() < problem.num_instructors(),
        is_prefix(prefix, old(out)@),
    ensures
        is_prefix(prefix, final(out)@),
        final(out)@ == old(out)@ + assignee_text(*problem, id),
{
    match id {
        Some(id) => {
            let instructor = &problem.instructors[id.raw_index()];
            extend(out, instructor.name.as_str(), Ghost(prefix));
            extend(out, " (", Ghost(prefix));
            extend(out, instructor.zid.as_str(), Ghost(prefix));
            extend(out, ")", Ghost(prefix));
        },
        None => extend(out, "no assignment", Ghost(prefix)),
    }
    assert(out@ =~= old(out)@ + assignee_text(*problem, id));
}

/// Whether the solution's assignment of session `s` differs from the initial one.
pub open spec fn differs(p: Problem, solution: Solution, s: int) -> bool {
    p.initial_solution.assignment@[s] != solution.assignment@[s]
}

/// A line for each session whose assignment differs from the initial solution.
pub fn show_diff(problem: &Problem, solution: &Solution) -> (r: String)
    requires
        problem.wf(),
        solution.wf_for(*problem),
    ensures
        r@ == "Difference from initial solution:\n"@ + diff_lines(*problem, *solution, problem.num_sessions()),
{
    let mut output = owned("Difference from initial solution:\n");
    let ghost header = output@;
    assert(output@.subrange(0, header.len() as int) =~= header);
    let mut s: usize = 0;
    while s < problem.sessions.len()
        invariant
            problem.wf(),
            solution.wf_for(*problem),
            s <= problem.sessions.len(),
            header == "Difference from initial solution:\n"@,
            is_prefix(header, output@),
            output@ == header + diff_lines(*problem, *solution, s as nat),
        decreases problem.sessions.len() - s,
    {
        let ghost at_start = output@;
        let before = problem.initial_solution.assignment[s];
        let after = solution.assignment[s];
        assert(problem.initial_solution.assignment@[s as int] matches Some(id) ==> id.index() < problem.num_instructors());
        assert(solution.assignment@[s as int] matches Some(id) ==> id.index() < problem.num_instructors());
        if before != after {
            extend(&mut output, "    ", Ghost(header));
            extend(&mut output, problem.sessions[s].short_description().as_str(), Ghost(header));
            extend(&mut output, ": ", Ghost(header));
            describe_instructor(problem, before, &mut output, Ghost(header));
            extend(&mut output, " ==> ", Ghost(header));
            describe_instructor(problem, after, &mut output, Ghost(header));
            extend(&mut output, "\n", Ghost(header));
        }
        assert(output@ =~= header + diff_lines(*problem, *solution, (s + 1) as nat));
        s = s + 1;
    }
    output
}

/// How many sessions of the type are assigned to the instructor, among the first `n`.
pub open spec fn assigned_of_type(p: Problem, solution: Solution, j: InstructorId, t: SessionType, n: nat) -> nat
    decreases n,
{
    if n == 0 {
        0
    } else {
        assigned_of_type(p, solution, j, t, (n - 1) as nat) + if solution.assignment@[n - 1] == Some(j)
            && p.sessions@[n - 1].typ == t { 1nat } else { 0 }
    }
}

/// The lines for the first `n` sessions assigned to instructor `j`: class, `T` or `L`, and
/// the instructor's availability for it.
pub open spec fn assigned_lines(p: Problem, solution: Solution, j: nat, n: nat) -> Seq<char>
    decreases n,
{
    if n == 0 {
        Seq::empty()
    } else {
        assigned_lines(p, solution, j, (n - 1) as nat) + if solution.assignment@[n - 1] == Some(p.instructors@[j as int].instructor_id) {
            "    "@ + p.sessions@[n - 1].class_name@ + (if p.sessions@[n - 1].typ == SessionType::TutLab { " T: "@ } else { " L: "@ })
                + p.availabilities.get((n - 1) as nat, j).spec_name() + "\n"@
        } else {
            Seq::empty()
        }
    }
}

/// The statistics of instructor `j`: name and zid, bounds, assigned counts, assigned sessions.
#[verifier::opaque]
pub open spec fn stats_block(p: Problem, solution: Solution, j: nat) -> Seq<char> {
    let i = p.instructors@[j as int];
    let r = i.class_type_requirement;
    let t = assigned_of_type(p, solution, i.instructor_id, SessionType::TutLab, p.num_sessions());
    let l = assigned_of_type(p, solution, i.instructor_id, SessionType::LabAssist, p.num_sessions());
    i.name@ + " ("@ + i.zid@ + ")\n"@ + bounds_text(r) + counts_text(t, l) + assigned_lines(p, solution, j, p.num_sessions())
}

/// The line giving an instructor's workload bounds.
#[verifier::opaque]
pub open spec fn bounds_text(r: ClassTypeRequirement) -> Seq<char> {
    "    Had minT = "@ + decimal_spec(r.min_tutes as nat) + ", maxT = "@ + decimal_spec(r.max_tutes as nat) + ", minA = "@
        + decimal_spec(r.min_lab_assists as nat) + ", maxA = "@ + decimal_spec(r.max_lab_assists as nat) + ", minC = "@
        + decimal_spec(r.min_total_classes as nat) + ", maxC = "@ + decimal_spec(r.max_total_classes as nat) + "\n"@
}

/// The line giving how many tutorials, labs and classes an instructor has.
#[verifier::opaque]
pub open spec fn counts_text(t: nat, l: nat) -> Seq<char> {
    "    Actual tutes = "@ + decimal_spec(t) + ", actual labs = "@ + decimal_spec(l) + ", actual classes = "@
        + decimal_spec(t + l) + "\n"@
}

fn append_bounds(out: &mut String, r: ClassTypeRequirement)
    ensures
        final(out)@ == old(out)@ + bounds_text(r),
{
    append(out, "    Had minT = ");
    append(out, decimal(r.min_tutes as u64).as_str());
    append(out, ", maxT = ");
    append(out, decimal(r.max_tutes as u64).as_str());
    append(out, ", minA = ");
    append(out, decimal(r.min_lab_assists as u64).as_str());
    append(out, ", maxA = ");
    append(out, decimal(r.max_lab_assists as u64).as_str());
    append(out, ", minC = ");
    append(out, decimal(r.min_total_classes as u64).as_str());
    append(out, ", maxC = ");
    append(out, decimal(r.max_total_classes as u64).as_str());
    append(out, "\n");
    reveal(bounds_text);
    assert(out@ =~= old(out)@ + bounds_text(r));
}

fn append_counts(out: &mut String, t: u64, l: u64)
    requires
        t + l <= u64::MAX,
    ensures
        final(out)@ == old(out)@ + counts_text(t as nat, l as nat),
{
    append(out, "    Actual tutes = ");
    append(out, decimal(t).as_str());
    append(out, ", actual labs = ");
    append(out, decimal(l).as_str());
    append(out, ", actual classes = ");
    append(out, decimal(t + l).as_str());
    append(out, "\n");
    reveal(counts_text);
    assert(out@ =~= old(out)@ + counts_text(t as nat, l as nat));
}

/// The statistics of the first `n` instructors.
pub open spec fn stats_text(p: Problem, solution: Solution, n: nat) -> Seq<char>
    decreases n,
{
    if n == 0 {
        Seq::empty()
    } else {
        stats_text(p, solution, (n - 1) as nat) + stats_block(p, solution, (n - 1) as nat)
    }
}

/// For each instructor: their bounds, how many tutorials, labs and classes the solution gives
/// them, and each assigned session with their availability for it.
#[verifier::rlimit(40)]
pub fn instructor_stats_from_solution(problem: &Problem, solution: &Solution) -> (r: String)
    requires
        problem.wf(),
        solution.wf_for(*problem),
    ensures
        r@ == "Instructor allocation stats:\n"@ + stats_text(*problem, *solution, problem.num_instructors()),
{
    let mut output = owned("Instructor allocation stats:\n");
    let ghost header = output@;
    let mut j: usize = 0;
    while j < problem.instructors.len()
        invariant
            problem.wf(),
            solution.wf_for(*problem),
            j <= problem.instructors.len(),
            output@ == header + stats_text(*problem, *solution, j as nat),
        decreases problem.instructors.len() - j,
    {
        let instructor = &problem.instructors[j];
        let r = instructor.class_type_requirement;
        let ghost block_start = output@;
        append(&mut output, instructor.name.as_str());
        append(&mut output, " (");
        append(&mut output, instructor.zid.as_str());
        append(&mut output, ")\n");
        let ghost name_end = output@;
        append_bounds(&mut output, r);
        let (tutes, labs) = count_assigned(problem, solution, instructor.instructor_id);
        append_counts(&mut output, tutes, labs);
        let ghost counts_end = output@;
        assert(counts_end =~= block_start + (instructor.name@ + " ("@ + instructor.zid@ + ")\n"@ + bounds_text(r)
            + counts_text(tutes as nat, labs as nat)));
        let mut s: usize = 0;
        while s < problem.sessions.len()
            invariant
                problem.wf(),
                solution.wf_for(*problem),
                j < problem.instructors.len(),
                instructor == &problem.instructors@[j as int],
                s <= problem.sessions.len(),
                output@ == counts_end + assigned_lines(*problem, *solution, j as nat, s as nat),
            decreases problem.sessions.len() - s,
        {
            let session = &problem.sessions[s];
            if solution.assignment[s] == Some(instructor.instructor_id) {
                let ghost line_start = output@;
                append(&mut output, "    ");
                append(&mut output, session.class_name.as_str());
                match session.typ {
                    SessionType::TutLab => append(&mut output, " T: "),
                    SessionType::LabAssist => append(&mut output, " L: "),
                }
                let level = problem.availabilities.get_availability(session.session_id, instructor.instructor_id);
                append(&mut output, level.name());
                append(&mut output, "\n");
                assert(output@ =~= counts_end + assigned_lines(*problem, *solution, j as nat, (s + 1) as nat));
            } else {
                assert(output@ =~= counts_end + assigned_lines(*problem, *solution, j as nat, (s + 1) as nat));
            }
            s = s + 1;
        }
        proof { reveal(stats_block); }
        assert(output@ =~= block_start + stats_block(*problem, *solution, j as nat));
        assert(output@ =~= header + stats_text(*problem, *solution, (j + 1) as nat));
        j = j + 1;
    }
    output
}

/// The numbers of tutorials and of labs assigned to the instructor.
pub fn count_assigned(problem: &Problem, solution: &Solution, id: InstructorId) -> (r: (u64, u64))
    requires
        problem.wf(),
        solution.wf_for(*problem),
    ensures
        r.0 == assigned_of_type(*problem, *solution, id, SessionType::TutLab, problem.num_sessions()),
        r.1 == assigned_of_type(*problem, *solution, id, SessionType::LabAssist, problem.num_sessions()),
        r.0 + r.1 <= problem.num_sessions(),
{
    let (mut tutes, mut labs): (u64, u64) = (0, 0);
    let mut s: usize = 0;
    while s < problem.sessions.len()
        invariant
            problem.wf(),
            solution.wf_for(*problem),
            s <= problem.sessions.len(),
            tutes == assigned_of_type(*problem, *solution, id, SessionType::TutLab, s as nat),
            labs == assigned_of_type(*problem, *solution, id, SessionType::LabAssist, s as nat),
            tutes + labs <= s,
        decreases problem.sessions.len() - s,
    {
        if solution.assignment[s] == Some(id) {
            match problem.sessions[s].typ {
                SessionType::TutLab => { tutes = tutes + 1; },
                SessionType::LabAssist => { labs = labs + 1; },
            }
        }
        s = s + 1;
    }
    (tutes, labs)
}

} // verus!
