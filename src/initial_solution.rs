use vstd::prelude::*;

use crate::errors::Error;
use crate::evaluator::{assignment_valid, instructors_wf, Solution};
use crate::instructor::{Instructor, InstructorId};
use crate::session::{sessions_wf, Session, SessionType};
use crate::text::{owned, str_eq};
use crate::tsv::{Tsv, TsvRow};

verus! {

/// A row of the initial solution whose instructor name differs from the recorded one.
pub struct NameMismatch {
    pub class_name: String,
    pub zid: String,
    pub given_name: String,
    pub recorded_name: String,
}


/// The session type that an initial-solution row names.
pub open spec fn initial_type_spec(word: Seq<char>) -> Option<SessionType> {
    if word == "tut+lab"@ {
        Some(SessionType::TutLab)
    } else if word == "lab"@ {
        Some(SessionType::LabAssist)
    } else {
        None
    }
}

/// How many of the first `n` instructors have the zid.
pub open spec fn zid_count(instructors: Seq<Instructor>, zid: Seq<char>, n: nat) -> nat
    decreases n,
{
    if n == 0 {
        0
    } else {
        zid_count(instructors, zid, (n - 1) as nat) + if instructors[n - 1].zid@ == zid { 1nat } else { 0 }
    }
}

/// How many of the first `n` sessions belong to the class and have the type.
pub open spec fn class_count(sessions: Seq<Session>, class_name: Seq<char>, typ: SessionType, n: nat) -> nat
    decreases n,
{
    if n == 0 {
        0
    } else {
        class_count(sessions, class_name, typ, (n - 1) as nat) + if sessions[n - 1].class_name@ == class_name
            && sessions[n - 1].typ == typ { 1nat } else { 0 }
    }
}



/// Position of the last of the first `n` instructors with the zid, or -1.
pub open spec fn last_with_zid(instructors: Seq<Instructor>, zid: Seq<char>, n: nat) -> int
    decreases n,
{
    if n == 0 {
        -1
    } else if instructors[n - 1].zid@ == zid {
        n - 1
    } else {
        last_with_zid(instructors, zid, (n - 1) as nat)
    }
}

/// Position of the last of the first `n` sessions of the class with the type, or -1.
pub open spec fn last_of_class(sessions: Seq<Session>, class_name: Seq<char>, typ: SessionType, n: nat) -> int
    decreases n,
{
    if n == 0 {
        -1
    } else if sessions[n - 1].class_name@ == class_name && sessions[n - 1].typ == typ {
        n - 1
    } else {
        last_of_class(sessions, class_name, typ, (n - 1) as nat)
    }
}

proof fn lemma_last_bounds(instructors: Seq<Instructor>, zid: Seq<char>, sessions: Seq<Session>, class_name: Seq<char>, typ: SessionType, n: nat)
    ensures
        -1 <= last_with_zid(instructors, zid, n) < n,
        -1 <= last_of_class(sessions, class_name, typ, n) < n,
    decreases n,
{
    if n > 0 {
        lemma_last_bounds(instructors, zid, sessions, class_name, typ, (n - 1) as nat);
    }
}

proof fn lemma_last_with_zid(instructors: Seq<Instructor>, zid: Seq<char>, n: nat)
    requires
        zid_count(instructors, zid, n) > 0,
    ensures
        0 <= last_with_zid(instructors, zid, n) < n,
        instructors[last_with_zid(instructors, zid, n)].zid@ == zid,
    decreases n,
{
    if instructors[n - 1].zid@ != zid {
        lemma_last_with_zid(instructors, zid, (n - 1) as nat);
    }
}

proof fn lemma_last_of_class(sessions: Seq<Session>, class_name: Seq<char>, typ: SessionType, n: nat)
    requires
        class_count(sessions, class_name, typ, n) > 0,
    ensures
        0 <= last_of_class(sessions, class_name, typ, n) < n,
    decreases n,
{
    if !(sessions[n - 1].class_name@ == class_name && sessions[n - 1].typ == typ) {
        lemma_last_of_class(sessions, class_name, typ, (n - 1) as nat);
    }
}

/// The instructor with the zid, if exactly one has it.
fn unique_instructor(instructors: &Vec<Instructor>, zid: &str) -> (r: Option<usize>)
    ensures
        r is Some <==> zid_count(instructors@, zid@, instructors.len() as nat) == 1,
        r matches Some(j) ==> j == last_with_zid(instructors@, zid@, instructors.len() as nat) && j < instructors.len(),
{
    let mut count: usize = 0;
    let mut j: usize = 0;
    while j < instructors.len()
        invariant
            j <= instructors.len(),
            count == zid_count(instructors@, zid@, j as nat),
            count <= j,
        decreases instructors.len() - j,
    {
        if str_eq(instructors[j].zid.as_str(), zid) {
            count = count + 1;
        }
        j = j + 1;
    }
    if count != 1 {
        return None;
    }
    proof { lemma_last_with_zid(instructors@, zid@, instructors.len() as nat); }
    let mut k: usize = instructors.len();
    while k > 0
        invariant
            k <= instructors.len(),
            last_with_zid(instructors@, zid@, instructors.len() as nat) == last_with_zid(instructors@, zid@, k as nat),
            0 <= last_with_zid(instructors@, zid@, k as nat) < k,
            count == 1,
            count == zid_count(instructors@, zid@, instructors.len() as nat),
        decreases k,
    {
        proof { lemma_last_bounds(instructors@, zid@, Seq::<Session>::empty(), zid@, SessionType::TutLab, (k - 1) as nat); }
        if str_eq(instructors[k - 1].zid.as_str(), zid) {
            return Some(k - 1);
        }
        k = k - 1;
    }
    None
}

/// The session of the class with the type, if exactly one has them.
fn unique_session(sessions: &Vec<Session>, class_name: &str, typ: SessionType) -> (r: Option<usize>)
    ensures
        r is Some <==> class_count(sessions@, class_name@, typ, sessions.len() as nat) == 1,
        r matches Some(s) ==> s == last_of_class(sessions@, class_name@, typ, sessions.len() as nat) && s < sessions.len(),
{
    let mut count: usize = 0;
    let mut j: usize = 0;
    while j < sessions.len()
        invariant
            j <= sessions.len(),
            count == class_count(sessions@, class_name@, typ, j as nat),
            count <= j,
        decreases sessions.len() - j,
    {
        if str_eq(sessions[j].class_name.as_str(), class_name) && sessions[j].typ == typ {
            count = count + 1;
        }
        j = j + 1;
    }
    if count != 1 {
        return None;
    }
    proof { lemma_last_of_class(sessions@, class_name@, typ, sessions.len() as nat); }
    let mut k: usize = sessions.len();
    while k > 0
        invariant
            k <= sessions.len(),
            last_of_class(sessions@, class_name@, typ, sessions.len() as nat) == last_of_class(sessions@, class_name@, typ, k as nat),
            0 <= last_of_class(sessions@, class_name@, typ, k as nat) < k,
            count == 1,
            count == class_count(sessions@, class_name@, typ, sessions.len() as nat),
        decreases k,
    {
        proof { lemma_last_bounds(Seq::<Instructor>::empty(), class_name@, sessions@, class_name@, typ, (k - 1) as nat); }
        if str_eq(sessions[k - 1].class_name.as_str(), class_name) && sessions[k - 1].typ == typ {
            return Some(k - 1);
        }
        k = k - 1;
    }
    None
}

/// What a row of the initial solution says: nothing if it is malformed; no assignment for
/// zid `-`; otherwise the session and instructor positions, where the zid belongs to exactly
/// one instructor and the class and type to exactly one session.
pub open spec fn row_target(row: TsvRow, sessions: Seq<Session>, instructors: Seq<Instructor>) -> Option<Option<(int, int)>> {
    match (row.field("class"@), row.field("type"@), row.field("zid"@), row.field("name"@)) {
        (Some(c), Some(t), Some(z), Some(_)) => match initial_type_spec(t) {
            Some(typ) => if z == "-"@ {
                Some(None)
            } else if zid_count(instructors, z, instructors.len()) == 1 && class_count(sessions, c, typ, sessions.len()) == 1 {
                Some(Some((last_of_class(sessions, c, typ, sessions.len()), last_with_zid(instructors, z, instructors.len()))))
            } else {
                None
            },
            None => None,
        },
        _ => None,
    }
}

/// The assignment after the first `n` rows, starting from none: each row assigns its
/// instructor to its session; nothing if a row is malformed or gives a session a second,
/// different instructor.
pub open spec fn assignment_after(tsv: &Tsv, n: nat, sessions: Seq<Session>, instructors: Seq<Instructor>) -> Option<Seq<Option<InstructorId>>>
    decreases n,
{
    if n == 0 {
        Some(Seq::new(sessions.len(), |i: int| None::<InstructorId>))
    } else {
        match assignment_after(tsv, (n - 1) as nat, sessions, instructors) {
            None => None,
            Some(prev) => match row_target(TsvRow { index: (n - 1) as usize, tsv }, sessions, instructors) {
                None => None,
                Some(None) => Some(prev),
                Some(Some((s, j))) => {
                    let id = instructors[j].instructor_id;
                    if prev[s] is Some && prev[s] != Some(id) {
                        None
                    } else {
                        Some(prev.update(s, Some(id)))
                    }
                },
            },
        }
    }
}

proof fn lemma_failure_persists(tsv: &Tsv, k: nat, m: nat, sessions: Seq<Session>, instructors: Seq<Instructor>)
    requires
        k <= m,
        assignment_after(tsv, k, sessions, instructors) is None,
    ensures
        assignment_after(tsv, m, sessions, instructors) is None,
    decreases m - k,
{
    if k < m {
        lemma_failure_persists(tsv, k, (m - 1) as nat, sessions, instructors);
    }
}

/// Reads one row: its target, and a name mismatch to report if any.
fn read_row(row: &TsvRow, sessions: &Vec<Session>, instructors: &Vec<Instructor>) -> (r: Result<(Option<(usize, usize)>, Option<NameMismatch>), Error>)
    requires
        row.wf(),
    ensures
        match r {
            Ok((None, _)) => row_target(*row, sessions@, instructors@) == Some(None::<(int, int)>),
            Ok((Some((s, j)), _)) => row_target(*row, sessions@, instructors@) == Some(Some((s as int, j as int)))
                && s < sessions.len() && j < instructors.len(),
            Err(_) => row_target(*row, sessions@, instructors@) is None,
        },
{
    let class_name = row.get("class")?;
    let type_word = row.get("type")?;
    proof { reveal_strlit("tut+lab"); reveal_strlit("lab"); reveal_strlit("-"); }
    let class_type = if str_eq(type_word, "tut+lab") {
        SessionType::TutLab
    } else if str_eq(type_word, "lab") {
        SessionType::LabAssist
    } else {
        return Err(Error::BadInitialSolution { class_name: owned(class_name) });
    };
    let zid = row.get("zid")?;
    let name = row.get("name")?;
    if str_eq(zid, "-") {
        return Ok((None, None));
    }
    let j = match unique_instructor(instructors, zid) {
        Some(j) => j,
        None => { return Err(Error::BadInitialSolution { class_name: owned(class_name) }); },
    };
    let s = match unique_session(sessions, class_name, class_type) {
        Some(s) => s,
        None => { return Err(Error::BadInitialSolution { class_name: owned(class_name) }); },
    };
    let instructor = &instructors[j];
    let mismatch = if !str_eq(instructor.name.as_str(), name) {
        Some(NameMismatch {
            class_name: owned(class_name),
            zid: owned(zid),
            given_name: owned(name),
            recorded_name: owned(instructor.name.as_str()),
        })
    } else {
        None
    };
    Ok((Some((s, j)), mismatch))
}

/// Builds the initial solution from its table. Each row names a class, a session type
/// (`tut+lab` or `lab`), an instructor zid (`-` for none) and the instructor's name. The zid
/// must belong to exactly one instructor and the class and type to exactly one session; a
/// session may not be given two different instructors. Rows whose name differs from the
/// recorded one are reported back, not refused.
pub fn solution_from_tsv(tsv: &Tsv, sessions: &Vec<Session>, instructors: &Vec<Instructor>) -> (r: Result<(Solution, Vec<NameMismatch>), Error>)
    requires
        tsv.wf(),
        sessions_wf(sessions@),
        instructors_wf(instructors@),
    ensures
        r is Ok <==> assignment_after(tsv, tsv.rows.len() as nat, sessions@, instructors@) is Some,
        r matches Ok((sol, _)) ==> sol.is_nontrivial
            && Some(sol.assignment@) == assignment_after(tsv, tsv.rows.len() as nat, sessions@, instructors@)
            && assignment_valid(sol.assignment@, sessions.len() as nat, instructors.len() as nat),
{
    let mut assignment: Vec<Option<InstructorId>> = Vec::new();
    while assignment.len() < sessions.len()
        invariant
            assignment.len() <= sessions.len(),
            forall|s: int| 0 <= s < assignment.len() ==> (#[trigger] assignment@[s]) is None,
        decreases sessions.len() - assignment.len(),
    {
        assignment.push(None);
    }
    assert(assignment@ =~= Seq::new(sessions.len() as nat, |i: int| None::<InstructorId>));
    let mut mismatches: Vec<NameMismatch> = Vec::new();
    let mut k: usize = 0;
    while k < tsv.num_rows()
        invariant
            tsv.wf(),
            k <= tsv.rows.len(),
            sessions_wf(sessions@),
            instructors_wf(instructors@),
            assignment_valid(assignment@, sessions.len() as nat, instructors.len() as nat),
            assignment_after(tsv, k as nat, sessions@, instructors@) == Some(assignment@),
        decreases tsv.rows.len() - k,
    {
        let row = tsv.row(k);
        assert(row == TsvRow { index: ((k + 1 - 1) as nat) as usize, tsv });
        match read_row(&row, sessions, instructors) {
            Err(e) => {
                proof { lemma_failure_persists(tsv, (k + 1) as nat, tsv.rows.len() as nat, sessions@, instructors@); }
                return Err(e);
            },
            Ok((target, mismatch)) => {
                match mismatch {
                    Some(m) => mismatches.push(m),
                    None => {},
                }
                match target {
                    None => {},
                    Some((s, j)) => {
                        let instructor_id = instructors[j].instructor_id;
                        match assignment[s] {
                            Some(current) => {
                                if current != instructor_id {
                                    proof { lemma_failure_persists(tsv, (k + 1) as nat, tsv.rows.len() as nat, sessions@, instructors@); }
                                    return Err(Error::BadInitialSolution { class_name: owned(sessions[s].class_name.as_str()) });
                                }
                            },
                            None => {},
                        }
                        assignment.set(s, Some(instructor_id));
                    },
                }
            },
        }
        k = k + 1;
    }
    Ok((Solution::new(assignment), mismatches))
}

} // verus!
