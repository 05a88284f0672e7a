use vstd::prelude::*;

use crate::availabilities::AvailabilityMatrix;
use crate::errors::Error;
use crate::evaluator::instructors_wf;
use crate::instructor::Instructor;
use crate::session::{sessions_wf, Session, SessionType};
use crate::talloc::Availability;
use crate::text::{eq_ignore_ascii_case, eq_ignore_case, owned, split_on, split_spec, str_eq, trim, trim_spec, views};
use crate::tsv::{Tsv, TsvRow};

verus! {

/// The level that a word names, in any ASCII case.
pub open spec fn english_name_spec(name: Seq<char>) -> Option<Availability> {
    if eq_ignore_case(name, "impossible"@) {
        Some(Availability::Impossible)
    } else if eq_ignore_case(name, "dislike"@) {
        Some(Availability::Dislike)
    } else if eq_ignore_case(name, "possible"@) {
        Some(Availability::Possible)
    } else if eq_ignore_case(name, "preferred"@) {
        Some(Availability::Preferred)
    } else {
        None
    }
}

impl Availability {
    pub fn from_english_name(name: &str) -> (r: Option<Availability>)
        ensures
            r == english_name_spec(name@),
    {
        if eq_ignore_ascii_case(name, "impossible") {
            Some(Availability::Impossible)
        } else if eq_ignore_ascii_case(name, "dislike") {
            Some(Availability::Dislike)
        } else if eq_ignore_ascii_case(name, "possible") {
            Some(Availability::Possible)
        } else if eq_ignore_ascii_case(name, "preferred") {
            Some(Availability::Preferred)
        } else {
            None
        }
    }
}

/// Whether a value matches a pattern: `*` (after trimming) matches everything; otherwise the
/// pattern is a comma-separated list, and the value must equal one member up to ASCII case.
pub open spec fn matches_spec_spec(needle: Seq<char>, haystack: Seq<char>) -> bool {
    let h = trim_spec(haystack);
    h == "*"@ || exists|k: int| 0 <= k < split_spec(h, ',').len() && eq_ignore_case(#[trigger] split_spec(h, ',')[k], needle)
}

pub fn matches_spec(needle: &str, haystack: &str) -> (r: bool)
    ensures
        r == matches_spec_spec(needle@, haystack@),
{
    let h = trim(haystack);
    proof { reveal_strlit("*"); }
    if str_eq(h.as_str(), "*") {
        return true;
    }
    let parts = split_on(h.as_str(), ',');
    let mut k: usize = 0;
    while k < parts.len()
        invariant
            views(parts@) == split_spec(h@, ','),
            h@ == trim_spec(haystack@),
            h@ != "*"@,
            k <= parts.len(),
            forall|j: int| 0 <= j < k ==> !eq_ignore_case(#[trigger] split_spec(h@, ',')[j], needle@),
        decreases parts.len() - k,
    {
        assert(views(parts@)[k as int] == parts@[k as int]@);
        if eq_ignore_ascii_case(parts[k].as_str(), needle) {
            return true;
        }
        k = k + 1;
    }
    false
}

/// The name used for a session type in override rows.
pub open spec fn type_word(t: SessionType) -> Seq<char> {
    match t {
        SessionType::TutLab => "tut"@,
        SessionType::LabAssist => "lab"@,
    }
}

/// An override row as read: the instructor, class and type patterns and the level.
pub struct OverrideSpec {
    pub zids: Seq<char>,
    pub classes: Seq<char>,
    pub types: Seq<char>,
    pub value: Availability,
}

/// What an override row says, if it can be read.
pub open spec fn override_of(row: TsvRow) -> Option<OverrideSpec> {
    match (row.field("name"@), row.field("zid"@), row.field("class"@), row.field("type"@), row.field("override"@)) {
        (Some(_), Some(z), Some(c), Some(t), Some(o)) => match english_name_spec(o) {
            Some(v) => Some(OverrideSpec { zids: z, classes: c, types: t, value: v }),
            None => None,
        },
        _ => None,
    }
}

/// Whether an override applies to an instructor and a session.
pub open spec fn override_applies(o: OverrideSpec, instructor: Instructor, session: Session) -> bool {
    matches_spec_spec(instructor.zid@, o.zids) && matches_spec_spec(session.class_name@, o.classes)
        && matches_spec_spec(type_word(session.typ), o.types)
}

/// The availability of a session and an instructor after the first `n` override rows, each
/// writing its level where it applies.
pub open spec fn after_overrides(tsv: &Tsv, n: nat, instructor: Instructor, session: Session, unchanged: Availability) -> Availability
    decreases n,
{
    if n == 0 {
        unchanged
    } else {
        let before = after_overrides(tsv, (n - 1) as nat, instructor, session, unchanged);
        match override_of(TsvRow { index: (n - 1) as usize, tsv }) {
            Some(o) => if override_applies(o, instructor, session) { o.value } else { before },
            None => before,
        }
    }
}

/// Whether an override applies to some instructor and some session.
pub open spec fn override_used(o: OverrideSpec, instructors: Seq<Instructor>, sessions: Seq<Session>) -> bool {
    exists|i: int, s: int| 0 <= i < instructors.len() && 0 <= s < sessions.len() && #[trigger] override_applies(o, instructors[i], sessions[s])
}

/// How many of the first `n` sessions an override applies to for the instructor.
pub open spec fn sessions_applied(o: OverrideSpec, instructor: Instructor, sessions: Seq<Session>, n: nat) -> nat
    decreases n,
{
    if n == 0 {
        0
    } else {
        sessions_applied(o, instructor, sessions, (n - 1) as nat) + if override_applies(o, instructor, sessions[n - 1]) { 1nat } else { 0 }
    }
}

/// How many (instructor, session) cells an override applies to, over the first `n` instructors.
pub open spec fn cells_applied(o: OverrideSpec, instructors: Seq<Instructor>, sessions: Seq<Session>, n: nat) -> nat
    decreases n,
{
    if n == 0 {
        0
    } else {
        cells_applied(o, instructors, sessions, (n - 1) as nat) + sessions_applied(o, instructors[n - 1], sessions, sessions.len())
    }
}

proof fn lemma_sessions_applied_none(o: OverrideSpec, instructor: Instructor, sessions: Seq<Session>, n: nat)
    requires
        !matches_spec_spec(instructor.zid@, o.zids),
    ensures
        sessions_applied(o, instructor, sessions, n) == 0,
    decreases n,
{
    if n > 0 {
        lemma_sessions_applied_none(o, instructor, sessions, (n - 1) as nat);
    }
}

/// The count reported for an override row is the number of cells it applies to.
pub open spec fn count_matches(tsv: &Tsv, instructors: Seq<Instructor>, sessions: Seq<Session>, k: int, count: usize) -> bool {
    match override_of(TsvRow { index: k as usize, tsv }) {
        Some(o) => count == cells_applied(o, instructors, sessions, instructors.len()),
        None => false,
    }
}

/// Every override row can be read and applies somewhere.
pub open spec fn overrides_ok(tsv: &Tsv, instructors: Seq<Instructor>, sessions: Seq<Session>) -> bool {
    forall|k: int| 0 <= k < tsv.rows.len() ==> #[trigger] override_row_ok(TsvRow { index: k as usize, tsv }, instructors, sessions)
}

/// An override row can be read and applies somewhere.
pub open spec fn override_row_ok(row: TsvRow, instructors: Seq<Instructor>, sessions: Seq<Session>) -> bool {
    match override_of(row) {
        Some(o) => override_used(o, instructors, sessions),
        None => false,
    }
}

fn session_type_word(t: SessionType) -> (r: &'static str)
    ensures
        r@ == type_word(t),
{
    match t {
        SessionType::TutLab => "tut",
        SessionType::LabAssist => "lab",
    }
}

/// Applies the override rows in order, each writing its level into every cell whose
/// instructor and session it matches. Returns how many cells each row wrote. Fails on a row
/// that cannot be read or that matches nothing.
pub fn apply_overrides(
    overrides_tsv: &Tsv,
    availabilities: &mut AvailabilityMatrix,
    instructors: &Vec<Instructor>,
    sessions: &Vec<Session>,
) -> (r: Result<Vec<usize>, Error>)
    requires
        overrides_tsv.wf(),
        old(availabilities).wf(),
        sessions_wf(sessions@),
        instructors_wf(instructors@),
        old(availabilities).sessions() == sessions.len(),
        old(availabilities).instructors() == instructors.len(),
    ensures
        final(availabilities).wf(),
        final(availabilities).sessions() == sessions.len(),
        final(availabilities).instructors() == instructors.len(),
        r is Ok <==> overrides_ok(overrides_tsv, instructors@, sessions@),
        r matches Ok(counts) ==> counts.len() == overrides_tsv.rows.len() && forall|k: int| 0 <= k < counts.len() ==>
            #[trigger] count_matches(overrides_tsv, instructors@, sessions@, k, counts@[k]),
        r is Ok ==> forall|s: nat, i: nat| s < sessions.len() && i < instructors.len() ==> #[trigger] final(availabilities).get(s, i)
            == after_overrides(overrides_tsv, overrides_tsv.rows.len() as nat, instructors@[i as int], sessions@[s as int], old(availabilities).get(s, i)),
{
    let ghost unchanged = *availabilities;
    let mut counts: Vec<usize> = Vec::new();
    let mut k: usize = 0;
    while k < overrides_tsv.num_rows()
        invariant
            overrides_tsv.wf(),
            k <= overrides_tsv.rows.len(),
            sessions_wf(sessions@),
            instructors_wf(instructors@),
            availabilities.wf(),
            availabilities.sessions() == sessions.len(),
            availabilities.instructors() == instructors.len(),
            counts.len() == k,
            forall|j: int| 0 <= j < k ==> #[trigger] count_matches(overrides_tsv, instructors@, sessions@, j, counts@[j]),
            unchanged.sessions() == sessions.len(),
            unchanged.instructors() == instructors.len(),
            forall|j: int| 0 <= j < k ==> #[trigger] override_row_ok(TsvRow { index: j as usize, tsv: overrides_tsv }, instructors@, sessions@),
            forall|s: nat, i: nat| s < sessions.len() && i < instructors.len() ==> #[trigger] availabilities.get(s, i)
                == after_overrides(overrides_tsv, k as nat, instructors@[i as int], sessions@[s as int], unchanged.get(s, i)),
        decreases overrides_tsv.rows.len() - k,
    {
        let row = overrides_tsv.row(k);
        assert(row == TsvRow { index: (k as int) as usize, tsv: overrides_tsv });
        let ghost row_spec = override_of(row);
        let read = read_override(&row);
        let (override_name, zids, classes, types, value) = match read {
            Ok(parts) => parts,
            Err(e) => {
                assert(!override_row_ok(TsvRow { index: (k as int) as usize, tsv: overrides_tsv }, instructors@, sessions@));
                return Err(e);
            },
        };
        let ghost o = OverrideSpec { zids: zids@, classes: classes@, types: types@, value };
        assert(row_spec == Some(o));
        let ghost start = *availabilities;
        let mut total_applied: usize = 0;
        let mut i: usize = 0;
        while i < instructors.len()
            invariant
                o.zids == zids@,
                o.classes == classes@,
                o.types == types@,
                o.value == value,
                i <= instructors.len(),
                sessions_wf(sessions@),
                instructors_wf(instructors@),
                availabilities.wf(),
                availabilities.sessions() == sessions.len(),
                availabilities.instructors() == instructors.len(),
                total_applied <= i * sessions.len(),
                total_applied == cells_applied(o, instructors@, sessions@, i as nat),
                (total_applied > 0) == exists|a: int, b: int| 0 <= a < i && 0 <= b < sessions.len() && #[trigger] override_applies(o, instructors@[a], sessions@[b]),
                forall|s: nat, x: nat| s < sessions.len() && x < instructors.len() ==> #[trigger] availabilities.get(s, x)
                    == if x < i && override_applies(o, instructors@[x as int], sessions@[s as int]) { o.value } else { start.get(s, x) },
            decreases instructors.len() - i,
        {
            let instructor = &instructors[i];
            if matches_spec(instructor.zid.as_str(), zids.as_str()) {
                let mut s: usize = 0;
                while s < sessions.len()
                    invariant
                        o.zids == zids@,
                        o.classes == classes@,
                        o.types == types@,
                        o.value == value,
                        i < instructors.len(),
                        s <= sessions.len(),
                        sessions_wf(sessions@),
                        instructors_wf(instructors@),
                        instructor == &instructors@[i as int],
                        matches_spec_spec(instructor.zid@, o.zids),
                        availabilities.wf(),
                        availabilities.sessions() == sessions.len(),
                        availabilities.instructors() == instructors.len(),
                        total_applied <= i * sessions.len() + s,
                        total_applied == cells_applied(o, instructors@, sessions@, i as nat) + sessions_applied(o, instructors@[i as int], sessions@, s as nat),
                        (total_applied > 0) == exists|a: int, b: int| 0 <= a < instructors.len() && 0 <= b < sessions.len()
                            && (a < i || (a == i && b < s)) && #[trigger] override_applies(o, instructors@[a], sessions@[b]),
                        forall|y: nat, x: nat| y < sessions.len() && x < instructors.len() ==> #[trigger] availabilities.get(y, x)
                            == if (x < i || (x == i && y < s)) && override_applies(o, instructors@[x as int], sessions@[y as int]) { o.value } else { start.get(y, x) },
                    decreases sessions.len() - s,
                {
                    let session = &sessions[s];
                    if matches_spec(session.class_name.as_str(), classes.as_str())
                        && matches_spec(session_type_word(session.typ), types.as_str()) {
                        assert(override_applies(o, instructors@[i as int], sessions@[s as int]));
                        proof {
                            availabilities.lemma_size_fits();
                            let (ii, ss, n, m) = (i as int, s as int, sessions.len() as int, instructors.len() as int);
                            assert(ii * n + ss + 1 <= n * m) by (nonlinear_arith)
                                requires
                                    0 <= ii < m,
                                    0 <= ss < n,
                            ;
                        }
                        availabilities.set_availability(session.session_id, instructor.instructor_id, value);
                        total_applied = total_applied + 1;
                    } else {
                        assert(!override_applies(o, instructors@[i as int], sessions@[s as int]));
                    }
                    s = s + 1;
                }
                proof {
                    assert(i * sessions.len() + sessions.len() == (i + 1) * sessions.len()) by (nonlinear_arith);
                }
            } else {
                proof {
                    lemma_sessions_applied_none(o, instructors@[i as int], sessions@, sessions.len() as nat);
                    assert forall|b: int| 0 <= b < sessions.len() implies !#[trigger] override_applies(o, instructors@[i as int], sessions@[b]) by {}
                    assert(i * sessions.len() <= (i + 1) * sessions.len()) by (nonlinear_arith);
                }
            }
            i = i + 1;
        }
        if total_applied == 0 {
            proof {
                assert(!override_used(o, instructors@, sessions@));
                assert(!override_row_ok(TsvRow { index: (k as int) as usize, tsv: overrides_tsv }, instructors@, sessions@));
            }
            return Err(Error::UnmatchedOverride { name: override_name });
        }
        let ghost before_counts = counts@;
        counts.push(total_applied);
        proof {
            assert(row == TsvRow { index: (k as int) as usize, tsv: overrides_tsv });
            assert forall|j: int| 0 <= j < k + 1 implies #[trigger] count_matches(overrides_tsv, instructors@, sessions@, j, counts@[j]) by {
                if j < k {
                    assert(counts@[j] == before_counts[j]);
                    assert(count_matches(overrides_tsv, instructors@, sessions@, j, before_counts[j]));
                } else {
                    assert(TsvRow { index: j as usize, tsv: overrides_tsv } == row);
                    assert(override_of(row) == Some(o));
                    assert(counts@[j] == total_applied);
                    assert(total_applied == cells_applied(o, instructors@, sessions@, instructors.len() as nat));
                }
            }
        }
        k = k + 1;
    }
    Ok(counts)
}

/// The name, patterns and level of an override row.
fn read_override(row: &TsvRow) -> (r: Result<(String, String, String, String, Availability), Error>)
    requires
        row.wf(),
    ensures
        match r {
            Ok((_, z, c, t, v)) => override_of(*row) == Some(OverrideSpec { zids: z@, classes: c@, types: t@, value: v }),
            Err(_) => override_of(*row) is None,
        },
{
    let name = owned(row.get("name")?);
    let zid = owned(row.get("zid")?);
    let class_name = owned(row.get("class")?);
    let class_type = owned(row.get("type")?);
    let raw = row.get("override")?;
    match Availability::from_english_name(raw) {
        Some(v) => Ok((name, zid, class_name, class_type, v)),
        None => Err(Error::BadOverride { name }),
    }
}

} // verus!
