use vstd::prelude::*;

use crate::errors::Error;
use crate::instructor::{Instructor, InstructorId};
use crate::evaluator::instructors_wf;
use crate::session::{description, sessions_wf, Session, SessionId};
use crate::talloc::{Availability, TallocApplication, TallocApps};
use crate::text::{append, decimal, decimal_spec};

verus! {

/// Order of optional availabilities: nothing is below every level.
pub open spec fn opt_rank(a: Option<Availability>) -> int {
    match a {
        None => -1,
        Some(v) => v.rank() as int,
    }
}

/// The lower of two optional availabilities.
pub open spec fn min_opt(a: Option<Availability>, b: Option<Availability>) -> Option<Availability> {
    if opt_rank(a) <= opt_rank(b) {
        a
    } else {
        b
    }
}

/// The least of the values, nothing if there are none.
pub open spec fn min_over(values: Seq<Option<Availability>>) -> Option<Availability>
    decreases values.len(),
{
    if values.len() == 0 {
        None
    } else if values.len() == 1 {
        values[0]
    } else {
        min_opt(min_over(values.drop_last()), values.last())
    }
}

/// The availability of each hour that a session spans, under the session's mode.
pub open spec fn hour_availabilities(app: TallocApplication, session: Session) -> Seq<
    Option<Availability>,
> {
    Seq::new(
        session.duration.spec_hours(),
        |k: int| app.availability_at(session.day, (session.start_time.hour() + k) as nat, session.mode),
    )
}

/// The aggregate of a non-empty run of hours is one of them and lies at or below each.
pub proof fn lemma_min_over_is_minimum(values: Seq<Option<Availability>>)
    requires
        values.len() > 0,
    ensures
        exists|k: int| 0 <= k < values.len() && values[k] == min_over(values),
        forall|k: int| 0 <= k < values.len() ==> opt_rank(min_over(values)) <= opt_rank(#[trigger] values[k]),
    decreases values.len(),
{
    if values.len() > 1 {
        let init = values.drop_last();
        lemma_min_over_is_minimum(init);
        let k0 = choose|k: int| 0 <= k < init.len() && init[k] == min_over(init);
        if opt_rank(min_over(init)) <= opt_rank(values.last()) {
            assert(values[k0] == min_over(values));
        } else {
            assert(values[values.len() - 1] == min_over(values));
        }
        assert forall|k: int| 0 <= k < values.len() implies opt_rank(min_over(values)) <= opt_rank(#[trigger] values[k]) by {
            if k < values.len() - 1 {
                assert(init[k] == values[k]);
            }
        }
    } else {
        assert(values[0] == min_over(values));
    }
}

/// Raising the availability of any hour never lowers the aggregate.
pub proof fn lemma_min_over_monotone(lower: Seq<Option<Availability>>, higher: Seq<Option<Availability>>)
    requires
        lower.len() == higher.len(),
        forall|k: int| 0 <= k < lower.len() ==> opt_rank(#[trigger] lower[k]) <= opt_rank(higher[k]),
    ensures
        opt_rank(min_over(lower)) <= opt_rank(min_over(higher)),
    decreases lower.len(),
{
    if lower.len() > 1 {
        let (a, b) = (lower.drop_last(), higher.drop_last());
        assert forall|k: int| 0 <= k < a.len() implies opt_rank(#[trigger] a[k]) <= opt_rank(b[k]) by {
            assert(a[k] == lower[k] && b[k] == higher[k]);
        }
        lemma_min_over_monotone(a, b);
        assert(opt_rank(lower.last()) <= opt_rank(higher.last()));
    }
}

/// Availability of an applicant for a whole session: the least available hour it spans, or
/// nothing if some hour cannot be read.
pub fn check_availability(application: TallocApplication, session: &Session) -> (r: Option<
    Availability,
>)
    requires
        application.wf(),
        session.wf(),
    ensures
        r == min_over(hour_availabilities(application, *session)),
{
    let hours = session.duration.hours();
    let ghost values = hour_availabilities(application, *session);
    let mut result: Option<Availability> = None;
    let mut offset: u8 = 0;
    while offset < hours
        invariant
            offset <= hours,
            hours == session.duration.spec_hours(),
            session.wf(),
            application.wf(),
            values == hour_availabilities(application, *session),
            result == min_over(values.take(offset as int)),
        decreases hours - offset,
    {
        let here = application.get_availability(session.day, session.start_time.add_hr(offset), session.mode);
        assert(values.take(offset + 1).drop_last() =~= values.take(offset as int));
        assert(here == values[offset as int]);
        if offset == 0 {
            result = here;
        } else {
            result = match (result, here) {
                (Some(a), Some(b)) => if a.at_most(b) { Some(a) } else { Some(b) },
                _ => None,
            };
        }
        offset = offset + 1;
    }
    assert(values.take(hours as int) =~= values);
    result
}

/// Availability of each instructor for each session, stored session by session.
pub struct AvailabilityMatrix {
    num_sessions: usize,
    num_instructors: usize,
    availability_session_x_instructor: Vec<Availability>,
}

impl AvailabilityMatrix {
    pub closed spec fn sessions(&self) -> nat {
        self.num_sessions as nat
    }

    pub closed spec fn instructors(&self) -> nat {
        self.num_instructors as nat
    }

    /// The availability recorded for a session and an instructor.
    pub closed spec fn get(&self, session: nat, instructor: nat) -> Availability {
        self.availability_session_x_instructor@[(session * self.num_instructors + instructor) as int]
    }

    pub closed spec fn wf(&self) -> bool {
        &&& self.availability_session_x_instructor@.len() == self.num_sessions * self.num_instructors
        &&& self.num_sessions * self.num_instructors <= usize::MAX
    }

    /// The cells of a matrix can be counted in a `usize`.
    pub proof fn lemma_size_fits(&self)
        requires
            self.wf(),
        ensures
            self.sessions() * self.instructors() <= usize::MAX,
    {
    }

    /// A matrix of the given size in which every entry is `value`.
    pub fn filled(num_sessions: usize, num_instructors: usize, value: Availability) -> (r: AvailabilityMatrix)
        requires
            num_sessions * num_instructors <= usize::MAX,
        ensures
            r.wf(),
            r.sessions() == num_sessions,
            r.instructors() == num_instructors,
            forall|s: nat, i: nat| s < num_sessions && i < num_instructors ==> #[trigger] r.get(s, i) == value,
    {
        let total = num_sessions * num_instructors;
        let mut cells: Vec<Availability> = Vec::new();
        while cells.len() < total
            invariant
                cells.len() <= total,
                forall|k: int| 0 <= k < cells.len() ==> cells@[k] == value,
            decreases total - cells.len(),
        {
            cells.push(value);
        }
        let r = AvailabilityMatrix { num_sessions, num_instructors, availability_session_x_instructor: cells };
        assert forall|s: nat, i: nat| s < num_sessions && i < num_instructors implies #[trigger] r.get(s, i) == value by {
            lemma_pair_index_bound_rect(num_sessions as nat, num_instructors as nat, s, i);
        }
        r
    }

    /// Builds the matrix from the applications: for each session and instructor, the
    /// aggregate availability of the instructor's application over the session's hours.
    /// Fails if some instructor has no application (and that is not tolerated), or if an
    /// application lacks an hour that a session spans.
    pub fn build(
        instructors: &Vec<Instructor>,
        sessions: &Vec<Session>,
        applications: &TallocApps,
    ) -> (r: Result<AvailabilityMatrix, Error>)
        requires
            applications.wf(),
            sessions.len() * instructors.len() <= usize::MAX,
            forall|k: int| 0 <= k < sessions.len() ==> (#[trigger] sessions[k]).wf(),
        ensures
            r is Ok <==> builds_all(instructors@, sessions@, *applications),
            r matches Err(e) ==> (e is NoApplication && exists|i: int| 0 <= i < instructors.len()
                && #[trigger] applications.application_for(instructors@[i].zid@) is None)
                || (e is NoAvailability && exists|s: int, i: int| 0 <= s < sessions.len() && 0 <= i < instructors.len()
                && applications.application_for(instructors@[i].zid@) is Some
                && #[trigger] pair_availability(instructors@[i], sessions@[s], *applications) is None),
            r matches Ok(m) ==> m.wf() && m.sessions() == sessions.len() && m.instructors() == instructors.len()
                && forall|s: nat, i: nat| s < sessions.len() && i < instructors.len() ==>
                    Some(#[trigger] m.get(s, i)) == pair_availability(instructors@[i as int], sessions@[s as int], *applications),
    {
        let mut cells: Vec<Availability> = Vec::new();
        let n = instructors.len();
        let mut s: usize = 0;
        while s < sessions.len()
            invariant
                n == instructors.len(),
                s <= sessions.len(),
                applications.wf(),
                sessions.len() * n <= usize::MAX,
                forall|k: int| 0 <= k < sessions.len() ==> (#[trigger] sessions[k]).wf(),
                cells@.len() == s * n,
                forall|a: nat, b: nat| a < s && b < n ==> Some(#[trigger] cells@[(a * n + b) as int])
                    == pair_availability(instructors@[b as int], sessions@[a as int], *applications),
            decreases sessions.len() - s,
        {
            let mut i: usize = 0;
            while i < n
                invariant
                    n == instructors.len(),
                    s < sessions.len(),
                    i <= n,
                    applications.wf(),
                    sessions.len() * n <= usize::MAX,
                    forall|k: int| 0 <= k < sessions.len() ==> (#[trigger] sessions[k]).wf(),
                    cells@.len() == s * n + i,
                    forall|a: nat, b: nat| ((a < s && b < n) || (a == s && b < i)) ==> Some(#[trigger] cells@[(a * n + b) as int])
                        == pair_availability(instructors@[b as int], sessions@[a as int], *applications),
                decreases n - i,
            {
                let application = match applications.get_application(instructors[i].zid.as_str()) {
                    Some(application) => application,
                    None => {
                        proof {
                            assert(!pair_builds(instructors@[i as int], sessions@[s as int], *applications));
                            assert(!builds_all(instructors@, sessions@, *applications));
                        }
                        return Err(Error::NoApplication { zid: instructors[i].zid.clone() });
                    },
                };
                let value = match check_availability(application, &sessions[s]) {
                    Some(value) => value,
                    None => {
                        proof {
                            assert(!pair_builds(instructors@[i as int], sessions@[s as int], *applications));
                            assert(!builds_all(instructors@, sessions@, *applications));
                        }
                        return Err(Error::NoAvailability {
                            zid: instructors[i].zid.clone(),
                            class_name: sessions[s].class_name.clone(),
                        });
                    },
                };
                proof {
                    lemma_pair_index_bound_rect((s + 1) as nat, n as nat, s as nat, i as nat);
                }
                let ghost old_cells = cells@;
                cells.push(value);
                proof {
                    assert forall|a: nat, b: nat| ((a < s && b < n) || (a == s && b < i + 1)) implies Some(#[trigger] cells@[(a * n + b) as int])
                        == pair_availability(instructors@[b as int], sessions@[a as int], *applications) by {
                        if a == s && b == i {
                        } else {
                            lemma_row_major_lt(n as nat, a, b, s as nat, i as nat);
                            assert(cells@[(a * n + b) as int] == old_cells[(a * n + b) as int]);
                        }
                    }
                }
                i = i + 1;
            }
            proof {
                assert(cells@.len() == (s + 1) * n) by (nonlinear_arith)
                    requires cells@.len() == s * n + n;
            }
            s = s + 1;
        }
        let m = AvailabilityMatrix {
            num_sessions: sessions.len(),
            num_instructors: n,
            availability_session_x_instructor: cells,
        };
        proof {
            assert forall|a: int, b: int| 0 <= a < sessions.len() && 0 <= b < n implies #[trigger] pair_builds(instructors@[b], sessions@[a], *applications) by {
                assert(Some(cells@[(a * n + b) as int]) == pair_availability(instructors@[b], sessions@[a], *applications));
            }
        }
        Ok(m)
    }

    /// The descriptions, joined by `, `, and the number of the first `n` sessions at which
    /// instructor `j` has the level.
    pub open spec fn level_names(&self, sessions: Seq<Session>, j: nat, level: Availability, n: nat) -> (Seq<char>, nat)
        decreases n,
    {
        if n == 0 {
            (Seq::empty(), 0)
        } else {
            let (text, count) = self.level_names(sessions, j, level, (n - 1) as nat);
            if self.get((n - 1) as nat, j) == level {
                ((if count > 0 { text + ", "@ } else { text }) + description(sessions[n - 1]), count + 1)
            } else {
                (text, count)
            }
        }
    }

    /// The report line for one level: its name, how many sessions, and which (or `none!`).
    pub open spec fn level_line(&self, sessions: Seq<Session>, j: nat, level: Availability) -> Seq<char> {
        let (text, count) = self.level_names(sessions, j, level, sessions.len());
        "    "@ + level.spec_name() + " ("@ + decimal_spec(count) + " total): "@ + text + (if count == 0 {
            "none!"@
        } else {
            Seq::empty()
        }) + "\n"@
    }

    /// The lines for the first `n` levels, least available first.
    pub open spec fn level_lines(&self, sessions: Seq<Session>, j: nat, n: nat) -> Seq<char>
        decreases n,
    {
        if n == 0 {
            Seq::empty()
        } else {
            self.level_lines(sessions, j, (n - 1) as nat) + self.level_line(sessions, j, level_at((n - 1) as nat))
        }
    }

    /// The report for the first `n` instructors: a header with name and zid, then the four
    /// level lines.
    pub open spec fn report_spec(&self, sessions: Seq<Session>, instructors: Seq<Instructor>, n: nat) -> Seq<char>
        decreases n,
    {
        if n == 0 {
            Seq::empty()
        } else {
            self.report_spec(sessions, instructors, (n - 1) as nat) + instructors[n - 1].name@ + " ("@ + instructors[n - 1].zid@
                + ") availabilities:\n"@ + self.level_lines(sessions, (n - 1) as nat, 4)
        }
    }

    /// For each instructor, the sessions at each availability level, least available first.
#[verifier::rlimit(40)]
    pub fn make_availability_report(&self, sessions: &Vec<Session>, instructors: &Vec<Instructor>) -> (r: String)
        requires
            self.wf(),
            self.sessions() == sessions.len(),
            self.instructors() == instructors.len(),
            sessions_wf(sessions@),
            instructors_wf(instructors@),
        ensures
            r@ == self.report_spec(sessions@, instructors@, instructors.len() as nat),
    {
        let mut report = String::new();
        let mut j: usize = 0;
        while j < instructors.len()
            invariant
                self.wf(),
                self.sessions() == sessions.len(),
                self.instructors() == instructors.len(),
                sessions_wf(sessions@),
                instructors_wf(instructors@),
                j <= instructors.len(),
                report@ == self.report_spec(sessions@, instructors@, j as nat),
            decreases instructors.len() - j,
        {
            let instructor = &instructors[j];
            let ghost block_start = report@;
            append(&mut report, instructor.name.as_str());
            append(&mut report, " (");
            append(&mut report, instructor.zid.as_str());
            append(&mut report, ") availabilities:\n");
            let ghost header_end = report@;
            assert(header_end =~= block_start + instructors@[j as int].name@ + " ("@ + instructors@[j as int].zid@ + ") availabilities:\n"@);
            let mut level: usize = 0;
            while level < 4
                invariant
                    self.wf(),
                    self.sessions() == sessions.len(),
                    self.instructors() == instructors.len(),
                    sessions_wf(sessions@),
                    instructors_wf(instructors@),
                    j < instructors.len(),
                    instructor == &instructors@[j as int],
                    level <= 4,
                    report@ == header_end + self.level_lines(sessions@, j as nat, level as nat),
                decreases 4 - level,
            {
                let availability = level_from_index(level);
                let mut names = String::new();
                let mut total: u64 = 0;
                let mut s: usize = 0;
                while s < sessions.len()
                    invariant
                        self.wf(),
                        self.sessions() == sessions.len(),
                        self.instructors() == instructors.len(),
                        sessions_wf(sessions@),
                        instructors_wf(instructors@),
                        j < instructors.len(),
                        instructor == &instructors@[j as int],
                        s <= sessions.len(),
                        total <= s,
                        (names@, total as nat) == self.level_names(sessions@, j as nat, availability, s as nat),
                    decreases sessions.len() - s,
                {
                    let session = &sessions[s];
                    let ghost before = names@;
                    if self.get_availability(session.session_id, instructor.instructor_id) == availability {
                        if total > 0 {
                            append(&mut names, ", ");
                        }
                        append(&mut names, session.short_description().as_str());
                        total = total + 1;
                    }
                    s = s + 1;
                }
                let ghost line_start = report@;
                append(&mut report, "    ");
                append(&mut report, availability.name());
                append(&mut report, " (");
                append(&mut report, decimal(total).as_str());
                append(&mut report, " total): ");
                append(&mut report, names.as_str());
                if total == 0 {
                    append(&mut report, "none!");
                }
                append(&mut report, "\n");
                assert(report@ =~= line_start + self.level_line(sessions@, j as nat, availability));
                assert(report@ =~= header_end + self.level_lines(sessions@, j as nat, (level + 1) as nat));
                level = level + 1;
            }
            assert(report@ =~= self.report_spec(sessions@, instructors@, (j + 1) as nat));
            j = j + 1;
        }
        report
    }

    pub fn get_availability(&self, session: SessionId, instructor: InstructorId) -> (r: Availability)
        requires
            self.wf(),
            session.index() < self.sessions(),
            instructor.index() < self.instructors(),
        ensures
            r == self.get(session.index(), instructor.index()),
    {
        proof {
            lemma_pair_index_bound_rect(self.num_sessions as nat, self.num_instructors as nat, session.index(), instructor.index());
        }
        self.availability_session_x_instructor[session.raw_index() * self.num_instructors + instructor.raw_index()]
    }

    pub fn set_availability(&mut self, session: SessionId, instructor: InstructorId, updated: Availability)
        requires
            old(self).wf(),
            session.index() < old(self).sessions(),
            instructor.index() < old(self).instructors(),
        ensures
            final(self).wf(),
            final(self).sessions() == old(self).sessions(),
            final(self).instructors() == old(self).instructors(),
            final(self).get(session.index(), instructor.index()) == updated,
            forall|s: nat, i: nat| s < old(self).sessions() && i < old(self).instructors()
                && (s != session.index() || i != instructor.index()) ==> #[trigger] final(self).get(s, i) == old(self).get(s, i),
    {
        proof {
            lemma_pair_index_bound_rect(self.num_sessions as nat, self.num_instructors as nat, session.index(), instructor.index());
        }
        let index = session.raw_index() * self.num_instructors + instructor.raw_index();
        self.availability_session_x_instructor.set(index, updated);
        proof {
            assert forall|s: nat, i: nat| s < self.num_sessions && i < self.num_instructors
                && (s != session.index() || i != instructor.index()) implies #[trigger] self.get(s, i) == old(self).get(s, i) by {
                lemma_pair_index_bound_rect(self.num_sessions as nat, self.num_instructors as nat, s, i);
                if s * self.num_instructors + i == index {
                    crate::session::lemma_pair_index_unique(self.num_instructors as nat, s, i, session.index(), instructor.index());
                }
            }
        }
    }
}

/// The levels in report order, least available first.
pub open spec fn level_at(k: nat) -> Availability {
    if k == 0 {
        Availability::Impossible
    } else if k == 1 {
        Availability::Dislike
    } else if k == 2 {
        Availability::Possible
    } else {
        Availability::Preferred
    }
}

fn level_from_index(k: usize) -> (r: Availability)
    ensures
        r == level_at(k as nat),
{
    if k == 0 {
        Availability::Impossible
    } else if k == 1 {
        Availability::Dislike
    } else if k == 2 {
        Availability::Possible
    } else {
        Availability::Preferred
    }
}

/// The availability that building gives an instructor for a session, if any.
pub open spec fn pair_availability(instructor: Instructor, session: Session, applications: TallocApps) -> Option<Availability> {
    match applications.application_for(instructor.zid@) {
        Some(app) => min_over(hour_availabilities(app, session)),
        None => None,
    }
}

pub open spec fn pair_builds(instructor: Instructor, session: Session, applications: TallocApps) -> bool {
    pair_availability(instructor, session, applications) is Some
}

/// Every instructor has an application that gives an availability for every session.
pub open spec fn builds_all(instructors: Seq<Instructor>, sessions: Seq<Session>, applications: TallocApps) -> bool {
    forall|s: int, i: int| 0 <= s < sessions.len() && 0 <= i < instructors.len() ==>
        #[trigger] pair_builds(instructors[i], sessions[s], applications)
}

proof fn lemma_pair_index_bound_rect(rows: nat, cols: nat, a: nat, b: nat)
    requires
        a < rows,
        b < cols,
    ensures
        a * cols + b < rows * cols,
{
    assert(a * cols + b < rows * cols) by (nonlinear_arith)
        requires
            a < rows,
            b < cols,
    ;
}

proof fn lemma_row_major_lt(n: nat, a: nat, b: nat, s: nat, i: nat)
    requires
        b < n,
        (a < s) || (a == s && b < i),
    ensures
        a * n + b < s * n + i,
{
    if a < s {
        assert(a * n + b < s * n + i) by (nonlinear_arith)
            requires
                a < s,
                b < n,
        ;
    }
}

} // verus!
