use vstd::prelude::*;

use crate::classes::{Class, Mode, LAB_DURATION_HOURS, TUT_DURATION_HOURS};
use crate::text::{append, owned};
use crate::utils::{Day, SessionDuration, TimeOfDay};

verus! {

#[derive(Debug, Clone, Copy, PartialEq, Eq, Structural)]
pub enum SessionType {
    TutLab,
    LabAssist,
}

/// Dense index of a session.
#[derive(Debug, Clone, Copy, Default, PartialEq, Eq, Structural)]
pub struct SessionId(pub u16);

impl SessionId {
    pub open spec fn index(self) -> nat {
        self.0 as nat
    }

    pub fn raw_index(self) -> (r: usize)
        ensures
            r == self.index(),
    {
        self.0 as usize
    }

    pub fn from_index(index: usize) -> (r: SessionId)
        requires
            index <= u16::MAX,
        ensures
            r.index() == index,
    {
        SessionId(index as u16)
    }
}

#[derive(Debug, Clone)]
pub struct Session {
    pub session_id: SessionId,
    pub day: Day,
    pub start_time: TimeOfDay,
    pub duration: SessionDuration,
    pub typ: SessionType,
    pub mode: Mode,
    pub class_name: String,
}

/// What a session is, apart from its id.
pub struct SessionShape {
    pub day: Day,
    pub start: nat,
    pub hours: nat,
    pub typ: SessionType,
    pub mode: Mode,
    pub class_name: Seq<char>,
}

impl Session {
    pub open spec fn shape(&self) -> SessionShape {
        SessionShape {
            day: self.day,
            start: self.start_time.hour(),
            hours: self.duration.spec_hours(),
            typ: self.typ,
            mode: self.mode,
            class_name: self.class_name@,
        }
    }

    /// The session ends within the day it starts on.
    pub open spec fn wf(&self) -> bool {
        self.start_time.hour() + self.duration.spec_hours() < 24
    }
}

/// The sessions that one class gives rise to, in order: the tutorial with its lab, then the
/// lab assist, each unless the class suppresses it.
pub open spec fn class_shapes(c: Class) -> Seq<SessionShape> {
    let tut = SessionShape {
        day: c.day,
        start: c.start.hour(),
        hours: (TUT_DURATION_HOURS + LAB_DURATION_HOURS) as nat,
        typ: SessionType::TutLab,
        mode: c.mode,
        class_name: c.name@,
    };
    let lab = SessionShape {
        day: c.day,
        start: (c.start.hour() + TUT_DURATION_HOURS) as nat,
        hours: LAB_DURATION_HOURS as nat,
        typ: SessionType::LabAssist,
        mode: c.mode,
        class_name: c.name@,
    };
    (if c.ignore_tut { Seq::empty() } else { seq![tut] }) + (if c.ignore_lab {
        Seq::empty()
    } else {
        seq![lab]
    })
}

/// The sessions of all classes, class by class.
pub open spec fn all_class_shapes(classes: Seq<Class>) -> Seq<SessionShape>
    decreases classes.len(),
{
    if classes.len() == 0 {
        Seq::empty()
    } else {
        all_class_shapes(classes.drop_last()) + class_shapes(classes.last())
    }
}

/// Sessions whose ids are their positions and that each end within their day.
pub open spec fn sessions_wf(sessions: Seq<Session>) -> bool {
    &&& sessions.len() <= u16::MAX + 1
    &&& forall|k: int|
        0 <= k < sessions.len() ==> (#[trigger] sessions[k]).session_id.index() == k
            && sessions[k].wf()
}

fn class_to_sessions(class: &Class, first_id: usize, sessions: &mut Vec<Session>)
    requires
        class.wf(),
        first_id == old(sessions).len(),
        first_id + 2 <= u16::MAX + 1,
    ensures
        final(sessions)@.len() == old(sessions)@.len() + class_shapes(*class).len(),
        forall|k: int|
            0 <= k < old(sessions)@.len() ==> #[trigger] final(sessions)@[k] == old(sessions)@[k],
        forall|k: int|
            old(sessions)@.len() <= k < final(sessions)@.len() ==> (#[trigger] final(sessions)@[k]).shape() == class_shapes(*class)[k - old(sessions)@.len()]
                && final(sessions)@[k].session_id.index() == k && final(sessions)@[k].wf(),
{
    let mut next_id = first_id;
    if !class.ignore_tut {
        sessions.push(
            Session {
                session_id: SessionId::from_index(next_id),
                day: class.day,
                start_time: class.start,
                duration: SessionDuration::new(TUT_DURATION_HOURS + LAB_DURATION_HOURS),
                typ: SessionType::TutLab,
                mode: class.mode,
                class_name: class.name.clone(),
            },
        );
        next_id = next_id + 1;
    }
    if !class.ignore_lab {
        sessions.push(
            Session {
                session_id: SessionId::from_index(next_id),
                day: class.day,
                start_time: class.start.add_hr(TUT_DURATION_HOURS),
                duration: SessionDuration::new(LAB_DURATION_HOURS),
                typ: SessionType::LabAssist,
                mode: class.mode,
                class_name: class.name.clone(),
            },
        );
    }
    assert forall|k: int|
        old(sessions)@.len() <= k < sessions@.len() implies (#[trigger] sessions@[k]).shape()
        == class_shapes(*class)[k - old(sessions)@.len()] by {
        let s = sessions@[k].shape();
        let t = class_shapes(*class)[k - old(sessions)@.len()];
        assert(s.class_name =~= t.class_name);
    }
}

/// Turns classes into sessions, numbering the sessions in order.
pub fn classes_to_sessions(classes: &Vec<Class>) -> (sessions: Vec<Session>)
    requires
        classes.len() <= 32768,
        forall|i: int| 0 <= i < classes.len() ==> (#[trigger] classes[i]).wf(),
    ensures
        sessions_wf(sessions@),
        sessions@.len() == all_class_shapes(classes@).len(),
        forall|k: int|
            0 <= k < sessions@.len() ==> (#[trigger] sessions@[k]).shape() == all_class_shapes(
                classes@,
            )[k],
{
    let mut sessions: Vec<Session> = Vec::new();
    let mut i: usize = 0;
    while i < classes.len()
        invariant
            i <= classes.len(),
            classes.len() <= 32768,
            forall|c: int| 0 <= c < classes.len() ==> (#[trigger] classes[c]).wf(),
            sessions@.len() == all_class_shapes(classes@.take(i as int)).len(),
            sessions@.len() <= 2 * i,
            forall|k: int|
                0 <= k < sessions@.len() ==> (#[trigger] sessions@[k]).shape() == all_class_shapes(
                    classes@.take(i as int),
                )[k] && sessions@[k].session_id.index() == k && sessions@[k].wf(),
        decreases classes.len() - i,
    {
        let ghost before = sessions@;
        let first_id = sessions.len();
        class_to_sessions(&classes[i], first_id, &mut sessions);
        proof {
            let prefix = classes@.take(i as int);
            let next = classes@.take(i as int + 1);
            assert(next.drop_last() =~= prefix);
            assert(next.last() == classes@[i as int]);
            assert(all_class_shapes(next) == all_class_shapes(prefix) + class_shapes(
                classes@[i as int],
            ));
        }
        i = i + 1;
    }
    assert(classes@.take(classes.len() as int) =~= classes@);
    sessions
}

#[derive(Debug, Clone, Copy, PartialEq, Eq, Structural)]
pub enum OverlapRequirement {
    Sharp,
    WithPadding,
    SameDay,
}

/// Whether two sessions conflict under a requirement. Sessions on different days never do;
/// under `SameDay` any two sessions on one day do. Otherwise the hour intervals must
/// intersect: strictly for `Sharp`, and with touching ends counting for `WithPadding`, which
/// also applies whenever the two sessions differ in mode.
pub open spec fn shapes_overlap(a: SessionShape, b: SessionShape, req: OverlapRequirement) -> bool {
    a.day == b.day && match req {
        OverlapRequirement::SameDay => true,
        _ => if req == OverlapRequirement::WithPadding || a.mode != b.mode {
            a.start <= b.start + b.hours && b.start <= a.start + a.hours
        } else {
            a.start < b.start + b.hours && b.start < a.start + a.hours
        },
    }
}

/// Overlap is symmetric under each requirement, and each requirement is looser than the
/// previous one: a sharp overlap is a padded overlap, and a padded overlap is a same-day one.
pub proof fn lemma_overlap_symmetric_and_nested(a: SessionShape, b: SessionShape)
    ensures
        shapes_overlap(a, b, OverlapRequirement::Sharp) == shapes_overlap(
            b,
            a,
            OverlapRequirement::Sharp,
        ),
        shapes_overlap(a, b, OverlapRequirement::WithPadding) == shapes_overlap(
            b,
            a,
            OverlapRequirement::WithPadding,
        ),
        shapes_overlap(a, b, OverlapRequirement::SameDay) == shapes_overlap(
            b,
            a,
            OverlapRequirement::SameDay,
        ),
        shapes_overlap(a, b, OverlapRequirement::Sharp) ==> shapes_overlap(
            a,
            b,
            OverlapRequirement::WithPadding,
        ),
        shapes_overlap(a, b, OverlapRequirement::WithPadding) ==> shapes_overlap(
            a,
            b,
            OverlapRequirement::SameDay,
        ),
{
}

/// The word for a session type in descriptions and solution files.
pub open spec fn type_label(t: SessionType) -> Seq<char> {
    match t {
        SessionType::TutLab => "tut+lab"@,
        SessionType::LabAssist => "lab"@,
    }
}

/// A session's description: its class name and type.
pub open spec fn description(s: Session) -> Seq<char> {
    s.class_name@ + " "@ + type_label(s.typ)
}

impl Session {
    /// The class name and the session type, as in `H13A tut+lab`.
    pub fn short_description(&self) -> (r: String)
        ensures
            r@ == description(*self),
    {
        let mut out = owned(self.class_name.as_str());
        append(&mut out, " ");
        match self.typ {
            SessionType::TutLab => append(&mut out, "tut+lab"),
            SessionType::LabAssist => append(&mut out, "lab"),
        }
        out
    }

    pub fn overlaps_with(&self, other: &Session, requirement: OverlapRequirement) -> (r: bool)
        requires
            self.wf(),
            other.wf(),
        ensures
            r == shapes_overlap(self.shape(), other.shape(), requirement),
    {
        if self.day != other.day {
            return false;
        }
        if requirement == OverlapRequirement::SameDay {
            return true;
        }
        let padded = requirement == OverlapRequirement::WithPadding || self.mode != other.mode;
        let self_end = self.start_time.add_duration(self.duration);
        let other_end = other.start_time.add_duration(other.duration);
        if padded {
            self.start_time.as_24_hours() <= other_end.as_24_hours()
                && other.start_time.as_24_hours() <= self_end.as_24_hours()
        } else {
            self.start_time.as_24_hours() < other_end.as_24_hours()
                && other.start_time.as_24_hours() < self_end.as_24_hours()
        }
    }
}

/// A `bit_set::BitSet`, held opaquely.
#[verifier::external_body]
pub struct Bits {
    set: bit_set::BitSet,
}

/// The numbers held by a bit set.
pub uninterp spec fn bit_set_members(b: Bits) -> Set<nat>;

/// Relies on `bit_set::BitSet::with_capacity`: the new set is empty.
#[verifier::external_body]
fn bit_set_with_capacity(nbits: usize) -> (r: Bits)
    ensures
        bit_set_members(r) == Set::<nat>::empty(),
{
    Bits { set: bit_set::BitSet::with_capacity(nbits) }
}

/// Relies on `bit_set::BitSet::insert`: adds the value, growing the set as needed.
#[verifier::external_body]
fn bit_set_insert(b: &mut Bits, value: usize) -> (r: bool)
    requires
        value < usize::MAX,
    ensures
        bit_set_members(*final(b)) == bit_set_members(*old(b)).insert(value as nat),
        r == !bit_set_members(*old(b)).contains(value as nat),
{
    b.set.insert(value)
}

/// Relies on `bit_set::BitSet::contains`: membership of the value.
#[verifier::external_body]
fn bit_set_contains(b: &Bits, value: usize) -> (r: bool)
    ensures
        r == bit_set_members(*b).contains(value as nat),
{
    b.set.contains(value)
}

/// A precomputed store of which pairs of sessions overlap, one bit per ordered pair.
pub struct OverlapMatrix {
    num_sessions: usize,
    overlaps: Bits,
}

/// Position of the ordered pair `(a, b)` in a row-major square of side `n`.
pub open spec fn pair_index(n: nat, a: nat, b: nat) -> nat {
    (a * n + b) as nat
}

pub proof fn lemma_pair_index_unique(n: nat, a: nat, b: nat, c: nat, d: nat)
    requires
        b < n,
        d < n,
        a * n + b == c * n + d,
    ensures
        a == c,
        b == d,
{
    if a < c {
        assert(a * n + b < c * n + d) by (nonlinear_arith)
            requires
                a < c,
                b < n,
            ;
    } else if c < a {
        assert(c * n + d < a * n + b) by (nonlinear_arith)
                requires
                    c < a,
                    d < n,
            ;
    }
}

pub proof fn lemma_pair_index_bound(n: nat, a: nat, b: nat)
    requires
        a < n,
        b < n,
    ensures
        a * n + b < n * n,
{
    assert(a * n + b < n * n) by (nonlinear_arith)
        requires
            a < n,
            b < n,
    ;
}

impl OverlapMatrix {
    /// Number of sessions that the matrix covers.
    pub closed spec fn size(&self) -> nat {
        self.num_sessions as nat
    }

    /// Whether the pair of sessions at these positions is marked as overlapping.
    pub closed spec fn overlaps(&self, a: nat, b: nat) -> bool {
        bit_set_members(self.overlaps).contains(pair_index(self.num_sessions as nat, a, b))
    }

    pub closed spec fn wf(&self) -> bool {
        self.num_sessions * self.num_sessions <= usize::MAX
    }

    /// The matrix marks exactly the pairs of distinct sessions that overlap under `req`.
    pub open spec fn describes(&self, sessions: Seq<Session>, req: OverlapRequirement) -> bool {
        &&& self.wf()
        &&& self.size() == sessions.len()
        &&& forall|a: nat, b: nat|
            a < sessions.len() && b < sessions.len() ==> (#[trigger] self.overlaps(a, b) <==> (a
                != b && shapes_overlap(sessions[a as int].shape(), sessions[b as int].shape(), req)))
    }

    pub fn from_sessions(sessions: &Vec<Session>, requirement: OverlapRequirement) -> (r:
        OverlapMatrix)
        requires
            sessions_wf(sessions@),
            sessions.len() * sessions.len() <= usize::MAX,
        ensures
            r.describes(sessions@, requirement),
    {
        let n = sessions.len();
        let mut overlaps = bit_set_with_capacity(n * n);
        let mut i: usize = 0;
        while i < n
            invariant
                n == sessions.len(),
                n * n <= usize::MAX,
                i <= n,
                sessions_wf(sessions@),
                forall|a: nat, b: nat|
                    a < n && b < n ==> (#[trigger] bit_set_members(overlaps).contains(pair_index(n as nat, a, b))
                        <==> (a < i && a != b && shapes_overlap(
                        sessions@[a as int].shape(),
                        sessions@[b as int].shape(),
                        requirement,
                    ))),
            decreases n - i,
        {
            let mut j: usize = 0;
            while j < n
                invariant
                    n == sessions.len(),
                    n * n <= usize::MAX,
                    i < n,
                    j <= n,
                    sessions_wf(sessions@),
                    forall|a: nat, b: nat|
                        a < n && b < n ==> (#[trigger] bit_set_members(overlaps).contains(pair_index(n as nat, a, b))
                            <==> ((a < i || (a == i && b < j)) && a != b && shapes_overlap(
                            sessions@[a as int].shape(),
                            sessions@[b as int].shape(),
                            requirement,
                        ))),
                decreases n - j,
            {
                if i != j && sessions[i].overlaps_with(&sessions[j], requirement) {
                    proof {
                        lemma_pair_index_bound(n as nat, i as nat, j as nat);
                    }
                    let ghost before = bit_set_members(overlaps);
                    bit_set_insert(&mut overlaps, i * n + j);
                    proof {
                        assert forall|a: nat, b: nat| a < n && b < n implies (pair_index(n as nat, a, b)
                            == i * n + j <==> (a == i && b == j)) by {
                            if pair_index(n as nat, a, b) == i * n + j {
                                lemma_pair_index_unique(n as nat, a, b, i as nat, j as nat);
                            }
                        }
                    }
                } else {
                    proof {
                        assert(i * n + j == i * n + j);
                    }
                }
                j = j + 1;
            }
            i = i + 1;
        }
        OverlapMatrix { num_sessions: n, overlaps }
    }

    /// The lines for the pairs `(a, b)` with `a < b < n` that the matrix marks.
    pub open spec fn pair_lines(&self, sessions: Seq<Session>, a: nat, n: nat) -> Seq<char>
        decreases n,
    {
        if n <= a + 1 {
            Seq::empty()
        } else {
            self.pair_lines(sessions, a, (n - 1) as nat) + if self.overlaps(a, (n - 1) as nat) {
                description(sessions[a as int]) + " and "@ + description(sessions[n - 1]) + " overlap\n"@
            } else {
                Seq::empty()
            }
        }
    }

    /// The lines for the marked pairs whose first session is among the first `n`.
    pub open spec fn summary_lines(&self, sessions: Seq<Session>, n: nat) -> Seq<char>
        decreases n,
    {
        if n == 0 {
            Seq::empty()
        } else {
            self.summary_lines(sessions, (n - 1) as nat) + self.pair_lines(sessions, (n - 1) as nat, sessions.len())
        }
    }

    /// One line `X and Y overlap` for each marked pair, the earlier session first, in
    /// ascending order of pairs.
    pub fn summarise(&self, sessions: &Vec<Session>) -> (r: String)
        requires
            self.wf(),
            self.size() == sessions.len(),
            sessions_wf(sessions@),
        ensures
            r@ == self.summary_lines(sessions@, sessions.len() as nat),
    {
        let mut result = String::new();
        let mut a: usize = 0;
        while a < sessions.len()
            invariant
                self.wf(),
                self.size() == sessions.len(),
                sessions_wf(sessions@),
                a <= sessions.len(),
                result@ == self.summary_lines(sessions@, a as nat),
            decreases sessions.len() - a,
        {
            let ghost row_start = result@;
            let mut b: usize = a + 1;
            while b < sessions.len()
                invariant
                    self.wf(),
                    self.size() == sessions.len(),
                    sessions_wf(sessions@),
                    a < sessions.len(),
                    a + 1 <= b <= sessions.len(),
                    result@ == row_start + self.pair_lines(sessions@, a as nat, b as nat),
                decreases sessions.len() - b,
            {
                let ghost before = result@;
                if self.is_overlap(SessionId::from_index(a), SessionId::from_index(b)) {
                    append(&mut result, sessions[a].short_description().as_str());
                    append(&mut result, " and ");
                    append(&mut result, sessions[b].short_description().as_str());
                    append(&mut result, " overlap\n");
                }
                assert(result@ =~= row_start + self.pair_lines(sessions@, a as nat, (b + 1) as nat));
                b = b + 1;
            }
            assert(result@ =~= self.summary_lines(sessions@, (a + 1) as nat));
            a = a + 1;
        }
        result
    }

    pub fn is_overlap(&self, session_1: SessionId, session_2: SessionId) -> (r: bool)
        requires
            self.wf(),
            session_1.index() < self.size(),
            session_2.index() < self.size(),
        ensures
            r == self.overlaps(session_1.index(), session_2.index()),
    {
        proof {
            lemma_pair_index_bound(self.num_sessions as nat, session_1.index(), session_2.index());
        }
        bit_set_contains(
            &self.overlaps,
            session_1.raw_index() * self.num_sessions + session_2.raw_index(),
        )
    }
}

/// Each overlap matrix is symmetric and never marks a session as overlapping itself.
pub proof fn lemma_overlap_matrix_symmetric(
    m: OverlapMatrix,
    sessions: Seq<Session>,
    req: OverlapRequirement,
    a: nat,
    b: nat,
)
    requires
        m.describes(sessions, req),
        a < sessions.len(),
        b < sessions.len(),
    ensures
        m.overlaps(a, b) == m.overlaps(b, a),
        !m.overlaps(a, a),
{
    lemma_overlap_symmetric_and_nested(sessions[a as int].shape(), sessions[b as int].shape());
    assert(m.overlaps(a, b) == m.overlaps(b, a));
    assert(!m.overlaps(a, a));
}

} // verus!
