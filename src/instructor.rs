use vstd::prelude::*;

use crate::errors::Error;
use crate::text::{owned, parse_u8, parse_u8_spec, str_eq, trim, trim_spec};
use crate::tsv::{Tsv, TsvRow};
use crate::utils::{bool_word, parse_bool_input};

verus! {

/// Dense index of an instructor.
#[derive(Debug, Clone, Copy, Default, PartialEq, Eq, Structural)]
pub struct InstructorId(pub u16);

impl InstructorId {
    pub open spec fn index(self) -> nat {
        self.0 as nat
    }

    pub fn raw_index(self) -> (r: usize)
        ensures
            r == self.index(),
    {
        self.0 as usize
    }

    pub fn from_index(index: usize) -> (r: InstructorId)
        requires
            index <= u16::MAX,
        ensures
            r.index() == index,
    {
        InstructorId(index as u16)
    }
}

/// Workload bounds of one instructor: tutorials, lab assists and classes overall.
#[derive(Debug, Clone, Copy, PartialEq, Eq, Structural)]
pub struct ClassTypeRequirement {
    pub min_tutes: u8,
    pub max_tutes: u8,
    pub min_lab_assists: u8,
    pub max_lab_assists: u8,
    pub min_total_classes: u8,
    pub max_total_classes: u8,
}

#[derive(Debug, Clone, Copy, PartialEq, Eq, Structural)]
pub struct TutorSeniority {
    pub is_senior_tutor: bool,
    pub is_new_tutor: bool,
}

#[derive(Debug, Clone)]
pub struct Instructor {
    pub instructor_id: InstructorId,
    pub name: String,
    pub zid: String,
    pub class_type_requirement: ClassTypeRequirement,
    pub seniority: Option<TutorSeniority>,
}

/// A required workload bound: the field must be a number.
pub open spec fn required_bound(row: TsvRow, column: Seq<char>) -> Option<u8> {
    match row.field(column) {
        Some(v) => parse_u8_spec(v),
        None => None,
    }
}

/// An optional workload bound: absent or `-` gives the default.
pub open spec fn optional_bound(row: TsvRow, column: Seq<char>, default: Option<u8>) -> Option<u8> {
    match row.field(column) {
        Some(v) => if v == "-"@ { default } else { parse_u8_spec(v) },
        None => default,
    }
}

/// A sum of two bounds, if it fits.
pub open spec fn bound_sum(a: u8, b: u8) -> Option<u8> {
    if a + b <= 255 { Some((a + b) as u8) } else { None }
}

/// The workload bounds that a row gives; total bounds default to the sums of the others.
pub open spec fn requirement_spec(row: TsvRow) -> Option<ClassTypeRequirement> {
    match (required_bound(row, "minT"@), required_bound(row, "maxT"@), required_bound(row, "minA"@), required_bound(row, "maxA"@)) {
        (Some(min_t), Some(max_t), Some(min_a), Some(max_a)) =>
            match (optional_bound(row, "minC"@, bound_sum(min_t, min_a)), optional_bound(row, "maxC"@, bound_sum(max_t, max_a))) {
                (Some(min_c), Some(max_c)) => Some(ClassTypeRequirement {
                    min_tutes: min_t,
                    max_tutes: max_t,
                    min_lab_assists: min_a,
                    max_lab_assists: max_a,
                    min_total_classes: min_c,
                    max_total_classes: max_c,
                }),
                _ => None,
            },
        _ => None,
    }
}

fn read_required_bound(row: &TsvRow, column: &str, zid: &str) -> (r: Result<u8, Error>)
    requires
        row.wf(),
    ensures
        match r {
            Ok(v) => required_bound(*row, column@) == Some(v),
            Err(_) => required_bound(*row, column@) is None,
        },
{
    let raw = row.get(column)?;
    match parse_u8(raw) {
        Some(v) => Ok(v),
        None => Err(Error::BadClassTypeRequirement { zid: owned(zid), field: owned(column) }),
    }
}

fn read_optional_bound(row: &TsvRow, column: &str, default: Option<u8>, zid: &str) -> (r: Result<u8, Error>)
    requires
        row.wf(),
    ensures
        match r {
            Ok(v) => optional_bound(*row, column@, default) == Some(v),
            Err(_) => optional_bound(*row, column@, default) is None,
        },
{
    let missing = Error::BadClassTypeRequirement { zid: owned(zid), field: owned(column) };
    match row.get(column) {
        Ok(raw) => {
            proof { reveal_strlit("-"); }
            if str_eq(raw, "-") {
                match default {
                    Some(v) => Ok(v),
                    None => Err(missing),
                }
            } else {
                match parse_u8(raw) {
                    Some(v) => Ok(v),
                    None => Err(missing),
                }
            }
        },
        Err(_) => match default {
            Some(v) => Ok(v),
            None => Err(missing),
        },
    }
}

fn checked_sum(a: u8, b: u8) -> (r: Option<u8>)
    ensures
        r == bound_sum(a, b),
{
    if a as u16 + b as u16 <= 255 {
        Some(a + b)
    } else {
        None
    }
}

impl ClassTypeRequirement {
    /// Reads the workload bounds of an instructor's row; `zid` names the instructor in errors.
    pub fn from_row(row: &TsvRow, zid: &str) -> (r: Result<ClassTypeRequirement, Error>)
        requires
            row.wf(),
        ensures
            match r {
                Ok(req) => requirement_spec(*row) == Some(req),
                Err(_) => requirement_spec(*row) is None,
            },
    {
        let min_tutes = read_required_bound(row, "minT", zid)?;
        let max_tutes = read_required_bound(row, "maxT", zid)?;
        let min_lab_assists = read_required_bound(row, "minA", zid)?;
        let max_lab_assists = read_required_bound(row, "maxA", zid)?;
        let min_total_classes = read_optional_bound(row, "minC", checked_sum(min_tutes, min_lab_assists), zid)?;
        let max_total_classes = read_optional_bound(row, "maxC", checked_sum(max_tutes, max_lab_assists), zid)?;
        Ok(ClassTypeRequirement {
            min_tutes,
            max_tutes,
            min_lab_assists,
            max_lab_assists,
            min_total_classes,
            max_total_classes,
        })
    }
}

/// The seniority flags that a row gives: both columns or neither must be present.
pub open spec fn seniority_spec(row: TsvRow) -> Option<Option<TutorSeniority>> {
    match (row.field("senior tutor"@), row.field("new tutor"@)) {
        (Some(s), Some(n)) => match (bool_word(s), bool_word(n)) {
            (Some(a), Some(b)) => Some(Some(TutorSeniority { is_senior_tutor: a, is_new_tutor: b })),
            _ => None,
        },
        (None, None) => Some(None),
        _ => None,
    }
}

impl TutorSeniority {
    pub fn from_row(row: &TsvRow) -> (r: Result<Option<TutorSeniority>, Error>)
        requires
            row.wf(),
        ensures
            match r {
                Ok(v) => seniority_spec(*row) == Some(v),
                Err(_) => seniority_spec(*row) is None,
            },
    {
        match (row.get("senior tutor"), row.get("new tutor")) {
            (Ok(senior), Ok(new)) => {
                let is_senior_tutor = parse_bool_input(senior)?;
                let is_new_tutor = parse_bool_input(new)?;
                Ok(Some(TutorSeniority { is_senior_tutor, is_new_tutor }))
            },
            (Ok(_), Err(err)) => Err(err),
            (Err(err), Ok(_)) => Err(err),
            (Err(_), Err(_)) => Ok(None),
        }
    }
}

/// Whether a row marks its instructor as ignored: a non-blank `ignore` field that reads as yes.
pub open spec fn ignored_spec(row: TsvRow) -> Option<bool> {
    match row.field("ignore"@) {
        Some(v) => if trim_spec(v).len() == 0 { Some(false) } else { bool_word(v) },
        None => Some(false),
    }
}

/// A row of the instructors table is usable: it is ignored, or its name, zid, bounds and
/// seniority can all be read.
pub open spec fn instructor_row_ok(row: TsvRow) -> bool {
    match ignored_spec(row) {
        Some(true) => true,
        Some(false) => row.field("name"@) is Some && row.field("zid"@) is Some
            && requirement_spec(row) is Some && seniority_spec(row) is Some,
        None => false,
    }
}

/// The instructor is what the row describes: its name, zid, bounds and seniority.
pub open spec fn instructor_of_row(i: Instructor, row: TsvRow) -> bool {
    &&& row.field("name"@) == Some(i.name@)
    &&& row.field("zid"@) == Some(i.zid@)
    &&& requirement_spec(row) == Some(i.class_type_requirement)
    &&& seniority_spec(row) == Some(i.seniority)
}

/// The positions of the first `n` rows that are not marked as ignored, in order.
pub open spec fn kept_rows(tsv: &Tsv, n: nat) -> Seq<int>
    decreases n,
{
    if n == 0 {
        Seq::empty()
    } else if ignored_spec(TsvRow { index: (n - 1) as usize, tsv }) == Some(false) {
        kept_rows(tsv, (n - 1) as nat).push(n - 1)
    } else {
        kept_rows(tsv, (n - 1) as nat)
    }
}

impl Instructor {
    /// Reads one row of the instructors table; nothing where the row is marked as ignored.
    /// The id is left at zero.
    pub fn from_row(row: &TsvRow) -> (r: Result<Option<Instructor>, Error>)
        requires
            row.wf(),
        ensures
            r is Ok <==> instructor_row_ok(*row),
            r matches Ok(None) ==> ignored_spec(*row) == Some(true),
            r matches Ok(Some(i)) ==> ignored_spec(*row) == Some(false) && instructor_of_row(i, *row),
    {
        match row.get("ignore") {
            Ok(ignore) => {
                let trimmed = trim(ignore);
                if !trimmed.as_str().is_empty() {
                    if parse_bool_input(ignore)? {
                        return Ok(None);
                    }
                }
            },
            Err(_) => {},
        }
        let name = owned(row.get("name")?);
        let zid = owned(row.get("zid")?);
        let class_type_requirement = ClassTypeRequirement::from_row(row, zid.as_str())?;
        let seniority = TutorSeniority::from_row(row)?;
        Ok(Some(Instructor { instructor_id: InstructorId(0), name, zid, class_type_requirement, seniority }))
    }

    /// Reads the instructors table, leaving out ignored rows and numbering the rest in order.
    pub fn vec_from_tsv(tsv: &Tsv) -> (r: Result<Vec<Instructor>, Error>)
        requires
            tsv.wf(),
            tsv.rows.len() <= u16::MAX + 1,
        ensures
            r is Ok <==> forall|i: int| 0 <= i < tsv.rows.len() ==> #[trigger] instructor_row_ok(TsvRow { index: i as usize, tsv }),
            r matches Ok(v) ==> v.len() == kept_rows(tsv, tsv.rows.len() as nat).len()
                && forall|j: int| 0 <= j < v.len() ==> (#[trigger] v@[j]).instructor_id.index() == j
                    && instructor_of_row(v@[j], TsvRow { index: kept_rows(tsv, tsv.rows.len() as nat)[j] as usize, tsv }),
    {
        let mut instructors: Vec<Instructor> = Vec::new();
        let mut i: usize = 0;
        while i < tsv.num_rows()
            invariant
                tsv.wf(),
                tsv.rows.len() <= u16::MAX + 1,
                i <= tsv.rows.len(),
                instructors.len() <= i,
                instructors.len() == kept_rows(tsv, i as nat).len(),
                forall|j: int| 0 <= j < i ==> #[trigger] instructor_row_ok(TsvRow { index: j as usize, tsv }),
                forall|j: int| 0 <= j < instructors.len() ==> (#[trigger] instructors@[j]).instructor_id.index() == j
                    && instructor_of_row(instructors@[j], TsvRow { index: kept_rows(tsv, i as nat)[j] as usize, tsv }),
            decreases tsv.rows.len() - i,
        {
            let row = tsv.row(i);
            assert(row == TsvRow { index: ((i + 1 - 1) as nat) as usize, tsv });
            let ghost before = instructors@;
            match Instructor::from_row(&row) {
                Ok(Some(instructor)) => {
                    let numbered = Instructor {
                        instructor_id: InstructorId::from_index(instructors.len()),
                        name: instructor.name,
                        zid: instructor.zid,
                        class_type_requirement: instructor.class_type_requirement,
                        seniority: instructor.seniority,
                    };
                    instructors.push(numbered);
                    proof {
                        assert(kept_rows(tsv, (i + 1) as nat) == kept_rows(tsv, i as nat).push(i as int));
                        assert forall|j: int| 0 <= j < instructors.len() implies (#[trigger] instructors@[j]).instructor_id.index() == j
                            && instructor_of_row(instructors@[j], TsvRow { index: kept_rows(tsv, (i + 1) as nat)[j] as usize, tsv }) by {
                            if j < before.len() {
                                assert(instructors@[j] == before[j]);
                            }
                        }
                    }
                },
                Ok(None) => {
                    assert(kept_rows(tsv, (i + 1) as nat) == kept_rows(tsv, i as nat));
                },
                Err(e) => {
                    assert(!instructor_row_ok(TsvRow { index: (i as int) as usize, tsv }));
                    return Err(e);
                },
            }
            i = i + 1;
        }
        Ok(instructors)
    }
}

} // verus!
