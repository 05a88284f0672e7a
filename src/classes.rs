use vstd::prelude::*;

use crate::errors::Error;
use crate::text::{contains, eq_ignore_ascii_case, eq_ignore_case, first_occurrence, owned, split_once, split_once_spec, str_eq, strip_suffix, strip_suffix_spec, trim, trim_spec};
use crate::tsv::{Tsv, TsvRow};
use crate::utils::{bool_word, parse_bool_input, Day, TimeOfDay};

verus! {

/// Length of the tutorial part of a class, in hours.
pub const TUT_DURATION_HOURS: u8 = 1;

/// Length of the lab part of a class, in hours.
pub const LAB_DURATION_HOURS: u8 = 2;

#[derive(Debug, Clone, Copy, PartialEq, Eq, Structural)]
pub enum Mode {
    F2F,
    Online,
}

/// A tutorial followed by a lab, taught together.
#[derive(Debug, Clone)]
pub struct Class {
    pub name: String,
    pub day: Day,
    pub start: TimeOfDay,
    pub mode: Mode,
    pub ignore_tut: bool,
    pub ignore_lab: bool,
}

impl Class {
    /// The class ends inside the day it starts on.
    pub open spec fn wf(&self) -> bool {
        self.start.hour() + TUT_DURATION_HOURS + LAB_DURATION_HOURS < 24
    }
}

/// The start and end of a meeting's time: `HH-HH`, or a single `HH` for one hour. A single
/// hour that would end past the day gives nothing.
pub open spec fn meeting_times_spec(time: Seq<char>) -> Option<(TimeOfDay, TimeOfDay)> {
    if first_occurrence(time, "-"@) is Some {
        match split_once_spec(time, "-"@) {
            Some((a, b)) => match (TimeOfDay::parse_spec(a), TimeOfDay::parse_spec(b)) {
                (Some(s), Some(e)) => Some((s, e)),
                _ => None,
            },
            None => None,
        }
    } else {
        match TimeOfDay::parse_spec(time) {
            Some(s) => if s.hour() + 1 < 24 { Some((s, TimeOfDay((s.0 + 1) as u8))) } else { None },
            None => None,
        }
    }
}

/// A meeting written `Day HH[-HH] (weeks, location)`: its day, start, end and mode; the
/// mode is online where the location is `online` in any ASCII case.
pub open spec fn meeting_spec(meeting: Seq<char>) -> Option<(Day, TimeOfDay, TimeOfDay, Mode)> {
    match split_once_spec(meeting, " ("@) {
        Some((before, after)) => match split_once_spec(before, " "@) {
            Some((day, time)) => match strip_suffix_spec(after, ")"@) {
                Some(inner) => match split_once_spec(inner, ", "@) {
                    Some((_weeks, location)) => match (meeting_times_spec(time), Day::parse_spec(day)) {
                        (Some((s, e)), Some(d)) => Some((d, s, e, if eq_ignore_case(location, "online"@) { Mode::Online } else { Mode::F2F })),
                        _ => None,
                    },
                    None => None,
                },
                None => None,
            },
            None => None,
        },
        None => None,
    }
}

fn meeting_times(time: &str) -> (r: Option<(TimeOfDay, TimeOfDay)>)
    ensures
        r == meeting_times_spec(time@),
        r matches Some((s, e)) ==> s.wf() && e.wf(),
{
    if contains(time, "-") {
        let (start_raw, end_raw) = match split_once(time, "-") {
            Some(parts) => parts,
            None => { return None; },
        };
        match (TimeOfDay::parse(start_raw.as_str()), TimeOfDay::parse(end_raw.as_str())) {
            (Some(s), Some(e)) => Some((s, e)),
            _ => None,
        }
    } else {
        match TimeOfDay::parse(time) {
            Some(s) => if s.as_24_hours() < 23 { Some((s, s.add_hr(1))) } else { None },
            None => None,
        }
    }
}

pub fn extract_meeting(meeting: &str) -> (r: Option<(Day, TimeOfDay, TimeOfDay, Mode)>)
    ensures
        r == meeting_spec(meeting@),
        r matches Some((_, s, e, _)) ==> s.wf() && e.wf(),
{
    let (before_paren, after_paren) = match split_once(meeting, " (") {
        Some(parts) => parts,
        None => { return None; },
    };
    let (day, time) = match split_once(before_paren.as_str(), " ") {
        Some(parts) => parts,
        None => { return None; },
    };
    let inner = match strip_suffix(after_paren.as_str(), ")") {
        Some(inner) => inner,
        None => { return None; },
    };
    let (_weeks, location) = match split_once(inner.as_str(), ", ") {
        Some(parts) => parts,
        None => { return None; },
    };
    let (start, end) = match meeting_times(time.as_str()) {
        Some(times) => times,
        None => { return None; },
    };
    let day = match Day::parse(day.as_str()) {
        Some(day) => day,
        None => { return None; },
    };
    let mode = if eq_ignore_ascii_case(location.as_str(), "online") { Mode::Online } else { Mode::F2F };
    Some((day, start, end, mode))
}

/// The tutorial and lab meetings of a class time, which must be exactly two, separated by `; `.
pub open spec fn two_meetings_spec(times: Seq<char>) -> Option<(Seq<char>, Seq<char>)> {
    match split_once_spec(times, "; "@) {
        Some((a, b)) => if first_occurrence(b, "; "@) is None { Some((a, b)) } else { None },
        None => None,
    }
}

/// The day, start and mode of a class whose time lists a one-hour tutorial immediately
/// followed, on the same day and in the same mode, by a two-hour lab.
pub open spec fn checked_meetings_spec(times: Seq<char>) -> Option<(Day, TimeOfDay, Mode)> {
    match two_meetings_spec(times) {
        Some((tut, lab)) => match (meeting_spec(tut), meeting_spec(lab)) {
            (Some((td, ts, te, tm)), Some((ld, ls, le, lm))) =>
                if td == ld && ts.hour() + TUT_DURATION_HOURS == te.hour() && te == ls
                    && ls.hour() + LAB_DURATION_HOURS == le.hour() && tm == lm {
                    Some((td, ts, tm))
                } else {
                    None
                },
            _ => None,
        },
        None => None,
    }
}

pub fn extract_and_check_meetings(times: &str) -> (r: Result<(Day, TimeOfDay, Mode), Error>)
    ensures
        match r {
            Ok(v) => checked_meetings_spec(times@) == Some(v) && v.1.hour() + TUT_DURATION_HOURS + LAB_DURATION_HOURS < 24,
            Err(e) => checked_meetings_spec(times@) is None && e is BadClass,
        },
{
    let (tut_meeting, lab_meeting) = match split_once(times, "; ") {
        Some((a, b)) => {
            if contains(b.as_str(), "; ") {
                return Err(Error::BadClass { name: owned(times), err: owned("class time does not have two meetings") });
            }
            (a, b)
        },
        None => {
            return Err(Error::BadClass { name: owned(times), err: owned("class time does not have two meetings") });
        },
    };
    let (tut_day, tut_start, tut_end, tut_mode) = match extract_meeting(tut_meeting.as_str()) {
        Some(m) => m,
        None => { return Err(Error::BadClass { name: owned(times), err: owned("bad tutorial meeting") }); },
    };
    let (lab_day, lab_start, lab_end, lab_mode) = match extract_meeting(lab_meeting.as_str()) {
        Some(m) => m,
        None => { return Err(Error::BadClass { name: owned(times), err: owned("bad lab meeting") }); },
    };
    if tut_day != lab_day {
        Err(Error::BadClass { name: owned(times), err: owned("mismatch between tut and lab days") })
    } else if tut_start.as_24_hours() as u32 + TUT_DURATION_HOURS as u32 != tut_end.as_24_hours() as u32 {
        Err(Error::BadClass { name: owned(times), err: owned("tut is the wrong length") })
    } else if tut_end != lab_start {
        Err(Error::BadClass { name: owned(times), err: owned("lab is not immediately after tut") })
    } else if lab_start.as_24_hours() as u32 + LAB_DURATION_HOURS as u32 != lab_end.as_24_hours() as u32 {
        Err(Error::BadClass { name: owned(times), err: owned("lab is the wrong length") })
    } else if lab_mode != tut_mode {
        Err(Error::BadClass { name: owned(times), err: owned("tut and lab mode disagree") })
    } else {
        Ok((tut_day, tut_start, tut_mode))
    }
}

/// What an optional yes/no column of a row says: no where the column is absent or blank.
pub open spec fn flag_spec(row: TsvRow, column: Seq<char>) -> Option<bool> {
    match row.field(column) {
        Some(v) => if trim_spec(v).len() == 0 { Some(false) } else { bool_word(trim_spec(v)) },
        None => Some(false),
    }
}

fn read_flag(row: &TsvRow, column: &str) -> (r: Result<bool, Error>)
    requires
        row.wf(),
    ensures
        match r {
            Ok(b) => flag_spec(*row, column@) == Some(b),
            Err(_) => flag_spec(*row, column@) is None,
        },
{
    match row.get(column) {
        Ok(value) => {
            let trimmed = trim(value);
            if trimmed.as_str().is_empty() {
                Ok(false)
            } else {
                parse_bool_input(trimmed.as_str())
            }
        },
        Err(_) => Ok(false),
    }
}

/// The class that a row of the classes table describes, if it is valid: a `TLB` class with
/// status `Open` or `Full` and well-formed meeting times.
pub open spec fn class_row_ok(row: TsvRow) -> bool {
    &&& row.field("section"@) is Some
    &&& row.field("type"@) matches Some(t) && trim_spec(t) == "TLB"@
    &&& row.field("status"@) matches Some(s) && (trim_spec(s) == "Open"@ || trim_spec(s) == "Full"@)
    &&& row.field("times"@) matches Some(t) && checked_meetings_spec(trim_spec(t)) is Some
    &&& flag_spec(row, "ignore tut"@) is Some
    &&& flag_spec(row, "ignore lab"@) is Some
}

/// The class is what the row describes: its trimmed name, the day, start and mode of its
/// meetings, and its two flags.
pub open spec fn class_of_row(c: Class, row: TsvRow) -> bool {
    &&& row.field("section"@) matches Some(sec) && c.name@ == trim_spec(sec)
    &&& row.field("times"@) matches Some(t) && checked_meetings_spec(trim_spec(t)) == Some((c.day, c.start, c.mode))
    &&& flag_spec(row, "ignore tut"@) == Some(c.ignore_tut)
    &&& flag_spec(row, "ignore lab"@) == Some(c.ignore_lab)
}

impl Class {
    pub fn from_row(row: &TsvRow) -> (r: Result<Class, Error>)
        requires
            row.wf(),
        ensures
            r is Ok <==> class_row_ok(*row),
            r matches Ok(c) ==> c.wf() && class_of_row(c, *row),
    {
        let name = trim(row.get("section")?);
        let class_type = trim(row.get("type")?);
        proof { reveal_strlit("TLB"); reveal_strlit("Open"); reveal_strlit("Full"); }
        if !str_eq(class_type.as_str(), "TLB") {
            return Err(Error::BadClass { name, err: owned("bad class type, expected TLB") });
        }
        let status = trim(row.get("status")?);
        if !str_eq(status.as_str(), "Open") && !str_eq(status.as_str(), "Full") {
            return Err(Error::BadClass { name, err: owned("bad class status, either change it to Open or remove it") });
        }
        let times = trim(row.get("times")?);
        let (day, start, mode) = extract_and_check_meetings(times.as_str())?;
        let ignore_tut = read_flag(row, "ignore tut")?;
        let ignore_lab = read_flag(row, "ignore lab")?;
        Ok(Class { name, day, start, mode, ignore_tut, ignore_lab })
    }

    /// Reads every row of the classes table, failing on the first bad one.
    pub fn vec_from_tsv(tsv: &Tsv) -> (r: Result<Vec<Class>, Error>)
        requires
            tsv.wf(),
        ensures
            r is Ok <==> forall|i: int| 0 <= i < tsv.rows.len() ==> #[trigger] class_row_ok(TsvRow { index: i as usize, tsv }),
            r matches Ok(v) ==> v.len() == tsv.rows.len() && forall|i: int| 0 <= i < v.len() ==> (#[trigger] v@[i]).wf()
                && class_of_row(v@[i], TsvRow { index: i as usize, tsv }),
    {
        let mut classes: Vec<Class> = Vec::new();
        let mut i: usize = 0;
        while i < tsv.num_rows()
            invariant
                tsv.wf(),
                i <= tsv.rows.len(),
                classes.len() == i,
                forall|j: int| 0 <= j < i ==> #[trigger] class_row_ok(TsvRow { index: j as usize, tsv }),
                forall|j: int| 0 <= j < classes.len() ==> (#[trigger] classes@[j]).wf()
                    && class_of_row(classes@[j], TsvRow { index: j as usize, tsv }),
            decreases tsv.rows.len() - i,
        {
            let row = tsv.row(i);
            assert(row == TsvRow { index: i, tsv });
            let class = match Class::from_row(&row) {
                Ok(class) => class,
                Err(e) => {
                    assert(!class_row_ok(TsvRow { index: (i as int) as usize, tsv }));
                    return Err(e);
                },
            };
            let ghost before = classes@;
            classes.push(class);
            proof {
                assert forall|j: int| 0 <= j < classes.len() implies (#[trigger] classes@[j]).wf()
                    && class_of_row(classes@[j], TsvRow { index: j as usize, tsv }) by {
                    if j < before.len() {
                        assert(classes@[j] == before[j]);
                    } else {
                        assert(TsvRow { index: j as usize, tsv } == row);
                    }
                }
            }
            i = i + 1;
        }
        Ok(classes)
    }
}

} // verus!
