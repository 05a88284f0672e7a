use vstd::prelude::*;

use crate::errors::Error;
use crate::text::{append, eq_ignore_ascii_case, eq_ignore_case, lines, owned, parse_u8, parse_u8_spec, strip_suffix, strip_suffix_spec, views, lines_spec};

verus! {

/// A teaching day of the week.
#[derive(Debug, Clone, Copy, PartialEq, Eq, Structural)]
pub enum Day {
    Mon,
    Tue,
    Wed,
    Thu,
    Fri,
}

impl Day {
    /// Position of the day in the week, Monday first.
    pub open spec fn index(self) -> nat {
        match self {
            Day::Mon => 0,
            Day::Tue => 1,
            Day::Wed => 2,
            Day::Thu => 3,
            Day::Fri => 4,
        }
    }

    pub open spec fn short_name(self) -> Seq<char> {
        match self {
            Day::Mon => seq!['m', 'o', 'n'],
            Day::Tue => seq!['t', 'u', 'e'],
            Day::Wed => seq!['w', 'e', 'd'],
            Day::Thu => seq!['t', 'h', 'u'],
            Day::Fri => seq!['f', 'r', 'i'],
        }
    }

    pub fn short_lowercase(self) -> (r: &'static str)
        ensures
            r@ == self.short_name(),
    {
        match self {
            Day::Mon => {
                proof { reveal_strlit("mon"); }
                "mon"
            },
            Day::Tue => {
                proof { reveal_strlit("tue"); }
                "tue"
            },
            Day::Wed => {
                proof { reveal_strlit("wed"); }
                "wed"
            },
            Day::Thu => {
                proof { reveal_strlit("thu"); }
                "thu"
            },
            Day::Fri => {
                proof { reveal_strlit("fri"); }
                "fri"
            },
        }
    }
}

/// Whether the input equals one of the names, up to ASCII case.
pub open spec fn matches_any(input: Seq<char>, names: Seq<&str>) -> bool {
    exists|k: int| 0 <= k < names.len() && eq_ignore_case(names[k]@, input)
}

/// The value of the first case that has a name equal to the input up to ASCII case.
pub open spec fn first_match<T>(input: Seq<char>, cases: Seq<(&[&str], T)>) -> Option<T>
    decreases cases.len(),
{
    if cases.len() == 0 {
        None
    } else if matches_any(input, cases[0].0@) {
        Some(cases[0].1)
    } else {
        first_match(input, cases.skip(1))
    }
}

fn matches_one_of(input: &str, names: &[&str]) -> (r: bool)
    ensures
        r == matches_any(input@, names@),
{
    let mut k: usize = 0;
    while k < names.len()
        invariant
            k <= names.len(),
            forall|j: int| 0 <= j < k ==> !eq_ignore_case(#[trigger] names@[j]@, input@),
        decreases names.len() - k,
    {
        if eq_ignore_ascii_case(names[k], input) {
            return true;
        }
        k = k + 1;
    }
    false
}

/// Looks the input up among the cases, ignoring ASCII case: the value of the first case
/// with a matching name.
pub fn match_ignore_case<T: Copy>(input: &str, cases: &[(&[&str], T)]) -> (r: Option<T>)
    ensures
        r == first_match(input@, cases@),
{
    let mut i: usize = 0;
    assert(cases@.skip(0) =~= cases@);
    while i < cases.len()
        invariant
            i <= cases.len(),
            first_match(input@, cases@) == first_match(input@, cases@.skip(i as int)),
        decreases cases.len() - i,
    {
        let ghost rest = cases@.skip(i as int);
        assert(rest[0] == cases@[i as int]);
        assert(rest.skip(1) =~= cases@.skip(i + 1));
        if matches_one_of(input, cases[i].0) {
            return Some(cases[i].1);
        }
        i = i + 1;
    }
    None
}

/// Whether the text names the day, by its short or its full name, in any ASCII case.
pub open spec fn names_day(s: Seq<char>, day: Day) -> bool {
    match day {
        Day::Mon => eq_ignore_case("mon"@, s) || eq_ignore_case("monday"@, s),
        Day::Tue => eq_ignore_case("tue"@, s) || eq_ignore_case("tuesday"@, s),
        Day::Wed => eq_ignore_case("wed"@, s) || eq_ignore_case("wednesday"@, s),
        Day::Thu => eq_ignore_case("thu"@, s) || eq_ignore_case("thursday"@, s),
        Day::Fri => eq_ignore_case("fri"@, s) || eq_ignore_case("friday"@, s),
    }
}

impl Day {
    /// The day the text names, trying Monday first.
    pub open spec fn parse_spec(s: Seq<char>) -> Option<Day> {
        if names_day(s, Day::Mon) {
            Some(Day::Mon)
        } else if names_day(s, Day::Tue) {
            Some(Day::Tue)
        } else if names_day(s, Day::Wed) {
            Some(Day::Wed)
        } else if names_day(s, Day::Thu) {
            Some(Day::Thu)
        } else if names_day(s, Day::Fri) {
            Some(Day::Fri)
        } else {
            None
        }
    }

    pub fn parse(s: &str) -> (r: Option<Day>)
        ensures
            r == Day::parse_spec(s@),
    {
        if eq_ignore_ascii_case("mon", s) || eq_ignore_ascii_case("monday", s) {
            Some(Day::Mon)
        } else if eq_ignore_ascii_case("tue", s) || eq_ignore_ascii_case("tuesday", s) {
            Some(Day::Tue)
        } else if eq_ignore_ascii_case("wed", s) || eq_ignore_ascii_case("wednesday", s) {
            Some(Day::Wed)
        } else if eq_ignore_ascii_case("thu", s) || eq_ignore_ascii_case("thursday", s) {
            Some(Day::Thu)
        } else if eq_ignore_ascii_case("fri", s) || eq_ignore_ascii_case("friday", s) {
            Some(Day::Fri)
        } else {
            None
        }
    }
}

impl core::str::FromStr for Day {
    type Err = ();

    fn from_str(s: &str) -> Result<Day, ()> {
        match Day::parse(s) {
            Some(day) => Ok(day),
            None => Err(()),
        }
    }
}

/// What a yes/no field holds: yes for `y`, `yes`, `true`, `1`, no for `n`, `no`, `false`,
/// `0`, in any ASCII case.
pub open spec fn bool_word(s: Seq<char>) -> Option<bool> {
    if eq_ignore_case(s, "y"@) || eq_ignore_case(s, "yes"@) || eq_ignore_case(s, "true"@) || eq_ignore_case(s, "1"@) {
        Some(true)
    } else if eq_ignore_case(s, "n"@) || eq_ignore_case(s, "no"@) || eq_ignore_case(s, "false"@) || eq_ignore_case(s, "0"@) {
        Some(false)
    } else {
        None
    }
}

pub fn parse_bool_input(value: &str) -> (r: Result<bool, Error>)
    ensures
        match r {
            Ok(b) => bool_word(value@) == Some(b),
            Err(e) => bool_word(value@) is None && e == (Error::BadBoolean { value: e->BadBoolean_value }) && e->BadBoolean_value@ == value@,
        },
{
    if eq_ignore_ascii_case(value, "y") || eq_ignore_ascii_case(value, "yes") || eq_ignore_ascii_case(value, "true") || eq_ignore_ascii_case(value, "1") {
        return Ok(true);
    }
    if eq_ignore_ascii_case(value, "n") || eq_ignore_ascii_case(value, "no") || eq_ignore_ascii_case(value, "false") || eq_ignore_ascii_case(value, "0") {
        return Ok(false);
    }
    Err(Error::BadBoolean { value: owned(value) })
}

/// Walks the pairs of a list in order: for each position from the second on, the pairs of
/// each earlier element with it.
pub struct TwoCombIter<'a, T> {
    slice: &'a [T],
    outer_index: usize,
    inner_index: usize,
}

impl<'a, T: Copy> TwoCombIter<'a, T> {
    pub closed spec fn list(&self) -> Seq<T> {
        self.slice@
    }

    pub closed spec fn outer(&self) -> nat {
        self.outer_index as nat
    }

    pub closed spec fn inner(&self) -> nat {
        self.inner_index as nat
    }

    pub closed spec fn wf(&self) -> bool {
        self.inner_index < self.outer_index || self.outer_index >= self.slice@.len()
    }

    pub fn new(slice: &'a [T]) -> (r: TwoCombIter<'a, T>)
        ensures
            r.wf(),
            r.list() == slice@,
            r.outer() == 1,
            r.inner() == 0,
    {
        TwoCombIter { slice, outer_index: 1, inner_index: 0 }
    }

    /// The next pair `(list[inner], list[outer])`, or nothing once every pair was given.
    pub fn next_pair(&mut self) -> (r: Option<(T, T)>)
        requires
            old(self).wf(),
        ensures
            final(self).wf(),
            final(self).list() == old(self).list(),
            old(self).outer() < old(self).list().len() ==> r == Some((old(self).list()[old(self).inner() as int], old(self).list()[old(self).outer() as int]))
                && (if old(self).inner() + 1 < old(self).outer() {
                    final(self).outer() == old(self).outer() && final(self).inner() == old(self).inner() + 1
                } else {
                    final(self).outer() == old(self).outer() + 1 && final(self).inner() == 0
                }),
            old(self).outer() >= old(self).list().len() ==> r is None && *final(self) == *old(self),
    {
        if self.outer_index >= self.slice.len() {
            return None;
        }
        let pair = (self.slice[self.inner_index], self.slice[self.outer_index]);
        if self.inner_index + 1 < self.outer_index {
            self.inner_index = self.inner_index + 1;
        } else {
            self.outer_index = self.outer_index + 1;
            self.inner_index = 0;
        }
        Some(pair)
    }
}

/// The lines, each prefixed with `n` spaces and ended by a line feed.
pub open spec fn indent_spec(ls: Seq<Seq<char>>, n: nat) -> Seq<char>
    decreases ls.len(),
{
    if ls.len() == 0 {
        Seq::empty()
    } else {
        indent_spec(ls.drop_last(), n) + Seq::new(n, |i: int| ' ') + ls.last() + seq!['\n']
    }
}

pub fn indent_lines(msg: &str, indentation: usize) -> (r: String)
    ensures
        r@ == indent_spec(lines_spec(msg@), indentation as nat),
{
    let ls = lines(msg);
    let mut out = String::new();
    let mut i: usize = 0;
    while i < ls.len()
        invariant
            i <= ls.len(),
            views(ls@) == lines_spec(msg@),
            out@ == indent_spec(views(ls@).take(i as int), indentation as nat),
        decreases ls.len() - i,
    {
        let ghost before = out@;
        let mut s: usize = 0;
        while s < indentation
            invariant
                s <= indentation,
                out@ == before + Seq::new(s as nat, |j: int| ' '),
            decreases indentation - s,
        {
            append(&mut out, " ");
            proof { reveal_strlit(" "); }
            assert(out@ =~= before + Seq::new((s + 1) as nat, |j: int| ' '));
            s = s + 1;
        }
        append(&mut out, ls[i].as_str());
        append(&mut out, "\n");
        proof {
            reveal_strlit("\n");
            let taken = views(ls@).take(i + 1);
            assert(taken.drop_last() =~= views(ls@).take(i as int));
            assert(taken.last() == ls@[i as int]@);
            assert(out@ =~= indent_spec(taken, indentation as nat));
        }
        i = i + 1;
    }
    assert(views(ls@).take(ls.len() as int) =~= views(ls@));
    out
}

#[derive(Debug, Clone, Copy, PartialEq, Eq, Structural)]
pub struct TimeOfDay(pub u8);

impl TimeOfDay {
    pub open spec fn hour(self) -> nat {
        self.0 as nat
    }

    pub open spec fn wf(self) -> bool {
        self.0 < 24
    }

    /// The time at the given hour, if it is a valid hour of the day.
    pub fn from_hour(hour: u8) -> (r: Option<TimeOfDay>)
        ensures
            hour < 24 <==> r is Some,
            r matches Some(t) ==> t.hour() == hour && t.wf(),
    {
        if hour < 24 {
            Some(TimeOfDay(hour))
        } else {
            None
        }
    }

    pub fn as_24_hours(self) -> (r: u8)
        ensures
            r == self.hour(),
    {
        self.0
    }

    /// The time `hour` hours later; the result must still fall within the day.
    pub fn add_hr(self, hour: u8) -> (r: TimeOfDay)
        requires
            self.hour() + hour < 24,
        ensures
            r.hour() == self.hour() + hour,
            r.wf(),
    {
        TimeOfDay(self.0 + hour)
    }

    /// The hour that the text gives: a number below 24, optionally followed by `:00`.
    pub open spec fn parse_spec(s: Seq<char>) -> Option<TimeOfDay> {
        let stripped = match strip_suffix_spec(s, ":00"@) {
            Some(t) => t,
            None => s,
        };
        match parse_u8_spec(stripped) {
            Some(h) => if h < 24 { Some(TimeOfDay(h)) } else { None },
            None => None,
        }
    }

    pub fn parse(s: &str) -> (r: Option<TimeOfDay>)
        ensures
            r == TimeOfDay::parse_spec(s@),
            r matches Some(t) ==> t.wf(),
    {
        let stripped = match strip_suffix(s, ":00") {
            Some(t) => t,
            None => owned(s),
        };
        match parse_u8(stripped.as_str()) {
            Some(h) => if h < 24 { Some(TimeOfDay(h)) } else { None },
            None => None,
        }
    }

    pub fn add_duration(self, duration: SessionDuration) -> (r: TimeOfDay)
        requires
            self.hour() + duration.spec_hours() < 24,
        ensures
            r.hour() == self.hour() + duration.spec_hours(),
            r.wf(),
    {
        self.add_hr(duration.hours)
    }
}

impl core::str::FromStr for TimeOfDay {
    type Err = ();

    fn from_str(s: &str) -> Result<TimeOfDay, ()> {
        match TimeOfDay::parse(s) {
            Some(t) => Ok(t),
            None => Err(()),
        }
    }
}

/// A whole number of hours.
#[derive(Debug, Clone, Copy, PartialEq, Eq, Structural)]
pub struct SessionDuration {
    pub hours: u8,
}

impl SessionDuration {
    pub open spec fn spec_hours(self) -> nat {
        self.hours as nat
    }

    pub fn new(hours: u8) -> (r: SessionDuration)
        ensures
            r.spec_hours() == hours,
    {
        SessionDuration { hours }
    }

    pub fn hours(self) -> (r: u8)
        ensures
            r == self.spec_hours(),
    {
        self.hours
    }
}

} // verus!
