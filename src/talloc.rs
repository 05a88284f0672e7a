use vstd::prelude::*;

use crate::classes::Mode;
use crate::text::{append, owned};
use crate::utils::{Day, TimeOfDay};

verus! {

/// How willing an instructor is to teach at some time, least willing first.
#[derive(Clone, Copy, Debug, PartialEq, Eq, PartialOrd, Ord, Structural)]
pub enum Availability {
    Impossible,
    Dislike,
    Possible,
    Preferred,
}

impl Availability {
    pub open spec fn rank(self) -> nat {
        match self {
            Availability::Impossible => 0,
            Availability::Dislike => 1,
            Availability::Possible => 2,
            Availability::Preferred => 3,
        }
    }

    /// The level that two bits encode.
    pub open spec fn of_bits(bits: nat) -> Availability {
        if bits % 4 == 0 {
            Availability::Impossible
        } else if bits % 4 == 1 {
            Availability::Dislike
        } else if bits % 4 == 2 {
            Availability::Possible
        } else {
            Availability::Preferred
        }
    }

    /// Decodes a raw cell: the low two bits give face-to-face availability, the next two
    /// online availability.
    pub fn from_raw(raw: u8, mode: Mode) -> (r: Availability)
        ensures
            r == Availability::of_bits(raw_bits_for(raw, mode)),
    {
        let shifted: u8 = if mode == Mode::Online {
            raw / 4
        } else {
            raw
        };
        let bits: u8 = shifted % 4;
        if bits == 0 {
            Availability::Impossible
        } else if bits == 1 {
            Availability::Dislike
        } else if bits == 2 {
            Availability::Possible
        } else {
            Availability::Preferred
        }
    }

    pub open spec fn spec_name(self) -> Seq<char> {
        match self {
            Availability::Impossible => "Impossible"@,
            Availability::Dislike => "Dislike"@,
            Availability::Possible => "Possible"@,
            Availability::Preferred => "Preferred"@,
        }
    }

    /// The level's name.
    pub fn name(self) -> (r: &'static str)
        ensures
            r@ == self.spec_name(),
    {
        match self {
            Availability::Impossible => "Impossible",
            Availability::Dislike => "Dislike",
            Availability::Possible => "Possible",
            Availability::Preferred => "Preferred",
        }
    }

    pub fn at_most(self, other: Availability) -> (r: bool)
        ensures
            r == (self.rank() <= other.rank()),
    {
        match (self, other) {
            (Availability::Impossible, _) => true,
            (Availability::Dislike, Availability::Impossible) => false,
            (Availability::Dislike, _) => true,
            (Availability::Possible, Availability::Impossible) => false,
            (Availability::Possible, Availability::Dislike) => false,
            (Availability::Possible, _) => true,
            (Availability::Preferred, Availability::Preferred) => true,
            (Availability::Preferred, _) => false,
        }
    }
}

/// The raw value with the bits of the other mode shifted away.
pub open spec fn raw_bits_for(raw: u8, mode: Mode) -> nat {
    if mode == Mode::Online {
        (raw / 4) as nat
    } else {
        raw as nat
    }
}

/// Where the current term is looked up.
pub fn talloc_api_current_term_endpoint() -> (r: &'static str)
    ensures
        r@ == "https://talloc.cse.unsw.edu.au/api/v1/term/current"@,
{
    "https://talloc.cse.unsw.edu.au/api/v1/term/current"
}

/// Where the applications of a term are fetched.
pub fn talloc_api_applications_endpoint(term_id: &str) -> (r: String)
    ensures
        r@ == "https://talloc.cse.unsw.edu.au/api/v1/terms/"@ + term_id@ + "/applications"@,
{
    let mut endpoint = owned("https://talloc.cse.unsw.edu.au/api/v1/terms/");
    append(&mut endpoint, term_id);
    append(&mut endpoint, "/applications");
    endpoint
}

/// Number of hour cells in an application: five days of 24 hours.
pub const GRID_CELLS: usize = 120;

/// Position of an hour of a day in an application's cells.
pub open spec fn cell_index(day: Day, hour: nat) -> nat {
    day.index() * 24 + hour
}

/// One instructor's application: for each day and hour the raw availability value, or
/// nothing where the application gives none that can be read.
#[derive(Debug, Clone)]
pub struct ApplicationGrid {
    pub cells: Vec<Option<u8>>,
}

impl ApplicationGrid {
    pub open spec fn wf(&self) -> bool {
        self.cells.len() == GRID_CELLS
    }
}

/// An applicant's record: their zid and their application.
#[derive(Debug, Clone)]
pub struct ApplicantRecord {
    pub zid: String,
    pub grid: ApplicationGrid,
}

/// The application that availability is read from.
#[derive(Clone, Copy, Debug)]
pub enum TallocApplication<'a> {
    Application(&'a ApplicationGrid),
    /// No application was found; every hour reads as impossible.
    NoApplication,
}

impl<'a> TallocApplication<'a> {
    /// Availability of the applicant at an hour of a day, under a mode.
    pub open spec fn availability_at(self, day: Day, hour: nat, mode: Mode) -> Option<
        Availability,
    > {
        match self {
            TallocApplication::NoApplication => Some(Availability::Impossible),
            TallocApplication::Application(grid) => match grid.cells@[cell_index(day, hour) as int] {
                Some(raw) => Some(Availability::of_bits(raw_bits_for(raw, mode))),
                None => None,
            },
        }
    }

    pub open spec fn wf(self) -> bool {
        match self {
            TallocApplication::NoApplication => true,
            TallocApplication::Application(grid) => grid.wf(),
        }
    }

    pub fn get_availability(&self, day: Day, time: TimeOfDay, mode: Mode) -> (r: Option<
        Availability,
    >)
        requires
            self.wf(),
            time.wf(),
        ensures
            r == self.availability_at(day, time.hour(), mode),
    {
        match self {
            TallocApplication::NoApplication => Some(Availability::Impossible),
            TallocApplication::Application(grid) => {
                let index = day_index(day) * 24 + time.as_24_hours() as usize;
                match grid.cells[index] {
                    Some(raw) => Some(Availability::from_raw(raw, mode)),
                    None => None,
                }
            },
        }
    }

    pub fn is_default(&self) -> (r: bool)
        ensures
            r == (*self is NoApplication),
    {
        match self {
            TallocApplication::Application(_) => false,
            TallocApplication::NoApplication => true,
        }
    }
}

fn day_index(day: Day) -> (r: usize)
    ensures
        r == day.index(),
{
    match day {
        Day::Mon => 0,
        Day::Tue => 1,
        Day::Wed => 2,
        Day::Thu => 3,
        Day::Fri => 4,
    }
}

/// All applications, by applicant.
pub struct TallocApps {
    pub applications: Vec<ApplicantRecord>,
    /// Whether an applicant without an application reads as impossible at every hour.
    pub ignore_no_application: bool,
}

/// Position of the last record with the given zid, if any.
pub open spec fn last_record_for(records: Seq<ApplicantRecord>, zid: Seq<char>) -> Option<int>
    decreases records.len(),
{
    if records.len() == 0 {
        None
    } else if records.last().zid@ == zid {
        Some(records.len() - 1)
    } else {
        last_record_for(records.drop_last(), zid)
    }
}

impl TallocApps {
    pub open spec fn wf(&self) -> bool {
        forall|k: int| 0 <= k < self.applications.len() ==> (#[trigger] self.applications[k]).grid.wf()
    }

    /// The application that a lookup of `zid` finds: the last one recorded for it, or the
    /// all-impossible one where none is and that is tolerated.
    pub open spec fn application_for(&self, zid: Seq<char>) -> Option<TallocApplication<'_>> {
        match last_record_for(self.applications@, zid) {
            Some(k) => Some(TallocApplication::Application(&self.applications@[k].grid)),
            None => if self.ignore_no_application {
                Some(TallocApplication::NoApplication)
            } else {
                None
            },
        }
    }

    pub fn new(applications: Vec<ApplicantRecord>, ignore_no_application: bool) -> (r: TallocApps)
        ensures
            r.applications == applications,
            r.ignore_no_application == ignore_no_application,
    {
        TallocApps { applications, ignore_no_application }
    }

    pub fn get_application(&self, zid: &str) -> (r: Option<TallocApplication<'_>>)
        requires
            self.wf(),
        ensures
            r == self.application_for(zid@),
            r matches Some(a) ==> a.wf(),
    {
        let mut k: usize = self.applications.len();
        assert(self.applications@.take(k as int) =~= self.applications@);
        while k > 0
            invariant
                self.wf(),
                k <= self.applications.len(),
                last_record_for(self.applications@, zid@) == last_record_for(
                    self.applications@.take(k as int),
                    zid@,
                ),
            decreases k,
        {
            let prefix = Ghost(self.applications@.take(k as int));
            assert(prefix@.drop_last() =~= self.applications@.take(k - 1));
            if crate::text::str_eq(self.applications[k - 1].zid.as_str(), zid) {
                assert(self.applications[k - 1].grid.wf());
                return Some(TallocApplication::Application(&self.applications[k - 1].grid));
            }
            k = k - 1;
        }
        assert(self.applications@.take(0) =~= Seq::<ApplicantRecord>::empty());
        if self.ignore_no_application {
            Some(TallocApplication::NoApplication)
        } else {
            None
        }
    }
}

} // verus!
