use vstd::prelude::*;

verus! {

/// Why building the problem failed.
#[derive(Debug, Clone, PartialEq, Eq)]
pub enum Error {
    /// A row holds a different number of fields than the header.
    TsvNumFieldsMismatch { path: String, header_len: usize, row_len: usize, row: String },
    /// A required column is absent.
    MissingTsvField { tsv_path: String, field: String },
    /// A workload bound is not a number.
    BadClassTypeRequirement { zid: String, field: String },
    /// A yes/no field holds something else.
    BadBoolean { value: String },
    /// A class row is malformed.
    BadClass { name: String, err: String },
    /// An instructor has no application and missing ones are not tolerated.
    NoApplication { zid: String },
    /// An application lacks an hour that a session needs.
    NoAvailability { zid: String, class_name: String },
    /// An override row is malformed.
    BadOverride { name: String },
    /// An override row changed nothing.
    UnmatchedOverride { name: String },
    /// A row of the initial solution is malformed or contradicts another.
    BadInitialSolution { class_name: String },
    /// A cost appears twice in the configuration.
    DuplicateCost { name: String },
    /// A cost without a default is absent from the configuration.
    MissingCost { name: String },
    /// A cost name is not a known constraint.
    UnknownCost { name: String },
}

} // verus!
