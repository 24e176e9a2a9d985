use vstd::prelude::*;

verus! {

/// The errors this library reports: a duplicate registration, a label
/// cardinality mismatch, or a message describing an invalid configuration
/// or a failed removal.
#[derive(Debug)]
pub enum Error {
    /// A collector with the same descriptor was already registered.
    AlreadyReg,
    /// The number of label values handed in does not match the number of
    /// variable labels of the descriptor.
    InconsistentCardinality { expect: usize, got: usize },
    /// Any other error, described by its message.
    Msg(String),
}

impl Error {
    /// A short description of the error, for reporting.
    pub fn description(&self) -> (s: String)
        ensures
            match self {
                Error::AlreadyReg => s@ == "duplicate metrics collector registration attempted"@,
                Error::InconsistentCardinality { .. } => s@ == "inconsistent label cardinality"@,
                Error::Msg(m) => s@ == m@,
            },
    {
        match self {
            Error::AlreadyReg => String::from_str(
                "duplicate metrics collector registration attempted",
            ),
            Error::InconsistentCardinality { .. } => String::from_str(
                "inconsistent label cardinality",
            ),
            Error::Msg(m) => m.clone(),
        }
    }
}

} // verus!
