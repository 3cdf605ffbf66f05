use vstd::prelude::*;

verus! {

/// The ways in which guide design can fail.
#[derive(Debug, Clone, Copy, PartialEq, Eq, Structural)]
pub enum RuntimeError {
    /// A sequence holds a symbol outside A, C, G, T (either case).
    IncorrectDNASequence,
    /// No candidate survived the search and the filters on either strand.
    NoGuidesFound,
    /// The PAM, or the inclusion pattern, does not compile.
    InvalidPAM,
    /// The exclusion pattern does not compile.
    InvalidGRNAExclusionPattern,
}

impl RuntimeError {
    /// The text shown to a user for this error.
    pub fn message(&self) -> (r: &'static str)
        ensures
            *self == RuntimeError::IncorrectDNASequence ==> r@ == "Incorrect DNA sequence provided."@,
            *self == RuntimeError::NoGuidesFound ==> r@ == "No compatible gRNAs found."@,
            *self == RuntimeError::InvalidPAM ==> r@ == "PAM Sequence is not valid."@,
            *self == RuntimeError::InvalidGRNAExclusionPattern ==> r@ == "gRNA exclusion pattern is not valid."@,
    {
        match self {
            RuntimeError::IncorrectDNASequence => "Incorrect DNA sequence provided.",
            RuntimeError::NoGuidesFound => "No compatible gRNAs found.",
            RuntimeError::InvalidPAM => "PAM Sequence is not valid.",
            RuntimeError::InvalidGRNAExclusionPattern => "gRNA exclusion pattern is not valid.",
        }
    }
}

} // verus!
