use vstd::prelude::*;

verus! {

/// Why an input string was rejected before any storage work was done.
/// These are client faults: the caller is told the reason and nothing is retried.
#[derive(Clone, Copy, PartialEq, Eq, Structural, Debug)]
pub enum ValidationError {
    /// The input was empty after trimming surrounding whitespace.
    Empty,
    /// The trimmed input exceeded 2048 characters.
    TooLong,
    /// The input did not parse as an absolute URL, even with a default scheme.
    Unparsable,
    /// The host was missing or did not match the domain-label grammar.
    InvalidDomain,
}

impl ValidationError {
    /// The human-readable reason attached to each rejection.
    pub open spec fn message_spec(&self) -> Seq<char> {
        match *self {
            ValidationError::Empty => "URL cannot be empty"@,
            ValidationError::TooLong => "URL too long (max 2048 characters)"@,
            ValidationError::Unparsable => "Failed to parse URL"@,
            ValidationError::InvalidDomain => "Invalid domain format"@,
        }
    }

    /// Renders the reason as an owned string.
    pub fn message(&self) -> (r: String)
        ensures
            r@ == self.message_spec(),
    {
        match *self {
            ValidationError::Empty => "URL cannot be empty".to_owned(),
            ValidationError::TooLong => "URL too long (max 2048 characters)".to_owned(),
            ValidationError::Unparsable => "Failed to parse URL".to_owned(),
            ValidationError::InvalidDomain => "Invalid domain format".to_owned(),
        }
    }
}

/// The failure taxonomy of the whole service.
#[derive(Debug)]
pub enum AppError {
    /// An infrastructure fault reported by the store, propagated unchanged.
    Database(String),
    /// A client fault: the submitted URL was rejected, with the reason.
    InvalidUrl(String),
    /// A server fault; in this core it only arises when the bounded
    /// collision-resolution loop exhausts every candidate.
    Internal,
    /// The requested short code has no mapping.
    NotFound,
}

} // verus!
