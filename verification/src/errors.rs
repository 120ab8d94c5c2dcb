//! The error cases of the document pipeline and the server.
use vstd::prelude::*;

verus! {

/// Everything that can go wrong while building a document or decoding a
/// request path.
#[derive(Clone, Copy, Debug, PartialEq, Eq, Structural)]
pub enum ChabloError {
    /// The front-matter delimiter occurs more often than the format allows.
    MatchError,
    /// A properly delimited front-matter block carries no `title:` key.
    ExtractTitleError,
    /// The source file path holds fewer than three usable digit groups, or
    /// they name no calendar date.
    DateExtractionError,
    /// A percent escape in a request path is malformed.
    ParseIntError,
}

impl ChabloError {
    /// A short description of the error, for logs and exit messages.
    pub fn message(&self) -> (r: &'static str)
        ensures
            r@ == match *self {
                ChabloError::MatchError => "Failed to match the pattern"@,
                ChabloError::ExtractTitleError => "Failed to extract the title"@,
                ChabloError::DateExtractionError => "Failed to extract a date from the path"@,
                ChabloError::ParseIntError => "Failed to parse Int"@,
            },
    {
        match *self {
            ChabloError::MatchError => "Failed to match the pattern",
            ChabloError::ExtractTitleError => "Failed to extract the title",
            ChabloError::DateExtractionError => "Failed to extract a date from the path",
            ChabloError::ParseIntError => "Failed to parse Int",
        }
    }
}

} // verus!
