//! The error type shared by the domain parsers.

use vstd::prelude::*;

use crate::frontmatter::FrontmatterParsingError;

verus! {

/// Failure of one of the domain parsers.
#[derive(Debug)]
pub enum ParsingError {
    /// The frontmatter block was malformed.
    Frontmatter(FrontmatterParsingError),
    /// A date literal was malformed; carries the original text.
    InvalidDate(String),
}

impl From<FrontmatterParsingError> for ParsingError {
    fn from(value: FrontmatterParsingError) -> (r: Self) {
        Self::Frontmatter(value)
    }
}

impl vstd::std_specs::convert::FromSpecImpl<FrontmatterParsingError> for ParsingError {
    open spec fn obeys_from_spec() -> bool {
        true
    }

    open spec fn from_spec(value: FrontmatterParsingError) -> Self {
        ParsingError::Frontmatter(value)
    }
}

} // verus!
