//! The ways in which filtering a document can fail.

use vstd::prelude::*;

verus! {

/// Why a document was refused. Every failure is final: nothing of the
/// document is kept once one of these is returned.
#[derive(Clone, Copy, Debug, PartialEq, Eq, Structural)]
pub enum FilterError {
    /// One of the built-in marker patterns could not be compiled.
    PatternCompileFailure,
    /// A closer met an entry of another kind than the one last opened.
    MismatchedRegion,
    /// A closer met a tracker that holds no entry at all.
    EmptyStack,
    /// The input ended while a region was still open.
    UnterminatedRegion,
    /// The closed regions are out of order, overlap or are inverted.
    MalformedRegion,
}

impl FilterError {
    /// A sentence for the user.
    pub fn message(&self) -> (text: String)
        ensures
            text@ == match *self {
                FilterError::PatternCompileFailure => "a built-in marker pattern failed to compile"@,
                FilterError::MismatchedRegion => "a region is closed by the marker of another kind"@,
                FilterError::EmptyStack => "a closing marker has no region to close"@,
                FilterError::UnterminatedRegion => "a region is still open at the end of the input"@,
                FilterError::MalformedRegion => "the closed regions overlap or are out of order"@,
            },
    {
        match self {
            FilterError::PatternCompileFailure => "a built-in marker pattern failed to compile".to_owned(),
            FilterError::MismatchedRegion => "a region is closed by the marker of another kind".to_owned(),
            FilterError::EmptyStack => "a closing marker has no region to close".to_owned(),
            FilterError::UnterminatedRegion => "a region is still open at the end of the input".to_owned(),
            FilterError::MalformedRegion => "the closed regions overlap or are out of order".to_owned(),
        }
    }
}

} // verus!
