//! The ways in which a lookup can fail.

use vstd::prelude::*;

verus! {

/// Why the program gave up. Every error ends the run: none is retried.
#[derive(Clone, Copy, Debug, PartialEq, Eq, Structural)]
pub enum ProgramError {
    /// A file or the console could not be read.
    Io,
    /// A page could not be fetched.
    Url,
    /// A page does not have the structure that the extractors expect.
    Parse,
    /// The arguments name no term file, or a start position below 1.
    Arg,
}

impl ProgramError {
    /// The sentence that describes the error.
    pub open spec fn spec_description(self) -> Seq<char> {
        match self {
            ProgramError::Io => "io error"@,
            ProgramError::Url => "Url fetch error"@,
            ProgramError::Parse => "Error parsing document"@,
            ProgramError::Arg => "Invalid arguments"@,
        }
    }

    /// The sentence that describes the error.
    pub fn description(&self) -> (text: String)
        ensures
            text@ == self.spec_description(),
    {
        match self {
            ProgramError::Io => "io error".to_owned(),
            ProgramError::Url => "Url fetch error".to_owned(),
            ProgramError::Parse => "Error parsing document".to_owned(),
            ProgramError::Arg => "Invalid arguments".to_owned(),
        }
    }
}

} // verus!
