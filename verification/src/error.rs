//! The ways a guess or a configuration is turned down.

use vstd::prelude::*;
use vstd::string::StringExecFns;

verus! {

/// What a guess or a configuration can come to instead of being taken.
#[derive(Debug, Clone, Copy, PartialEq, Eq, Structural)]
pub enum Error {
    /// The guess is not a word that may be guessed now; the round goes on
    /// and no attempt is used.
    InvalidWord,
    /// The guess was the secret: the round has been won.
    AlreadyCorrect,
    /// The settings contradict each other, or a saved record cannot be
    /// read.
    InvalidArgs,
}

impl Error {
    /// The text of `to_string`.
    pub open spec fn message(self) -> Seq<char> {
        match self {
            Error::InvalidWord => "INVALID"@,
            Error::AlreadyCorrect => "CORRECT"@,
            Error::InvalidArgs => "InvalidArgs"@,
        }
    }

    /// The text that reports this outcome.
    pub fn to_string(&self) -> (text: String)
        ensures
            text@ == self.message(),
    {
        match self {
            Error::InvalidWord => String::from_str("INVALID"),
            Error::AlreadyCorrect => String::from_str("CORRECT"),
            Error::InvalidArgs => String::from_str("InvalidArgs"),
        }
    }
}

} // verus!
