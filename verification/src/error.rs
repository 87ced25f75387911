use vstd::prelude::*;

verus! {

/// What can go wrong while a program is loaded or run.
#[derive(Debug, Clone, Copy, PartialEq, Eq, Structural)]
pub enum Error {
    /// The program's brackets do not pair up.
    UnbalancedBracket,
    /// An input instruction was reached and the input stream had no byte left.
    InputExhausted,
    /// A byte could not be written to the output stream.
    OutputFailure,
}

impl Error {
    /// A short description for the person who started the program.
    pub fn message(&self) -> (s: &'static str)
        ensures
            s@ == (match *self {
                Error::UnbalancedBracket => "unbalanced bracket"@,
                Error::InputExhausted => "input exhausted"@,
                Error::OutputFailure => "output failure"@,
            }),
    {
        match self {
            Error::UnbalancedBracket => "unbalanced bracket",
            Error::InputExhausted => "input exhausted",
            Error::OutputFailure => "output failure",
        }
    }
}

} // verus!
