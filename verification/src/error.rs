use vstd::prelude::*;

verus! {

/// A recoverable, line-scoped evaluation failure. None of these terminates
/// the session: the caller reports the error and goes on with the next line,
/// and the stack is left exactly as it was before the failing step.
#[derive(Debug, Clone, PartialEq)]
pub enum EvalError {
    /// A numeral-looking span could not be read as a number
    /// (it holds more than one `.`).
    ParseError { span: String },
    /// A built-in word needed more stack entries than were present.
    Underflow { word: String, needed: usize, available: usize },
    /// A word token's name is not in the word table.
    UnknownWord { name: String },
}

} // verus!
