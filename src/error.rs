use vstd::prelude::*;

verus! {

/// The kind of failure that stopped a primitive or a step.
#[derive(Clone, Copy, Debug, PartialEq, Eq, Structural)]
pub enum ErrorKind {
    /// A data stack pop, or the end of a nested stack, went past its scope.
    StackUnderflow,
    /// The return stack held no address to resume at.
    ReturnUnderflow,
    /// A `{` reached the end of the tape before its matching `}`.
    UnterminatedBlock,
    /// A word was looked up and the dictionary has no entry for it.
    UndefinedWord,
    /// An operand does not have the shape the operator expects.
    TypeMismatch,
    /// A primitive expected a particular cell right after it on the tape.
    MissingArgument,
    /// Integer division or remainder by zero.
    DivisionByZero,
    /// Integer arithmetic whose result does not fit in an `i64`.
    Overflow,
    /// A cell that cannot be executed (the empty sentinel) was reached on the tape.
    InvalidCell,
    /// A tape address is out of range.
    BadAddress,
}

/// Error reported by a primitive, a step, or a run.
#[derive(Debug)]
pub struct Error {
    pub msg: String,
    pub kind: ErrorKind,
}

impl Error {
    pub fn new(msg: String, kind: ErrorKind) -> (r: Self)
        ensures
            r.msg == msg,
            r.kind == kind,
    {
        Error { msg, kind }
    }

    /// An error of the given kind whose message is the given text.
    pub fn of(kind: ErrorKind, msg: &str) -> (r: Self)
        ensures
            r.kind == kind,
            r.msg@ == msg@,
    {
        Error { msg: msg.to_string(), kind }
    }
}

} // verus!
