//! Errors that cross the C interface.

use vstd::prelude::*;
use vstd::string::StringExecFns;

verus! {

/// What an entry point of the C interface returns. Zero is success and every
/// error is negative, so that none is taken for a length or a cursor shape.
#[derive(Clone, Copy, Debug, PartialEq, Eq, Structural)]
pub enum IhsWlResult {
    Success,
    ErrInvalid,
    ErrIo,
    ErrInternal,
    ErrAlreadyRunning,
    ErrNotRunning,
    ErrTooSmall,
}

impl IhsWlResult {
    /// The number that crosses the interface.
    pub open spec fn number(self) -> int {
        match self {
            IhsWlResult::Success => 0int,
            IhsWlResult::ErrInvalid => -1,
            IhsWlResult::ErrIo => -2,
            IhsWlResult::ErrInternal => -3,
            IhsWlResult::ErrAlreadyRunning => -4,
            IhsWlResult::ErrNotRunning => -5,
            IhsWlResult::ErrTooSmall => -6,
        }
    }

    /// The number that crosses the interface.
    pub fn code(self) -> (code: i32)
        ensures
            code == self.number(),
    {
        match self {
            IhsWlResult::Success => 0,
            IhsWlResult::ErrInvalid => -1,
            IhsWlResult::ErrIo => -2,
            IhsWlResult::ErrInternal => -3,
            IhsWlResult::ErrAlreadyRunning => -4,
            IhsWlResult::ErrNotRunning => -5,
            IhsWlResult::ErrTooSmall => -6,
        }
    }
}

/// An error crossing the C interface: a result code plus the message that is
/// reported for it.
#[derive(Debug, PartialEq)]
pub struct Error {
    pub code: i32,
    pub message: String,
}

impl Error {
    pub fn new(code: i32, message: String) -> (e: Error)
        ensures
            e.code == code,
            e.message@ == message@,
    {
        Error { code, message }
    }

    pub fn invalid(message: String) -> (e: Error)
        ensures
            e.code == IhsWlResult::ErrInvalid.number(),
            e.message@ == message@,
    {
        Error::new(IhsWlResult::ErrInvalid.code(), message)
    }

    pub fn io(message: String) -> (e: Error)
        ensures
            e.code == IhsWlResult::ErrIo.number(),
            e.message@ == message@,
    {
        Error::new(IhsWlResult::ErrIo.code(), message)
    }

    pub fn internal(message: String) -> (e: Error)
        ensures
            e.code == IhsWlResult::ErrInternal.number(),
            e.message@ == message@,
    {
        Error::new(IhsWlResult::ErrInternal.code(), message)
    }

    /// The message with its code, for a log.
    pub fn text(&self) -> (s: String)
        ensures
            s@ == self.message@ + " (code "@ + crate::text::signed_digits(self.code as int) + ")"@,
    {
        let mut s = self.message.clone();
        s.append(" (code ");
        s.append(crate::text::signed_decimal(self.code).as_str());
        s.append(")");
        s
    }
}

/// No error has the number of success, and no two results share one.
pub proof fn results_are_told_apart(a: IhsWlResult, b: IhsWlResult)
    ensures
        a.number() == b.number() ==> a == b,
        a.number() == 0 <==> a == IhsWlResult::Success,
        a.number() <= 0,
{
}

/// The numbers of the results, as the C header gives them.
pub proof fn results_have_the_headers_numbers()
    ensures
        IhsWlResult::Success.number() == 0,
        IhsWlResult::ErrInvalid.number() == -1,
        IhsWlResult::ErrIo.number() == -2,
        IhsWlResult::ErrInternal.number() == -3,
        IhsWlResult::ErrAlreadyRunning.number() == -4,
        IhsWlResult::ErrNotRunning.number() == -5,
        IhsWlResult::ErrTooSmall.number() == -6,
{
}

} // verus!
