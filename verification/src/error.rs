//! The one failure every exchange here ends in: what went wrong, in words,
//! and whether trying the same thing again can help.

use vstd::prelude::*;

verus! {

/// Why an exchange could not go on.
#[derive(Clone, Debug, PartialEq, Eq)]
pub struct TransportError {
    /// What went wrong, for whoever reads the log.
    pub message: String,
    /// Whether the same attempt may succeed later.
    pub retryable: bool,
}

/// What a [`TransportError`] says, as a mathematical value.
pub struct Failure {
    pub message: Seq<char>,
    pub retryable: bool,
}

impl View for TransportError {
    type V = Failure;

    open spec fn view(&self) -> Failure {
        Failure { message: self.message@, retryable: self.retryable }
    }
}

/// What everything here that can fail returns.
pub type Result<T> = core::result::Result<T, TransportError>;

/// A failure that trying again will not mend.
pub open spec fn permanent_failure(message: Seq<char>) -> Failure {
    Failure { message, retryable: false }
}

/// What is said of a buffer that ends before a field does.
pub open spec fn runs_past() -> Failure {
    permanent_failure("a field runs past the end of the buffer"@)
}

impl TransportError {
    /// A failure that trying again will not mend.
    pub fn permanent(message: String) -> (error: Self)
        ensures
            error@ == permanent_failure(message@),
    {
        TransportError { message, retryable: false }
    }

    /// A failure that trying again later may mend.
    pub fn retryable(message: String) -> (error: Self)
        ensures
            error@ == (Failure { message: message@, retryable: true }),
    {
        TransportError { message, retryable: true }
    }
}

/// What the other side said is not the protocol: permanent.
pub fn protocol_error(message: &str) -> (error: TransportError)
    ensures
        error@ == permanent_failure(message@),
{
    TransportError::permanent(message.to_owned())
}

/// What is not the protocol, and a buffer that ends before a field does, are
/// not worth another try, and are told in the words they are given.
pub proof fn failures_are_told(message: Seq<char>)
    ensures
        permanent_failure(message).message == message,
        !permanent_failure(message).retryable,
        runs_past().message == "a field runs past the end of the buffer"@,
        !runs_past().retryable,
{
}

} // verus!
