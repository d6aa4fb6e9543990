//! The error that a chat request ends with.
use vstd::prelude::*;

verus! {

/// Why a request failed.
#[derive(Debug, PartialEq, Eq)]
pub enum CoreError {
    /// No account is free, or the account in use has reached its rate limit.
    Overloaded,
    /// The provider refused the request.
    ProviderError(String),
    /// The response stream broke off or could not be understood.
    Stream(String),
    /// The proof of work could not be computed.
    ProofOfWorkFailed(String),
}

/// What an error says.
pub enum ErrorText {
    Overloaded,
    ProviderError(Seq<char>),
    Stream(Seq<char>),
    ProofOfWorkFailed(Seq<char>),
}

impl View for CoreError {
    type V = ErrorText;

    open spec fn view(&self) -> ErrorText {
        match self {
            CoreError::Overloaded => ErrorText::Overloaded,
            CoreError::ProviderError(s) => ErrorText::ProviderError(s@),
            CoreError::Stream(s) => ErrorText::Stream(s@),
            CoreError::ProofOfWorkFailed(s) => ErrorText::ProofOfWorkFailed(s@),
        }
    }
}

/// What an error says that may be absent.
pub open spec fn error_text(e: Option<CoreError>) -> Option<ErrorText> {
    match e {
        Some(e) => Some(e@),
        None => None,
    }
}

/// The outcome of solving a challenge, as the outcome of computing a proof of work: the header
/// that carries the answer, or `ProofOfWorkFailed` with the solver's reason.
pub fn compute_pow_for_target(solved: Result<String, String>) -> (r: Result<String, CoreError>)
    ensures
        solved matches Ok(header) ==> r == Ok::<String, CoreError>(header),
        solved matches Err(reason) ==> r == Err::<String, CoreError>(
            CoreError::ProofOfWorkFailed(reason),
        ),
{
    match solved {
        Ok(header) => Ok(header),
        Err(reason) => Err(CoreError::ProofOfWorkFailed(reason)),
    }
}

} // verus!
