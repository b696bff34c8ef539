use vstd::prelude::*;
use vstd::std_specs::convert::FromSpecImpl;

verus! {

/// Stable codes of the errors that the application reports.
#[derive(Clone, Copy, Debug, PartialEq, Eq, Structural)]
pub enum AppErrorCode {
    UnsupportedSource,
    MissingRequiredFile,
    InvalidData,
    Io,
    CredentialMissing,
    ProviderRateLimited,
    ProviderFailure,
    InvalidProviderResponse,
    SourceChanged,
    QaBlocked,
    InvalidTaskTransition,
    StorageFailure,
    Unexpected,
}

/// An error of the application: a stable code and a readable message.
#[derive(Clone, Debug)]
pub struct AppError {
    code: AppErrorCode,
    message: String,
}

impl AppError {
    pub closed spec fn spec_code(&self) -> AppErrorCode {
        self.code
    }

    pub closed spec fn spec_message(&self) -> Seq<char> {
        self.message@
    }

    pub fn new(code: AppErrorCode, message: String) -> (e: AppError)
        ensures
            e.spec_code() == code,
            e.spec_message() == message@,
    {
        AppError { code, message }
    }

    pub fn code(&self) -> (c: AppErrorCode)
        ensures
            c == self.spec_code(),
    {
        self.code
    }

    pub fn message(&self) -> (m: &str)
        ensures
            m@ == self.spec_message(),
    {
        self.message.as_str()
    }

    /// The text of the error: its message.
    pub fn to_text(&self) -> (t: String)
        ensures
            t@ == self.spec_message(),
    {
        crate::text::owned(self.message.as_str())
    }
}

impl From<String> for AppError {
    fn from(message: String) -> (e: AppError) {
        AppError { code: AppErrorCode::Unexpected, message }
    }
}

impl FromSpecImpl<String> for AppError {
    open spec fn obeys_from_spec() -> bool {
        true
    }

    open spec fn from_spec(v: String) -> AppError {
        unexpected_error(v)
    }
}

/// The error that a bare message converts into.
pub closed spec fn unexpected_error(message: String) -> AppError {
    AppError { code: AppErrorCode::Unexpected, message }
}

/// A bare message converts into an unexpected error that keeps it.
pub proof fn lemma_unexpected_error(message: String)
    ensures
        unexpected_error(message).spec_code() == AppErrorCode::Unexpected,
        unexpected_error(message).spec_message() == message@,
{
}

} // verus!
