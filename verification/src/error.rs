//! The error type shared by every module.

use vstd::prelude::*;

verus! {

/// Why an operation was refused.
#[derive(Debug, PartialEq, Eq)]
pub enum CelError {
    /// The caller handed in something that is not acceptable.
    Invalid(&'static str),
    /// An internal invariant did not hold.
    Internal(&'static str),
    /// The caller lacks a capability.
    CapabilityDenied(&'static str),
    /// A quota would be exceeded.
    Exhausted(&'static str),
    /// The persistence layer refused.
    Storage(String),
    /// Input or output failed.
    Io(String),
    /// A deadline passed.
    Timeout(String),
}

/// Shorthand for fallible results.
pub type CelResult<T> = Result<T, CelError>;

/// Mathematical value of a [`CelError`].
#[verifier::ext_equal]
pub enum ErrorView {
    /// See [`CelError::Invalid`].
    Invalid(Seq<char>),
    /// See [`CelError::Internal`].
    Internal(Seq<char>),
    /// See [`CelError::CapabilityDenied`].
    CapabilityDenied(Seq<char>),
    /// See [`CelError::Exhausted`].
    Exhausted(Seq<char>),
    /// See [`CelError::Storage`].
    Storage(Seq<char>),
    /// See [`CelError::Io`].
    Io(Seq<char>),
    /// See [`CelError::Timeout`].
    Timeout(Seq<char>),
}

impl View for CelError {
    type V = ErrorView;

    open spec fn view(&self) -> ErrorView {
        match self {
            CelError::Invalid(m) => ErrorView::Invalid(m@),
            CelError::Internal(m) => ErrorView::Internal(m@),
            CelError::CapabilityDenied(m) => ErrorView::CapabilityDenied(m@),
            CelError::Exhausted(m) => ErrorView::Exhausted(m@),
            CelError::Storage(m) => ErrorView::Storage(m@),
            CelError::Io(m) => ErrorView::Io(m@),
            CelError::Timeout(m) => ErrorView::Timeout(m@),
        }
    }
}

/// Mathematical value of a fallible result.
pub open spec fn result_view<T: View>(r: CelResult<T>) -> Result<T::V, ErrorView> {
    match r {
        Ok(v) => Ok(v@),
        Err(e) => Err(e@),
    }
}

/// The class of an error, as a stable word.
pub open spec fn code_of(e: CelError) -> &'static str {
    match e {
        CelError::Invalid(_) => "invalid",
        CelError::Internal(_) => "internal",
        CelError::CapabilityDenied(_) => "capability_denied",
        CelError::Exhausted(_) => "exhausted",
        CelError::Storage(_) => "storage",
        CelError::Io(_) => "io",
        CelError::Timeout(_) => "timeout",
    }
}

/// The text that goes with an error: its class, a colon and its detail.
pub open spec fn message_of(e: ErrorView) -> Seq<char> {
    match e {
        ErrorView::Invalid(m) => "invalid: "@ + m,
        ErrorView::Internal(m) => "internal: "@ + m,
        ErrorView::CapabilityDenied(m) => "capability denied: "@ + m,
        ErrorView::Exhausted(m) => "exhausted: "@ + m,
        ErrorView::Storage(m) => "storage: "@ + m,
        ErrorView::Io(m) => "io: "@ + m,
        ErrorView::Timeout(m) => "timeout: "@ + m,
    }
}

impl CelError {
    /// Stable word for the class of this error.
    pub fn code(&self) -> (r: &'static str)
        ensures
            r == code_of(*self),
    {
        match self {
            CelError::Invalid(_) => "invalid",
            CelError::Internal(_) => "internal",
            CelError::CapabilityDenied(_) => "capability_denied",
            CelError::Exhausted(_) => "exhausted",
            CelError::Storage(_) => "storage",
            CelError::Io(_) => "io",
            CelError::Timeout(_) => "timeout",
        }
    }

    /// Human-readable rendering of this error.
    pub fn message(&self) -> (r: String)
        ensures
            r@ == message_of(self@),
    {
        match self {
            CelError::Invalid(m) => crate::text::concat("invalid: ", m),
            CelError::Internal(m) => crate::text::concat("internal: ", m),
            CelError::CapabilityDenied(m) => crate::text::concat("capability denied: ", m),
            CelError::Exhausted(m) => crate::text::concat("exhausted: ", m),
            CelError::Storage(m) => crate::text::concat("storage: ", m.as_str()),
            CelError::Io(m) => crate::text::concat("io: ", m.as_str()),
            CelError::Timeout(m) => crate::text::concat("timeout: ", m.as_str()),
        }
    }
}

/// An error is told apart by its class, and its text ends with its detail behind
/// the class in words, a colon and a blank.
pub proof fn law_error_texts(e: CelError)
    ensures
        e matches CelError::Invalid(m) ==> code_of(e)@ == "invalid"@ && message_of(e@)
            == "invalid: "@ + m@,
        e matches CelError::Internal(m) ==> code_of(e)@ == "internal"@ && message_of(e@)
            == "internal: "@ + m@,
        e matches CelError::CapabilityDenied(m) ==> code_of(e)@ == "capability_denied"@
            && message_of(e@) == "capability denied: "@ + m@,
        e matches CelError::Exhausted(m) ==> code_of(e)@ == "exhausted"@ && message_of(e@)
            == "exhausted: "@ + m@,
        e matches CelError::Storage(m) ==> code_of(e)@ == "storage"@ && message_of(e@)
            == "storage: "@ + m@,
        e matches CelError::Io(m) ==> code_of(e)@ == "io"@ && message_of(e@) == "io: "@ + m@,
        e matches CelError::Timeout(m) ==> code_of(e)@ == "timeout"@ && message_of(e@)
            == "timeout: "@ + m@,
{
}

} // verus!
