//! The one error type that rendering reports.
use vstd::prelude::*;

verus! {

/// Why a render failed: the sink failed, or a deferred fragment reported an
/// error of its own.
#[derive(Debug)]
pub enum RenderError {
    /// The sink refused a write.
    IoError(std::io::Error),
    /// An application error, kept whole as the source of the carried value.
    Other(std::io::Error),
}

/// Relies on std::io::Error::other: it wraps any error value, which stays
/// reachable as the wrapped error. Nothing else is assumed of the result.
#[verifier::external_body]
fn boxed_error<E: std::error::Error + Send + Sync + 'static>(e: E) -> std::io::Error {
    std::io::Error::other(e)
}

impl RenderError {
    /// Wraps an application error so that it travels the same channel as sink
    /// failures.
    pub fn wrap<E: std::error::Error + Send + Sync + 'static>(e: E) -> (r: Self)
        ensures
            r is Other,
    {
        RenderError::Other(boxed_error(e))
    }
}

impl From<std::io::Error> for RenderError {
    fn from(e: std::io::Error) -> (r: Self) {
        RenderError::IoError(e)
    }
}

impl vstd::std_specs::convert::FromSpecImpl<std::io::Error> for RenderError {
    open spec fn obeys_from_spec() -> bool {
        true
    }

    open spec fn from_spec(e: std::io::Error) -> Self {
        RenderError::IoError(e)
    }
}

} // verus!
