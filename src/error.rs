use vstd::prelude::*;

verus! {

/// The error taxonomy shared by every read path.
#[derive(Debug, PartialEq, Eq)]
pub enum AppError {
    /// A caller-supplied argument is invalid or unsupported; never retried.
    BadRequest(String),
    /// An upstream source answered badly or not at all.
    Upstream(String),
    /// The requested favourite or resource does not exist.
    NotFound(String),
    /// A broken internal invariant.
    Internal(String),
}

impl AppError {
    /// The message carried by the error, whatever its kind.
    pub fn message(&self) -> (r: &str)
        ensures
            r@ == self.spec_message(),
    {
        match self {
            AppError::BadRequest(m) => m.as_str(),
            AppError::Upstream(m) => m.as_str(),
            AppError::NotFound(m) => m.as_str(),
            AppError::Internal(m) => m.as_str(),
        }
    }

    pub open spec fn spec_message(&self) -> Seq<char> {
        match self {
            AppError::BadRequest(m) => m@,
            AppError::Upstream(m) => m@,
            AppError::NotFound(m) => m@,
            AppError::Internal(m) => m@,
        }
    }
}

} // verus!
