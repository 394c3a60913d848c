//! The failures that the service reports to a client.
use vstd::prelude::*;

verus! {

/// Why the service could not answer a request.
#[derive(Debug)]
pub enum ServiceErrors {
    Unauthorized,
    DatabaseConnectionLost,
    DatabaseQueryFailed(String),
    RecordNotFound(String),
    RegisterCollision,
}

impl ServiceErrors {
    /// The HTTP status that answers the failure.
    pub open spec fn status_of(self) -> u16 {
        match self {
            ServiceErrors::Unauthorized => 401,
            ServiceErrors::DatabaseConnectionLost => 500,
            ServiceErrors::DatabaseQueryFailed(_) => 400,
            ServiceErrors::RecordNotFound(_) => 400,
            ServiceErrors::RegisterCollision => 401,
        }
    }

    /// The HTTP status that answers the failure: 401 where the caller is not
    /// let in, 500 where the database is out of reach, 400 where the request
    /// cannot be served.
    pub fn status_code(&self) -> (code: u16)
        ensures
            code == self.status_of(),
    {
        match self {
            ServiceErrors::Unauthorized => 401,
            ServiceErrors::DatabaseConnectionLost => 500,
            ServiceErrors::DatabaseQueryFailed(_) => 400,
            ServiceErrors::RecordNotFound(_) => 400,
            ServiceErrors::RegisterCollision => 401,
        }
    }
}

} // verus!
