//! The error kinds the service surfaces, each mapped to one HTTP status
//! code at the request boundary.

use vstd::prelude::*;

verus! {

/// What went wrong, as the request boundary reports it.
#[derive(Clone, Copy, Debug, PartialEq, Eq, Structural)]
pub enum ServiceError {
    /// No such file, link or storage entry.
    NotFound,
    /// The request lacked a valid token for a private resource.
    Unauthorized,
    /// The request's own values were unacceptable.
    InvalidArgument,
    /// The storage limit leaves no room.
    InsufficientStorage,
    /// A unique key (a path, a link) is already in use.
    Conflict,
    /// The backing store failed.
    StorageIO,
    /// The index failed.
    IndexIO,
    /// A malformed packet or a packet out of order.
    ProtocolError,
    /// The client went away mid-request.
    ClientDisconnected,
    /// Anything else.
    Internal,
}

impl ServiceError {
    /// The one HTTP status code this kind surfaces as.
    pub open spec fn spec_status_code(self) -> u16 {
        match self {
            ServiceError::NotFound => 404,
            ServiceError::Unauthorized => 401,
            ServiceError::InvalidArgument => 400,
            ServiceError::InsufficientStorage => 507,
            ServiceError::Conflict => 409,
            ServiceError::StorageIO => 500,
            ServiceError::IndexIO => 500,
            ServiceError::ProtocolError => 400,
            ServiceError::ClientDisconnected => 499,
            ServiceError::Internal => 500,
        }
    }

    /// The HTTP status code for this error.
    pub fn status_code(&self) -> (r: u16)
        ensures
            r == self.spec_status_code(),
    {
        match self {
            ServiceError::NotFound => 404,
            ServiceError::Unauthorized => 401,
            ServiceError::InvalidArgument => 400,
            ServiceError::InsufficientStorage => 507,
            ServiceError::Conflict => 409,
            ServiceError::StorageIO => 500,
            ServiceError::IndexIO => 500,
            ServiceError::ProtocolError => 400,
            ServiceError::ClientDisconnected => 499,
            ServiceError::Internal => 500,
        }
    }
}

} // verus!
