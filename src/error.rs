//! Errors of the core.
use crate::ids::MetricId;
use crate::schema::MetadataTooLong;
use crate::store::DbFault;
use vstd::prelude::*;

verus! {

/// Errors caused by the request: shown to the client.
#[derive(Debug, Clone, Copy)]
pub enum UserRequestError {
    MetricNotFound(MetricId),
    InvalidPath,
    MissingAuthorizationToken,
    MalformedAuthorizationToken,
    InvalidAuthorizationToken,
    RootAccountCantBeUsed,
    Unauthorized,
    FormatNotSupported,
    MetadataTooLong,
}

/// Errors of an operation on the store.
#[derive(Debug, Clone, Copy)]
pub enum StoreError {
    /// The request was refused.
    User(UserRequestError),
    /// The storage layer failed.
    Storage,
    /// A stored value does not decode: the data is damaged.
    Corrupt,
    /// The store was written by a newer schema version than this code knows.
    VersionTooNew { found: u64 },
    /// A counter (internal id, or position within a second) has no next value.
    Exhausted,
}

/// How an error is shown to a client.
#[derive(Debug, Clone)]
pub struct UserErrorResponse {
    pub message: String,
}

/// The four ways a request can fail for its token: shown to the client as
/// one, so that it cannot learn which check failed.
pub open spec fn is_token_refusal(e: UserRequestError) -> bool {
    e is MissingAuthorizationToken || e is MalformedAuthorizationToken
        || e is InvalidAuthorizationToken || e is Unauthorized
}

impl UserRequestError {
    /// HTTP status class of the error: 401 for every refusal of the token,
    /// 404 for an unknown format, 400 for the rest.
    pub fn status_code(&self) -> (r: u16)
        ensures
            is_token_refusal(*self) ==> r == 401,
            self is FormatNotSupported ==> r == 404,
            !(is_token_refusal(*self) || self is FormatNotSupported) ==> r == 400,
    {
        match self {
            UserRequestError::MissingAuthorizationToken
            | UserRequestError::MalformedAuthorizationToken
            | UserRequestError::InvalidAuthorizationToken
            | UserRequestError::Unauthorized => 401,
            UserRequestError::FormatNotSupported => 404,
            _ => 400,
        }
    }

    /// The client-facing message of the error; every refusal of the token
    /// reads the same.
    pub fn message(&self) -> (r: String)
        ensures
            is_token_refusal(*self) ==> r@ == "Unauthorized"@,
    {
        match self {
            UserRequestError::MissingAuthorizationToken
            | UserRequestError::MalformedAuthorizationToken
            | UserRequestError::InvalidAuthorizationToken
            | UserRequestError::Unauthorized => "Unauthorized".to_owned(),
            UserRequestError::MetricNotFound(_) => "Metric Not Found".to_owned(),
            UserRequestError::InvalidPath => "Invalid Path".to_owned(),
            UserRequestError::RootAccountCantBeUsed => "Bad Request - Can't use root account".to_owned(),
            UserRequestError::FormatNotSupported => "Format Not Supported".to_owned(),
            UserRequestError::MetadataTooLong => "Metadata too long".to_owned(),
        }
    }

    pub fn to_response(&self) -> (r: UserErrorResponse)
        ensures
            is_token_refusal(*self) ==> r.message@ == "Unauthorized"@,
    {
        UserErrorResponse { message: self.message() }
    }
}

impl StoreError {
    pub fn from_fault(f: DbFault) -> (r: StoreError)
        ensures
            f is Storage ==> r is Storage,
            f is Corrupt ==> r is Corrupt,
    {
        match f {
            DbFault::Storage => StoreError::Storage,
            DbFault::Corrupt => StoreError::Corrupt,
        }
    }

    pub fn from_metadata(_e: MetadataTooLong) -> (r: StoreError)
        ensures
            r matches StoreError::User(UserRequestError::MetadataTooLong),
    {
        StoreError::User(UserRequestError::MetadataTooLong)
    }
}

} // verus!
