//! The error taxonomy of the core.
use vstd::prelude::*;

verus! {

/// A request that the core refuses because of what it holds.
#[derive(Clone, Copy, Debug, PartialEq, Eq, Structural)]
pub enum ParameterError {
    InvalidPosition,
    Bbox,
    Email,
    Phone,
    Url,
    Contact,
    RegistrationType,
    CreatorEmail,
    InvalidOpeningHours,
    TokenInvalid,
    Credentials,
    Unauthorized,
    Forbidden,
    UserExists,
    EmailNotConfirmed,
    OwnedTag,
    RatingValue,
    EndDateBeforeStart,
}

/// A failure of the store.
#[derive(Clone, Copy, Debug, PartialEq, Eq, Structural)]
pub enum RepoError {
    NotFound,
    InvalidVersion,
}

#[derive(Clone, Copy, Debug, PartialEq, Eq, Structural)]
pub enum Error {
    Parameter(ParameterError),
    Repo(RepoError),
}

impl Error {
    pub open spec fn spec_http_status(self) -> u16 {
        match self {
            Error::Parameter(p) => match p {
                ParameterError::Credentials | ParameterError::Unauthorized => 401,
                ParameterError::EmailNotConfirmed | ParameterError::Forbidden
                | ParameterError::OwnedTag => 403,
                _ => 400,
            },
            Error::Repo(RepoError::NotFound) => 404,
            Error::Repo(_) => 500,
        }
    }

    /// The HTTP status that the error is reported with.
    pub fn http_status(&self) -> (r: u16)
        ensures
            r == self.spec_http_status(),
    {
        match self {
            Error::Parameter(p) => match p {
                ParameterError::Credentials | ParameterError::Unauthorized => 401,
                ParameterError::EmailNotConfirmed | ParameterError::Forbidden
                | ParameterError::OwnedTag => 403,
                _ => 400,
            },
            Error::Repo(RepoError::NotFound) => 404,
            Error::Repo(_) => 500,
        }
    }
}

} // verus!
