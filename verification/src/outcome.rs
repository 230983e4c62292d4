//! The normalized result of every operation: a status category together with a
//! human-readable detail string, returned instead of raw errors.

use vstd::prelude::*;

verus! {

/// The closed set of outcome categories a public operation can report.
/// Each corresponds to one HTTP status code.
#[derive(Clone, Copy, Debug, PartialEq, Eq, Structural)]
pub enum StatusCategory {
    Success,
    Created,
    MovedPermanently,
    TemporaryRedirect,
    BadRequest,
    Unauthorized,
    Forbidden,
    NotFound,
    Conflict,
    Internal,
    BadGateway,
    Unavailable,
}

/// The HTTP status code that a category reports as.
pub open spec fn spec_status_code(s: StatusCategory) -> u16 {
    match s {
        StatusCategory::Success => 200,
        StatusCategory::Created => 201,
        StatusCategory::MovedPermanently => 301,
        StatusCategory::TemporaryRedirect => 307,
        StatusCategory::BadRequest => 400,
        StatusCategory::Unauthorized => 401,
        StatusCategory::Forbidden => 403,
        StatusCategory::NotFound => 404,
        StatusCategory::Conflict => 409,
        StatusCategory::Internal => 500,
        StatusCategory::BadGateway => 502,
        StatusCategory::Unavailable => 503,
    }
}

impl StatusCategory {
    /// The HTTP status code that this category reports as.
    pub fn code(&self) -> (r: u16)
        ensures
            r == spec_status_code(*self),
    {
        match self {
            StatusCategory::Success => 200,
            StatusCategory::Created => 201,
            StatusCategory::MovedPermanently => 301,
            StatusCategory::TemporaryRedirect => 307,
            StatusCategory::BadRequest => 400,
            StatusCategory::Unauthorized => 401,
            StatusCategory::Forbidden => 403,
            StatusCategory::NotFound => 404,
            StatusCategory::Conflict => 409,
            StatusCategory::Internal => 500,
            StatusCategory::BadGateway => 502,
            StatusCategory::Unavailable => 503,
        }
    }

    /// Whether the category reports success.
    pub fn is_success(&self) -> (r: bool)
        ensures
            r == (*self == StatusCategory::Success || *self == StatusCategory::Created),
    {
        match self {
            StatusCategory::Success => true,
            StatusCategory::Created => true,
            _ => false,
        }
    }
}

/// The category a transport status code reports as; codes outside the closed
/// set count as internal errors.
pub open spec fn spec_category_for_code(c: u16) -> StatusCategory {
    if c == 200 {
        StatusCategory::Success
    } else if c == 201 {
        StatusCategory::Created
    } else if c == 301 {
        StatusCategory::MovedPermanently
    } else if c == 307 {
        StatusCategory::TemporaryRedirect
    } else if c == 400 {
        StatusCategory::BadRequest
    } else if c == 401 {
        StatusCategory::Unauthorized
    } else if c == 403 {
        StatusCategory::Forbidden
    } else if c == 404 {
        StatusCategory::NotFound
    } else if c == 409 {
        StatusCategory::Conflict
    } else if c == 502 {
        StatusCategory::BadGateway
    } else if c == 503 {
        StatusCategory::Unavailable
    } else {
        StatusCategory::Internal
    }
}

/// Map a transport status code back into a category.
pub fn category_for_code(c: u16) -> (r: StatusCategory)
    ensures
        r == spec_category_for_code(c),
{
    if c == 200 {
        StatusCategory::Success
    } else if c == 201 {
        StatusCategory::Created
    } else if c == 301 {
        StatusCategory::MovedPermanently
    } else if c == 307 {
        StatusCategory::TemporaryRedirect
    } else if c == 400 {
        StatusCategory::BadRequest
    } else if c == 401 {
        StatusCategory::Unauthorized
    } else if c == 403 {
        StatusCategory::Forbidden
    } else if c == 404 {
        StatusCategory::NotFound
    } else if c == 409 {
        StatusCategory::Conflict
    } else if c == 502 {
        StatusCategory::BadGateway
    } else if c == 503 {
        StatusCategory::Unavailable
    } else {
        StatusCategory::Internal
    }
}

/// The mathematical content of a [`ServiceOutcome`].
pub ghost struct ServiceOutcomeView {
    pub detail: Seq<char>,
    pub status: StatusCategory,
}

/// A normalized operation result: a detail message and a status category.
#[derive(Debug)]
pub struct ServiceOutcome {
    pub detail: String,
    pub status: StatusCategory,
}

impl View for ServiceOutcome {
    type V = ServiceOutcomeView;

    open spec fn view(&self) -> ServiceOutcomeView {
        ServiceOutcomeView { detail: self.detail@, status: self.status }
    }
}

} // verus!
