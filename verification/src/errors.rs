use vstd::prelude::*;

verus! {

/// Failure taxonomy of the request pipeline: transport-level malformations,
/// a miss in the route table, a refused credential check, and the catch-all
/// for unexpected failures during handler execution.
#[derive(Debug, Clone, PartialEq, Eq)]
pub enum HttpError {
    DefaultError,
    NotFoundError(String),
    UnauthorizedError(String),
    BadRequest(String),
}

/// Mathematical shape of an `HttpError`: the same variants over character
/// sequences, so that contracts can speak about the detail text.
pub enum ErrorView {
    Default,
    NotFound(Seq<char>),
    Unauthorized(Seq<char>),
    BadRequest(Seq<char>),
}

impl View for HttpError {
    type V = ErrorView;

    open spec fn view(&self) -> ErrorView {
        match self {
            HttpError::DefaultError => ErrorView::Default,
            HttpError::NotFoundError(s) => ErrorView::NotFound(s@),
            HttpError::UnauthorizedError(s) => ErrorView::Unauthorized(s@),
            HttpError::BadRequest(s) => ErrorView::BadRequest(s@),
        }
    }
}

/// The total error-to-status mapping of the wire protocol.
pub open spec fn spec_status_of_error(e: ErrorView) -> int {
    match e {
        ErrorView::Default => 0,
        ErrorView::NotFound(_) => 404,
        ErrorView::Unauthorized(_) => 401,
        ErrorView::BadRequest(_) => 400,
    }
}

impl HttpError {
    /// Status code that a response built from this error carries.
    pub fn status_code(&self) -> (r: i32)
        ensures
            r == spec_status_of_error(self@),
    {
        match self {
            HttpError::DefaultError => 0,
            HttpError::NotFoundError(_) => 404,
            HttpError::UnauthorizedError(_) => 401,
            HttpError::BadRequest(_) => 400,
        }
    }
}

/// An unexpected failure at the dispatch boundary; the host wraps a caught
/// panic in one of these and turns it into a plain 500 response.
#[derive(Debug, Clone, PartialEq, Eq)]
pub struct InternalError {
    pub details: String,
}

impl InternalError {
    pub fn from_detail(msg: String) -> (r: InternalError)
        ensures
            r.details@ == msg@,
    {
        InternalError { details: msg }
    }
}

} // verus!
