//! Errors of repository operations, and the response envelopes that carry
//! results and errors to remote clients.

use vstd::prelude::*;

use crate::text::{chars_of, string_of};

verus! {

/// The kinds of failure a repository operation reports.
#[derive(Clone, Copy, Debug, PartialEq, Eq, Structural)]
pub enum ErrorKind {
    NotFound,
    InvalidInput,
    InvalidData,
    Other,
}

/// A failed repository operation: the kind of failure as text, a detail
/// message, and the kind itself.
#[derive(Debug, Clone)]
pub struct OutpackError {
    pub error: String,
    pub detail: String,
    pub kind: Option<ErrorKind>,
}

/// The text that names a kind of failure.
pub open spec fn kind_text(k: ErrorKind) -> Seq<char> {
    match k {
        ErrorKind::NotFound => "entity not found"@,
        ErrorKind::InvalidInput => "invalid input parameter"@,
        ErrorKind::InvalidData => "invalid data"@,
        ErrorKind::Other => "other error"@,
    }
}

impl OutpackError {
    /// An error of kind `kind` with the detail `detail`.
    pub fn new(kind: ErrorKind, detail: String) -> (r: OutpackError)
        ensures
            r.kind == Some(kind),
            r.error@ == kind_text(kind),
            r.detail@ == detail@,
    {
        let error = match kind {
            ErrorKind::NotFound => String::from_str("entity not found"),
            ErrorKind::InvalidInput => String::from_str("invalid input parameter"),
            ErrorKind::InvalidData => String::from_str("invalid data"),
            ErrorKind::Other => String::from_str("other error"),
        };
        OutpackError { error, detail, kind: Some(kind) }
    }
}

impl OutpackError {
    /// The detail message.
    pub fn to_string(&self) -> (r: String)
        ensures
            r@ == self.detail@,
    {
        let cs = chars_of(self.detail.as_str());
        string_of(&cs)
    }
}

/// The HTTP status for an error: 404 for what is not found, 400 for bad
/// input, 500 for anything else.
pub open spec fn status_of(kind: Option<ErrorKind>) -> u16 {
    match kind {
        Some(ErrorKind::NotFound) => 404,
        Some(ErrorKind::InvalidInput) => 400,
        _ => 500,
    }
}

/// The HTTP status that reports `e`.
pub fn status_code(e: &OutpackError) -> (r: u16)
    ensures
        r == status_of(e.kind),
{
    match e.kind {
        Some(ErrorKind::NotFound) => 404,
        Some(ErrorKind::InvalidInput) => 400,
        _ => 500,
    }
}

/// A successful response: status `success`, the data, no errors.
#[derive(Debug)]
pub struct SuccessResponse<T> {
    pub status: String,
    pub data: T,
    pub errors: Option<Vec<OutpackError>>,
}

impl<T> SuccessResponse<T> {
    pub fn new(data: T) -> (r: SuccessResponse<T>)
        ensures
            r.status@ == "success"@,
            r.data == data,
            r.errors is None,
    {
        SuccessResponse { status: String::from_str("success"), data, errors: None }
    }
}

/// A failed response: status `failure`, no data, and the error.
#[derive(Debug)]
pub struct FailResponse {
    pub status: String,
    pub data: Option<String>,
    pub errors: Option<Vec<OutpackError>>,
}

impl FailResponse {
    pub fn from(e: OutpackError) -> (r: FailResponse)
        ensures
            r.status@ == "failure"@,
            r.data is None,
            r.errors is Some,
            r.errors->Some_0@ == seq![e],
    {
        let mut errors: Vec<OutpackError> = Vec::new();
        errors.push(e);
        proof {
            assert(errors@ =~= seq![e]);
        }
        FailResponse { status: String::from_str("failure"), data: None, errors: Some(errors) }
    }
}

/// What the root of the API reports: the schema version.
#[derive(Debug)]
pub struct ApiRoot {
    pub schema_version: String,
}

impl ApiRoot {
    pub fn new(schema_version: String) -> (r: ApiRoot)
        ensures
            r.schema_version == schema_version,
    {
        ApiRoot { schema_version }
    }
}

} // verus!
