//! What a single provider call can come back with.

use vstd::prelude::*;

verus! {

/// Rejection codes of the system API that performs the HTTP outcall.
#[derive(Clone, Copy, Debug, PartialEq, Eq, Structural)]
pub enum RejectionCode {
    NoError,
    SysFatal,
    SysTransient,
    DestinationInvalid,
    CanisterReject,
    CanisterError,
    Unknown,
}

/// A failure of the transport: the provider could not be reached, or did not
/// answer with a well-formed JSON-RPC response.
#[derive(Clone, Debug, PartialEq, Eq)]
pub enum HttpOutcallError {
    /// The outcall itself was rejected (unreachable host, timeout, response too large).
    IcError { code: RejectionCode, message: String },
    /// The response was not a valid JSON-RPC response.
    InvalidHttpJsonRpcResponse { status: u16, body: String, parsing_error: Option<String> },
}

/// Plain-value form of an `HttpOutcallError`.
pub enum HttpOutcallErrorView {
    IcError { code: RejectionCode, message: Seq<char> },
    InvalidHttpJsonRpcResponse { status: u16, body: Seq<char>, parsing_error: Option<Seq<char>> },
}

impl View for HttpOutcallError {
    type V = HttpOutcallErrorView;

    open spec fn view(&self) -> HttpOutcallErrorView {
        match self {
            HttpOutcallError::IcError { code, message } => HttpOutcallErrorView::IcError {
                code: *code,
                message: message@,
            },
            HttpOutcallError::InvalidHttpJsonRpcResponse { status, body, parsing_error } => {
                HttpOutcallErrorView::InvalidHttpJsonRpcResponse {
                    status: *status,
                    body: body@,
                    parsing_error: match parsing_error {
                        Some(e) => Some(e@),
                        None => None,
                    },
                }
            },
        }
    }
}

impl HttpOutcallError {
    /// Whether two transport failures are classified the same way.
    pub fn is_same_as(&self, other: &HttpOutcallError) -> (r: bool)
        ensures
            r == (self@ == other@),
    {
        match (self, other) {
            (
                HttpOutcallError::IcError { code: c1, message: m1 },
                HttpOutcallError::IcError { code: c2, message: m2 },
            ) => *c1 == *c2 && m1.eq(m2),
            (
                HttpOutcallError::InvalidHttpJsonRpcResponse {
                    status: s1,
                    body: b1,
                    parsing_error: pe_left,
                },
                HttpOutcallError::InvalidHttpJsonRpcResponse {
                    status: s2,
                    body: b2,
                    parsing_error: pe_right,
                },
            ) => {
                let same_parsing_error = match (pe_left, pe_right) {
                    (Some(e1), Some(e2)) => e1.eq(e2),
                    (None, None) => true,
                    _ => false,
                };
                *s1 == *s2 && b1.eq(b2) && same_parsing_error
            },
            _ => false,
        }
    }
}

/// A JSON-RPC answer: a result, or an error reported by the provider.
#[derive(Clone, Debug, PartialEq, Eq)]
pub enum JsonRpcResult<T> {
    Result(T),
    Error { code: i64, message: String },
}

/// The outcome of one call to one provider.
pub type HttpOutcallResult<T> = Result<T, HttpOutcallError>;

/// Whether an outcome carries a JSON-RPC result.
pub open spec fn is_success<T>(o: HttpOutcallResult<JsonRpcResult<T>>) -> bool {
    o matches Ok(JsonRpcResult::Result(_))
}

/// The value carried by a successful outcome.
pub open spec fn success_value<T>(o: HttpOutcallResult<JsonRpcResult<T>>) -> T
    recommends
        is_success(o),
{
    match o {
        Ok(JsonRpcResult::Result(v)) => v,
        _ => arbitrary(),
    }
}

/// Two outcomes are the same error: the same JSON-RPC code and message, or
/// the same transport failure. A success is consistent with nothing.
pub open spec fn errors_consistent<T>(
    left: HttpOutcallResult<JsonRpcResult<T>>,
    right: HttpOutcallResult<JsonRpcResult<T>>,
) -> bool {
    match (left, right) {
        (
            Ok(JsonRpcResult::Error { code: c1, message: m1 }),
            Ok(JsonRpcResult::Error { code: c2, message: m2 }),
        ) => c1 == c2 && m1@ == m2@,
        (Err(e1), Err(e2)) => e1@ == e2@,
        _ => false,
    }
}

/// Decides `errors_consistent`.
pub fn are_errors_consistent<T>(
    left: &HttpOutcallResult<JsonRpcResult<T>>,
    right: &HttpOutcallResult<JsonRpcResult<T>>,
) -> (r: bool)
    ensures
        r == errors_consistent(*left, *right),
{
    match (left, right) {
        (
            Ok(JsonRpcResult::Error { code: c1, message: m1 }),
            Ok(JsonRpcResult::Error { code: c2, message: m2 }),
        ) => *c1 == *c2 && m1.eq(m2),
        (Err(e1), Err(e2)) => e1.is_same_as(e2),
        _ => false,
    }
}

/// An upper bound, in bytes, on the size of a response, used to size the
/// transport buffer of an outcall.
#[derive(Clone, Copy, Debug, PartialEq, Eq, Structural)]
pub struct ResponseSizeEstimate(u64);

impl ResponseSizeEstimate {
    pub closed spec fn spec_get(self) -> u64 {
        self.0
    }

    pub fn new(num_bytes: u64) -> (r: Self)
        ensures
            r.spec_get() == num_bytes,
    {
        ResponseSizeEstimate(num_bytes)
    }

    pub fn get(self) -> (r: u64)
        ensures
            r == self.spec_get(),
    {
        self.0
    }
}

} // verus!
