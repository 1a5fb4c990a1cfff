//! The JSON-RPC error-code taxonomy: the reserved codes, their
//! canonical messages, and the total conversion between integer codes
//! and typed variants.

use vstd::prelude::*;

verus! {

/// Integer code of a parse failure.
pub const PARSE_ERROR_CODE: i32 = -32700;
/// Integer code of a malformed request object.
pub const INVALID_REQUEST_CODE: i32 = -32600;
/// Integer code of an unknown method.
pub const METHOD_NOT_FOUND_CODE: i32 = -32601;
/// Integer code of a parameter-binding failure.
pub const INVALID_PARAMS_CODE: i32 = -32602;
/// Integer code of a handler failure.
pub const INTERNAL_ERROR_CODE: i32 = -32603;
/// Integer code of a request that was too big.
pub const OVERSIZED_REQUEST_CODE: i32 = -32007;
/// Integer code of a server at capacity.
pub const SERVER_IS_BUSY_CODE: i32 = -32009;

/// A JSON-RPC error code: one of the reserved codes, or any other
/// integer carried by `ServerError`.
#[derive(Debug, Clone, Copy, PartialEq, Eq, Structural)]
pub enum ErrorCode {
    /// Invalid JSON was received by the server.
    ParseError,
    /// The request was too big.
    OversizedRequest,
    /// The JSON sent is not a valid request object.
    InvalidRequest,
    /// The method does not exist / is not available.
    MethodNotFound,
    /// Server is busy / resources are at capacity.
    ServerIsBusy,
    /// Invalid method parameter(s).
    InvalidParams,
    /// Internal JSON-RPC error.
    InternalError,
    /// Reserved for implementation-defined server errors.
    ServerError(i32),
}

/// The integer wire code of each variant.
pub open spec fn spec_code(c: ErrorCode) -> i32 {
    match c {
        ErrorCode::ParseError => PARSE_ERROR_CODE,
        ErrorCode::OversizedRequest => OVERSIZED_REQUEST_CODE,
        ErrorCode::InvalidRequest => INVALID_REQUEST_CODE,
        ErrorCode::MethodNotFound => METHOD_NOT_FOUND_CODE,
        ErrorCode::ServerIsBusy => SERVER_IS_BUSY_CODE,
        ErrorCode::InvalidParams => INVALID_PARAMS_CODE,
        ErrorCode::InternalError => INTERNAL_ERROR_CODE,
        ErrorCode::ServerError(code) => code,
    }
}

/// The typed variant of an integer wire code: total, with every
/// non-reserved integer mapped to `ServerError`.
pub open spec fn spec_from_code(code: i32) -> ErrorCode {
    if code == PARSE_ERROR_CODE {
        ErrorCode::ParseError
    } else if code == OVERSIZED_REQUEST_CODE {
        ErrorCode::OversizedRequest
    } else if code == INVALID_REQUEST_CODE {
        ErrorCode::InvalidRequest
    } else if code == METHOD_NOT_FOUND_CODE {
        ErrorCode::MethodNotFound
    } else if code == SERVER_IS_BUSY_CODE {
        ErrorCode::ServerIsBusy
    } else if code == INVALID_PARAMS_CODE {
        ErrorCode::InvalidParams
    } else if code == INTERNAL_ERROR_CODE {
        ErrorCode::InternalError
    } else {
        ErrorCode::ServerError(code)
    }
}

/// The canonical message of each variant.  `ServerError` carries one
/// fixed generic message whatever its code.
pub open spec fn spec_message(c: ErrorCode) -> Seq<char> {
    match c {
        ErrorCode::ParseError => "Parse error"@,
        ErrorCode::OversizedRequest => "Request is too big"@,
        ErrorCode::InvalidRequest => "Invalid request"@,
        ErrorCode::MethodNotFound => "Method not found"@,
        ErrorCode::ServerIsBusy => "Server is busy, try again later"@,
        ErrorCode::InvalidParams => "Invalid params"@,
        ErrorCode::InternalError => "Internal error"@,
        ErrorCode::ServerError(_) => "Server error"@,
    }
}

impl ErrorCode {
    /// Returns the integer code value.
    pub fn code(&self) -> (r: i32)
        ensures
            r == spec_code(*self),
    {
        match *self {
            ErrorCode::ParseError => PARSE_ERROR_CODE,
            ErrorCode::OversizedRequest => OVERSIZED_REQUEST_CODE,
            ErrorCode::InvalidRequest => INVALID_REQUEST_CODE,
            ErrorCode::MethodNotFound => METHOD_NOT_FOUND_CODE,
            ErrorCode::ServerIsBusy => SERVER_IS_BUSY_CODE,
            ErrorCode::InvalidParams => INVALID_PARAMS_CODE,
            ErrorCode::InternalError => INTERNAL_ERROR_CODE,
            ErrorCode::ServerError(code) => code,
        }
    }

    /// Returns the canonical message for the code.
    pub fn message(&self) -> (r: &'static str)
        ensures
            r@ == spec_message(*self),
    {
        match *self {
            ErrorCode::ParseError => "Parse error",
            ErrorCode::OversizedRequest => "Request is too big",
            ErrorCode::InvalidRequest => "Invalid request",
            ErrorCode::MethodNotFound => "Method not found",
            ErrorCode::ServerIsBusy => "Server is busy, try again later",
            ErrorCode::InvalidParams => "Invalid params",
            ErrorCode::InternalError => "Internal error",
            ErrorCode::ServerError(_) => "Server error",
        }
    }
}

impl From<i32> for ErrorCode {
    /// The typed variant of an integer code; never fails.
    fn from(code: i32) -> (r: Self) {
        if code == PARSE_ERROR_CODE {
            ErrorCode::ParseError
        } else if code == OVERSIZED_REQUEST_CODE {
            ErrorCode::OversizedRequest
        } else if code == INVALID_REQUEST_CODE {
            ErrorCode::InvalidRequest
        } else if code == METHOD_NOT_FOUND_CODE {
            ErrorCode::MethodNotFound
        } else if code == SERVER_IS_BUSY_CODE {
            ErrorCode::ServerIsBusy
        } else if code == INVALID_PARAMS_CODE {
            ErrorCode::InvalidParams
        } else if code == INTERNAL_ERROR_CODE {
            ErrorCode::InternalError
        } else {
            ErrorCode::ServerError(code)
        }
    }
}

impl vstd::std_specs::convert::FromSpecImpl<i32> for ErrorCode {
    open spec fn obeys_from_spec() -> bool {
        true
    }

    open spec fn from_spec(code: i32) -> Self {
        spec_from_code(code)
    }
}

/// Converting any integer to a typed code and back to an integer and
/// to a typed code again lands on the same typed code: the typed form
/// of a wire code is stable under one round trip through the wire.
pub proof fn lemma_from_code_round_trip(code: i32)
    ensures
        spec_from_code(spec_code(spec_from_code(code))) == spec_from_code(code),
{
}

} // verus!
