//! The response envelope and its result-or-error payload.

use vstd::prelude::*;

use crate::error_code::spec_message;
use crate::error_code::ErrorCode;
use crate::error_object::ErrorObject;
use crate::id::Id;
use crate::json::JsonValue;
use crate::request::spec_version;

verus! {

/// The payload of a response: exactly one of a result value or an
/// error object, never both, never neither.
#[derive(Debug)]
pub enum RpcPayload {
    /// A successful response; serialized under the field `result`.
    Result(JsonValue),
    /// A failed response; serialized under the field `error`.
    Error(ErrorObject),
}

impl RpcPayload {
    /// An error payload with the canonical message of `code`.
    pub fn from_code(code: ErrorCode) -> (r: Self)
        ensures
            r matches RpcPayload::Error(e) && e.code == code && e.message@ == spec_message(code),
    {
        RpcPayload::Error(ErrorObject::from_code(code))
    }
}

impl Default for RpcPayload {
    /// A null result.
    fn default() -> (r: Self)
        ensures
            r == RpcPayload::Result(JsonValue::Null),
    {
        RpcPayload::Result(JsonValue::Null)
    }
}

/// A server answers every call with one response object.
#[derive(Debug)]
pub struct RpcResponse {
    /// The version of the JSON-RPC protocol; exactly `"2.0"`.
    pub jsonrpc: String,
    /// The result-or-error payload.
    pub payload: RpcPayload,
    /// The id of the request this response answers; `Null` when that
    /// id could not be read (a parse failure).
    pub id: Id,
}

impl RpcResponse {
    /// The response that answers the request with id `id` by
    /// `payload`.
    pub fn of_payload(id: Id, payload: RpcPayload) -> (r: Self)
        ensures
            r.jsonrpc@ == spec_version(),
            r.payload == payload,
            r.id == id,
    {
        RpcResponse { jsonrpc: "2.0".to_owned(), payload, id }
    }
}

impl Default for RpcResponse {
    /// The empty response: version `"2.0"`, a null result, a null
    /// id.  The seed for the parse-failure case, before any real id
    /// is known.
    fn default() -> (r: Self)
        ensures
            r.jsonrpc@ == spec_version(),
            r.payload == RpcPayload::Result(JsonValue::Null),
            r.id == Id::Null,
    {
        RpcResponse { jsonrpc: "2.0".to_owned(), payload: RpcPayload::Result(JsonValue::Null), id: Id::Null }
    }
}

} // verus!
