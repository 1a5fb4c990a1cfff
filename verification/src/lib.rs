//! A JSON-RPC 2.0 method-dispatch core.
//!
//! The crate models the protocol envelope (requests, responses, ids,
//! error objects), the reserved error-code taxonomy, a positional
//! parameter binder, and a name-keyed method registry.  Dispatch is a
//! single pass: look the method up, bind the parameters, and normalize
//! the handler's outcome into a result-or-error payload.  Handler
//! bodies themselves run outside this crate; the dispatcher tells its
//! caller which handler to invoke and with which arguments, and turns
//! the handler's outcome back into a payload.

pub mod binder;
pub mod error_code;
pub mod error_object;
pub mod id;
pub mod json;
pub mod methods;
pub mod parse;
pub mod request;
pub mod response;
pub mod ser;

pub use error_code::ErrorCode;
pub use error_object::ErrorObject;
pub use id::Id;
pub use json::JsonValue;
pub use methods::complete_failed;
pub use methods::complete_ok;
pub use methods::conversion_failed;
pub use methods::parse_error_response;
pub use methods::DispatchStep;
pub use methods::HandleStep;
pub use methods::MethodEntry;
pub use methods::RpcModule;
pub use parse::parse_json;
pub use request::RpcRequest;
pub use response::RpcPayload;
pub use response::RpcResponse;
