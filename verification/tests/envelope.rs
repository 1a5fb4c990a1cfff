use jsonrpc_dispatch::ErrorCode;
use jsonrpc_dispatch::ErrorObject;
use jsonrpc_dispatch::Id;
use jsonrpc_dispatch::JsonValue;
use jsonrpc_dispatch::RpcPayload;
use jsonrpc_dispatch::RpcRequest;
use jsonrpc_dispatch::RpcResponse;
use jsonrpc_dispatch::parse_json;

#[test]
fn reserved_codes_match_the_wire_table() {
    assert_eq!(ErrorCode::ParseError.code(), -32700);
    assert_eq!(ErrorCode::InvalidRequest.code(), -32600);
    assert_eq!(ErrorCode::MethodNotFound.code(), -32601);
    assert_eq!(ErrorCode::InvalidParams.code(), -32602);
    assert_eq!(ErrorCode::InternalError.code(), -32603);
    assert_eq!(ErrorCode::ServerIsBusy.code(), -32009);
    assert_eq!(ErrorCode::OversizedRequest.code(), -32007);
    assert_eq!(ErrorCode::ServerError(-32000).code(), -32000);
}

#[test]
fn canonical_messages() {
    assert_eq!(ErrorCode::ParseError.message(), "Parse error");
    assert_eq!(ErrorCode::InvalidRequest.message(), "Invalid request");
    assert_eq!(ErrorCode::MethodNotFound.message(), "Method not found");
    assert_eq!(ErrorCode::InvalidParams.message(), "Invalid params");
    assert_eq!(ErrorCode::InternalError.message(), "Internal error");
    assert_eq!(
        ErrorCode::ServerIsBusy.message(),
        "Server is busy, try again later"
    );
    assert_eq!(ErrorCode::OversizedRequest.message(), "Request is too big");
    assert_eq!(ErrorCode::ServerError(123).message(), "Server error");
}

#[test]
fn from_code_round_trips_reserved_and_arbitrary_codes() {
    for c in [-32700, -32600, -32601, -32602, -32603, -32009, -32007, -32000, 0, 17, i32::MIN] {
        let first = ErrorCode::from(c);
        let again = ErrorCode::from(ErrorCode::from(first.code()).code());
        assert_eq!(first, again);
    }
    assert_eq!(ErrorCode::from(-32700), ErrorCode::ParseError);
    assert_eq!(ErrorCode::from(-31999), ErrorCode::ServerError(-31999));
}

#[test]
fn serialize_works() {
    let exp = r#"{"code":-32603,"message":"Internal error"}"#;
    let err: ErrorObject = ErrorObject::from_code(ErrorCode::InternalError);
    let ser = err.dump();
    assert_eq!(exp, ser);
}

#[test]
fn deserialize_works() {
    let ser = r#"{"code":-32700,"message":"Parse error"}"#;
    let exp: ErrorObject = ErrorObject::from_code(ErrorCode::ParseError);
    let err: ErrorObject = ErrorObject::parse(ser).unwrap();
    assert_eq!(exp, err);
}

#[test]
fn error_object_deserializes_in_either_field_order() {
    let err = ErrorObject::parse(r#"{ "message" : "boom" , "code" : 7 }"#).unwrap();
    assert_eq!(err.code(), 7);
    assert_eq!(err.message(), "boom");
}

#[test]
fn error_object_with_extra_fields_is_refused() {
    assert!(ErrorObject::parse(r#"{"code":-32700,"message":"Parse error","data":"x"}"#).is_none());
    assert!(ErrorObject::parse(r#"{"code":1,"code":2,"message":"m"}"#).is_none());
    assert!(ErrorObject::parse(r#"{"code":1}"#).is_none());
    assert!(ErrorObject::parse(r#"{"code":1.5,"message":"m"}"#).is_none());
    assert!(ErrorObject::parse(r#"{"code":3000000000,"message":"m"}"#).is_none());
}

#[test]
fn error_object_serialization_round_trips() {
    let original = ErrorObject::new(ErrorCode::ServerError(-32050), "a \"quoted\"\n\tmessage \\".to_string());
    let parsed = ErrorObject::parse(&original.dump()).unwrap();
    assert_eq!(original, parsed);
}

#[test]
fn value_dump_renders_scalars() {
    assert_eq!(JsonValue::Null.dump(), "null");
    assert_eq!(JsonValue::Bool(true).dump(), "true");
    assert_eq!(JsonValue::Bool(false).dump(), "false");
    assert_eq!(JsonValue::of_u64(0).dump(), "0");
    assert_eq!(JsonValue::of_u64(18446744073709551615).dump(), "18446744073709551615");
    assert_eq!(JsonValue::Num("-12.5e-3".to_string()).dump(), "-12.5e-3");
    assert_eq!(JsonValue::Str("hi".to_string()).dump(), "\"hi\"");
}

#[test]
fn value_dump_escapes_strings_like_the_wire_wants() {
    let v = JsonValue::Str("a\"b\\c\nd\te\r\u{8}\u{c}\u{1}ü".to_string());
    assert_eq!(v.dump(), "\"a\\\"b\\\\c\\nd\\te\\r\\b\\f\\u0001ü\"");
}

#[test]
fn value_dump_renders_nested_structures() {
    let v = JsonValue::Array(vec![
        JsonValue::Null,
        JsonValue::Object(vec![
            ("k".to_string(), JsonValue::of_u64(1)),
            ("l".to_string(), JsonValue::Array(vec![])),
        ]),
        JsonValue::Bool(true),
    ]);
    assert_eq!(v.dump(), r#"[null,{"k":1,"l":[]},true]"#);
}

#[test]
fn parse_json_accepts_scalars_and_whitespace() {
    assert_eq!(parse_json(" null ").unwrap().dump(), "null");
    assert_eq!(parse_json("\t[ true,false , null ]\r\n").unwrap().dump(), "[true,false,null]");
    assert_eq!(parse_json("0").unwrap().dump(), "0");
    assert_eq!(parse_json("-0.5e+10").unwrap().dump(), "-0.5e+10");
    assert_eq!(parse_json(r#""s""#).unwrap().dump(), "\"s\"");
}

#[test]
fn parse_json_decodes_escapes_and_surrogate_pairs() {
    let v = parse_json(r#""aA\n\t\"\\\/😀""#).unwrap();
    match v {
        JsonValue::Str(s) => assert_eq!(s, "aA\n\t\"\\/\u{1F600}"),
        _ => panic!("expected a string"),
    }
}

#[test]
fn parse_json_rejects_malformed_text() {
    assert!(parse_json("").is_none());
    assert!(parse_json("{").is_none());
    assert!(parse_json("01").is_none());
    assert!(parse_json("1.").is_none());
    assert!(parse_json("+1").is_none());
    assert!(parse_json("truth").is_none());
    assert!(parse_json("[1,]").is_none());
    assert!(parse_json("[1] extra").is_none());
    assert!(parse_json("\"unterminated").is_none());
    assert!(parse_json("\"\u{1}\"").is_none());
    assert!(parse_json(r#""\ud800""#).is_none());
    assert!(parse_json(r#""\q""#).is_none());
    assert!(parse_json(r#"{"a" 1}"#).is_none());
}

#[test]
fn parse_json_refuses_nesting_beyond_the_recursion_limit() {
    let mut deep = String::new();
    for _ in 0..200 {
        deep.push('[');
    }
    for _ in 0..200 {
        deep.push(']');
    }
    assert!(parse_json(&deep).is_none());
    let mut shallow = String::new();
    for _ in 0..100 {
        shallow.push('[');
    }
    for _ in 0..100 {
        shallow.push(']');
    }
    assert!(parse_json(&shallow).is_some());
}

#[test]
fn request_parse_reads_a_full_request() {
    let req = RpcRequest::parse(
        r#"{"jsonrpc":"2.0","method":"add","params":[2,3],"id":1}"#,
    )
    .unwrap();
    assert_eq!(req.jsonrpc, "2.0");
    assert_eq!(req.method, "add");
    let ps = req.params.as_ref().unwrap();
    assert_eq!(ps.len(), 2);
    assert_eq!(ps[0].dump(), "2");
    assert_eq!(ps[1].dump(), "3");
    assert_eq!(req.id, Id::Number(1));
}

#[test]
fn request_parse_accepts_any_field_order_and_null_params() {
    let req = RpcRequest::parse(
        r#"{ "id" : "seven" , "params" : null , "method" : "m" , "jsonrpc" : "2.0" }"#,
    )
    .unwrap();
    assert_eq!(req.method, "m");
    assert!(req.params.is_none());
    assert_eq!(req.id, Id::Str("seven".to_string()));
}

#[test]
fn request_parse_rejects_bad_envelopes() {
    // not JSON at all
    assert!(RpcRequest::parse("nonsense").is_err());
    // missing required fields
    assert!(RpcRequest::parse(r#"{"jsonrpc":"2.0","method":"m"}"#).is_err());
    assert!(RpcRequest::parse(r#"{"jsonrpc":"2.0","params":[],"id":1}"#).is_err());
    // unknown extra field
    assert!(
        RpcRequest::parse(r#"{"jsonrpc":"2.0","method":"m","params":[],"id":1,"x":0}"#).is_err()
    );
    // duplicate field
    assert!(
        RpcRequest::parse(r#"{"jsonrpc":"2.0","method":"m","method":"n","id":1}"#).is_err()
    );
    // wrong version literal
    assert!(RpcRequest::parse(r#"{"jsonrpc":"1.0","method":"m","id":1}"#).is_err());
    // ids that are not null, a digit-run number, or a string
    assert!(RpcRequest::parse(r#"{"jsonrpc":"2.0","method":"m","id":1.5}"#).is_err());
    assert!(RpcRequest::parse(r#"{"jsonrpc":"2.0","method":"m","id":-1}"#).is_err());
    assert!(RpcRequest::parse(r#"{"jsonrpc":"2.0","method":"m","id":[1]}"#).is_err());
    // params that are neither an array nor null
    assert!(RpcRequest::parse(r#"{"jsonrpc":"2.0","method":"m","params":{},"id":1}"#).is_err());
    // top level is not an object
    assert!(RpcRequest::parse(r#"[1,2]"#).is_err());
}

#[test]
fn request_parse_accepts_the_largest_numeric_id() {
    let req =
        RpcRequest::parse(r#"{"jsonrpc":"2.0","method":"m","id":18446744073709551615}"#).unwrap();
    assert_eq!(req.id, Id::Number(u64::MAX));
    assert!(RpcRequest::parse(r#"{"jsonrpc":"2.0","method":"m","id":18446744073709551616}"#)
        .is_err());
}

#[test]
fn request_dump_renders_the_envelope() {
    let req = RpcRequest {
        jsonrpc: "2.0".to_string(),
        method: "add".to_string(),
        params: Some(vec![JsonValue::of_u64(2), JsonValue::of_u64(3)]),
        id: Id::Number(9),
    };
    assert_eq!(req.dump(), r#"{"jsonrpc":"2.0","method":"add","params":[2,3],"id":9}"#);
    let bare = RpcRequest {
        jsonrpc: "2.0".to_string(),
        method: "getVersion".to_string(),
        params: None,
        id: Id::Str("q".to_string()),
    };
    assert_eq!(
        bare.dump(),
        r#"{"jsonrpc":"2.0","method":"getVersion","params":null,"id":"q"}"#
    );
}

#[test]
fn response_dump_has_exactly_one_of_result_or_error() {
    let ok = RpcResponse::of_payload(Id::Number(3), RpcPayload::Result(JsonValue::of_u64(5)));
    assert_eq!(ok.dump(), r#"{"jsonrpc":"2.0","result":5,"id":3}"#);
    let err = RpcResponse::of_payload(
        Id::Str("a".to_string()),
        RpcPayload::Error(ErrorObject::from_code(ErrorCode::MethodNotFound)),
    );
    assert_eq!(
        err.dump(),
        r#"{"jsonrpc":"2.0","error":{"code":-32601,"message":"Method not found"},"id":"a"}"#
    );
}

#[test]
fn default_response_is_the_null_result_under_the_null_id() {
    let d = RpcResponse::default();
    assert_eq!(d.dump(), r#"{"jsonrpc":"2.0","result":null,"id":null}"#);
    assert!(matches!(RpcPayload::default(), RpcPayload::Result(JsonValue::Null)));
}

#[test]
fn request_round_trips_through_dump_and_parse() {
    let req = RpcRequest {
        jsonrpc: "2.0".to_string(),
        method: "do it".to_string(),
        params: Some(vec![JsonValue::Str("x\n".to_string()), JsonValue::Null]),
        id: Id::Number(42),
    };
    let again = RpcRequest::parse(&req.dump()).unwrap();
    assert_eq!(again.method, req.method);
    assert_eq!(again.id, req.id);
    assert_eq!(again.params.as_ref().unwrap().len(), 2);
    assert_eq!(again.dump(), req.dump());
}

#[test]
fn error_objects_duplicate_equal() {
    let e = ErrorObject::new(ErrorCode::ServerError(9), "nine".to_string());
    assert_eq!(e.duplicate(), e);
}

#[test]
fn request_parse_accepts_the_zero_id() {
    let req = RpcRequest::parse(r#"{"jsonrpc":"2.0","method":"m","id":0}"#).unwrap();
    assert_eq!(req.id, Id::Number(0));
}
