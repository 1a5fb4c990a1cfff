use jsonrpc_dispatch::complete_failed;
use jsonrpc_dispatch::complete_ok;
use jsonrpc_dispatch::conversion_failed;
use jsonrpc_dispatch::parse_error_response;
use jsonrpc_dispatch::DispatchStep;
use jsonrpc_dispatch::HandleStep;
use jsonrpc_dispatch::Id;
use jsonrpc_dispatch::JsonValue;
use jsonrpc_dispatch::RpcModule;
use jsonrpc_dispatch::RpcPayload;
use jsonrpc_dispatch::RpcResponse;

const GET_VERSION: usize = 0;
const ADD: usize = 1;

fn module() -> RpcModule<u32> {
    let mut m = RpcModule::new(7);
    m.register("getVersion".to_string(), 0, GET_VERSION);
    m.register("add".to_string(), 2, ADD);
    m
}

fn error_of(step: DispatchStep) -> (i32, String) {
    match step {
        DispatchStep::Done(RpcPayload::Error(e)) => (e.code(), e.message().to_string()),
        _ => panic!("expected a finished error payload"),
    }
}

#[test]
fn unknown_method_returns_method_not_found() {
    let m = module();
    let (code, message) = error_of(m.call("nope", None));
    assert_eq!(code, -32601);
    assert_eq!(message, "Method not found");
}

#[test]
fn context_is_available_to_dispatches() {
    let m = module();
    assert_eq!(*m.ctx(), 7);
}

#[test]
fn zero_arity_accepts_absent_or_empty_params() {
    let m = module();
    match m.call("getVersion", None) {
        DispatchStep::Invoke { handler, args } => {
            assert_eq!(handler, GET_VERSION);
            assert!(args.is_empty());
        }
        _ => panic!("expected an invocation"),
    }
    assert!(matches!(m.call("getVersion", Some(vec![])), DispatchStep::Invoke { .. }));
}

#[test]
fn zero_arity_rejects_any_params() {
    let m = module();
    let (code, message) = error_of(m.call("getVersion", Some(vec![JsonValue::of_u64(1)])));
    assert_eq!(code, -32602);
    assert_eq!(message, "No params were expected");
}

#[test]
fn two_arity_binds_positionally() {
    let m = module();
    match m.call("add", Some(vec![JsonValue::of_u64(2), JsonValue::of_u64(3)])) {
        DispatchStep::Invoke { handler, args } => {
            assert_eq!(handler, ADD);
            assert_eq!(args.len(), 2);
            assert_eq!(args[0].dump(), "2");
            assert_eq!(args[1].dump(), "3");
        }
        _ => panic!("expected an invocation"),
    }
}

#[test]
fn missing_trailing_params_are_bound_from_null() {
    let m = module();
    match m.call("add", Some(vec![JsonValue::of_u64(2)])) {
        DispatchStep::Invoke { args, .. } => {
            assert_eq!(args.len(), 2);
            assert_eq!(args[0].dump(), "2");
            assert_eq!(args[1].dump(), "null");
        }
        _ => panic!("expected an invocation"),
    }
}

#[test]
fn extra_trailing_params_are_ignored() {
    let m = module();
    match m.call(
        "add",
        Some(vec![JsonValue::of_u64(1), JsonValue::of_u64(2), JsonValue::of_u64(3)]),
    ) {
        DispatchStep::Invoke { args, .. } => {
            assert_eq!(args.len(), 2);
            assert_eq!(args[1].dump(), "2");
        }
        _ => panic!("expected an invocation"),
    }
}

#[test]
fn positive_arity_rejects_absent_params() {
    let m = module();
    let (code, message) = error_of(m.call("add", None));
    assert_eq!(code, -32602);
    assert_eq!(message, "Invalid params");
}

#[test]
fn last_registration_of_a_name_wins() {
    let mut m = RpcModule::new(());
    m.register("m".to_string(), 1, 10);
    m.register("m".to_string(), 0, 11);
    assert_eq!(m.lookup("m"), Some((0, 11)));
    match m.call("m", None) {
        DispatchStep::Invoke { handler, args } => {
            assert_eq!(handler, 11);
            assert!(args.is_empty());
        }
        _ => panic!("expected an invocation"),
    }
}

#[test]
fn lookup_reports_registered_methods_only() {
    let m = module();
    assert_eq!(m.lookup("add"), Some((2, ADD)));
    assert_eq!(m.lookup("getVersion"), Some((0, GET_VERSION)));
    assert_eq!(m.lookup("Add"), None);
}

#[test]
fn handler_success_becomes_a_result_payload() {
    let payload = complete_ok(JsonValue::of_u64(5));
    let resp = RpcResponse::of_payload(Id::Number(1), payload);
    assert_eq!(resp.dump(), r#"{"jsonrpc":"2.0","result":5,"id":1}"#);
}

#[test]
fn handler_failure_becomes_internal_error_with_the_rendering() {
    let payload = complete_failed("Custom { detail: \"boom\" }".to_string());
    match &payload {
        RpcPayload::Error(e) => {
            assert_eq!(e.code(), -32603);
            assert!(e.message().contains("boom"));
            assert_eq!(e.message(), "Custom { detail: \"boom\" }");
        }
        _ => panic!("expected an error payload"),
    }
    let resp = RpcResponse::of_payload(Id::Number(4), payload);
    assert_eq!(resp.id, Id::Number(4));
}

#[test]
fn conversion_failure_embeds_the_diagnostic() {
    match conversion_failed("invalid type: string \"x\", expected u32") {
        RpcPayload::Error(e) => {
            assert_eq!(e.code(), -32602);
            assert_eq!(e.message(), "Invalid params: invalid type: string \"x\", expected u32");
        }
        _ => panic!("expected an error payload"),
    }
}

#[test]
fn handle_answers_unparseable_text_under_the_null_id() {
    let m = module();
    for text in ["not json", "", "{\"jsonrpc\":\"2.0\"}", "[1]"] {
        match m.handle(text) {
            HandleStep::Reply(resp) => {
                assert_eq!(
                    resp.dump(),
                    r#"{"jsonrpc":"2.0","error":{"code":-32700,"message":"Parse error"},"id":null}"#
                );
            }
            _ => panic!("expected a reply"),
        }
    }
}

#[test]
fn handle_preserves_the_id_of_an_unknown_method() {
    let m = module();
    match m.handle(r#"{"jsonrpc":"2.0","method":"nope","params":[],"id":7}"#) {
        HandleStep::Reply(resp) => {
            assert_eq!(
                resp.dump(),
                r#"{"jsonrpc":"2.0","error":{"code":-32601,"message":"Method not found"},"id":7}"#
            );
        }
        _ => panic!("expected a reply"),
    }
}

#[test]
fn handle_runs_the_whole_pipeline_to_an_invocation() {
    let m = module();
    match m.handle(r#"{"jsonrpc":"2.0","method":"add","params":[2,3],"id":"r1"}"#) {
        HandleStep::Invoke { handler, args, id } => {
            assert_eq!(handler, ADD);
            assert_eq!(args.len(), 2);
            assert_eq!(args[0].dump(), "2");
            assert_eq!(args[1].dump(), "3");
            assert_eq!(id, Id::Str("r1".to_string()));
            let resp = RpcResponse::of_payload(id, complete_ok(JsonValue::of_u64(5)));
            assert_eq!(resp.dump(), r#"{"jsonrpc":"2.0","result":5,"id":"r1"}"#);
        }
        _ => panic!("expected an invocation"),
    }
}

#[test]
fn handle_reports_binding_failures_under_the_request_id() {
    let m = module();
    match m.handle(r#"{"jsonrpc":"2.0","method":"getVersion","params":[1],"id":2}"#) {
        HandleStep::Reply(resp) => {
            assert_eq!(
                resp.dump(),
                r#"{"jsonrpc":"2.0","error":{"code":-32602,"message":"No params were expected"},"id":2}"#
            );
        }
        _ => panic!("expected a reply"),
    }
}

#[test]
fn parse_error_response_is_the_canonical_seed() {
    let resp = parse_error_response();
    assert_eq!(
        resp.dump(),
        r#"{"jsonrpc":"2.0","error":{"code":-32700,"message":"Parse error"},"id":null}"#
    );
}

#[test]
fn ids_duplicate_equal() {
    let id = Id::Str("x".to_string());
    assert_eq!(id.duplicate(), id);
    assert_eq!(Id::Number(3).duplicate(), Id::Number(3));
    assert_eq!(Id::Null.duplicate(), Id::Null);
    assert_ne!(Id::Null, Id::Number(0));
}

#[test]
fn default_module_is_empty() {
    let m: RpcModule<u32> = RpcModule::default();
    assert_eq!(*m.ctx(), 0);
    assert_eq!(m.lookup("anything"), None);
}
