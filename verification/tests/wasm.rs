use fywaf::engine::{Decision, RequestMeta, WafEngine};
use fywaf::ordered::TextMap;
use fywaf::wasm::types::{WasmDecision, WasmRequest};
use fywaf::wasm::vm::{request_room, result_size, WasmError, WasmVm};

/// Always allows; the decision lies behind the first page.
const ALLOW_ALL_WAT: &[u8] = br#"(module
  (memory (export "memory") 2)
  (func (export "get_req_ptr") (result i32) i32.const 0)
  (func (export "get_result_ptr") (result i32) i32.const 65536)
  (data (i32.const 65536) "{\"allow\":true,\"status\":200}")
  (func (export "decide") (param i32) (result i32) i32.const 27)
)"#;

/// Always refuses with 403.
const BLOCK_ALL_WAT: &[u8] = br#"(module
  (memory (export "memory") 2)
  (func (export "get_req_ptr") (result i32) i32.const 0)
  (func (export "get_result_ptr") (result i32) i32.const 65536)
  (data (i32.const 65536) "{\"allow\":false,\"status\":403,\"message\":\"blocked\",\"rule_id\":\"blk\"}")
  (func (export "decide") (param i32) (result i32) i32.const 64)
)"#;

const MAX_REQUEST_JSON_LEN: usize = 65536;

/// A module with the given places and length, whose decision is the request.
fn echo(memory: &str, req_ptr: i32, result_ptr: i32, len: &str) -> String {
    format!(
        r#"(module
  (memory (export "memory") {})
  (func (export "get_req_ptr") (result i32) i32.const {})
  (func (export "get_result_ptr") (result i32) i32.const {})
  (func (export "decide") (param i32) (result i32) {})
)"#,
        memory, req_ptr, result_ptr, len
    )
}

fn text_or_null(v: Option<&str>) -> serde_json::Value {
    match v {
        Some(s) => serde_json::Value::from(s),
        None => serde_json::Value::Null,
    }
}

fn to_json(req: &WasmRequest) -> String {
    let mut headers = serde_json::Map::new();
    for i in 0..req.headers.len() {
        headers.insert(
            req.headers.key(i).to_string(),
            serde_json::Value::from(req.headers.value(i).as_str()),
        );
    }
    let mut map = serde_json::Map::new();
    map.insert("client_ip".to_string(), serde_json::Value::from(req.client_ip));
    map.insert("method".to_string(), serde_json::Value::from(req.method));
    map.insert("path".to_string(), serde_json::Value::from(req.path));
    map.insert("query".to_string(), text_or_null(req.query));
    map.insert("user_agent".to_string(), text_or_null(req.user_agent));
    map.insert("headers".to_string(), serde_json::Value::Object(headers));
    map.insert("body".to_string(), text_or_null(req.body));
    serde_json::to_string(&serde_json::Value::Object(map)).unwrap()
}

fn from_json(json: &str) -> WasmDecision {
    let value: serde_json::Value = serde_json::from_str(json).unwrap();
    let text = |name: &str| value[name].as_str().map(|s| s.to_string());
    WasmDecision {
        allow: value["allow"].as_bool().unwrap(),
        status: value["status"].as_u64().map(|n| n as u16),
        message: text("message"),
        rule_id: text("rule_id"),
    }
}

fn vm_with(profile_id: &str, wat: &[u8]) -> WasmVm {
    let mut vm = WasmVm::new().unwrap();
    vm.load_module_from_bytes(profile_id, wat).unwrap();
    vm
}

fn make_request() -> String {
    let headers = TextMap::new();
    to_json(&WasmRequest {
        client_ip: "127.0.0.1",
        method: "GET",
        path: "/",
        query: None,
        user_agent: None,
        headers: &headers,
        body: None,
        params: None,
    })
}

fn make_req(path: &str) -> RequestMeta {
    RequestMeta {
        client_ip: "192.168.1.1".to_string(),
        method: "GET".to_string(),
        path: path.to_string(),
        query: None,
        user_agent: None,
        headers: TextMap::new(),
        body: None,
    }
}

fn engine_with_wat(profile_id: &str, wat: &[u8]) -> WafEngine {
    let mut engine = WafEngine::new().unwrap();
    engine.load_profile(profile_id, TextMap::new(), wat).unwrap();
    engine
}

fn decide(engine: &WafEngine, profile_id: &str, req: &RequestMeta) -> Decision {
    let json = to_json(&engine.wasm_request(profile_id, req));
    let decision = engine.decide(profile_id, &json).unwrap();
    Decision::from_module(profile_id, from_json(&decision))
}

fn error_of(wat: &str) -> String {
    vm_with("p", wat.as_bytes()).decide("p", "{\"allow\":true}").unwrap_err().message().unwrap()
}

fn load_error(wat: &str) -> String {
    let mut vm = WasmVm::new().unwrap();
    let error = vm.load_module_from_bytes("p", wat.as_bytes()).unwrap_err();
    assert!(!vm.has_profile("p"));
    error.message().unwrap_or("runtime".to_string())
}

#[test]
fn wasm_vm_creation() {
    let vm = WasmVm::new();
    assert!(vm.is_ok());
}

#[test]
fn missing_profile() {
    let vm = WasmVm::new().unwrap();
    let req = make_request();
    let result = vm.decide("nonexistent", &req);
    assert!(result.is_err());
}

#[test]
fn decide_allow_all() {
    let vm = vm_with("allow", ALLOW_ALL_WAT);
    let decision = from_json(&vm.decide("allow", &make_request()).unwrap());
    assert!(decision.allow);
    assert_eq!(decision.status, Some(200));
}

#[test]
fn decide_block_all() {
    let vm = vm_with("block", BLOCK_ALL_WAT);
    let decision = from_json(&vm.decide("block", &make_request()).unwrap());
    assert!(!decision.allow);
    assert_eq!(decision.status, Some(403));
    assert_eq!(decision.message.as_deref(), Some("blocked"));
    assert_eq!(decision.rule_id.as_deref(), Some("blk"));
}

#[test]
fn request_too_large_is_rejected() {
    let vm = vm_with("allow", ALLOW_ALL_WAT);
    let big_body = "x".repeat(MAX_REQUEST_JSON_LEN + 1);
    let headers = TextMap::new();
    let req = to_json(&WasmRequest {
        client_ip: "127.0.0.1",
        method: "GET",
        path: "/",
        query: None,
        user_agent: None,
        headers: &headers,
        body: Some(&big_body),
        params: None,
    });
    let result = vm.decide("allow", &req);
    assert!(result.is_err());
    let msg = result.unwrap_err().message().unwrap();
    assert!(msg.contains("exceeds the maximum allowed length"), "unexpected error: {msg}");
}

#[test]
fn request_meta_construction() {
    let req = make_req("/api/test");
    assert_eq!(req.method, "GET");
    assert_eq!(req.path, "/api/test");
}

#[test]
fn decide_allow_propagates_correctly() {
    let engine = engine_with_wat("p", ALLOW_ALL_WAT);
    let decision = decide(&engine, "p", &make_req("/"));
    assert!(decision.allow);
    assert_eq!(decision.status_code, 200);
    assert_eq!(decision.profile_id, "p");
}

#[test]
fn decide_block_propagates_correctly() {
    let engine = engine_with_wat("p", BLOCK_ALL_WAT);
    let decision = decide(&engine, "p", &make_req("/"));
    assert!(!decision.allow);
    assert_eq!(decision.status_code, 403);
    assert_eq!(decision.message.as_deref(), Some("blocked"));
    assert_eq!(decision.rule_id.as_deref(), Some("blk"));
}

#[test]
fn invalid_status_defaults_to_403_on_block() {
    let wat = br#"(module
  (memory (export "memory") 2)
  (func (export "get_req_ptr") (result i32) i32.const 0)
  (func (export "get_result_ptr") (result i32) i32.const 65536)
  (data (i32.const 65536) "{\"allow\":false,\"status\":0}")
  (func (export "decide") (param i32) (result i32) i32.const 26)
)"#;
    let engine = engine_with_wat("p", wat);
    let decision = decide(&engine, "p", &make_req("/"));
    assert!(!decision.allow);
    assert_eq!(
        decision.status_code, 403,
        "invalid status should default to 403 for blocks"
    );
}

#[test]
fn missing_status_defaults_to_200_on_allow() {
    let wat = br#"(module
  (memory (export "memory") 2)
  (func (export "get_req_ptr") (result i32) i32.const 0)
  (func (export "get_result_ptr") (result i32) i32.const 65536)
  (data (i32.const 65536) "{\"allow\":true}")
  (func (export "decide") (param i32) (result i32) i32.const 14)
)"#;
    let engine = engine_with_wat("p", wat);
    let decision = decide(&engine, "p", &make_req("/"));
    assert!(decision.allow);
    assert_eq!(
        decision.status_code, 200,
        "missing status should default to 200 for allows"
    );
}

#[test]
fn statuses_of_decisions() {
    let status = |allow: bool, status: Option<u16>| {
        Decision::from_module("p", WasmDecision { allow, status, message: None, rule_id: None })
            .status_code
    };
    assert_eq!(status(true, Some(99)), 200);
    assert_eq!(status(true, Some(100)), 100);
    assert_eq!(status(false, Some(599)), 599);
    assert_eq!(status(false, Some(600)), 403);
    assert_eq!(status(false, None), 403);
    let block = WasmDecision::block(429, "slow down");
    assert_eq!((block.allow, block.status), (false, Some(429)));
    assert_eq!(block.message.as_deref(), Some("slow down"));
    assert_eq!(WasmDecision::allow().status, Some(200));
}

#[test]
fn module_sees_the_request() {
    // The decision is the request itself, at the place where it was put.
    let vm = vm_with("p", echo("1", 100, 100, "local.get 0").as_bytes());
    let request = make_request();
    assert_eq!(vm.decide("p", &request).unwrap(), request);
}

#[test]
fn memory_grows_for_a_request() {
    let vm = vm_with("p", echo("1", 65535, 65535, "local.get 0").as_bytes());
    assert_eq!(vm.decide("p", "{\"allow\":true}").unwrap(), "{\"allow\":true}");
    assert_eq!(error_of(&echo("1 1", 65535, 0, "local.get 0")), "failed to grow memory");
}

#[test]
fn modules_that_do_not_keep_to_the_rules() {
    assert_eq!(
        error_of(&echo("1", -1, 0, "local.get 0")),
        "get_req_ptr returned negative pointer: -1"
    );
    assert_eq!(
        error_of(&echo("1", 65536, 0, "local.get 0")),
        "get_req_ptr returned pointer 65536 outside linear memory (size: 65536)"
    );
    assert_eq!(
        error_of(&echo("1", 0, 0, "i32.const 0")),
        "decide function returned invalid length: 0"
    );
    assert_eq!(
        error_of(&echo("1", 0, 0, "i32.const -2147483648")),
        "decide function returned invalid length: -2147483648"
    );
    assert_eq!(
        error_of(&echo("2", 0, 0, "i32.const 65537")),
        "decide function returned result length 65537 exceeding maximum 65536"
    );
    assert_eq!(
        error_of(&echo("1", 0, -5, "local.get 0")),
        "get_result_ptr returned negative pointer: -5"
    );
    assert_eq!(
        error_of(&echo("1", 0, 65530, "local.get 0")),
        "result [65530, 65544) is out of bounds (memory size: 65536)"
    );
    assert_eq!(error_of(&echo("1", 0, 0, "unreachable")), "failed to call decide function");
    assert_eq!(
        error_of(&echo("1", 0, 0, "(loop (br 0)) unreachable")),
        "failed to call decide function"
    );
    let not_utf8 = r#"(module
  (memory (export "memory") 1)
  (data (i32.const 9) "\ff")
  (func (export "get_req_ptr") (result i32) i32.const 100)
  (func (export "get_result_ptr") (result i32) i32.const 9)
  (func (export "decide") (param i32) (result i32) i32.const 1)
)"#;
    assert_eq!(error_of(not_utf8), "result is not valid utf-8");
}

#[test]
fn longest_request_and_result() {
    let vm = vm_with("p", echo("2", 0, 0, "local.get 0").as_bytes());
    let longest = "x".repeat(65536);
    assert_eq!(vm.decide("p", &longest).unwrap(), longest);
    let error = vm.decide("p", &"x".repeat(65537)).unwrap_err();
    assert_eq!(
        error.message().unwrap(),
        "serialized request (65537 bytes) exceeds the maximum allowed length (65536 bytes)"
    );
}

#[test]
fn fuel_is_renewed_for_the_result() {
    // Both functions burn more than half of the fuel.
    let wat = r#"(module
  (memory (export "memory") 1)
  (func $burn (local i32)
    (local.set 0 (i32.const 150000))
    (loop $l (local.set 0 (i32.sub (local.get 0) (i32.const 1))) (br_if $l (local.get 0))))
  (func (export "get_req_ptr") (result i32) i32.const 0)
  (func (export "get_result_ptr") (result i32) (call $burn) i32.const 0)
  (func (export "decide") (param i32) (result i32) (call $burn) local.get 0)
)"#;
    let vm = vm_with("p", wat.as_bytes());
    assert_eq!(vm.decide("p", "{}").unwrap(), "{}");
}

#[test]
fn fuel_is_limited_before_the_decision() {
    // Either function can burn so much, but not both.
    let wat = r#"(module
  (memory (export "memory") 1)
  (func $burn (local i32)
    (local.set 0 (i32.const 90000))
    (loop $l (local.set 0 (i32.sub (local.get 0) (i32.const 1))) (br_if $l (local.get 0))))
  (func (export "get_req_ptr") (result i32) REQ i32.const 0)
  (func (export "get_result_ptr") (result i32) i32.const 0)
  (func (export "decide") (param i32) (result i32) DECIDE local.get 0)
)"#;
    let burn = "(call $burn)";
    let module = |req: &str, decide: &str| {
        vm_with("p", wat.replace("REQ", req).replace("DECIDE", decide).as_bytes())
    };
    assert_eq!(module(burn, "").decide("p", "{}").unwrap(), "{}");
    assert_eq!(module("", burn).decide("p", "{}").unwrap(), "{}");
    assert_eq!(
        module(burn, burn).decide("p", "{}").unwrap_err().message().unwrap(),
        "failed to call decide function"
    );
}

#[test]
fn every_request_gets_a_fresh_instance() {
    // The second request to one instance would be answered at another place.
    let wat = r#"(module
  (memory (export "memory") 1)
  (global $n (mut i32) (i32.const 0))
  (func (export "get_req_ptr") (result i32) i32.const 0)
  (func (export "get_result_ptr") (result i32)
    (global.set $n (i32.add (global.get $n) (i32.const 1)))
    (i32.sub (global.get $n) (i32.const 1)))
  (func (export "decide") (param i32) (result i32) local.get 0)
)"#;
    let vm = vm_with("p", wat.as_bytes());
    for request in ["{}", "{\"a\":1}", "{}"] {
        assert_eq!(vm.decide("p", request).unwrap(), request);
    }
}

#[test]
fn modules_that_cannot_be_loaded() {
    assert_eq!(load_error("no module"), "failed to compile wasm module");
    assert_eq!(load_error("(module)"), "wasm module must export 'memory'");
    assert_eq!(
        load_error("(module (memory (export \"memory\") 1))"),
        "wasm module must export 'get_req_ptr' with signature () -> i32"
    );
    let pointer = "(func (export \"get_req_ptr\") (result i32) i32.const 0)";
    assert_eq!(
        load_error(&format!("(module (memory (export \"memory\") 1) {})", pointer)),
        "wasm module must export 'decide' with signature (i32) -> i32"
    );
    let decide = "(func (export \"decide\") (param i32) (result i32) i32.const 0)";
    assert_eq!(
        load_error(&format!("(module (memory (export \"memory\") 1) {} {})", pointer, decide)),
        "wasm module must export 'get_result_ptr' with signature () -> i32"
    );
    assert_eq!(load_error("(module (import \"env\" \"other\" (func)))"), "runtime");
}

#[test]
fn modules_may_import_abort() {
    let wat = r#"(module
  (import "env" "abort" (func $abort (param i32 i32 i32 i32)))
  (memory (export "memory") 1)
  (func (export "get_req_ptr") (result i32) i32.const 0)
  (func (export "get_result_ptr") (result i32) i32.const 0)
  (func (export "decide") (param i32) (result i32)
    (call $abort (i32.const 1) (i32.const 2) (i32.const 3) (i32.const 4)) local.get 0)
)"#;
    assert_eq!(vm_with("p", wat.as_bytes()).decide("p", "{}").unwrap(), "{}");
}

#[test]
fn profiles_are_known_by_their_ids() {
    let mut vm = vm_with("a", ALLOW_ALL_WAT);
    assert!(vm.has_profile("a"));
    assert!(!vm.has_profile("b"));
    assert!(vm.load_module_from_bytes("b", b"(module)").is_err());
    assert!(vm.has_profile("a") && !vm.has_profile("b"));
    vm.load_module_from_bytes("a", BLOCK_ALL_WAT).unwrap();
    assert!(!from_json(&vm.decide("a", "{}").unwrap()).allow);
    assert_eq!(vm.decide("c", "{}").unwrap_err().message().unwrap(), "profile not found: c");
}

#[test]
fn parameters_go_with_their_profile() {
    let mut engine = WafEngine::new().unwrap();
    let mut params = TextMap::new();
    params.insert("paranoia_level".to_string(), "2".to_string());
    engine.load_profile("a", params, ALLOW_ALL_WAT).unwrap();
    engine.load_profile("b", TextMap::new(), ALLOW_ALL_WAT).unwrap();
    let meta = make_req("/x");
    let told = engine.wasm_request("a", &meta);
    assert_eq!(told.path, "/x");
    assert_eq!(told.client_ip, "192.168.1.1");
    let params = told.params.unwrap();
    assert_eq!(params.get("paranoia_level").map(|v| v.as_str()), Some("2"));
    assert_eq!(engine.wasm_request("b", &meta).params.map(|p| p.len()), Some(0));
    assert!(engine.wasm_request("c", &meta).params.is_none());
    assert!(engine.decide("c", "{}").is_err());
}

#[test]
fn room_for_requests() {
    assert_eq!(request_room(0, 10, 65536).unwrap(), 0);
    assert_eq!(request_room(65530, 6, 65536).unwrap(), 0);
    assert_eq!(request_room(65530, 7, 65536).unwrap(), 1);
    assert_eq!(request_room(65535, 65537, 65536).unwrap(), 1);
    assert_eq!(request_room(65535, 65538, 65536).unwrap(), 2);
    assert!(matches!(
        request_room(-7, 1, 65536),
        Err(WasmError::NegativeRequestPointer { pointer: -7 })
    ));
    assert!(matches!(
        request_room(8, 1, 8),
        Err(WasmError::RequestPointerOutside { pointer: 8, size: 8 })
    ));
    assert!(matches!(request_room(1, usize::MAX, 8), Err(WasmError::RequestOverflow)));
}

#[test]
fn sizes_of_results() {
    assert_eq!(result_size(1).unwrap(), 1);
    assert_eq!(result_size(65536).unwrap(), 65536);
    assert!(matches!(result_size(0), Err(WasmError::InvalidResultLength { len: 0 })));
    assert!(matches!(result_size(-3), Err(WasmError::InvalidResultLength { len: -3 })));
    assert!(matches!(result_size(65537), Err(WasmError::ResultTooLong { len: 65537 })));
}
