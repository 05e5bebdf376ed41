use ai_lib::json::{parse_text, JsonValue};
use ai_lib::protocol::manifest::{
    ApiStyle, AuthConfig, EndpointDefinition, LegacyCapabilities, ProtocolManifest,
};
use ai_lib::table::Table;
use ai_lib::types::message::Message;
use ai_lib::wasm::abi::{ailib_abi_version, ailib_capabilities_len, ailib_capabilities_ptr};
use ai_lib::wasm::buffers::{WasmChatRequest, WasmState};
use ai_lib::wasm::invoke::{
    ailib_invoke, input_kind, CheckCapabilityInput, InputKind, InvokeCtx, ResolveCredentialInput,
    TypedInput,
};
use ai_lib::wasm::io::{ailib_err_len, ailib_err_ptr, ailib_out_len, ailib_out_ptr};
use ai_lib::wasm::memory::{ailib_arena_reset, ailib_out_consume};
use ai_lib::wasm::snapshot_ops::{ailib_restore_state, ailib_snapshot_state};
use ai_lib::wasm::state::{
    ManifestEntry, StreamState, WasmMetrics, WasmStateSnapshot, SNAPSHOT_FORMAT_VERSION,
};
use ai_lib::wasm::v1::{
    ailib_build_chat_request, ailib_check_capability, ailib_classify_error, ailib_extract_usage,
    ailib_load_manifest, ailib_parse_chat_response, Loaded,
};
use ai_lib::wasm::AILIB_ABI_VERSION;
use serde_json::Value;

const MIN_MANIFEST_YAML: &str = r#"---
id: test-provider
name: Test Provider
version: "1.0.0"
protocol_version: "2.0"
endpoint:
  base_url: https://api.example.com/v1
capabilities:
  streaming: true
  tools: false
  vision: false
status: stable
category: ai_provider
official_url: https://example.com
support_contact: https://example.com/support
parameter_mappings: {}
"#;

const CREDENTIAL_MANIFEST_YAML: &str = r#"---
id: replicate
name: Replicate Credential Mock
version: "1.0.0"
protocol_version: "2.0"
endpoint:
  base_url: https://api.replicate.example/v1
  chat: /chat/completions
  auth:
    type: bearer
    token_env: REPLICATE_API_TOKEN
capabilities:
  streaming: false
  tools: false
  vision: false
status: stable
category: ai_provider
official_url: https://example.com
support_contact: https://example.com/support
parameter_mappings: {}
"#;

fn text(v: &Value) -> Option<String> {
    v.as_str().map(|s| s.to_string())
}

fn json(bytes: &[u8]) -> Value {
    serde_json::from_slice::<Value>(bytes).unwrap()
}

/// What the bytes of a manifest are found to be.
fn load(bytes: &[u8]) -> Loaded {
    let v: Value = serde_yaml::from_slice(bytes).map_err(|e| e.to_string())?;
    let field = |v: &Value, key: &str| {
        v.get(key)
            .and_then(text)
            .ok_or(format!("missing field `{key}`"))
    };
    let endpoint = v.get("endpoint").ok_or("missing field `endpoint`")?;
    let caps = v.get("capabilities").ok_or("missing field `capabilities`")?;
    let flag = |key: &str| caps.get(key).and_then(|b| b.as_bool()) == Some(true);
    let auth = endpoint.get("auth").map(|a| AuthConfig {
        auth_type: a.get("type").and_then(text).unwrap(),
        token_env: a.get("token_env").and_then(text),
        key_env: None,
        param_name: None,
        header_name: None,
        prefix: None,
        extra_headers: None,
    });
    let style = match v.get("api_style").and_then(|s| s.as_str()) {
        Some("gemini") => ApiStyle::GeminiGenerate,
        _ => ApiStyle::OpenAiCompatible,
    };
    Ok((
        ProtocolManifest {
            id: field(&v, "id")?,
            provider_id: v.get("provider_id").and_then(text),
            protocol_version: field(&v, "protocol_version")?,
            endpoint: EndpointDefinition {
                base_url: field(endpoint, "base_url")?,
                auth,
            },
            auth: None,
            capabilities: LegacyCapabilities {
                streaming: flag("streaming"),
                tools: flag("tools"),
                vision: flag("vision"),
                agentic: false,
                reasoning: false,
                parallel_tools: false,
            },
            endpoints: None,
            services: None,
            aliases: None,
            extra: Table::new(),
        },
        style,
    ))
}

fn load_into(state: &mut WasmState, yaml: &str) -> u32 {
    let bytes = yaml.as_bytes().to_vec();
    let loaded = load(&bytes);
    ailib_load_manifest(state, &bytes, loaded)
}

fn ctx_from(bytes: &[u8]) -> Result<InvokeCtx, String> {
    let v: Value = serde_json::from_slice::<Value>(bytes).map_err(|e| e.to_string())?;
    Ok(InvokeCtx {
        version: v.get("version").and_then(|n| n.as_u64()).unwrap_or(1) as u32,
        manifest_handle: v
            .get("manifest_handle")
            .and_then(|n| n.as_u64())
            .map(|n| n as u32),
        status_code: v
            .get("status_code")
            .and_then(|n| n.as_u64())
            .map(|n| n as u16),
    })
}

fn chat_from(bytes: &[u8]) -> Result<WasmChatRequest, String> {
    let v: Value = serde_json::from_slice::<Value>(bytes).map_err(|e| e.to_string())?;
    let mut messages = Vec::new();
    for m in v["messages"].as_array().ok_or("missing field `messages`")? {
        messages.push(Message::user(m["content"].as_str().unwrap()));
    }
    Ok(WasmChatRequest {
        operation: String::new(),
        model: v["model"].as_str().ok_or("missing field `model`")?.to_string(),
        messages,
        temperature: None,
        max_tokens: None,
        stream: v["stream"].as_bool().unwrap_or(false),
        tools: None,
        tool_choice: None,
    })
}

fn snapshot_from(bytes: &[u8]) -> Result<WasmStateSnapshot, String> {
    let v: Value = serde_json::from_slice::<Value>(bytes).map_err(|e| e.to_string())?;
    let number = |v: &Value, key: &str| v.get(key).and_then(|n| n.as_u64()).unwrap_or(0);
    let entries = v.get("manifests").and_then(|m| m.as_array());
    let streams = v.get("active_streams").and_then(|m| m.as_array());
    let metrics = v.get("metrics").cloned().unwrap_or(Value::Null);
    Ok(WasmStateSnapshot {
        version: v["version"].as_u64().ok_or("missing field `version`")? as u32,
        abi_version: v["abi_version"]
            .as_u64()
            .ok_or("missing field `abi_version`")? as u32,
        manifests: entries
            .unwrap_or(&Vec::new())
            .iter()
            .map(|e| ManifestEntry {
                id: text(&e["id"]).unwrap(),
                raw_yaml: text(&e["raw_yaml"]).unwrap(),
                loaded_at: number(e, "loaded_at"),
            })
            .collect(),
        active_streams: streams
            .unwrap_or(&Vec::new())
            .iter()
            .map(|s| StreamState {
                stream_id: text(&s["stream_id"]).unwrap(),
                provider_id: text(&s["provider_id"]).unwrap(),
                model: text(&s["model"]).unwrap(),
                accumulated_content: text(&s["accumulated_content"]).unwrap_or_default(),
                accumulated_thinking: text(&s["accumulated_thinking"]).unwrap_or_default(),
                tokens_so_far: number(s, "tokens_so_far"),
                last_event_index: number(s, "last_event_index") as u32,
                needs_replay: s["needs_replay"].as_bool() == Some(true),
                started_at: number(s, "started_at"),
            })
            .collect(),
        metrics: WasmMetrics {
            total_calls: number(&metrics, "total_calls"),
            total_errors: number(&metrics, "total_errors"),
            total_tokens_in: number(&metrics, "total_tokens_in"),
            total_tokens_out: number(&metrics, "total_tokens_out"),
        },
    })
}

fn verdicts(snapshot: &Result<WasmStateSnapshot, String>) -> Vec<Loaded> {
    match snapshot {
        Ok(s) => s
            .manifests
            .iter()
            .map(|e| load(e.raw_yaml.as_bytes()))
            .collect(),
        Err(_) => Vec::new(),
    }
}

fn no_driver<T>() -> Result<T, String> {
    Err("no driver for this API".to_string())
}

fn invoke(state: &mut WasmState, op: &str, input: Option<&[u8]>, ctx: Option<&[u8]>) -> i32 {
    let op = op.as_bytes().to_vec();
    let input = input.unwrap_or(&[]).to_vec();
    let read = |what: &[u8]| serde_json::from_slice::<Value>(what).map_err(|e| e.to_string());
    let typed = match input_kind(&op) {
        InputKind::Plain => TypedInput::Plain,
        InputKind::Manifest => TypedInput::Manifest(load(&input)),
        InputKind::Capability => TypedInput::Capability(read(&input).map(|v| {
            CheckCapabilityInput {
                handle: v["handle"].as_u64().map(|n| n as u32),
                name: text(&v["name"]).unwrap(),
            }
        })),
        InputKind::Chat => TypedInput::Chat {
            request: chat_from(&input),
            body: no_driver(),
        },
        InputKind::Response => TypedInput::Response(no_driver()),
        InputKind::Credential => TypedInput::Credential(read(&input).map(|v| {
            ResolveCredentialInput {
                handle: v["handle"].as_u64().map(|n| n as u32),
                explicit_credential: text(&v["explicit_credential"]),
            }
        })),
        InputKind::Snapshot => {
            let snapshot = snapshot_from(&input);
            let loaded = verdicts(&snapshot);
            TypedInput::Snapshot { snapshot, loaded }
        }
    };
    ailib_invoke(state, &op, &input, ctx.map(ctx_from), typed)
}

fn restore(state: &mut WasmState, bytes: &[u8]) -> i32 {
    let snapshot = snapshot_from(bytes);
    let loaded = verdicts(&snapshot);
    ailib_restore_state(state, &bytes.to_vec(), snapshot, loaded)
}

fn read_err(state: &WasmState) -> String {
    String::from_utf8_lossy(&state.last_err).into_owned()
}

#[test]
fn test_ailib_abi_version() {
    assert_eq!(ailib_abi_version(), AILIB_ABI_VERSION);
    assert!(AILIB_ABI_VERSION >= 2, "WASM-001 requires v2+");
}

#[test]
fn test_ailib_capabilities_json_valid() {
    let bytes = ailib_capabilities_ptr();
    let len = ailib_capabilities_len();
    assert!(len > 0);
    assert_eq!(bytes.len(), len);
    let v: Value = json(&bytes);
    assert_eq!(v["version"], AILIB_ABI_VERSION);
    let ops = v["ops"].as_array().unwrap();
    let op_names: Vec<&str> = ops.iter().filter_map(|o| o.as_str()).collect();
    for must in &[
        "build_request",
        "parse_response",
        "classify_error",
        "resolve_credential",
        "load_manifest",
        "snapshot_state",
        "restore_state",
    ] {
        assert!(op_names.contains(must), "capabilities missing op {must}");
    }
}

#[test]
fn test_ailib_invoke_abi_version_op() {
    let mut s = WasmState::new();
    assert_eq!(invoke(&mut s, "abi_version", None, None), 0);
    let v: Value = json(&s.last_out);
    assert_eq!(v["version"], AILIB_ABI_VERSION);
}

#[test]
fn test_ailib_invoke_unknown_op() {
    let mut s = WasmState::new();
    assert_eq!(invoke(&mut s, "nope", None, None), -1);
    assert!(read_err(&s).contains("unknown op"));
}

#[test]
fn test_ailib_invoke_rejects_future_ctx_version() {
    let mut s = WasmState::new();
    let ctx = br#"{"version": 999}"#;
    assert_eq!(invoke(&mut s, "abi_version", None, Some(ctx)), -1);
    assert!(read_err(&s).contains("newer than AILIB_ABI_VERSION"));
}

#[test]
fn test_ailib_invoke_v1_caller_against_v2() {
    let mut s = WasmState::new();
    let ctx = br#"{"version": 1}"#;
    assert_eq!(invoke(&mut s, "capabilities", None, Some(ctx)), 0);
    let v: Value = json(&s.last_out);
    assert_eq!(v["version"], AILIB_ABI_VERSION);
}

#[test]
fn test_ailib_invoke_classify_error() {
    let mut s = WasmState::new();
    let ctx = br#"{"version": 2, "status_code": 429}"#;
    assert_eq!(invoke(&mut s, "classify_error", None, Some(ctx)), 0);
    let v: Value = json(&s.last_out);
    assert!(v["code"].as_str().unwrap().starts_with('E'));
    assert_eq!(v["code"], "E2001");
}

#[test]
fn test_ailib_invoke_load_and_check_capability() {
    let mut s = WasmState::new();
    let h = load_into(&mut s, MIN_MANIFEST_YAML);
    assert!(h >= 1, "load_manifest failed: {}", read_err(&s));

    let input = format!(r#"{{"handle": {}, "name": "streaming"}}"#, h);
    let ctx = br#"{"version": 2}"#;
    assert_eq!(
        invoke(
            &mut s,
            "check_capability",
            Some(input.as_bytes()),
            Some(ctx)
        ),
        0
    );
    let v: Value = json(&s.last_out);
    assert_eq!(v["supported"], true);
}

fn request_bytes(model: &str) -> Vec<u8> {
    format!(r#"{{"model": "{model}", "messages": [{{"role":"user","content":"hi"}}], "stream": false}}"#)
        .into_bytes()
}

#[test]
fn test_ailib_invoke_build_request_uses_ctx_handle() {
    let mut s = WasmState::new();
    let h = load_into(&mut s, MIN_MANIFEST_YAML);
    assert!(h >= 1);
    let req_bytes = request_bytes("test-model");
    let ctx = format!(r#"{{"version": 2, "manifest_handle": {}}}"#, h);
    assert_eq!(
        invoke(
            &mut s,
            "build_request",
            Some(&req_bytes),
            Some(ctx.as_bytes())
        ),
        0,
        "err={}",
        read_err(&s)
    );
    let out: Value = json(&s.last_out);
    assert_eq!(out["model"], "test-model");
}

#[test]
fn test_ailib_invoke_metrics_op() {
    let mut s = WasmState::new();
    load_into(&mut s, MIN_MANIFEST_YAML);
    assert_eq!(invoke(&mut s, "metrics", None, None), 0);
    let m: Value = json(&s.last_out);
    assert!(m["total_calls"].as_u64().unwrap() >= 1);
}

#[test]
fn test_ailib_invoke_resolve_credential_uses_host_supplied_only() {
    let mut s = WasmState::new();
    let h = load_into(&mut s, CREDENTIAL_MANIFEST_YAML);
    assert!(h >= 1, "load_manifest failed: {}", read_err(&s));
    let input = br#"{"explicit_credential":"host-supplied-token"}"#;
    let ctx = format!(r#"{{"version": 2, "manifest_handle": {}}}"#, h);
    assert_eq!(
        invoke(
            &mut s,
            "resolve_credential",
            Some(input),
            Some(ctx.as_bytes())
        ),
        0,
        "err={}",
        read_err(&s)
    );
    let out_bytes = s.last_out.clone();
    let out: Value = json(&out_bytes);
    assert_eq!(out["status"], "available");
    assert_eq!(out["source_kind"], "explicit");
    assert_eq!(out["source_name"], "host_supplied");
    assert_eq!(out["required"][0], "REPLICATE_API_TOKEN");
    assert_eq!(out["implicit_env_allowed"], false);
    assert_eq!(out["implicit_keyring_allowed"], false);
    let public = String::from_utf8(out_bytes).unwrap();
    assert!(!public.contains("host-supplied-token"));
    assert_eq!(
        public,
        "{\"status\":\"available\",\"source_kind\":\"explicit\",\"source_name\":\"host_supplied\",\"required\":[\"REPLICATE_API_TOKEN\"],\"conventional_fallbacks\":[\"REPLICATE_API_KEY\"],\"implicit_env_allowed\":false,\"implicit_keyring_allowed\":false,\"value_redacted\":true}"
    );
}

#[test]
fn test_ailib_invoke_resolve_credential_ignores_env_without_explicit() {
    let mut s = WasmState::new();
    let h = load_into(&mut s, CREDENTIAL_MANIFEST_YAML);
    assert!(h >= 1, "load_manifest failed: {}", read_err(&s));
    let input = br#"{}"#;
    let ctx = format!(r#"{{"version": 2, "manifest_handle": {}}}"#, h);
    assert_eq!(
        invoke(
            &mut s,
            "resolve_credential",
            Some(input),
            Some(ctx.as_bytes())
        ),
        0,
        "err={}",
        read_err(&s)
    );
    let out: Value = json(&s.last_out);
    assert_eq!(out["status"], "missing");
    assert_eq!(out["source_kind"], "none");
    assert_eq!(out["implicit_env_allowed"], false);
    assert_eq!(out["implicit_keyring_allowed"], false);
}

#[test]
fn test_ailib_out_consume_ownership_transfer() {
    let mut s = WasmState::new();
    s.set_out(b"{\"ok\":true}".to_vec());
    assert!(ailib_out_len(&s) > 0);
    let taken = ailib_out_consume(&mut s).unwrap();
    assert_eq!(taken.len(), 11);
    assert_eq!(ailib_out_len(&s), 0);
    assert!(ailib_out_ptr(&s).is_none());
    assert_eq!(taken, b"{\"ok\":true}");
}

#[test]
fn test_ailib_out_consume_empty_returns_null() {
    let mut s = WasmState::new();
    assert!(ailib_out_consume(&mut s).is_none());
    assert_eq!(ailib_out_len(&s), 0);
}

#[test]
fn test_arena_reset_clears_both_buffers() {
    let mut s = WasmState::new();
    s.set_out(b"payload".to_vec());
    s.set_err("boom");
    assert!(ailib_out_len(&s) > 0);
    assert_eq!(ailib_err_ptr(&s).unwrap(), b"boom");
    ailib_arena_reset(&mut s);
    assert_eq!(ailib_out_len(&s), 0);
    assert_eq!(ailib_err_len(&s), 0);
}

#[test]
fn test_1000_sequential_calls_memory_bounded() {
    let mut s = WasmState::new();
    let h = load_into(&mut s, MIN_MANIFEST_YAML);
    assert!(h >= 1);
    let req = request_bytes("m");
    for _ in 0..1000 {
        let rc = ailib_build_chat_request(&mut s, h, &req, chat_from(&req), no_driver());
        assert_eq!(rc, 0);
        assert!(ailib_out_consume(&mut s).is_some());
        assert_eq!(ailib_out_len(&s), 0);
    }
}

#[test]
fn test_snapshot_empty_state() {
    let mut s = WasmState::new();
    assert_eq!(ailib_snapshot_state(&mut s), 0);
    let snap = snapshot_from(&s.last_out).unwrap();
    assert_eq!(snap.abi_version, AILIB_ABI_VERSION);
    assert_eq!(snap.version, SNAPSHOT_FORMAT_VERSION);
    assert!(snap.manifests.is_empty());
    assert_eq!(
        String::from_utf8(s.last_out).unwrap(),
        "{\"version\":1,\"abi_version\":2,\"manifests\":[],\"active_streams\":[],\"metrics\":{\"total_calls\":0,\"total_errors\":0,\"total_tokens_in\":0,\"total_tokens_out\":0}}"
    );
}

#[test]
fn test_snapshot_with_manifests() {
    let mut s = WasmState::new();
    let h = load_into(&mut s, MIN_MANIFEST_YAML);
    assert!(h >= 1);
    assert_eq!(ailib_snapshot_state(&mut s), 0);
    let snap = snapshot_from(&s.last_out).unwrap();
    assert_eq!(snap.manifests.len(), 1);
    assert_eq!(snap.manifests[0].id, "test-provider");
    assert!(snap.manifests[0].raw_yaml.contains("api.example.com"));
}

#[test]
fn test_restore_roundtrip_manifests() {
    let mut s = WasmState::new();
    let h = load_into(&mut s, MIN_MANIFEST_YAML);
    assert!(h >= 1);
    assert_eq!(ailib_snapshot_state(&mut s), 0);
    let snap_bytes = s.last_out.clone();

    let mut fresh = WasmState::new();
    assert_eq!(
        restore(&mut fresh, &snap_bytes),
        0,
        "err={}",
        read_err(&fresh)
    );
    let rc = ailib_check_capability(&mut fresh, 1, &b"streaming".to_vec());
    assert_eq!(rc, 1, "err={}", read_err(&fresh));
    assert_eq!(fresh.metrics, s.metrics);
}

#[test]
fn test_restore_corrupt_snapshot_no_side_effect() {
    let mut s = WasmState::new();
    let h = load_into(&mut s, MIN_MANIFEST_YAML);
    assert!(h >= 1);
    let before = s.metrics;

    let corrupt =
        br#"{"version": 1, "abi_version": 2, "manifests": [{"id":"x","raw_yaml":"not yaml"}]}"#;
    assert_eq!(restore(&mut s, corrupt), -1);
    assert!(read_err(&s).starts_with("restore manifest 'x': "));
    let rc = ailib_check_capability(&mut s, 1, &b"streaming".to_vec());
    assert_eq!(rc, 1);
    assert_eq!(s.metrics, before);
}

#[test]
fn test_restore_rejects_newer_abi_version() {
    let mut s = WasmState::new();
    let future = format!(
        r#"{{"version":1,"abi_version":{},"manifests":[]}}"#,
        AILIB_ABI_VERSION + 1
    );
    assert_eq!(restore(&mut s, future.as_bytes()), -1);
    assert!(read_err(&s).contains("abi_version"));
}

#[test]
fn test_invoke_snapshot_and_restore_ops() {
    let mut s = WasmState::new();
    let h = load_into(&mut s, MIN_MANIFEST_YAML);
    assert!(h >= 1);
    assert_eq!(invoke(&mut s, "snapshot_state", None, None), 0);
    let snap = s.last_out.clone();
    let mut fresh = WasmState::new();
    assert_eq!(invoke(&mut fresh, "restore_state", Some(&snap), None), 0);
    let v: Value = json(&fresh.last_out);
    assert_eq!(v["restored_manifests"], 1);
}

#[test]
fn snapshot_roundtrip_empty() {
    let snap = WasmStateSnapshot::new(2);
    let bytes = ai_lib::wasm::state::write_snapshot(&snap).into_bytes();
    let back = snapshot_from(&bytes).unwrap();
    assert_eq!(back.version, snap.version);
    assert_eq!(back.abi_version, 2);
    assert!(back.manifests.is_empty());
    assert!(back.active_streams.is_empty());
    assert_eq!(back.metrics, snap.metrics);
}

#[test]
fn streams_are_written_down() {
    let mut snap = WasmStateSnapshot::new(2);
    snap.active_streams.push(StreamState {
        stream_id: "s\"1".to_string(),
        provider_id: "p".to_string(),
        model: "m".to_string(),
        accumulated_content: "c".to_string(),
        accumulated_thinking: String::new(),
        tokens_so_far: 7,
        last_event_index: 3,
        needs_replay: true,
        started_at: 1,
    });
    let bytes = ai_lib::wasm::state::write_snapshot(&snap).into_bytes();
    let mut s = WasmState::new();
    assert_eq!(restore(&mut s, &bytes), 0);
    assert_eq!(json(&s.last_out)["needs_replay_streams"], 1);
    let back = snapshot_from(&bytes).unwrap();
    assert_eq!(back.active_streams[0].stream_id, "s\"1");
    assert_eq!(back.active_streams[0].last_event_index, 3);
}

#[test]
fn restoring_refuses_what_it_cannot_read() {
    let mut s = WasmState::new();
    assert_eq!(restore(&mut s, b""), -1);
    assert_eq!(read_err(&s), "null or empty input");
    assert_eq!(restore(&mut s, b"{"), -1);
    assert!(read_err(&s).starts_with("snapshot parse: "));
    assert_eq!(restore(&mut s, br#"{"version":2,"abi_version":2}"#), -1);
    assert_eq!(
        read_err(&s),
        "snapshot format version 2 newer than supported (1)"
    );
}

#[test]
fn loading_fails_and_counts() {
    let mut s = WasmState::new();
    assert_eq!(ailib_load_manifest(&mut s, &vec![], load(b"")), 0);
    assert_eq!(read_err(&s), "null or empty input");
    assert_eq!(load_into(&mut s, "just text"), 0);
    assert_eq!(s.metrics.total_calls, 2);
    assert_eq!(s.metrics.total_errors, 2);
    assert_eq!(
        invoke(
            &mut s,
            "load_manifest",
            Some(MIN_MANIFEST_YAML.as_bytes()),
            None
        ),
        0
    );
    assert_eq!(json(&s.last_out)["handle"], 1);
}

#[test]
fn capabilities_are_checked() {
    let mut s = WasmState::new();
    load_into(&mut s, MIN_MANIFEST_YAML);
    assert_eq!(ailib_check_capability(&mut s, 1, &b" tools ".to_vec()), 0);
    assert_eq!(
        ailib_check_capability(&mut s, 1, &b" streaming ".to_vec()),
        1
    );
    assert_eq!(ailib_check_capability(&mut s, 2, &b"tools".to_vec()), -1);
    assert_eq!(read_err(&s), "invalid manifest handle");
    assert_eq!(ailib_check_capability(&mut s, 1, &vec![0xff]), -1);
    assert!(read_err(&s).contains("utf-8"));
    assert_eq!(
        invoke(&mut s, "check_capability", Some(br#"{"name": "x"}"#), None),
        -1
    );
    assert_eq!(
        read_err(&s),
        "check_capability: missing manifest handle (in ctx or input)"
    );
    assert_eq!(invoke(&mut s, "check_capability", None, None), -1);
    assert_eq!(read_err(&s), "input required");
}

#[test]
fn requests_need_a_handle_and_a_driver() {
    let mut s = WasmState::new();
    let req = request_bytes("m");
    assert_eq!(invoke(&mut s, "build_request", Some(&req), None), -1);
    assert_eq!(read_err(&s), "build_request: ctx.manifest_handle required");
    assert_eq!(s.metrics.total_calls, 0);
    let rc = ailib_build_chat_request(&mut s, 1, &req, chat_from(&req), no_driver());
    assert_eq!(rc, -1);
    assert_eq!(read_err(&s), "invalid manifest handle");
    let rc = ailib_build_chat_request(&mut s, 1, &req, Err("bad".to_string()), no_driver());
    assert_eq!(rc, -1);
    assert_eq!(read_err(&s), "messages json: bad");
    let h = load_into(
        &mut s,
        &MIN_MANIFEST_YAML.replace("status: stable", "api_style: gemini"),
    );
    let rc = ailib_build_chat_request(&mut s, h, &req, chat_from(&req), no_driver());
    assert_eq!(rc, -1);
    assert_eq!(read_err(&s), "no driver for this API");
    let body: JsonValue = parse_text(r#"{"contents": []}"#).unwrap();
    let rc = ailib_build_chat_request(&mut s, h, &req, chat_from(&req), Ok(body));
    assert_eq!(rc, 0);
    assert_eq!(s.last_out, b"{\"contents\":[]}");
}

#[test]
fn responses_are_normalized_and_counted() {
    let mut s = WasmState::new();
    let h = load_into(&mut s, MIN_MANIFEST_YAML);
    let body = br#"{"choices": [{"message": {"content": "Hi"}, "finish_reason": "stop"}], "usage": {"prompt_tokens": 10, "completion_tokens": 5}}"#.to_vec();
    assert_eq!(ailib_parse_chat_response(&mut s, h, &body, no_driver()), 0);
    assert_eq!(
        String::from_utf8(s.last_out.clone()).unwrap(),
        "{\"content\":\"Hi\",\"finish_reason\":\"stop\",\"usage\":{\"cache_creation_tokens\":null,\"cache_read_tokens\":null,\"completion_tokens\":5,\"prompt_tokens\":10,\"reasoning_tokens\":null,\"total_tokens\":15},\"tool_calls\":[]}"
    );
    assert_eq!(s.metrics.total_tokens_in, 10);
    assert_eq!(s.metrics.total_tokens_out, 5);
    assert_eq!(
        ailib_parse_chat_response(&mut s, h, &b"{".to_vec(), no_driver()),
        -1
    );
    assert!(read_err(&s).starts_with("response json: "));
    assert_eq!(
        ailib_parse_chat_response(&mut s, 9, &b"{}".to_vec(), no_driver()),
        -1
    );
    assert_eq!(read_err(&s), "invalid manifest handle");
    assert_eq!(s.metrics.total_errors, 2);
    assert_eq!(invoke(&mut s, "parse_response", Some(&body), None), -1);
    assert_eq!(read_err(&s), "parse_response: ctx.manifest_handle required");
    let ctx = format!(r#"{{"manifest_handle": {h}}}"#);
    assert_eq!(
        invoke(&mut s, "parse_response", Some(&body), Some(ctx.as_bytes())),
        0
    );
}

#[test]
fn errors_are_classified_by_body_then_status() {
    let mut s = WasmState::new();
    let mut code = |status: u16, body: &str| {
        assert_eq!(
            ailib_classify_error(&mut s, status, &body.as_bytes().to_vec()),
            0
        );
        json(&s.last_out)["code"].as_str().unwrap().to_string()
    };
    assert_eq!(code(429, r#"{"error": {"type": "overloaded"}}"#), "E3002");
    assert_eq!(code(401, r#"{"type": "timeout"}"#), "E3003");
    assert_eq!(code(401, r#"{"error": {"type": 1}, "type": "timeout"}"#), "E1002");
    assert_eq!(code(401, "no json"), "E1002");
    assert_eq!(code(404, ""), "E1004");
    assert_eq!(code(299, ""), "E9999");
}

#[test]
fn a_status_may_stand_in_the_input() {
    let mut s = WasmState::new();
    assert_eq!(
        invoke(
            &mut s,
            "classify_error",
            Some(br#"{"status_code": 409}"#),
            None
        ),
        0
    );
    assert_eq!(json(&s.last_out)["code"], "E4001");
    assert_eq!(
        invoke(
            &mut s,
            "classify_error",
            Some(br#"{"status_code": 70000}"#),
            None
        ),
        -1
    );
    assert_eq!(
        read_err(&s),
        "classify_error: status_code required in ctx or input"
    );
    assert_eq!(invoke(&mut s, "classify_error", Some(b"{"), None), -1);
    assert!(read_err(&s).starts_with("classify_error input: "));
}

#[test]
fn usage_is_extracted() {
    let mut s = WasmState::new();
    assert_eq!(
        ailib_extract_usage(&mut s, &br#"{"usage": {"b": 1, "a": 2}}"#.to_vec()),
        0
    );
    assert_eq!(s.last_out, b"{\"a\":2,\"b\":1}");
    assert_eq!(ailib_extract_usage(&mut s, &b"{}".to_vec()), 0);
    assert_eq!(s.last_out, b"{}");
    assert_eq!(ailib_extract_usage(&mut s, &vec![]), -1);
    assert_eq!(read_err(&s), "null or empty input");
    assert_eq!(s.last_out, b"{}");
}

#[test]
fn calls_are_refused_before_they_start() {
    let mut s = WasmState::new();
    assert_eq!(invoke(&mut s, "", None, None), -1);
    assert_eq!(read_err(&s), "op: null or empty input");
    assert_eq!(invoke(&mut s, "metrics", None, Some(b"{")), -1);
    assert!(read_err(&s).starts_with("ctx json: "));
    assert_eq!(invoke(&mut s, "metrics", None, Some(br#"{"version": 3}"#)), -1);
    assert_eq!(read_err(&s), "ctx version 3 newer than AILIB_ABI_VERSION 2");
}

#[test]
fn bytes_that_are_no_text_are_patched() {
    let mut s = WasmState::new();
    let mut bytes = MIN_MANIFEST_YAML.as_bytes().to_vec();
    let loaded = load(&bytes);
    bytes.push(0xff);
    assert_eq!(ailib_load_manifest(&mut s, &bytes, loaded), 1);
    assert_eq!(ailib_snapshot_state(&mut s), 0);
    let snap = snapshot_from(&s.last_out).unwrap();
    assert!(snap.manifests[0].raw_yaml.ends_with("\u{fffd}"));
}
