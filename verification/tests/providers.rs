use ai_lib::client::endpoint::{
    lookup_endpoint, models_from_response, resolve_endpoint, resolve_service,
};
use ai_lib::client::exchange::{join_url, model_id_of, BytesOutcome, TextOutcome};
use ai_lib::credentials::{
    resolve_credential, shadowed_auth, CredentialSourceKind, ResolvedCredential,
};
use ai_lib::embeddings::{EmbeddingClient, EmbeddingResponse};
use ai_lib::error::Error;
use ai_lib::generative::image::{dashscope_image_body, openai_image_body};
use ai_lib::generative::{
    adapter_name, require_generative_endpoint, resolve_generative_endpoint, ImageGenerationClient,
    SpeechToTextClient, TextToSpeechClient, KEY_IMAGE_GENERATION,
};
use ai_lib::json::{parse_text, JsonNumber, JsonValue};
use ai_lib::protocol::manifest::{
    find_model_metadata, AuthConfig, EndpointConfig, EndpointDefinition, LegacyCapabilities,
    ProtocolManifest, ServiceConfig,
};
use ai_lib::protocol::metadata_model::CapabilityKnown;
use ai_lib::rerank::{RerankOptions, RerankerClient};
use ai_lib::table::Table;
use ai_lib::transport::ancillary::{
    build_ancillary_transport, normalize_endpoint_path, synthetic_bearer_manifest,
};
use ai_lib::transport::http::{
    build_routes, client_settings, join_base_and_path, method_for, proxy_candidates,
    request_headers, should_try_alternate_route, AuthAttachment, Environment, HttpMethod, HttpTransport,
    RouteDecision, RouteOutcome, UnknownAuthTypes,
};
use ai_lib::tts::{AudioFormat, TtsClient, TtsOptions};
use ai_lib::types::generative::{
    ImageGenerationRequest, SpeechToTextRequest, TextToSpeechRequest,
};

fn json(s: &str) -> JsonValue {
    parse_text(s).unwrap()
}

fn str_at(v: &JsonValue, key: &str) -> Option<String> {
    v.get(key).and_then(|x| x.as_str()).map(|s| s.to_string())
}

fn auth_from(v: &JsonValue) -> AuthConfig {
    AuthConfig {
        auth_type: str_at(v, "type").unwrap(),
        token_env: str_at(v, "token_env"),
        key_env: str_at(v, "key_env"),
        param_name: str_at(v, "param_name"),
        header_name: str_at(v, "header_name"),
        prefix: str_at(v, "prefix"),
        extra_headers: None,
    }
}

fn flag(v: Option<&JsonValue>, key: &str) -> bool {
    v.and_then(|c| c.get(key)).and_then(|b| b.as_bool()) == Some(true)
}

fn manifest_from_yaml(raw: &str) -> ProtocolManifest {
    let tree: serde_json::Value = serde_yaml::from_str(raw).expect("yaml");
    let v = json(&tree.to_string());
    let endpoint = v.get("endpoint").unwrap();
    let mut endpoints = Table::new();
    if let Some(JsonValue::Object(entries)) = v.get("endpoints") {
        for (name, e) in entries {
            endpoints.insert(
                name.clone(),
                EndpointConfig {
                    path: str_at(e, "path").unwrap(),
                    method: str_at(e, "method").unwrap_or("POST".to_string()),
                    adapter: str_at(e, "adapter"),
                },
            );
        }
    }
    let mut extra = Table::new();
    if let Some(m) = v.get("metadata") {
        extra.insert("metadata".to_string(), m.copy());
    }
    let caps = v.get("capabilities");
    ProtocolManifest {
        id: str_at(&v, "id").unwrap(),
        provider_id: str_at(&v, "provider_id"),
        protocol_version: str_at(&v, "protocol_version").unwrap(),
        endpoint: EndpointDefinition {
            base_url: str_at(endpoint, "base_url").unwrap(),
            auth: endpoint.get("auth").map(auth_from),
        },
        auth: v.get("auth").map(auth_from),
        capabilities: LegacyCapabilities {
            streaming: flag(caps, "streaming"),
            tools: flag(caps, "tools"),
            vision: flag(caps, "vision"),
            agentic: flag(caps, "agentic"),
            reasoning: flag(caps, "reasoning"),
            parallel_tools: flag(caps, "parallel_tools"),
        },
        endpoints: v.get("endpoints").map(|_| endpoints),
        services: None,
        aliases: None,
        extra,
    }
}

fn env_of(vars: &[(&str, &str)]) -> Environment {
    let mut table = Table::new();
    for (k, v) in vars {
        table.insert(k.to_string(), v.to_string());
    }
    Environment {
        vars: table,
        keyring_secret: None,
    }
}

fn ep(path: &str) -> EndpointConfig {
    EndpointConfig {
        path: path.to_string(),
        method: "POST".to_string(),
        adapter: Some("openai".to_string()),
    }
}

#[test]
fn lookup_prefers_exact_chat_key() {
    let mut map = Table::new();
    map.insert("chat".to_string(), ep("/chat/completions"));
    map.insert("chat_openai".to_string(), ep("/alt"));
    let got = lookup_endpoint(Some(&map), "chat").expect("chat");
    assert_eq!(got.path, "/chat/completions");
}

#[test]
fn lookup_falls_back_chat_to_chat_openai() {
    let mut map = Table::new();
    map.insert("chat_openai".to_string(), ep("/chat/completions"));
    map.insert("chat_anthropic".to_string(), ep("/anthropic/v1/messages"));
    let got = lookup_endpoint(Some(&map), "chat").expect("chat via alias");
    assert_eq!(got.path, "/chat/completions");
}

#[test]
fn lookup_missing_returns_none() {
    let mut map = Table::new();
    map.insert("embeddings".to_string(), ep("/embeddings"));
    assert!(lookup_endpoint(Some(&map), "chat").is_none());
}

fn replicate() -> ProtocolManifest {
    manifest_from_yaml(
        r#"
id: replicate
protocol_version: "1.5"
name: "Replicate"
status: "stable"
category: "ai_provider"
official_url: "https://example.com"
support_contact: "https://example.com/support"
endpoint:
  base_url: "https://api.example.com/v1"
auth:
  type: "bearer"
  token_env: "REPLICATE_API_TOKEN"
capabilities: [chat]
"#,
    )
}

#[test]
fn explicit_credential_wins() {
    let env = env_of(&[
        ("REPLICATE_API_TOKEN", "env-token"),
        ("REPLICATE_API_KEY", "env-key"),
    ]);
    let resolved = resolve_credential(&replicate(), Some(" explicit "), &env.vars, None);

    assert_eq!(resolved.secret(), Some("explicit"));
    assert_eq!(resolved.source_kind, CredentialSourceKind::Explicit);
    assert_eq!(resolved.source_name.as_deref(), Some("explicit"));
}

#[test]
fn manifest_env_wins_over_conventional_env() {
    let env = env_of(&[
        ("REPLICATE_API_TOKEN", "manifest-token"),
        ("REPLICATE_API_KEY", "conventional-key"),
    ]);
    let resolved = resolve_credential(&replicate(), None, &env.vars, None);

    assert_eq!(resolved.secret(), Some("manifest-token"));
    assert_eq!(resolved.source_kind, CredentialSourceKind::ManifestEnv);
    assert_eq!(resolved.source_name.as_deref(), Some("REPLICATE_API_TOKEN"));
}

#[test]
fn conventional_env_is_fallback() {
    let env = env_of(&[("REPLICATE_API_KEY", "conventional-key")]);
    let resolved = resolve_credential(&replicate(), None, &env.vars, None);

    assert_eq!(resolved.secret(), Some("conventional-key"));
    assert_eq!(resolved.source_kind, CredentialSourceKind::ConventionalEnv);
    assert_eq!(resolved.source_name.as_deref(), Some("REPLICATE_API_KEY"));
}

#[test]
fn debug_redacts_secret() {
    let env = env_of(&[("REPLICATE_API_TOKEN", "manifest-token")]);
    let resolved = resolve_credential(&replicate(), None, &env.vars, None);
    let debug = resolved.debug_text();

    assert!(debug.contains("<redacted>"));
    assert!(!debug.contains("manifest-token"));
}

#[test]
fn the_keyring_goes_last() {
    let env = env_of(&[]);
    let resolved = resolve_credential(&replicate(), Some("  "), &env.vars, Some(" ring "));
    assert_eq!(resolved.secret(), Some("ring"));
    assert_eq!(resolved.source_kind, CredentialSourceKind::Keyring);
    assert_eq!(
        resolved.source_name.as_deref(),
        Some("ai-protocol/replicate")
    );
    let none = resolve_credential(&replicate(), None, &env.vars, None);
    assert_eq!(none.secret(), None);
    assert_eq!(none.source_kind, CredentialSourceKind::Missing);
    assert_eq!(
        none.tried(),
        vec!["REPLICATE_API_TOKEN", "REPLICATE_API_KEY"]
    );
}

#[test]
fn conventional_variables_are_in_upper_case() {
    assert_eq!(
        ai_lib::credentials::conventional_envs("my-straße"),
        vec!["MY_STRASSE_API_KEY"]
    );
}

#[test]
fn join_absolute_path_ignores_base() {
    let abs =
        "https://dashscope.aliyuncs.com/api/v1/services/aigc/multimodal-generation/generation";
    assert_eq!(
        join_base_and_path("https://dashscope.aliyuncs.com/compatible-mode/v1", abs),
        abs
    );
}

#[test]
fn join_relative_path_prefixes_base() {
    assert_eq!(
        join_base_and_path("https://api.openai.com/v1", "/images/generations"),
        "https://api.openai.com/v1/images/generations"
    );
}

const OPENAI_IMAGE: &str = r#"
id: openai
protocol_version: "2.0"
status: stable
category: ai_provider
official_url: "https://example.com"
support_contact: "s"
endpoint:
  base_url: "https://api.openai.com/v1"
capabilities:
  required: [text]
  optional: [image_generation]
endpoints:
  image_generation:
    path: /images/generations
    method: POST
    adapter: openai
metadata:
  models:
    gpt-image-1:
      model_capabilities:
        image_generation: true
"#;

const QWEN_IMAGE: &str = r#"
id: qwen
protocol_version: "2.0"
status: stable
category: ai_provider
official_url: "https://example.com"
support_contact: "s"
endpoint:
  base_url: "https://dashscope.aliyuncs.com/compatible-mode/v1"
capabilities:
  required: [text]
  optional: [image_generation]
endpoints:
  image_generation:
    path: https://dashscope.aliyuncs.com/api/v1/services/aigc/multimodal-generation/generation
    method: POST
    adapter: dashscope
metadata:
  models:
    qwen-image-plus:
      model_capabilities:
        image_generation: true
"#;

#[test]
fn resolve_openai_and_qwen_image_endpoints() {
    let openai = manifest_from_yaml(OPENAI_IMAGE);
    let ep = require_generative_endpoint(&openai, "gpt-image-1", KEY_IMAGE_GENERATION).expect("ep");
    assert_eq!(ep.path, "/images/generations");
    assert_eq!(adapter_name(ep), "openai");

    let qwen = manifest_from_yaml(QWEN_IMAGE);
    let ep =
        require_generative_endpoint(&qwen, "qwen-image-plus", KEY_IMAGE_GENERATION).expect("ep");
    assert!(ep.path.starts_with("https://"));
    assert_eq!(adapter_name(ep), "dashscope");
    assert!(require_generative_endpoint(&qwen, "missing", KEY_IMAGE_GENERATION).is_err());
}

#[test]
fn openai_and_dashscope_bodies_differ() {
    let req = ImageGenerationRequest::new("m", "a cat");
    let oai = openai_image_body(&req);
    let ds = dashscope_image_body(&req);
    assert_eq!(str_at(&oai, "prompt").as_deref(), Some("a cat"));
    assert!(oai.get("input").is_none());
    assert!(ds.get("prompt").is_none());
    let first = ds
        .get("input")
        .and_then(|v| v.get("messages"))
        .and_then(|v| v.at(0))
        .and_then(|v| v.get("content"))
        .and_then(|v| v.at(0))
        .unwrap();
    assert_eq!(str_at(first, "text").as_deref(), Some("a cat"));
}

#[test]
fn omit_generative_keys_do_not_pass_as_false_fact() {
    let manifest = manifest_from_yaml(
        r#"
id: gen-omit
protocol_version: "2.0"
status: stable
category: ai_provider
official_url: "https://example.com"
support_contact: "s"
endpoint:
  base_url: "https://api.example.com"
capabilities:
  required: [text]
  optional: []
metadata:
  models:
    chat-only:
      context_window: 128000
      model_capabilities:
        tool_call: true
"#,
    );
    assert!(!manifest.supports_generative_for_model("chat-only", "image_generation"));
    assert!(!manifest.supports_generative_for_model("chat-only", "speech_to_text"));
    assert!(!manifest.supports_generative_for_model("missing-model", "image_generation"));
    let entry = find_model_metadata(&manifest.extra, "chat-only").expect("entry");
    let declared = entry
        .get("model_capabilities")
        .and_then(|c| c.get("image_generation"))
        .and_then(|b| b.as_bool());
    assert_eq!(
        CapabilityKnown::from_option(declared),
        CapabilityKnown::Unknown
    );
}

#[test]
fn image_generation_present_passes_check() {
    let manifest = manifest_from_yaml(
        r#"
id: gen-img
protocol_version: "2.0"
status: stable
category: ai_provider
official_url: "https://example.com"
support_contact: "s"
endpoint:
  base_url: "https://api.example.com"
capabilities:
  required: [text]
  optional: [image_generation]
metadata:
  models:
    gpt-image-1:
      model_capabilities:
        image_generation: true
      modalities:
        input: [text]
        output: [image]
"#,
    );
    assert!(manifest.supports_generative_for_model("gpt-image-1", "image_generation"));
    assert!(!manifest.supports_generative_for_model("gpt-image-1", "speech_to_text"));
}

fn bearer(kind: &str, param: Option<&str>) -> AuthConfig {
    AuthConfig {
        auth_type: kind.to_string(),
        token_env: None,
        key_env: None,
        param_name: param.map(|p| p.to_string()),
        header_name: None,
        prefix: None,
        extra_headers: None,
    }
}

fn transport_with(auth: Option<AuthConfig>, secret: Option<&str>) -> HttpTransport {
    let credential = if let Some(value) = secret {
        ResolvedCredential::resolved_explicit(value)
    } else {
        ResolvedCredential::missing(Vec::new(), Vec::new())
    };
    HttpTransport {
        routes: build_routes(&vec![]),
        preferred_route: 0,
        base_url: "https://example.invalid/v1".to_string(),
        model: "model".to_string(),
        credential,
        auth,
    }
}

#[test]
fn apply_auth_with_no_secret_leaves_request_unchanged() {
    let transport = transport_with(Some(bearer("bearer", None)), None);
    assert!(matches!(transport.apply_auth(), AuthAttachment::Nothing));
}

#[test]
fn apply_auth_query_param_attaches_param() {
    let transport = transport_with(Some(bearer("query_param", Some("api_key"))), Some("kp-secret"));
    match transport.apply_auth() {
        AuthAttachment::Query { name, value } => {
            assert_eq!(format!("{name}={value}"), "api_key=kp-secret");
        }
        _ => panic!("expected a query parameter"),
    }
}

#[test]
fn apply_auth_unknown_type_falls_back_to_bearer() {
    let transport = transport_with(
        Some(bearer("totally_made_up_auth", None)),
        Some("ut-secret"),
    );
    match transport.apply_auth() {
        AuthAttachment::Header { name, value } => {
            assert_eq!(name.to_lowercase(), "authorization");
            assert_eq!(value, "Bearer ut-secret");
        }
        _ => panic!("authorization header set"),
    }
}

#[test]
fn build_routes_direct_only_without_ai_proxy_url() {
    let routes = build_routes(&proxy_candidates(None));
    assert_eq!(routes.len(), 1);
    assert_eq!(routes[0], "direct");
}

#[test]
fn build_routes_adds_ai_proxy_url_failover_route() {
    let env = env_of(&[
        ("AI_PROXY_URL", "http://proxy.example:8080"),
        ("HTTP_PROXY", "http://ignored-for-candidates:3128"),
    ]);
    let routes = HttpTransport::new(&replicate(), "m", &env).routes;
    assert_eq!(routes.len(), 2);
    assert_eq!(routes[0], "direct");
    assert_eq!(routes[1], "proxy:http://proxy.example:8080");
    assert_eq!(
        build_routes(&proxy_candidates(Some("http://proxy.example:8080"))),
        routes
    );
}

#[test]
fn system_proxies_are_no_routes() {
    let env = env_of(&[("HTTP_PROXY", "http://ignored-for-candidates:3128")]);
    let transport = HttpTransport::new(&replicate(), "m", &env);
    assert_eq!(transport.routes, ["direct"]);
}

#[test]
fn transports_keep_extra_headers() {
    let mut manifest = replicate();
    let pairs = vec![("x-a".to_string(), "1".to_string())];
    if let Some(auth) = &mut manifest.auth {
        auth.extra_headers = Some(pairs.clone());
    }
    let transport = HttpTransport::new(&manifest, "m", &env_of(&[]));
    assert_eq!(transport.auth.unwrap().extra_headers, Some(pairs));
}

#[test]
fn streaming_requests_say_what_they_accept() {
    let pair = |a: &str, b: &str| (a.to_string(), b.to_string());
    assert_eq!(
        request_headers(true, None),
        vec![pair("accept", "text/event-stream")]
    );
    assert_eq!(
        request_headers(false, Some("id-1")),
        vec![
            pair("accept", "application/json"),
            pair("x-ai-protocol-request-id", "id-1")
        ]
    );
}

#[test]
fn blank_proxies_do_not_count() {
    assert!(proxy_candidates(Some("  ")).is_empty());
}

#[test]
fn unknown_auth_types_are_noted_once() {
    let mut seen = UnknownAuthTypes::new();
    assert!(seen.note("strange"));
    assert!(!seen.note("strange"));
    assert!(seen.note("stranger"));
}

#[test]
fn routes_are_tried_in_turn() {
    let mut transport = HttpTransport::new_with_base_url_and_credential(
        &replicate(),
        "m",
        None,
        Some("k"),
        &env_of(&[("AI_PROXY_URL", "http://p:1")]),
    );
    transport.select(1);
    assert_eq!(transport.preferred_route_indices(), vec![1, 0]);
    let mut run = transport.start();
    assert_eq!(run.current(), Some(1));
    assert!(matches!(
        run.report(RouteOutcome::Failed("refused".to_string())),
        RouteDecision::Next
    ));
    assert_eq!(run.current(), Some(0));
    assert!(matches!(
        run.report(RouteOutcome::Response(200)),
        RouteDecision::Accept(0)
    ));
}

#[test]
fn a_retryable_status_on_the_first_route_goes_on() {
    let transport = HttpTransport::new_with_base_url_and_credential(
        &replicate(),
        "m",
        None,
        Some("k"),
        &env_of(&[("AI_PROXY_URL", "http://p:1")]),
    );
    let mut run = transport.start();
    assert!(matches!(
        run.report(RouteOutcome::Response(503)),
        RouteDecision::Next
    ));
    assert!(matches!(
        run.report(RouteOutcome::Failed("down".to_string())),
        RouteDecision::Next
    ));
    assert_eq!(run.current(), None);
    assert!(run.error().message().contains("down"));
    assert!(should_try_alternate_route(451));
    assert!(!should_try_alternate_route(500));
}

#[test]
fn requests_go_to_the_model() {
    let transport = HttpTransport::new(&replicate(), "m-1", &env_of(&[]));
    assert_eq!(
        transport.request_url("/models/{model}/run"),
        "https://api.example.com/v1/models/m-1/run"
    );
    assert_eq!(method_for("get"), HttpMethod::Get);
    assert_eq!(method_for("odd"), HttpMethod::Get);
    assert!(!method_for("GET").carries_body());
}

#[test]
fn settings_come_from_the_environment() {
    let plain = client_settings(&env_of(&[]).vars, false);
    let set = client_settings(&env_of(&[("AI_HTTP_TIMEOUT_SECS", "7")]).vars, false);
    assert_eq!(set.timeout_secs, 7);
    assert_ne!(plain.timeout_secs, 7);
    let odd = client_settings(&env_of(&[("AI_HTTP_TIMEOUT_SECS", "seven")]).vars, false);
    assert_eq!(odd.timeout_secs, plain.timeout_secs);
}

#[test]
fn base_urls_and_paths_are_joined() {
    assert_eq!(join_url("https://x/v1//", "rerank"), "https://x/v1/rerank");
    assert_eq!(join_url("https://x/v1", "/rerank"), "https://x/v1/rerank");
    assert_eq!(normalize_endpoint_path("a".to_string()), "/a");
    assert_eq!(normalize_endpoint_path("/a".to_string()), "/a");
    assert_eq!(model_id_of("cohere/rerank/v3"), "rerank/v3");
    assert_eq!(model_id_of("alone"), "alone");
}

#[test]
fn services_and_models_are_found() {
    let mut m = replicate();
    let mut services = Table::new();
    services.insert(
        "list_models".to_string(),
        ServiceConfig {
            path: "/models".to_string(),
            method: "GET".to_string(),
            headers: None,
            query_params: None,
        },
    );
    m.services = Some(services);
    assert_eq!(resolve_service(&m, "list_models").unwrap().path, "/models");
    assert!(resolve_service(&m, "other").is_err());
    assert!(resolve_endpoint(&m, "chat").is_err());
    assert_eq!(
        models_from_response(&json(r#"{"data": [{"id": "a"}, {"x": 1}, {"id": "b"}]}"#)),
        vec!["a", "b"]
    );
}

const TESTPROV: &str = r#"
id: testprov
protocol_version: "1.0"
endpoint:
  base_url: "https://example.test/v1"
  auth:
    type: bearer
    token_env: TESTPROV_API_KEY
capabilities:
  streaming: false
  tools: false
  vision: false
provider_id: testprov
"#;

#[test]
fn from_manifest_requires_no_vendor_default() {
    let m = manifest_from_yaml(TESTPROV);
    let client = EmbeddingClient::builder()
        .from_manifest(&m, "emb-1", &env_of(&[("TESTPROV_API_KEY", "sk-test")]))
        .ok()
        .unwrap()
        .build(Ok(()))
        .ok()
        .unwrap();
    assert_eq!(client.model(), "emb-1");
    assert!(client.base_url.contains("example.test"));
    assert_eq!(client.endpoint(), "https://example.test/v1/embeddings");
    assert_eq!(client.api_key, "sk-test");
}

fn error_of<T>(r: Result<T, Error>) -> String {
    match r {
        Ok(_) => panic!("expected an error"),
        Err(e) => e.message(),
    }
}

#[test]
fn client_build_without_base_url_errors() {
    let res = EmbeddingClient::builder()
        .model("x")
        .api_key("k")
        .build(Ok(()));
    assert!(error_of(res).contains("base_url"));
    let res = RerankerClient::builder()
        .model("rerank-v3")
        .api_key("k")
        .build(Ok(()));
    assert!(error_of(res).contains("base_url"));
}

#[test]
fn clients_say_what_they_miss() {
    assert!(error_of(EmbeddingClient::builder().build(Ok(()))).contains("Model must be specified"));
    assert!(error_of(RerankerClient::builder().model("m").build(Ok(())))
        .contains("API key required"));
    assert!(error_of(
        RerankerClient::builder()
            .model("m")
            .api_key("k")
            .base_url("https://x")
            .build(Err("no tls".to_string()))
    )
    .contains("Failed to create HTTP client: no tls"));
    let m = manifest_from_yaml(TESTPROV);
    assert!(error_of(RerankerClient::builder().from_manifest(&m, "r", &env_of(&[]))).contains(
        "API key required for rerank (provider=testprov; tried [\"TESTPROV_API_KEY\", \"TESTPROV_API_KEY\"])"
    ));
    assert!(error_of(TtsClient::builder().build(&env_of(&[]))).contains("Model must be specified"));
    assert!(error_of(TtsClient::builder().model("m").build(&env_of(&[]))).contains("API key required"));
}

fn answered(body: &str) -> TextOutcome {
    TextOutcome::Answered {
        success: true,
        status: "200 OK".to_string(),
        body: body.to_string(),
    }
}

fn reranker() -> RerankerClient {
    RerankerClient::builder()
        .model("rerank-v3")
        .api_key("k")
        .base_url("https://x/v1/")
        .endpoint_path("rank")
        .build(Ok(()))
        .ok()
        .unwrap()
}

#[test]
fn rankings_are_asked_for_and_read() {
    let client = reranker();
    let (url, body) = client.rerank_request(
        "q",
        &vec!["a".to_string(), "b".to_string()],
        &RerankOptions {
            top_n: Some(1),
            max_tokens_per_doc: None,
        },
    );
    assert_eq!(url, "https://x/v1/rank");
    assert_eq!(str_at(&body, "model").as_deref(), Some("rerank-v3"));
    assert_eq!(body.get("top_n").unwrap().as_u64(), Some(1));
    assert!(body.get("max_tokens_per_doc").is_none());
    assert_eq!(body.get("documents").unwrap().as_array().unwrap().len(), 2);

    let got = client
        .rerank_response(answered(
            r#"{"results": [{"index": 1, "relevance_score": 0.5, "document": "b"}, {}]}"#,
        ))
        .unwrap();
    assert_eq!(got.len(), 2);
    assert_eq!(got[0].index, 1);
    assert_eq!(got[0].document.as_deref(), Some("b"));
    assert!(matches!(
        &got[0].relevance_score,
        JsonNumber::Fraction { number, .. } if number.as_f64() == Some(0.5)
    ));
    assert_eq!(got[1].index, 0);
    assert!(matches!(
        got[1].relevance_score,
        JsonNumber::Unsigned(0)
    ));
}

#[test]
fn rankings_that_fail() {
    let client = reranker();
    assert!(matches!(
        client.rerank_response(TextOutcome::SendFailed("down".to_string())),
        Err(Error::Network { message, source })
            if message == "Rerank request failed: down" && source.as_deref() == Some("rerank")
    ));
    assert!(matches!(
        client.rerank_response(TextOutcome::ReadFailed("cut".to_string())),
        Err(Error::Network { message, source: None })
            if message == "Failed to read Rerank response: cut"
    ));
    assert!(matches!(
        client.rerank_response(TextOutcome::Answered {
            success: false,
            status: "404 Not Found".to_string(),
            body: "no".to_string(),
        }),
        Err(Error::Api(m)) if m == "Rerank API error (404 Not Found): no"
    ));
    assert!(matches!(
        client.rerank_response(answered("nope")),
        Err(Error::Json(_))
    ));
    assert!(matches!(
        client.rerank_response(answered("{}")),
        Err(Error::Api(m)) if m == "Invalid rerank response: missing results"
    ));
}

fn embedder(max: usize) -> EmbeddingClient {
    let mut b = EmbeddingClient::builder()
        .model("e")
        .api_key("k")
        .base_url("https://x")
        .dimensions(8);
    b.max_batch_size = max;
    b.build(Ok(())).ok().unwrap()
}

fn embedded(n: usize) -> EmbeddingResponse {
    let items: Vec<String> = (0..n)
        .map(|i| format!(r#"{{"index": {i}, "embedding": [{i}, 0.5]}}"#))
        .collect();
    EmbeddingResponse::from_openai_format(&json(&format!(
        r#"{{"data": [{}], "model": "served", "usage": {{"prompt_tokens": 2, "total_tokens": 3}}}}"#,
        items.join(",")
    )))
    .unwrap()
}

#[test]
fn batches_are_planned_and_merged() {
    let client = embedder(2);
    let texts: Vec<String> = ["a", "b", "c", "d", "e"]
        .iter()
        .map(|s| s.to_string())
        .collect();
    let batches = client.plan_batches(&texts);
    assert_eq!(
        batches,
        vec![vec!["a", "b"], vec!["c", "d"], vec!["e"]]
    );
    let responses = batches.iter().map(|b| embedded(b.len())).collect();
    let all = client.merge_batches(texts.len(), responses);
    let indices: Vec<usize> = all.embeddings.iter().map(|e| e.index).collect();
    assert_eq!(indices, vec![0, 1, 2, 3, 4]);
    assert_eq!(all.embeddings[4].vector.len(), 2);
    assert_eq!(all.model, "e");
    assert_eq!(all.usage.prompt_tokens, 6);
    assert_eq!(all.usage.total_tokens, 9);
}

#[test]
fn a_single_batch_stays_as_it_is() {
    let client = embedder(2);
    let texts = vec!["a".to_string()];
    assert_eq!(client.plan_batches(&texts).len(), 1);
    assert_eq!(client.plan_batches(&vec![]).len(), 1);
    let one = client.merge_batches(1, vec![embedded(1)]);
    assert_eq!(one.model, "served");
    let body = client.batch_request(&texts);
    assert_eq!(body.get("dimensions").unwrap().as_u64(), Some(8));
    assert_eq!(
        str_at(&client.embed_request("t"), "input").as_deref(),
        Some("t")
    );
    assert!(client.embed_response(answered(r#"{"data": []}"#)).is_ok());
    assert!(client.embed_response(answered("{}")).is_err());
}

#[test]
fn speech_is_asked_for_and_read() {
    let client = TtsClient::builder()
        .model("tts-1")
        .endpoint_path("audio")
        .build(&env_of(&[("OPENAI_API_KEY", "k")]))
        .ok()
        .unwrap();
    assert_eq!(client.endpoint_path, "/audio");
    assert_eq!(client.transport.base_url, "https://api.openai.com");
    assert_eq!(client.transport.credential.secret(), Some("k"));
    let options = TtsOptions {
        voice: Some("alloy".to_string()),
        speed: Some(JsonNumber::Unsigned(2)),
        response_format: Some("WAV".to_string()),
    };
    let body = client.synthesize_request("hi", &options);
    assert_eq!(str_at(&body, "voice").as_deref(), Some("alloy"));
    assert_eq!(body.get("speed").unwrap().as_u64(), Some(2));
    let out = client
        .synthesize_response(
            &options,
            BytesOutcome::Answered {
                success: true,
                status: "200 OK".to_string(),
                content_type: None,
                body: vec![1, 2],
            },
        )
        .unwrap();
    assert_eq!(out.data, vec![1, 2]);
    assert_eq!(out.format, AudioFormat::Wav);
    assert_eq!(out.format.mime_type(), "audio/wav");
    assert!(matches!(
        client.synthesize_response(
            &options,
            BytesOutcome::Answered {
                success: false,
                status: "500 Internal Server Error".to_string(),
                content_type: None,
                body: vec![b'o', 0xff],
            },
        ),
        Err(Error::Api(m)) if m == "TTS API error (500 Internal Server Error): o\u{fffd}"
    ));
    for outcome in [
        BytesOutcome::SendFailed("down".to_string()),
        BytesOutcome::ReadFailed("down".to_string()),
    ] {
        match client.synthesize_response(&TtsOptions::default(), outcome) {
            Err(Error::Network { message, source }) => {
                assert_eq!(message, "TTS request failed: down");
                assert_eq!(source.as_deref(), Some("tts"));
            }
            _ => panic!("network error"),
        }
    }
    assert_eq!(AudioFormat::from_str("nothing"), Ok(AudioFormat::Mp3));
}

fn gen_env() -> Environment {
    env_of(&[("OPENAI_API_KEY", "k"), ("QWEN_API_KEY", "q")])
}

#[test]
fn images_are_asked_for_and_read() {
    let client =
        ImageGenerationClient::from_manifest(&manifest_from_yaml(OPENAI_IMAGE), "gpt-image-1", &gen_env())
            .ok()
            .unwrap();
    assert_eq!(client.endpoint_path(), "/images/generations");
    assert_eq!(client.adapter(), "openai");
    let body = client
        .generate_request(&ImageGenerationRequest::new("gpt-image-1", "a cat").with_size("1x1"))
        .unwrap();
    assert_eq!(str_at(&body, "size").as_deref(), Some("1x1"));
    assert!(error_of(client.generate_request(&ImageGenerationRequest::new("other", "a cat")))
        .contains("request model `other` != client model `gpt-image-1`"));
    let got = client
        .generate_response(answered(r#"{"data": [{"url": "u"}, {"b64_json": "x"}]}"#))
        .unwrap();
    assert_eq!(got.images.len(), 2);
    assert_eq!(got.images[0].url.as_deref(), Some("u"));
    assert_eq!(got.images[1].b64_json.as_deref(), Some("x"));

    let qwen =
        ImageGenerationClient::from_manifest(&manifest_from_yaml(QWEN_IMAGE), "qwen-image-plus", &gen_env())
            .ok()
            .unwrap();
    let got = qwen
        .generate_response(answered(
            r#"{"output": {"choices": [{"message": {"content": [{"image": "i"}]}}], "results": [{"url": "r"}]}}"#,
        ))
        .unwrap();
    assert_eq!(got.images[0].url.as_deref(), Some("i"));
    let got = qwen
        .generate_response(answered(r#"{"output": {"results": [{"url": "r"}]}}"#))
        .unwrap();
    assert_eq!(got.images[0].url.as_deref(), Some("r"));
    assert!(qwen
        .generate_response(answered("{}"))
        .unwrap()
        .images
        .is_empty());
}

const SPEECH: &str = r#"
id: openai
protocol_version: "2.0"
endpoint:
  base_url: "https://api.openai.com/v1"
endpoints:
  speech_to_text:
    path: /audio/transcriptions
  text_to_speech:
    path: /audio/speech
    adapter: dashscope
metadata:
  models:
    m:
      model_capabilities:
        speech_to_text: true
        text_to_speech: true
"#;

#[test]
fn recordings_are_sent_and_read() {
    let manifest = manifest_from_yaml(SPEECH);
    let client = SpeechToTextClient::from_manifest(&manifest, "m", &gen_env())
        .ok()
        .unwrap();
    assert_eq!(client.adapter(), "openai");
    let mut request = SpeechToTextRequest::new("m", "/tmp/clip.wav");
    request.language = Some("de".to_string());
    let form = client
        .transcribe_request(&request, Ok(Some("clip.wav".to_string())))
        .unwrap();
    assert_eq!(form.file_name, "clip.wav");
    assert_eq!(
        form.fields,
        vec![
            ("model".to_string(), "m".to_string()),
            ("language".to_string(), "de".to_string())
        ]
    );
    assert_eq!(
        client.transcribe_request(&request, Ok(None)).unwrap().file_name,
        "audio.wav"
    );
    assert!(
        error_of(client.transcribe_request(&request, Err("gone".to_string())))
            .contains("failed to read audio_source `/tmp/clip.wav`: gone")
    );
    let got = client
        .transcribe_response(answered(r#"{"text": "hello"}"#))
        .unwrap();
    assert_eq!(got.text, "hello");
    assert!(
        error_of(TextToSpeechClient::from_manifest(&manifest, "m", &gen_env()))
            .contains("text_to_speech adapter `dashscope` not implemented")
    );
}

#[test]
fn audio_comes_back_in_base64() {
    let manifest = manifest_from_yaml(&SPEECH.replace("dashscope", "openai"));
    let client = TextToSpeechClient::from_manifest(&manifest, "m", &gen_env())
        .ok()
        .unwrap();
    let body = client
        .synthesize_request(&TextToSpeechRequest::new("m", "hi").with_voice("alloy"))
        .unwrap();
    assert_eq!(str_at(&body, "input").as_deref(), Some("hi"));
    for (bytes, text) in [
        (vec![], ""),
        (vec![0xfb], "+w=="),
        (vec![0xfb, 0xff], "+/8="),
        (b"Man!".to_vec(), "TWFuIQ=="),
    ] {
        let got = client
            .synthesize_response(BytesOutcome::Answered {
                success: true,
                status: "200 OK".to_string(),
                content_type: Some("audio/mpeg".to_string()),
                body: bytes,
            })
            .unwrap();
        assert_eq!(got.audio_base64.as_deref(), Some(text));
        assert_eq!(got.content_type.as_deref(), Some("audio/mpeg"));
    }
}

#[test]
fn endpoints_must_be_declared() {
    let m = replicate();
    assert!(error_of(resolve_generative_endpoint(&m, "image_generation"))
        .contains("manifest endpoints map missing"));
    let q = manifest_from_yaml(QWEN_IMAGE);
    assert!(error_of(resolve_generative_endpoint(&q, "text_to_speech"))
        .contains("manifest endpoints.text_to_speech missing"));
    assert!(error_of(require_generative_endpoint(&q, "x", "image_generation"))
        .contains("model `x` does not declare model_capabilities.image_generation=true (omit≠false fail-closed)"));
    assert!(error_of(ImageGenerationClient::from_manifest(&q, "qwen-image-plus", &env_of(&[])))
        .contains("API key required for image_generation (provider=qwen"));
}

#[test]
fn ancillary_transports_take_the_key() {
    let t = build_ancillary_transport(None, "https://b", "m", "key", &env_of(&[]));
    assert_eq!(t.base_url, "https://b");
    assert_eq!(t.credential.secret(), Some("key"));
    let m = synthetic_bearer_manifest("https://b");
    assert_eq!(m.id, "ancillary");
    let t = build_ancillary_transport(Some(&replicate()), "https://c", "m", "key", &env_of(&[]));
    assert_eq!(t.base_url, "https://c");
}

#[test]
fn shadowed_auth_blocks_are_found() {
    let mut manifest = replicate();
    assert!(shadowed_auth(&manifest).is_none());
    manifest.endpoint.auth = Some(manifest.auth.as_ref().unwrap().copy());
    assert!(shadowed_auth(&manifest).is_none());
    manifest.endpoint.auth.as_mut().unwrap().token_env = Some("OTHER".to_string());
    assert_eq!(
        shadowed_auth(&manifest).unwrap().env_name(),
        Some("REPLICATE_API_TOKEN")
    );
    manifest.endpoint.auth.as_mut().unwrap().token_env = Some("REPLICATE_API_TOKEN".to_string());
    manifest.endpoint.auth.as_mut().unwrap().auth_type = "header".to_string();
    assert!(shadowed_auth(&manifest).is_some());
}
