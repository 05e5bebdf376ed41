use ai_lib::error::ProtocolError;
use ai_lib::json::{parse_text, JsonValue};
use ai_lib::protocol::cache::ManifestCache;
use ai_lib::protocol::loader::{
    accept_manifest, after_alias, after_exact, canonical_from_identity_text,
    canonical_from_identity_value, check_fetch, classify_yaml_error, decode_manifest_file, find_model_config, identity_map_candidates,
    is_registry_file, next_model_step, plan_provider, plan_registries, protocol_root,
    remote_outcome, resolve_canonical_provider_id, search_roots, split_model_id, unreadable_file, AfterAlias,
    AfterExact, ConfigLookup, FetchOutcome, FileFormat, LoadStep, ModelConfig, ModelRegistry,
    ModelStep, ProtocolLoader, ProtocolRegistry, ProviderSearch, StepOutcome,
};
use ai_lib::protocol::manifest::{
    detect_api_style, ApiStyle, EndpointDefinition, LegacyCapabilities, ProtocolManifest,
};
use ai_lib::protocol::metadata_model::{
    model_entry_from_extra, CapabilityKnown, MetadataModelEntry,
};
use ai_lib::protocol::request_defaults::{
    apply_request_defaults, max_tokens_cap_from_defaults, request_defaults_from_extra,
    safe_input_tokens_from_defaults, RequestDefaultsOptions,
};
use ai_lib::table::Table;
use std::sync::Arc;

fn json(s: &str) -> JsonValue {
    parse_text(s).unwrap()
}

fn manifest(id: &str) -> ProtocolManifest {
    ProtocolManifest {
        id: id.to_string(),
        provider_id: None,
        protocol_version: "2.0".to_string(),
        endpoint: EndpointDefinition {
            base_url: "https://api.example.com/v1".to_string(),
            auth: None,
        },
        auth: None,
        capabilities: LegacyCapabilities {
            streaming: true,
            tools: false,
            vision: false,
            agentic: false,
            reasoning: false,
            parallel_tools: false,
        },
        endpoints: None,
        services: None,
        aliases: None,
        extra: Table::new(),
    }
}

#[test]
fn wire_model_id_fallback_keeps_nvidia_org_prefix() {
    assert_eq!(
        ProtocolLoader::wire_model_id_fallback("nvidia/nemotron-mini-4b-instruct"),
        "nvidia/nemotron-mini-4b-instruct"
    );
}

#[test]
fn wire_model_id_fallback_strips_org_qualified_nvidia() {
    assert_eq!(
        ProtocolLoader::wire_model_id_fallback("nvidia/meta/llama-3.1-8b-instruct"),
        "meta/llama-3.1-8b-instruct"
    );
}

#[test]
fn wire_model_id_fallback_strips_openai_style() {
    assert_eq!(
        ProtocolLoader::wire_model_id_fallback("openai/gpt-4o-mini"),
        "gpt-4o-mini"
    );
}

#[test]
fn canonical_from_identity_map_resolves_google_to_gemini() {
    let value = json(
        r#"{
        "canonical_id": "gemini",
        "aliases": ["google"]
    }"#,
    );
    assert_eq!(
        canonical_from_identity_value(&value, "google").as_deref(),
        Some("gemini")
    );
    assert_eq!(
        canonical_from_identity_value(&value, "gemini").as_deref(),
        Some("gemini")
    );
    assert_eq!(canonical_from_identity_value(&value, "openai"), None);
}

#[test]
fn canonical_from_multi_family_map_resolves_kimi_and_glm() {
    let value = json(
        r#"{
        "families": [
            { "canonical_id": "gemini", "aliases": ["google"] },
            { "canonical_id": "moonshot", "aliases": ["kimi"] },
            { "canonical_id": "zhipu", "aliases": ["glm"] }
        ]
    }"#,
    );
    assert_eq!(
        canonical_from_identity_value(&value, "kimi").as_deref(),
        Some("moonshot")
    );
    assert_eq!(
        canonical_from_identity_value(&value, "glm").as_deref(),
        Some("zhipu")
    );
    assert_eq!(
        canonical_from_identity_value(&value, "google").as_deref(),
        Some("gemini")
    );
    assert_eq!(canonical_from_identity_value(&value, "openai"), None);
}

#[test]
fn omit_capabilities_is_unknown_not_false() {
    let entry = MetadataModelEntry::from_value(&json(
        r#"{
        "context_window": 128000,
        "max_output_tokens": 4096,
        "status": "active"
    }"#,
    ))
    .expect("parse");
    assert_eq!(
        entry.supports_input_modality("image"),
        CapabilityKnown::Unknown
    );
    assert!(entry.model_capabilities.is_none());
}

#[test]
fn modalities_input_text_only_rejects_image() {
    let entry = MetadataModelEntry::from_value(&json(
        r#"{
        "modalities": { "input": ["text"], "output": ["text"] }
    }"#,
    ))
    .expect("parse");
    assert_eq!(entry.supports_input_modality("image"), CapabilityKnown::No);
    assert_eq!(entry.supports_input_modality("text"), CapabilityKnown::Yes);
}

#[test]
fn attachment_false_without_modalities_rejects_image() {
    let entry = MetadataModelEntry::from_value(&json(
        r#"{
        "model_capabilities": { "attachment": false, "tool_call": true }
    }"#,
    ))
    .expect("parse");
    assert_eq!(entry.supports_input_modality("image"), CapabilityKnown::No);
    assert_eq!(
        CapabilityKnown::from_option(entry.model_capabilities.as_ref().unwrap().tool_call),
        CapabilityKnown::Yes
    );
}

#[test]
fn lookup_from_extra_map() {
    let mut extra = Table::new();
    extra.insert(
        "metadata".into(),
        json(
            r#"{
            "models": {
                "m1": {
                    "modalities": { "input": ["text", "image"] }
                }
            }
        }"#,
        ),
    );
    let entry = model_entry_from_extra(&extra, "m1").expect("entry");
    assert_eq!(entry.supports_input_modality("image"), CapabilityKnown::Yes);
    assert!(model_entry_from_extra(&extra, "missing").is_none());
}

#[test]
fn or_provider_prefers_known_model_fact() {
    assert!(CapabilityKnown::Yes.or_provider(false));
    assert!(!CapabilityKnown::No.or_provider(true));
    assert!(CapabilityKnown::Unknown.or_provider(true));
    assert!(!CapabilityKnown::Unknown.or_provider(false));
}

fn qwen_defaults() -> JsonValue {
    json(
        r#"{
        "status": "experimental",
        "max_tokens_cap": 2048,
        "max_tokens_cap_thinking": 4096,
        "safe_input_tokens": 3500,
        "safe_input_tokens_thinking": 2800,
        "reasoning_effort": {
            "when_thinking_off": "none",
            "when_thinking_on": "default"
        }
    }"#,
    )
}

fn count(body: &JsonValue, key: &str) -> u64 {
    body.get(key).unwrap().as_u64().unwrap()
}

fn word<'a>(body: &'a JsonValue, key: &str) -> &'a str {
    body.get(key).unwrap().as_str().unwrap()
}

#[test]
fn omit_defaults_is_noop() {
    let mut body = json(r#"{ "model": "x", "max_tokens": 9999 }"#);
    apply_request_defaults(&mut body, &RequestDefaultsOptions::new(true, None));
    assert_eq!(count(&body, "max_tokens"), 9999);
    assert!(body.get("reasoning_effort").is_none());
}

#[test]
fn think_on_uses_thinking_cap_and_effort() {
    let rd = qwen_defaults();
    let mut body = json(r#"{ "model": "qwen/qwen3.6-27b", "max_tokens": 8000 }"#);
    apply_request_defaults(
        &mut body,
        &RequestDefaultsOptions::new(true, Some(&rd)).with_model_id("qwen/qwen3.6-27b"),
    );
    assert_eq!(count(&body, "max_tokens"), 4096);
    assert_eq!(word(&body, "reasoning_effort"), "default");
    assert!(body.get("max_completion_tokens").is_none());
}

#[test]
fn think_off_uses_baseline_cap_and_effort() {
    let rd = qwen_defaults();
    let mut body = json(r#"{ "model": "qwen/qwen3.6-27b", "max_tokens": 8000 }"#);
    apply_request_defaults(&mut body, &RequestDefaultsOptions::new(false, Some(&rd)));
    assert_eq!(count(&body, "max_tokens"), 2048);
    assert_eq!(word(&body, "reasoning_effort"), "none");
}

#[test]
fn missing_prev_max_tokens_sets_cap() {
    let rd = qwen_defaults();
    let mut body = json(r#"{ "model": "m" }"#);
    apply_request_defaults(&mut body, &RequestDefaultsOptions::new(true, Some(&rd)));
    assert_eq!(count(&body, "max_tokens"), 4096);
}

#[test]
fn does_not_overwrite_existing_reasoning_effort() {
    let rd = qwen_defaults();
    let mut body = json(
        r#"{
        "model": "m",
        "max_tokens": 1000,
        "reasoning_effort": "low"
    }"#,
    );
    apply_request_defaults(&mut body, &RequestDefaultsOptions::new(true, Some(&rd)));
    assert_eq!(word(&body, "reasoning_effort"), "low");
    assert_eq!(count(&body, "max_tokens"), 1000);
}

#[test]
fn strips_max_completion_tokens() {
    let rd = qwen_defaults();
    let mut body = json(
        r#"{
        "model": "m",
        "max_completion_tokens": 5000
    }"#,
    );
    apply_request_defaults(&mut body, &RequestDefaultsOptions::new(false, Some(&rd)));
    assert_eq!(count(&body, "max_tokens"), 2048);
    assert!(body.get("max_completion_tokens").is_none());
}

#[test]
fn safe_input_tokens_selector() {
    let rd = qwen_defaults();
    assert_eq!(safe_input_tokens_from_defaults(&rd, true), Some(2800));
    assert_eq!(safe_input_tokens_from_defaults(&rd, false), Some(3500));
}

#[test]
fn lookup_from_extra() {
    let mut extra = Table::new();
    extra.insert(
        "metadata".into(),
        json(
            r#"{
            "models": {
                "qwen/qwen3.6-27b": {
                    "request_defaults": { "max_tokens_cap": 2048 }
                }
            }
        }"#,
        ),
    );
    let rd = request_defaults_from_extra(&extra, "qwen/qwen3.6-27b").expect("rd");
    assert_eq!(count(rd, "max_tokens_cap"), 2048);
    assert!(request_defaults_from_extra(&extra, "missing").is_none());
}

#[test]
fn caps_are_read_from_defaults() {
    assert_eq!(max_tokens_cap_from_defaults(&qwen_defaults(), true), Some(4096));
    assert_eq!(max_tokens_cap_from_defaults(&qwen_defaults(), false), Some(2048));
    assert_eq!(max_tokens_cap_from_defaults(&json("{}"), false), None);
}

#[test]
fn capped_bodies_stay_under_the_cap() {
    let rd = qwen_defaults();
    for asked in [1u64, 2047, 2048, 2049, 9_000_000] {
        let mut body = json(&format!(r#"{{ "max_tokens": {asked} }}"#));
        apply_request_defaults(&mut body, &RequestDefaultsOptions::new(false, Some(&rd)));
        assert_eq!(count(&body, "max_tokens"), asked.min(2048));
    }
}

#[test]
fn the_oldest_manifest_leaves_a_full_cache() {
    let mut cache = ManifestCache::new();
    for i in 0..101 {
        cache.put(&format!("m{i}"), Arc::new(manifest("x")));
    }
    assert!(cache.get("m0").is_none());
    assert!(cache.get("m1").is_some());
    cache.put("m101", Arc::new(manifest("y")));
    assert!(cache.get("m2").is_none());
    assert_eq!(cache.get("m101").unwrap().id, "y");
}

#[test]
fn providers_are_looked_for_in_order() {
    let steps = plan_provider(Some("/base"), None, "openai");
    match &steps[0] {
        LoadStep::Local { dir, file, .. } => {
            assert_eq!(dir.root, "/base");
            assert!(file.starts_with("openai"));
        }
        LoadStep::Remote { .. } => panic!("local files go first"),
    }
    assert!(steps
        .iter()
        .any(|s| matches!(s, LoadStep::Remote { .. })));
}

#[test]
fn a_search_ends_with_the_first_manifest() {
    let mut search = ProviderSearch::new(Some("/base"), None, "openai");
    assert!(search.current().is_some());
    assert!(search.report(StepOutcome::Missing).is_none());
    let found = search.report(StepOutcome::Loaded(manifest("openai")));
    assert_eq!(found.unwrap().unwrap().id, "openai");
}

#[test]
fn a_search_without_result_says_so() {
    let mut search = ProviderSearch::new(Some("/base"), None, "nobody");
    loop {
        if let Some(end) = search.report(StepOutcome::Missing) {
            match end {
                Err(ProtocolError::LoadError { .. }) | Err(ProtocolError::NotFound { .. }) => {}
                other => panic!("unexpected end {:?}", other),
            }
            break;
        }
    }
}

#[test]
fn aliases_are_resolved_once() {
    assert!(matches!(
        after_exact(Ok(manifest("a"))),
        AfterExact::Done(Ok(_))
    ));
    assert!(matches!(
        after_alias("google", Some("gemini".to_string())),
        AfterAlias::LoadExact(id) if id == "gemini"
    ));
    assert!(matches!(
        after_alias("gemini", Some("gemini".to_string())),
        AfterAlias::Fail(_)
    ));
    assert!(matches!(after_alias("x", None), AfterAlias::Fail(_)));
}

#[test]
fn model_ids_have_two_parts() {
    let (provider, rest) = split_model_id("nvidia/meta/llama").unwrap();
    assert_eq!(provider, "nvidia");
    assert_eq!(rest, "meta/llama");
    assert!(matches!(
        split_model_id("alone"),
        Err(ProtocolError::NotFound { .. })
    ));
}

#[test]
fn models_lead_to_providers() {
    match next_model_step(
        "openai",
        "gpt",
        ConfigLookup::Found("azure".to_string()),
        None,
    ) {
        ModelStep::LoadProvider(p) => assert_eq!(p, "azure"),
        other => panic!("unexpected step {:?}", other),
    }
    match next_model_step("openai", "gpt", ConfigLookup::NotFound, None) {
        ModelStep::LookUp(name) => assert_eq!(name, "gpt"),
        other => panic!("unexpected step {:?}", other),
    }
    match next_model_step(
        "openai",
        "gpt",
        ConfigLookup::NotFound,
        Some(ConfigLookup::NotFound),
    ) {
        ModelStep::LoadProvider(p) => assert_eq!(p, "openai"),
        other => panic!("unexpected step {:?}", other),
    }
}

#[test]
fn registries_are_searched_in_order() {
    let mut models = Table::new();
    models.insert(
        "m".to_string(),
        ModelConfig {
            provider: "p".to_string(),
            model_id: None,
            context_window: None,
            capabilities: vec![],
        },
    );
    let registries = vec![None, Some(ModelRegistry { models })];
    assert_eq!(find_model_config(&registries, "m").unwrap().provider, "p");
    assert!(find_model_config(&registries, "n").is_err());
    assert!(!plan_registries(Some("/base"), None).is_empty());
    assert!(is_registry_file(Some("json"), FileFormat::Json));
    assert!(!is_registry_file(Some("txt"), FileFormat::Yaml));
    assert!(!is_registry_file(None, FileFormat::Json));
}

#[test]
fn wire_ids_come_from_the_registry_first() {
    let keys = ProtocolLoader::wire_lookup_keys("nvidia/meta/llama");
    let mut found: Vec<Option<Option<String>>> = keys.iter().map(|_| None).collect();
    assert_eq!(
        ProtocolLoader::resolve_wire_model_id("nvidia/meta/llama", &keys, &found),
        "meta/llama"
    );
    found[0] = Some(Some("wire-id".to_string()));
    assert_eq!(
        ProtocolLoader::resolve_wire_model_id("nvidia/meta/llama", &keys, &found),
        "wire-id"
    );
}

#[test]
fn roots_of_the_search() {
    let mut vars = Table::new();
    assert!(protocol_root(&vars).is_none());
    vars.insert("AI_PROTOCOL_DIR".to_string(), "/proto".to_string());
    assert_eq!(protocol_root(&vars), Some("/proto"));
    let roots = search_roots(Some("/base"), Some("/proto"));
    assert_eq!(roots[0], "/base");
    assert!(roots.contains(&"/proto".to_string()));
    assert!(!identity_map_candidates(Some("/base"), None).is_empty());
}

#[test]
fn manifests_come_in_two_encodings() {
    assert_eq!(
        decode_manifest_file(b"id: x".to_vec(), "p").unwrap(),
        "id: x"
    );
    let mut utf16 = vec![0xff, 0xfe];
    for u in "id: \u{1f600}".encode_utf16() {
        utf16.extend(u.to_le_bytes());
    }
    assert_eq!(decode_manifest_file(utf16, "p").unwrap(), "id: \u{1f600}");
    assert!(decode_manifest_file(vec![0xc3, 0x28], "p").is_err());
    assert!(decode_manifest_file(vec![0xff, 0xfe, 0x00, 0xd8], "p").is_err());
}

#[test]
fn yaml_errors_are_told_apart() {
    assert!(matches!(
        classify_yaml_error("missing field `id`"),
        ProtocolError::ValidationError(_)
    ));
    assert!(matches!(
        classify_yaml_error("found character that cannot start any token"),
        ProtocolError::YamlError(_)
    ));
}

#[test]
fn registered_manifests_are_found() {
    let mut registry = ProtocolRegistry::new();
    assert!(registry.get_manifest("a").is_none());
    registry.store("a", Arc::new(manifest("a")));
    registry.store("a", Arc::new(manifest("b")));
    assert_eq!(registry.get_manifest("a").unwrap().id, "b");
}

#[test]
fn loaders_remember_their_settings() {
    let loader = ProtocolLoader::new()
        .with_base_path("/x")
        .with_hot_reload(true);
    assert_eq!(loader.base_path.as_deref(), Some("/x"));
    assert!(loader.hot_reload);
}

#[test]
fn cleared_cache_finds_nothing() {
    let mut cache = ManifestCache::new();
    cache.put("a/b", Arc::new(manifest("a")));
    assert_eq!(cache.get("a/b").unwrap().id, "a");
    cache.clear();
    assert!(cache.get("a/b").is_none());
    cache.put("a/b", Arc::new(manifest("c")));
    assert_eq!(cache.get("a/b").unwrap().id, "c");
}

fn load_error(e: ProtocolError) -> (String, String, Option<String>) {
    match e {
        ProtocolError::LoadError { path, reason, hint } => (path, reason, hint),
        other => panic!("{other:?}"),
    }
}

#[test]
fn fetch_outcomes_are_told_apart() {
    let no_client = FetchOutcome::NoClient("tls".to_string());
    let send = FetchOutcome::SendFailed("dns".to_string());
    let refused = FetchOutcome::Refused {
        status: "404 Not Found".to_string(),
        body: "gone".to_string(),
    };
    let read = FetchOutcome::ReadFailed("eof".to_string());
    for format in [FileFormat::Json, FileFormat::Yaml] {
        assert!(check_fetch("u", format, &FetchOutcome::Fetched).is_ok());
        match check_fetch("u", format, &no_client) {
            Err(ProtocolError::Internal(m)) => {
                assert_eq!(m, "Failed to create HTTP client: tls")
            }
            other => panic!("{other:?}"),
        }
    }
    let of = |format, outcome| load_error(check_fetch("u", format, outcome).unwrap_err());
    let said = |reason: &str, hint: Option<&str>| {
        (
            "u".to_string(),
            reason.to_string(),
            hint.map(|h| h.to_string()),
        )
    };
    assert_eq!(
        of(FileFormat::Json, &send),
        said("HTTP request failed: dns", None)
    );
    assert_eq!(
        of(FileFormat::Yaml, &send),
        said(
            "HTTP request failed: dns",
            Some("Check your internet connection and verify the URL is accessible.")
        )
    );
    assert_eq!(of(FileFormat::Json, &refused), said("HTTP 404 Not Found", None));
    assert_eq!(
        of(FileFormat::Yaml, &refused),
        said(
            "HTTP 404 Not Found: gone",
            Some("Verify the remote registry URL and your API permissions if any.")
        )
    );
    assert_eq!(
        of(FileFormat::Json, &read),
        said("Failed to read bytes: eof", None)
    );
    assert_eq!(
        of(FileFormat::Yaml, &read),
        said("Failed to read response: eof", None)
    );
}

#[test]
fn unreadable_files_say_what_to_check() {
    assert_eq!(
        load_error(unreadable_file("/p.json", "denied", FileFormat::Json)),
        (
            "/p.json".to_string(),
            "denied".to_string(),
            Some("Check file permissions.".to_string())
        )
    );
    assert_eq!(
        load_error(unreadable_file("/p.yaml", "denied", FileFormat::Yaml)).2,
        Some("Check if the file exists and you have read permissions.".to_string())
    );
}

#[test]
fn manifests_are_accepted_or_refused() {
    let refuse = |format, remote, text: &str| {
        accept_manifest(format, remote, Err(text.to_string()), Ok(())).unwrap_err()
    };
    match refuse(FileFormat::Json, false, "eof") {
        ProtocolError::ValidationError(m) => assert_eq!(m, "Invalid JSON manifest: eof"),
        other => panic!("{other:?}"),
    }
    match refuse(FileFormat::Json, true, "eof") {
        ProtocolError::ValidationError(m) => {
            assert_eq!(m, "Invalid JSON manifest from URL: eof")
        }
        other => panic!("{other:?}"),
    }
    match refuse(FileFormat::Yaml, true, "missing field `id`") {
        ProtocolError::ValidationError(m) => {
            assert_eq!(m, "Invalid manifest structure: missing field `id`")
        }
        other => panic!("{other:?}"),
    }
    assert!(matches!(
        refuse(FileFormat::Yaml, false, "tab"),
        ProtocolError::YamlError(_)
    ));
    let ok = accept_manifest(FileFormat::Yaml, false, Ok(manifest("m")), Ok(()));
    assert_eq!(ok.unwrap().id, "m");
    let bad = accept_manifest(
        FileFormat::Json,
        true,
        Ok(manifest("m")),
        Err(ProtocolError::ValidationError("schema".to_string())),
    );
    assert!(matches!(bad, Err(ProtocolError::ValidationError(m)) if m == "schema"));
}

#[test]
fn first_identity_map_that_knows_a_provider_counts() {
    let maps = vec![
        None,
        Some("{ no json".to_string()),
        Some(r#"{"families":[{"canonical_id":"a","aliases":["x"]}]}"#.to_string()),
        Some(r#"{"canonical_id":"b","aliases":["x","y"]}"#.to_string()),
    ];
    assert_eq!(
        resolve_canonical_provider_id(&maps, "x").as_deref(),
        Some("a")
    );
    assert_eq!(
        resolve_canonical_provider_id(&maps, "y").as_deref(),
        Some("b")
    );
    assert_eq!(resolve_canonical_provider_id(&maps, "z"), None);
    assert_eq!(
        canonical_from_identity_text(r#"{"canonical_id":"b"}"#, "b").as_deref(),
        Some("b")
    );
    assert_eq!(canonical_from_identity_text("[", "b"), None);
}

#[test]
fn capabilities_are_read_in_each_form() {
    let flags = LegacyCapabilities::from_value(&json(r#"{"tools":true,"vision":false}"#));
    assert!(flags.tools && !flags.vision);
    let list = LegacyCapabilities::from_value(&json(r#"["chat","vision"]"#));
    assert!(list.vision && !list.tools && !list.streaming);
    let both = LegacyCapabilities::from_value(&json(
        r#"{"required":["streaming"],"optional":["parallel_tools","reasoning"]}"#,
    ));
    assert!(both.streaming && both.parallel_tools && both.reasoning && !both.agentic);
}

#[test]
fn api_style_is_read_from_the_contract_first() {
    assert_eq!(detect_api_style(&json("{}")), ApiStyle::OpenAiCompatible);
    assert_eq!(
        detect_api_style(&json(
            r#"{"api_style":"custom","provider_contract":{"api_style":"gemini_generate"}}"#
        )),
        ApiStyle::GeminiGenerate
    );
    assert_eq!(
        detect_api_style(&json(r#"{"api_style":"anthropic_messages"}"#)),
        ApiStyle::AnthropicMessages
    );
    assert_eq!(
        detect_api_style(&json(r#"{"api_style":"custom"}"#)),
        ApiStyle::Custom
    );
}

#[test]
fn the_configured_root_goes_before_a_url() {
    let steps = plan_provider(Some("/p"), Some("https://h/r"), "x");
    let shown: Vec<String> = steps
        .iter()
        .map(|s| match s {
            LoadStep::Local { dir, file, .. } => {
                format!("{}/{}/{}", dir.root, dir.parts.join("/"), file)
            }
            LoadStep::Remote { url, .. } => url.clone(),
        })
        .collect();
    assert_eq!(
        shown[..6],
        [
            "/p/dist/v2/providers/x.json",
            "/p/v2/providers/x.yaml",
            "/p/dist/v1/providers/x.json",
            "/p/v1/providers/x.yaml",
            "https://h/r/dist/v1/providers/x.json",
            "https://h/r/v1/providers/x.yaml",
        ]
    );
    assert_eq!(shown[6], "ai-protocol/dist/v2/providers/x.json");
    assert_eq!(
        shown[shown.len() - 1],
        "https://raw.githubusercontent.com/ailib-official/ai-protocol/main/v1/providers/x.yaml"
    );
    let mut search = ProviderSearch::new(Some("/p"), Some("https://h/r"), "x");
    assert!(search.report(StepOutcome::Missing).is_none());
    match search.report(StepOutcome::Loaded(manifest("m"))) {
        Some(Ok(m)) => assert_eq!(m.id, "m"),
        other => panic!("{other:?}"),
    }
}

#[test]
fn nothing_at_a_url_is_told_from_an_error() {
    let refused = |status: &str| FetchOutcome::Refused {
        status: status.to_string(),
        body: String::new(),
    };
    let failed = || Err(ProtocolError::Internal("e".to_string()));
    assert!(matches!(
        remote_outcome(&refused("404 Not Found"), failed()),
        StepOutcome::Missing
    ));
    assert!(matches!(
        remote_outcome(&refused("500 Internal Server Error"), failed()),
        StepOutcome::Failed(_)
    ));
    assert!(matches!(
        remote_outcome(&FetchOutcome::Fetched, Ok(manifest("m"))),
        StepOutcome::Loaded(_)
    ));
}
