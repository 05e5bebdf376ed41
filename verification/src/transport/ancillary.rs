//! Reaching the services beside chat with the same transport.

use crate::protocol::manifest;
use crate::protocol::manifest::{AuthConfig, EndpointDefinition, LegacyCapabilities, ProtocolManifest};
use crate::table::Table;
use crate::text;
use crate::transport::http;
use crate::transport::http::{Environment, HttpTransport};
use vstd::prelude::*;

verus! {

broadcast use vstd::string::group_string_axioms;

/// What a manifest made for a base URL alone says.
pub open spec fn is_synthetic(m: ProtocolManifest, base_url: Seq<char>) -> bool {
    &&& m.id@ == "ancillary"@
    &&& text::opt_text(m.provider_id) == Some("ancillary"@)
    &&& m.protocol_version@ == "1.0"@
    &&& m.endpoint.base_url@ == base_url
    &&& manifest::opt_auth(m.endpoint.auth) == Some(
        manifest::AuthView {
            auth_type: "bearer"@,
            token_env: Some("AI_LIB_ANCILLARY_API_KEY"@),
            key_env: None,
            param_name: None,
            header_name: None,
            prefix: None,
            extra_headers: None,
        },
    )
    &&& m.auth is None
    &&& m.capabilities == (manifest::LegacyCapabilities {
        streaming: false,
        tools: false,
        vision: false,
        agentic: false,
        reasoning: false,
        parallel_tools: false,
    })
    &&& m.endpoints is None
    &&& m.services is None
    &&& m.aliases is None
    &&& m.extra@ == Map::<Seq<char>, crate::json::JsonValue>::empty()
}

/// A manifest for callers that have a base URL and a key but no manifest.
pub fn synthetic_bearer_manifest(base_url: &str) -> (r: ProtocolManifest)
    ensures
        is_synthetic(r, base_url@),
{
    ProtocolManifest {
        id: "ancillary".to_string(),
        provider_id: Some("ancillary".to_string()),
        protocol_version: "1.0".to_string(),
        endpoint: EndpointDefinition {
            base_url: base_url.to_string(),
            auth: Some(
                AuthConfig {
                    auth_type: "bearer".to_string(),
                    token_env: Some("AI_LIB_ANCILLARY_API_KEY".to_string()),
                    key_env: None,
                    param_name: None,
                    header_name: None,
                    prefix: None,
                    extra_headers: None,
                },
            ),
        },
        auth: None,
        capabilities: LegacyCapabilities {
            streaming: false,
            tools: false,
            vision: false,
            agentic: false,
            reasoning: false,
            parallel_tools: false,
        },
        endpoints: None,
        services: None,
        aliases: None,
        extra: Table::new(),
    }
}

/// A transport for the services beside chat: that of the manifest, where there
/// is one, else one for the base URL alone; in either case with the given key.
pub fn build_ancillary_transport(
    manifest: Option<&ProtocolManifest>,
    base_url: &str,
    model: &str,
    api_key: &str,
    env: &Environment,
) -> (r: HttpTransport)
    ensures
        match manifest {
            Some(m) => http::is_transport_for(r, *m, model@, Some(base_url@), Some(api_key@), *env),
            None => exists|m: ProtocolManifest|
                is_synthetic(m, base_url@) && #[trigger] http::is_transport_for(
                    r,
                    m,
                    model@,
                    Some(base_url@),
                    Some(api_key@),
                    *env,
                ),
        },
{
    match manifest {
        Some(m) => HttpTransport::new_with_base_url_and_credential(
            m,
            model,
            Some(base_url),
            Some(api_key),
            env,
        ),
        None => {
            let synthetic = synthetic_bearer_manifest(base_url);
            HttpTransport::new_with_base_url_and_credential(
                &synthetic,
                model,
                Some(base_url),
                Some(api_key),
                env,
            )
        },
    }
}

/// The path with a slash in front.
pub open spec fn slashed(path: Seq<char>) -> Seq<char> {
    if text::has_prefix(path, "/"@) {
        path
    } else {
        "/"@ + path
    }
}

/// The path with a slash in front.
pub fn normalize_endpoint_path(path: String) -> (r: String)
    ensures
        r@ == slashed(path@),
{
    if text::starts_with(path.as_str(), "/") {
        path
    } else {
        text::cat("/", path.as_str())
    }
}

/// A path with a slash in front stays as it is.
pub proof fn slashing_is_idempotent(path: Seq<char>)
    ensures
        slashed(slashed(path)) == slashed(path),
{
    reveal_strlit("/");
    assert(("/"@ + path).subrange(0, 1) =~= "/"@);
}

/// A path that begins with a slash stays; another gets one in front.
pub proof fn paths_begin_with_a_slash(path: Seq<char>)
    ensures
        slashed(path).len() > 0,
        slashed(path)[0] == '/',
        path.len() > 0 && path[0] == '/' ==> slashed(path) == path,
        !(path.len() > 0 && path[0] == '/') ==> slashed(path) == seq!['/'] + path,
{
    reveal_strlit("/");
    assert("/"@ =~= seq!['/']);
    if path.len() > 0 {
        assert(path.subrange(0, 1)[0] == path[0]);
        if path[0] == '/' {
            assert(path.subrange(0, 1) =~= "/"@);
        }
    }
}

/// A transport that was made for a base URL and a key alone goes to that URL
/// with that key as a bearer token.
pub proof fn given_key_goes_as_bearer_token(
    t: HttpTransport,
    m: ProtocolManifest,
    base_url: Seq<char>,
    model: Seq<char>,
    api_key: Seq<char>,
    env: Environment,
)
    requires
        is_synthetic(m, base_url),
        http::is_transport_for(t, m, model, Some(base_url), Some(api_key), env),
        text::trimmed(api_key).len() > 0,
    ensures
        t.base_url@ == base_url,
        http::attachment(manifest::opt_auth(t.auth), t.credential@.secret) == (
        http::AttachmentView::Header {
            name: "Authorization"@,
            value: "Bearer"@ + " "@ + text::trimmed(api_key),
        }),
{
    reveal_strlit("bearer");
    reveal_strlit("query_param");
    reveal_strlit("api_key");
    reveal_strlit("custom_header");
    reveal_strlit("header");
    reveal_strlit("Bearer");
    assert("bearer"@.len() == 6 && "query_param"@.len() == 11 && "api_key"@.len() == 7);
    assert("custom_header"@.len() == 13 && "header"@.len() == 6);
    assert("bearer"@[0] != "header"@[0]);
    let b = "Bearer"@;
    text::trimming_takes_white_space_alone(b, 0, b.len() as int);
    assert(b.subrange(0, b.len() as int) =~= b);
    let a = m.endpoint.auth->0;
    assert(a@.auth_type == "bearer"@);
}

} // verus!
