//! Images and speech, at the endpoints that a manifest declares for them. A
//! model that does not declare the capability is refused.

use crate::client::exchange;
use crate::error;
use crate::error::Error;
use crate::protocol::manifest;
use crate::protocol::manifest::{EndpointConfig, ProtocolManifest};
use crate::text;
use crate::transport::http;
use crate::transport::http::{Environment, HttpTransport};
use vstd::prelude::*;

pub mod audio;
pub mod image;

pub use audio::{SpeechToTextClient, TextToSpeechClient};
pub use image::ImageGenerationClient;

verus! {

broadcast use vstd::string::group_string_axioms;

/// The capability of making images.
pub const KEY_IMAGE_GENERATION: &'static str = "image_generation";

/// The capability of turning speech into text.
pub const KEY_SPEECH_TO_TEXT: &'static str = "speech_to_text";

/// The capability of turning text into speech.
pub const KEY_TEXT_TO_SPEECH: &'static str = "text_to_speech";

/// The endpoint that a manifest declares for a capability, or what is said
/// where it declares none.
pub open spec fn declared_endpoint(m: ProtocolManifest, key: Seq<char>) -> Result<
    EndpointConfig,
    Seq<char>,
> {
    match m.endpoints {
        None => Err("manifest endpoints map missing; cannot resolve generative L-Exec path"@),
        Some(t) => if t@.dom().contains(key) {
            Ok(t@[key])
        } else {
            Err("manifest endpoints."@ + key + " missing; declare PT-GEN-002 L-Exec map"@)
        },
    }
}

/// The endpoint for a capability of a model, or why there is none.
pub open spec fn gated_endpoint(
    m: ProtocolManifest,
    model: Seq<char>,
    key: Seq<char>,
) -> Result<EndpointConfig, Seq<char>> {
    if !manifest::supports_generative(m.extra@, model, key) {
        Err(
            "model `"@ + model + "` does not declare model_capabilities."@ + key
                + "=true (omit≠false fail-closed)"@,
        )
    } else {
        declared_endpoint(m, key)
    }
}

/// The endpoint was found, or the configuration error says why not.
pub open spec fn endpoint_agrees(
    r: Result<&EndpointConfig, Error>,
    want: Result<EndpointConfig, Seq<char>>,
) -> bool {
    match (r, want) {
        (Ok(e), Ok(w)) => *e == w,
        (Err(e), Err(t)) => e@ == error::ErrorView::Configuration(t),
        _ => false,
    }
}

/// The endpoint that a manifest declares for a capability.
pub fn resolve_generative_endpoint<'a>(manifest: &'a ProtocolManifest, key: &str) -> (r: Result<
    &'a EndpointConfig,
    Error,
>)
    ensures
        endpoint_agrees(r, declared_endpoint(*manifest, key@)),
{
    match &manifest.endpoints {
        None => Err(
            Error::configuration(
                "manifest endpoints map missing; cannot resolve generative L-Exec path",
            ),
        ),
        Some(eps) => match eps.get(key) {
            Some(ep) => Ok(ep),
            None => {
                let mut m = text::cat("manifest endpoints.", key);
                m.append(" missing; declare PT-GEN-002 L-Exec map");
                Err(Error::Configuration(m))
            },
        },
    }
}

/// The endpoint for a capability of a model. The model must be known to have
/// the capability.
pub fn require_generative_endpoint<'a>(
    manifest: &'a ProtocolManifest,
    model: &str,
    key: &str,
) -> (r: Result<&'a EndpointConfig, Error>)
    ensures
        endpoint_agrees(r, gated_endpoint(*manifest, model@, key@)),
{
    if !manifest.supports_generative_for_model(model, key) {
        let mut m = text::cat("model `", model);
        m.append("` does not declare model_capabilities.");
        m.append(key);
        m.append("=true (omit≠false fail-closed)");
        return Err(Error::Configuration(m));
    }
    resolve_generative_endpoint(manifest, key)
}

/// Whose shape an endpoint takes: OpenAI's where nothing is said.
pub open spec fn adapter_of(ep: EndpointConfig) -> Seq<char> {
    match ep.adapter {
        Some(a) => a@,
        None => "openai"@,
    }
}

/// Whose shape an endpoint takes.
pub fn adapter_name(ep: &EndpointConfig) -> (r: &str)
    ensures
        r@ == adapter_of(*ep),
{
    match &ep.adapter {
        Some(a) => a.as_str(),
        None => "openai",
    }
}

/// What a client for a capability is set up with.
pub struct Target {
    pub transport: HttpTransport,
    pub model: String,
    pub endpoint_path: String,
    pub adapter: String,
}

/// The target is that of the manifest's endpoint, with the secret.
pub open spec fn is_target(
    t: Target,
    m: ProtocolManifest,
    model: Seq<char>,
    ep: EndpointConfig,
    secret: Seq<char>,
    env: Environment,
) -> bool {
    &&& http::is_transport_for(
        t.transport,
        m,
        model,
        Some(m.endpoint.base_url@),
        Some(secret),
        env,
    )
    &&& t.model@ == model
    &&& t.endpoint_path@ == ep.path@
    &&& t.adapter@ == adapter_of(ep)
}

/// What is said of a shape that a client does not know.
pub open spec fn unknown_adapter(key: Seq<char>, adapter: Seq<char>) -> Seq<char> {
    key + " adapter `"@ + adapter + "` not implemented in ALR-GEN-002 (openai only)"@
}

/// The client was set up, or the error says why not: no capability or endpoint,
/// then a shape that is not known, then no credential.
pub open spec fn target_agrees(
    r: Result<Target, Error>,
    m: ProtocolManifest,
    model: Seq<char>,
    key: Seq<char>,
    openai_only: bool,
    env: Environment,
) -> bool {
    match gated_endpoint(m, model, key) {
        Err(t) => r is Err && r->Err_0@ == error::ErrorView::Configuration(t),
        Ok(ep) => if openai_only && adapter_of(ep) != "openai"@ {
            r is Err && r->Err_0@ == error::ErrorView::Configuration(
                unknown_adapter(key, adapter_of(ep)),
            )
        } else {
            match (r, exchange::secret_for(key, m, None, env)) {
                (Ok(t), Ok(secret)) => is_target(t, m, model, ep, secret, env),
                (Err(e), Err(f)) => e@ == f,
                _ => false,
            }
        },
    }
}

/// Sets up a client for a capability.
pub fn find_target(
    manifest: &ProtocolManifest,
    model: &str,
    key: &str,
    openai_only: bool,
    env: &Environment,
) -> (r: Result<Target, Error>)
    ensures
        target_agrees(r, *manifest, model@, key@, openai_only, *env),
{
    let ep = match require_generative_endpoint(manifest, model, key) {
        Ok(ep) => ep,
        Err(e) => {
            return Err(e);
        },
    };
    let adapter = adapter_name(ep);
    if openai_only && !text::text_eq(adapter, "openai") {
        let mut m = text::cat(key, " adapter `");
        m.append(adapter);
        m.append("` not implemented in ALR-GEN-002 (openai only)");
        return Err(Error::Configuration(m));
    }
    let secret = match exchange::require_secret(key, manifest, None, env) {
        Ok(s) => s,
        Err(e) => {
            return Err(e);
        },
    };
    let transport = HttpTransport::new_with_base_url_and_credential(
        manifest,
        model,
        Some(manifest.get_base_url()),
        Some(secret.as_str()),
        env,
    );
    Ok(
        Target {
            transport,
            model: model.to_string(),
            endpoint_path: ep.path.clone(),
            adapter: adapter.to_string(),
        },
    )
}

/// What is said of a request for another model than the client's.
pub open spec fn other_model(request: Seq<char>, client: Seq<char>) -> error::ErrorView {
    error::ErrorView::Configuration(
        "request model `"@ + request + "` != client model `"@ + client + "`"@,
    )
}

/// The request is for the client's model, else the error says so.
pub fn check_model(request: &str, client: &str) -> (r: Result<(), Error>)
    ensures
        match r {
            Ok(_) => request@ == client@,
            Err(e) => request@ != client@ && e@ == other_model(request@, client@),
        },
{
    if text::text_eq(request, client) {
        return Ok(());
    }
    let mut m = text::cat("request model `", request);
    m.append("` != client model `");
    m.append(client);
    m.append("`");
    Err(Error::Configuration(m))
}

/// A capability that is not declared is refused, whatever endpoints there are.
pub proof fn undeclared_capability_is_refused(
    m: ProtocolManifest,
    model: Seq<char>,
    key: Seq<char>,
)
    requires
        manifest::model_metadata(m.extra@, model) is None,
    ensures
        gated_endpoint(m, model, key) is Err,
{
}

/// The endpoint for a capability is the one that the manifest declares under
/// the capability's name, for models that declare it.
pub proof fn declared_endpoints_are_used(
    m: ProtocolManifest,
    model: Seq<char>,
    key: Seq<char>,
)
    ensures
        gated_endpoint(m, model, key) is Ok <==> manifest::supports_generative(
            m.extra@,
            model,
            key,
        ) && (m.endpoints matches Some(t) && t@.dom().contains(key)),
        gated_endpoint(m, model, key) matches Ok(ep) ==> ep == m.endpoints->0@[key],
        m.endpoints matches Some(t) && t@.dom().contains(key) ==> declared_endpoint(m, key) == Ok::<
            EndpointConfig,
            Seq<char>,
        >(m.endpoints->0@[key]),
        !(m.endpoints matches Some(t) && t@.dom().contains(key)) ==> declared_endpoint(m, key) is Err,
{
}

/// An endpoint takes the shape that it names, else OpenAI's.
pub proof fn endpoints_take_openai_shape_by_default(ep: EndpointConfig)
    ensures
        ep.adapter matches Some(a) ==> adapter_of(ep) == a@,
        ep.adapter is None ==> adapter_of(ep) == "openai"@,
{
}

/// A client goes to the manifest's base URL and the endpoint's path, in the
/// endpoint's shape, for the given model.
pub proof fn targets_follow_the_manifest(
    t: Target,
    m: ProtocolManifest,
    model: Seq<char>,
    ep: EndpointConfig,
    secret: Seq<char>,
    env: Environment,
)
    requires
        is_target(t, m, model, ep, secret, env),
    ensures
        t.model@ == model,
        t.endpoint_path@ == ep.path@,
        t.adapter@ == adapter_of(ep),
        t.transport.base_url@ == m.endpoint.base_url@,
        text::trimmed(secret).len() > 0 ==> t.transport.credential@.secret == Some(
            text::trimmed(secret),
        ),
{
}

/// A client is refused where the model lacks the capability, and one for the
/// OpenAI shape alone where the endpoint takes another.
pub proof fn unfit_targets_are_refused(
    r: Result<Target, Error>,
    m: ProtocolManifest,
    model: Seq<char>,
    key: Seq<char>,
    openai_only: bool,
    env: Environment,
)
    requires
        target_agrees(r, m, model, key, openai_only, env),
    ensures
        !manifest::supports_generative(m.extra@, model, key) ==> r is Err,
        !(m.endpoints matches Some(t) && t@.dom().contains(key)) ==> r is Err,
        openai_only && (gated_endpoint(m, model, key) matches Ok(ep) && adapter_of(ep) != "openai"@)
            ==> r is Err,
        r matches Ok(t) ==> t.model@ == model,
{
}

/// A request for another model than the client's is refused, and no other.
pub proof fn other_models_are_refused(request: &str, client: &str, r: Result<(), Error>)
    requires
        call_ensures(check_model, (request, client), r),
    ensures
        r is Ok <==> request@ == client@,
        r matches Err(e) ==> (e is Configuration),
{
}

} // verus!
