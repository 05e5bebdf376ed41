//! What comes back from a provider over HTTP, and what a client makes of it
//! before it looks at the contents.

use crate::credentials;
use crate::error;
use crate::error::Error;
use crate::json;
use crate::json::JsonValue;
use crate::protocol::loader;
use crate::protocol::manifest::ProtocolManifest;
use crate::text;
use crate::transport::ancillary;
use crate::transport::http::Environment;
use vstd::prelude::*;

verus! {

broadcast use vstd::string::group_string_axioms;

/// How a request for text ended.
#[derive(Debug)]
pub enum TextOutcome {
    /// It did not get through.
    SendFailed(String),
    /// It was answered, but the answer could not be read.
    ReadFailed(String),
    Answered { success: bool, status: String, body: String },
}

/// How a request for bytes ended.
#[derive(Debug)]
pub enum BytesOutcome {
    /// It did not get through.
    SendFailed(String),
    /// It was answered, but the answer could not be read.
    ReadFailed(String),
    Answered { success: bool, status: String, content_type: Option<String>, body: Vec<u8> },
}

/// The words that a client puts before an error.
pub struct Wording<'a> {
    /// Before a request that did not get through.
    pub send: &'a str,
    /// Before an answer that could not be read.
    pub read: &'a str,
    /// Before the status of an answer that is an error.
    pub api: &'a str,
    /// The client.
    pub source: &'a str,
}

/// What the wording of a client is.
pub struct Words {
    pub send: Seq<char>,
    pub read: Seq<char>,
    pub api: Seq<char>,
    pub source: Seq<char>,
}

impl<'a> View for Wording<'a> {
    type V = Words;

    open spec fn view(&self) -> Words {
        Words { send: self.send@, read: self.read@, api: self.api@, source: self.source@ }
    }
}

/// The error of a request that did not get through.
pub open spec fn send_error(w: Words, e: Seq<char>) -> error::ErrorView {
    error::ErrorView::Network { message: w.send + e, source: Some(w.source) }
}

/// The error of an answer that could not be read.
pub open spec fn read_error(w: Words, e: Seq<char>) -> error::ErrorView {
    error::ErrorView::Network { message: w.read + e, source: None }
}

/// The error of an answer that is an error.
pub open spec fn api_error(w: Words, status: Seq<char>, body: Seq<char>) -> error::ErrorView {
    error::ErrorView::Api(w.api + status + "): "@ + body)
}

/// The text of a successful answer, or what went wrong.
pub open spec fn answer_text(w: Words, o: TextOutcome) -> Result<
    Seq<char>,
    error::ErrorView,
> {
    match o {
        TextOutcome::SendFailed(e) => Err(send_error(w, e@)),
        TextOutcome::ReadFailed(e) => Err(read_error(w, e@)),
        TextOutcome::Answered { success, status, body } => if success {
            Ok(body@)
        } else {
            Err(api_error(w, status@, body@))
        },
    }
}

/// The JSON of a successful answer, or what went wrong.
pub open spec fn answer_json(w: Words, o: TextOutcome) -> Result<
    json::Json,
    error::ErrorView,
> {
    match answer_text(w, o) {
        Err(e) => Err(e),
        Ok(t) => match json::json_parsed(vstd::utf8::encode_utf8(t)) {
            Ok(v) => Ok(v),
            Err(e) => Err(error::ErrorView::Json(e)),
        },
    }
}

/// What a successful answer in bytes holds, or what went wrong.
pub open spec fn answer_bytes(w: Words, o: BytesOutcome) -> Result<
    Seq<u8>,
    error::ErrorView,
> {
    match o {
        BytesOutcome::SendFailed(e) => Err(send_error(w, e@)),
        BytesOutcome::ReadFailed(e) => Err(read_error(w, e@)),
        BytesOutcome::Answered { success, status, content_type: _, body } => if success {
            Ok(body@)
        } else {
            Err(api_error(w, status@, text::lossy_text(body@)))
        },
    }
}

fn send_failed(w: &Wording<'_>, e: &str) -> (r: Error)
    ensures
        r@ == send_error(w@, e@),
{
    Error::Network { message: text::cat(w.send, e), source: Some(w.source.to_string()) }
}

fn read_failed(w: &Wording<'_>, e: &str) -> (r: Error)
    ensures
        r@ == read_error(w@, e@),
{
    Error::Network { message: text::cat(w.read, e), source: None }
}

fn api_failed(w: &Wording<'_>, status: &str, body: &str) -> (r: Error)
    ensures
        r@ == api_error(w@, status@, body@),
{
    let mut m = text::cat(w.api, status);
    m.append("): ");
    m.append(body);
    Error::Api(m)
}

/// The text of a successful answer, or what went wrong.
pub fn read_text(w: &Wording<'_>, o: TextOutcome) -> (r: Result<String, Error>)
    ensures
        error::agrees(r, answer_text(w@, o)),
{
    match o {
        TextOutcome::SendFailed(e) => Err(send_failed(w, e.as_str())),
        TextOutcome::ReadFailed(e) => Err(read_failed(w, e.as_str())),
        TextOutcome::Answered { success, status, body } => if success {
            Ok(body)
        } else {
            Err(api_failed(w, status.as_str(), body.as_str()))
        },
    }
}

/// The JSON of a successful answer, or what went wrong.
pub fn read_json(w: &Wording<'_>, o: TextOutcome) -> (r: Result<JsonValue, Error>)
    ensures
        error::agrees(r, answer_json(w@, o)),
{
    match read_text(w, o) {
        Ok(t) => match json::parse_text(t.as_str()) {
            Ok(v) => Ok(v),
            Err(e) => Err(Error::Json(e)),
        },
        Err(e) => Err(e),
    }
}

/// What a successful answer in bytes holds, or what went wrong.
pub fn read_bytes(w: &Wording<'_>, o: BytesOutcome) -> (r: Result<Vec<u8>, Error>)
    ensures
        match (r, answer_bytes(w@, o)) {
            (Ok(b), Ok(s)) => b@ == s,
            (Err(e), Err(f)) => e@ == f,
            _ => false,
        },
{
    match o {
        BytesOutcome::SendFailed(e) => Err(send_failed(w, e.as_str())),
        BytesOutcome::ReadFailed(e) => Err(read_failed(w, e.as_str())),
        BytesOutcome::Answered { success, status, content_type: _, body } => if success {
            Ok(body)
        } else {
            let t = text::from_utf8_lossy(&body);
            Err(api_failed(w, status.as_str(), t.as_str()))
        },
    }
}

/// The credential for a manifest.
pub open spec fn credential_for(
    m: ProtocolManifest,
    explicit: Option<Seq<char>>,
    env: Environment,
) -> credentials::CredentialView {
    credentials::resolved(
        credentials::manifest_envs(m),
        credentials::conventional_names(credentials::provider_name(m)),
        credentials::provider_name(m),
        explicit,
        env.vars@,
        text::opt_text(env.keyring_secret),
    )
}

/// The error of a client that finds no credential.
pub open spec fn key_missing(what: Seq<char>, m: ProtocolManifest) -> error::ErrorView {
    error::ErrorView::Configuration(
        "API key required for "@ + what + " (provider="@ + credentials::provider_name(m)
            + "; tried "@ + text::quoted_list(
            credentials::manifest_envs(m) + credentials::conventional_names(
                credentials::provider_name(m),
            ),
        ) + ")"@,
    )
}

/// The secret that a client needs, or the error that tells where it was looked
/// for.
pub open spec fn secret_for(
    what: Seq<char>,
    m: ProtocolManifest,
    explicit: Option<Seq<char>>,
    env: Environment,
) -> Result<Seq<char>, error::ErrorView> {
    match credential_for(m, explicit, env).secret {
        Some(s) => Ok(s),
        None => Err(key_missing(what, m)),
    }
}

/// The secret that a client needs.
pub fn require_secret(
    what: &str,
    manifest: &ProtocolManifest,
    explicit: Option<&str>,
    env: &Environment,
) -> (r: Result<String, Error>)
    ensures
        error::agrees(r, secret_for(what@, *manifest, credentials::opt_str(explicit), *env)),
{
    let cred = credentials::resolve_credential(manifest, explicit, &env.vars, env.keyring());
    if let Some(s) = cred.secret() {
        return Ok(s.to_string());
    }
    let mut m = text::cat("API key required for ", what);
    m.append(" (provider=");
    m.append(credentials::provider_id(manifest));
    m.append("; tried ");
    m.append(text::quote_list(&cred.tried()).as_str());
    m.append(")");
    Err(Error::Configuration(m))
}

/// The path of an operation: that of the endpoint of its name, else of the
/// service, else the usual one.
pub open spec fn path_in(m: ProtocolManifest, name: Seq<char>, usual: Seq<char>) -> Seq<char> {
    match endpoint_path(m, name) {
        Some(p) => p,
        None => match service_path(m, name) {
            Some(p) => p,
            None => usual,
        },
    }
}

/// The path of the endpoint of the given name.
pub open spec fn endpoint_path(m: ProtocolManifest, name: Seq<char>) -> Option<Seq<char>> {
    match m.endpoints {
        Some(t) => if t@.dom().contains(name) {
            Some(t@[name].path@)
        } else {
            None
        },
        None => None,
    }
}

/// The path of the service of the given name.
pub open spec fn service_path(m: ProtocolManifest, name: Seq<char>) -> Option<Seq<char>> {
    match m.services {
        Some(t) => if t@.dom().contains(name) {
            Some(t@[name].path@)
        } else {
            None
        },
        None => None,
    }
}

/// The path of an operation.
pub fn path_from_manifest(manifest: &ProtocolManifest, name: &str, usual: &str) -> (r: String)
    ensures
        r@ == path_in(*manifest, name@, usual@),
{
    if let Some(eps) = &manifest.endpoints {
        if let Some(ep) = eps.get(name) {
            return ep.path.clone();
        }
    }
    if let Some(services) = &manifest.services {
        if let Some(svc) = services.get(name) {
            return svc.path.clone();
        }
    }
    usual.to_string()
}

/// The text without slashes at its end.
pub open spec fn unslashed(s: Seq<char>) -> Seq<char>
    decreases s.len(),
{
    if s.len() > 0 && s.last() == '/' {
        unslashed(s.drop_last())
    } else {
        s
    }
}

/// Where a path below a base URL is reached: one slash between the two.
pub open spec fn url_below(base: Seq<char>, path: Seq<char>) -> Seq<char> {
    unslashed(base) + ancillary::slashed(path)
}

fn trim_slashes(s: &str) -> (r: String)
    ensures
        r@ == unslashed(s@),
{
    let chars = text::to_chars(s);
    let mut n: usize = chars.len();
    assert(chars@.take(n as int) =~= s@);
    while n > 0 && chars[n - 1] == '/'
        invariant
            n <= chars@.len(),
            unslashed(chars@.take(n as int)) == unslashed(s@),
        decreases n,
    {
        assert(chars@.take(n as int).drop_last() =~= chars@.take(n - 1));
        n -= 1;
    }
    let kept = text::slice(&chars, 0, n);
    assert(kept@ =~= chars@.take(n as int));
    text::string_of(&kept)
}

/// Where a path below a base URL is reached.
pub fn join_url(base: &str, path: &str) -> (r: String)
    ensures
        r@ == url_below(base@, path@),
{
    text::cat(
        trim_slashes(base).as_str(),
        ancillary::normalize_endpoint_path(path.to_string()).as_str(),
    )
}

/// A base URL that ends in slashes is joined like one that does not.
pub proof fn slashes_at_the_end_do_not_count(base: Seq<char>, path: Seq<char>)
    ensures
        url_below(base + "/"@, path) == url_below(base, path),
{
    reveal_strlit("/");
    assert((base + "/"@).drop_last() =~= base);
    assert((base + "/"@).last() == '/');
}

/// Why a client cannot be set up, or `None`. `made` tells whether an HTTP
/// client could be had.
pub open spec fn setup_error(
    model: Option<String>,
    api_key: Option<String>,
    base_url: Option<String>,
    made: Result<(), String>,
) -> Option<error::ErrorView> {
    if model is None {
        Some(error::ErrorView::Configuration("Model must be specified"@))
    } else if api_key is None {
        Some(
            error::ErrorView::Configuration(
                "API key required: use from_manifest/from_model or set api_key explicitly"@,
            ),
        )
    } else if base_url is None {
        Some(
            error::ErrorView::Configuration(
                "base_url required: use from_manifest/from_model or set base_url explicitly (no vendor default)"@,
            ),
        )
    } else {
        match made {
            Ok(_) => None,
            Err(e) => Some(
                error::ErrorView::Configuration("Failed to create HTTP client: "@ + e@),
            ),
        }
    }
}

/// What a client is set up with, all of it given.
pub fn check_setup(
    model: Option<String>,
    api_key: Option<String>,
    base_url: Option<String>,
    made: Result<(), String>,
) -> (r: Result<(String, String, String), Error>)
    ensures
        match (r, setup_error(model, api_key, base_url, made)) {
            (Ok((m, k, u)), None) => model == Some(m) && api_key == Some(k) && base_url == Some(u),
            (Err(e), Some(f)) => e@ == f,
            _ => false,
        },
{
    let m = match model {
        Some(m) => m,
        None => {
            return Err(Error::configuration("Model must be specified"));
        },
    };
    let k = match api_key {
        Some(k) => k,
        None => {
            return Err(
                Error::configuration(
                    "API key required: use from_manifest/from_model or set api_key explicitly",
                ),
            );
        },
    };
    let u = match base_url {
        Some(u) => u,
        None => {
            return Err(
                Error::configuration(
                    "base_url required: use from_manifest/from_model or set base_url explicitly (no vendor default)",
                ),
            );
        },
    };
    match made {
        Ok(_) => Ok((m, k, u)),
        Err(e) => Err(Error::Configuration(text::cat("Failed to create HTTP client: ", e.as_str()))),
    }
}

/// The part of a model's name after its provider: all but the first part, or
/// the whole where there is only one.
pub open spec fn model_part(model: Seq<char>) -> Seq<char> {
    let parts = loader::id_parts(model);
    if parts.len() >= 2 {
        loader::joined_from(parts, 1)
    } else {
        model
    }
}

/// The part of a model's name after its provider.
pub fn model_id_of(model: &str) -> (r: String)
    ensures
        r@ == model_part(model@),
{
    match loader::split_model_id(model) {
        Ok((_, rest)) => rest,
        Err(_) => model.to_string(),
    }
}

/// The texts as JSON strings.
pub fn string_values(parts: &Vec<String>) -> (r: Vec<JsonValue>)
    ensures
        json::array_view(r@) == Seq::new(
            parts@.len(),
            |i: int| json::Json::Str(text::texts(parts@)[i]),
        ),
{
    let mut out: Vec<JsonValue> = Vec::new();
    let mut i: usize = 0;
    while i < parts.len()
        invariant
            i <= parts@.len(),
            out@.len() == i,
            forall|k: int| 0 <= k < i ==> #[trigger] out@[k]@ == json::Json::Str(parts@[k]@),
        decreases parts@.len() - i,
    {
        out.push(JsonValue::string(parts[i].as_str()));
        i += 1;
    }
    proof {
        json::lemma_array_view(out@);
        assert(json::array_view(out@) =~= Seq::new(
            parts@.len(),
            |i: int| json::Json::Str(text::texts(parts@)[i]),
        ));
    }
    out
}

/// A successful answer is handed on as it is; every other outcome is an error,
/// told by how far the request got.
pub proof fn only_success_is_handed_on(w: Words, o: TextOutcome)
    ensures
        answer_text(w, o) is Ok <==> (o matches TextOutcome::Answered { success, .. } && success),
        o matches TextOutcome::Answered { success, status, body } ==> {
            &&& success ==> answer_text(w, o) == Ok::<Seq<char>, error::ErrorView>(body@)
            &&& !success ==> answer_text(w, o) == Err::<Seq<char>, error::ErrorView>(
                error::ErrorView::Api(w.api + status@ + "): "@ + body@),
            )
        },
        o matches TextOutcome::SendFailed(e) ==> answer_text(w, o) == Err::<
            Seq<char>,
            error::ErrorView,
        >(error::ErrorView::Network { message: w.send + e@, source: Some(w.source) }),
        o matches TextOutcome::ReadFailed(e) ==> answer_text(w, o) == Err::<
            Seq<char>,
            error::ErrorView,
        >(error::ErrorView::Network { message: w.read + e@, source: None }),
{
}

/// The JSON of an answer is what the parser reads from its text; an answer that
/// is no JSON is an error, and so is every answer that is no success.
pub proof fn answers_are_read_as_json(w: Words, o: TextOutcome)
    ensures
        o matches TextOutcome::Answered { success, status, body } ==> {
            &&& success ==> match json::json_parsed(vstd::utf8::encode_utf8(body@)) {
                Ok(v) => answer_json(w, o) == Ok::<json::Json, error::ErrorView>(v),
                Err(e) => answer_json(w, o) == Err::<json::Json, error::ErrorView>(
                    error::ErrorView::Json(e),
                ),
            }
            &&& !success ==> answer_json(w, o) matches Err(error::ErrorView::Api(_))
        },
        !(o is Answered) ==> answer_json(w, o) is Err,
{
}

/// The bytes of a successful answer are handed on as they are; every other
/// outcome is an error.
pub proof fn only_successful_bytes_are_handed_on(w: Words, o: BytesOutcome)
    ensures
        o matches BytesOutcome::Answered { success, status, content_type, body } ==> {
            &&& success ==> answer_bytes(w, o) == Ok::<Seq<u8>, error::ErrorView>(body@)
            &&& !success ==> answer_bytes(w, o) == Err::<Seq<u8>, error::ErrorView>(
                error::ErrorView::Api(w.api + status@ + "): "@ + text::lossy_text(body@)),
            )
        },
        !(o is Answered) ==> answer_bytes(w, o) is Err,
{
}

/// An explicit secret is used; a client without any says where it looked.
pub proof fn explicit_secret_is_used(
    what: Seq<char>,
    m: ProtocolManifest,
    explicit: Seq<char>,
    env: Environment,
)
    requires
        text::trimmed(explicit).len() > 0,
    ensures
        secret_for(what, m, Some(explicit), env) == Ok::<Seq<char>, error::ErrorView>(
            text::trimmed(explicit),
        ),
{
}

/// A client without a secret is refused.
pub proof fn missing_secret_is_refused(
    what: Seq<char>,
    m: ProtocolManifest,
    explicit: Option<Seq<char>>,
    env: Environment,
)
    ensures
        secret_for(what, m, explicit, env) is Err <==> credential_for(m, explicit, env).secret is None,
        secret_for(what, m, explicit, env) matches Ok(s) ==> credential_for(m, explicit, env).secret
            == Some(s),
        secret_for(what, m, explicit, env) matches Err(e) ==> (e is Configuration),
{
}

/// The endpoint's path counts before the service's, and that before the usual one.
pub proof fn endpoint_path_counts_first(m: ProtocolManifest, name: Seq<char>, usual: Seq<char>)
    ensures
        m.endpoints matches Some(t) && t@.dom().contains(name) ==> path_in(m, name, usual)
            == m.endpoints->0@[name].path@,
        !(m.endpoints matches Some(t) && t@.dom().contains(name)) && (m.services matches Some(t)
            && t@.dom().contains(name)) ==> path_in(m, name, usual)
            == m.services->0@[name].path@,
        !(m.endpoints matches Some(t) && t@.dom().contains(name)) && !(m.services matches Some(t)
            && t@.dom().contains(name)) ==> path_in(m, name, usual) == usual,
{
}

/// A URL is its base and its path with one slash between.
pub proof fn one_slash_stands_between(base: Seq<char>, path: Seq<char>)
    requires
        base.len() > 0,
        base.last() != '/',
    ensures
        path.len() > 0 && path[0] == '/' ==> url_below(base, path) == base + path,
        !(path.len() > 0 && path[0] == '/') ==> url_below(base, path) == base + seq!['/'] + path,
{
    ancillary::paths_begin_with_a_slash(path);
    assert(base + (seq!['/'] + path) =~= base + seq!['/'] + path);
}

/// A client is set up exactly where a model, a key and a base URL are given and
/// an HTTP client could be had.
pub proof fn setup_needs_everything(
    model: Option<String>,
    api_key: Option<String>,
    base_url: Option<String>,
    made: Result<(), String>,
)
    ensures
        setup_error(model, api_key, base_url, made) is None <==> model is Some && api_key is Some
            && base_url is Some && made is Ok,
        setup_error(model, api_key, base_url, made) matches Some(e) ==> (e is Configuration),
{
}

/// A model goes by what follows the first slash of its name, or by the name
/// where there is none.
pub proof fn model_part_follows_the_first_slash(provider: Seq<char>, rest: Seq<char>)
    requires
        forall|i: int| 0 <= i < provider.len() ==> #[trigger] provider[i] != '/',
    ensures
        model_part(provider + seq!['/'] + rest) == rest,
        model_part(provider) == provider,
{
    loader::model_ids_are_split_at_the_first_slash(provider, rest);
    loader::plain_ids_have_one_part(provider);
}

} // verus!
