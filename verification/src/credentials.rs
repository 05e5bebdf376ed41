//! Finding the credential for a provider: given explicitly, in an environment
//! variable that the manifest names, in the conventional one, or in the
//! system's keyring.

use crate::protocol::manifest;
use crate::protocol::manifest::{AuthConfig, ProtocolManifest};
use crate::table::Table;
use crate::text;
use crate::types::message;
use vstd::prelude::*;

verus! {

broadcast use vstd::string::group_string_axioms;

/// Where a credential was found.
#[derive(Clone, Copy, PartialEq, Eq, Structural, Debug)]
pub enum CredentialSourceKind {
    Explicit,
    ManifestEnv,
    ConventionalEnv,
    Keyring,
    Missing,
}

/// A secret, where there is one. Its text is read through the credential.
#[derive(Clone)]
pub struct Secret {
    text: Option<String>,
}

impl View for Secret {
    type V = Option<Seq<char>>;

    closed spec fn view(&self) -> Option<Seq<char>> {
        text::opt_text(self.text)
    }
}

impl Secret {
    fn none() -> (r: Self)
        ensures
            r@ is None,
    {
        Secret { text: None }
    }

    fn of(value: String) -> (r: Self)
        ensures
            r@ == Some(value@),
    {
        Secret { text: Some(value) }
    }
}

/// A credential and where it was found.
#[derive(Clone)]
pub struct ResolvedCredential {
    pub secret: Secret,
    pub source_kind: CredentialSourceKind,
    pub source_name: Option<String>,
    pub required_envs: Vec<String>,
    pub conventional_envs: Vec<String>,
}

/// What a resolved credential is.
pub struct CredentialView {
    pub secret: Option<Seq<char>>,
    pub source_kind: CredentialSourceKind,
    pub source_name: Option<Seq<char>>,
    pub required_envs: Seq<Seq<char>>,
    pub conventional_envs: Seq<Seq<char>>,
}

impl View for ResolvedCredential {
    type V = CredentialView;

    open spec fn view(&self) -> CredentialView {
        CredentialView {
            secret: self.secret@,
            source_kind: self.source_kind,
            source_name: text::opt_text(self.source_name),
            required_envs: text::texts(self.required_envs@),
            conventional_envs: text::texts(self.conventional_envs@),
        }
    }
}

/// The name of a source kind.
pub open spec fn kind_name(k: CredentialSourceKind) -> Seq<char> {
    match k {
        CredentialSourceKind::Explicit => "Explicit"@,
        CredentialSourceKind::ManifestEnv => "ManifestEnv"@,
        CredentialSourceKind::ConventionalEnv => "ConventionalEnv"@,
        CredentialSourceKind::Keyring => "Keyring"@,
        CredentialSourceKind::Missing => "None"@,
    }
}

/// An optional text as `Debug` writes it.
pub open spec fn quoted_option(s: Option<Seq<char>>) -> Seq<char> {
    match s {
        Some(t) => "Some("@ + text::quoted(t) + ")"@,
        None => "None"@,
    }
}

/// How a credential is shown: whether there is a secret, but not which.
pub open spec fn shown(
    has_secret: bool,
    kind: CredentialSourceKind,
    name: Option<Seq<char>>,
    required: Seq<Seq<char>>,
    conventional: Seq<Seq<char>>,
) -> Seq<char> {
    "ResolvedCredential { secret: "@ + quoted_option(
        if has_secret {
            Some("<redacted>"@)
        } else {
            None
        },
    ) + ", source_kind: "@ + kind_name(kind) + ", source_name: "@ + quoted_option(name)
        + ", required_envs: "@ + text::quoted_list(required) + ", conventional_envs: "@
        + text::quoted_list(conventional) + " }"@
}

fn quote_option(s: Option<&str>) -> (r: String)
    ensures
        r@ == quoted_option(
            match s {
                Some(t) => Some(t@),
                None => None,
            },
        ),
{
    match s {
        Some(t) => text::cat(text::cat("Some(", text::quote(t).as_str()).as_str(), ")"),
        None => "None".to_string(),
    }
}

impl ResolvedCredential {
    /// The secret, where one was found.
    pub fn secret(&self) -> (r: Option<&str>)
        ensures
            match (r, self@.secret) {
                (Some(s), Some(t)) => s@ == t,
                (None, None) => true,
                _ => false,
            },
    {
        match &self.secret.text {
            Some(s) => Some(s.as_str()),
            None => None,
        }
    }

    /// No credential, and where one was looked for.
    pub fn missing(required_envs: Vec<String>, conventional_envs: Vec<String>) -> (r: Self)
        ensures
            r@ == (CredentialView {
                secret: None,
                source_kind: CredentialSourceKind::Missing,
                source_name: None,
                required_envs: text::texts(required_envs@),
                conventional_envs: text::texts(conventional_envs@),
            }),
    {
        ResolvedCredential {
            secret: Secret::none(),
            source_kind: CredentialSourceKind::Missing,
            source_name: None,
            required_envs,
            conventional_envs,
        }
    }

    /// A credential given explicitly, looked for nowhere else.
    pub fn resolved_explicit(value: &str) -> (r: Self)
        ensures
            r@ == (CredentialView {
                secret: Some(value@),
                source_kind: CredentialSourceKind::Explicit,
                source_name: Some("explicit"@),
                required_envs: Seq::empty(),
                conventional_envs: Seq::empty(),
            }),
    {
        let r = ResolvedCredential {
            secret: Secret::of(value.to_string()),
            source_kind: CredentialSourceKind::Explicit,
            source_name: Some("explicit".to_string()),
            required_envs: Vec::new(),
            conventional_envs: Vec::new(),
        };
        assert(r@.required_envs =~= Seq::empty());
        assert(r@.conventional_envs =~= Seq::empty());
        r
    }

    /// The credential as it is shown in logs. The text depends on whether there
    /// is a secret, and on nothing else about it.
    pub fn debug_text(&self) -> (r: String)
        ensures
            r@ == shown(
                self@.secret is Some,
                self@.source_kind,
                self@.source_name,
                self@.required_envs,
                self@.conventional_envs,
            ),
    {
        let secret = if self.secret.text.is_some() {
            Some("<redacted>")
        } else {
            None
        };
        let name = match &self.source_name {
            Some(s) => Some(s.as_str()),
            None => None,
        };
        let kind = match self.source_kind {
            CredentialSourceKind::Explicit => "Explicit",
            CredentialSourceKind::ManifestEnv => "ManifestEnv",
            CredentialSourceKind::ConventionalEnv => "ConventionalEnv",
            CredentialSourceKind::Keyring => "Keyring",
            CredentialSourceKind::Missing => "None",
        };
        let mut s = text::cat("ResolvedCredential { secret: ", quote_option(secret).as_str());
        s.append(", source_kind: ");
        s.append(kind);
        s.append(", source_name: ");
        s.append(quote_option(name).as_str());
        s.append(", required_envs: ");
        s.append(text::quote_list(&self.required_envs).as_str());
        s.append(", conventional_envs: ");
        s.append(text::quote_list(&self.conventional_envs).as_str());
        s.append(" }");
        s
    }
}

/// Two credentials that differ in nothing but the secret are shown alike.
pub proof fn secret_is_never_shown(a: CredentialView, b: CredentialView)
    requires
        a.secret is Some == b.secret is Some,
        a.source_kind == b.source_kind,
        a.source_name == b.source_name,
        a.required_envs == b.required_envs,
        a.conventional_envs == b.conventional_envs,
    ensures
        shown(
            a.secret is Some,
            a.source_kind,
            a.source_name,
            a.required_envs,
            a.conventional_envs,
        ) == shown(
            b.secret is Some,
            b.source_kind,
            b.source_name,
            b.required_envs,
            b.conventional_envs,
        ),
{
}

/// The auth block that counts: the endpoint's, else the manifest's.
pub open spec fn active_auth(m: ProtocolManifest) -> Option<AuthConfig> {
    match m.endpoint.auth {
        Some(a) => Some(a),
        None => m.auth,
    }
}

/// The auth block that counts: the endpoint's, else the manifest's.
pub fn primary_auth(manifest: &ProtocolManifest) -> (r: Option<&AuthConfig>)
    ensures
        match (r, active_auth(*manifest)) {
            (Some(a), Some(b)) => *a == b,
            (None, None) => true,
            _ => false,
        },
{
    match &manifest.endpoint.auth {
        Some(a) => Some(a),
        None => match &manifest.auth {
            Some(a) => Some(a),
            None => None,
        },
    }
}

/// The two auth blocks ask for different credentials: by another type, or from
/// another variable.
pub open spec fn differs(a: manifest::AuthView, b: manifest::AuthView) -> bool {
    a.auth_type != b.auth_type || declared_env(a) != declared_env(b)
}

/// The variable that an auth block declares, as it is written.
pub open spec fn declared_env(a: manifest::AuthView) -> Option<Seq<char>> {
    match a.token_env {
        Some(t) => Some(t),
        None => a.key_env,
    }
}

/// The manifest's own auth block, where the endpoint's takes its place and asks
/// for another credential.
pub fn shadowed_auth(manifest: &ProtocolManifest) -> (r: Option<&AuthConfig>)
    ensures
        match (manifest.endpoint.auth, manifest.auth) {
            (Some(a), Some(b)) => if differs(a@, b@) {
                r == Some(&b)
            } else {
                r is None
            },
            _ => r is None,
        },
{
    match (&manifest.endpoint.auth, &manifest.auth) {
        (Some(a), Some(b)) => {
            let same_type = text::text_eq(a.auth_type.as_str(), b.auth_type.as_str());
            let same_env = match (a.env_name(), b.env_name()) {
                (Some(x), Some(y)) => text::text_eq(x, y),
                (None, None) => true,
                _ => false,
            };
            if same_type && same_env {
                None
            } else {
                Some(b)
            }
        },
        _ => None,
    }
}

impl AuthConfig {
    /// The variable that the block declares, as it is written.
    pub fn env_name(&self) -> (r: Option<&str>)
        ensures
            opt_str(r) == declared_env(self@),
    {
        match &self.token_env {
            Some(t) => Some(t.as_str()),
            None => match &self.key_env {
                Some(t) => Some(t.as_str()),
                None => None,
            },
        }
    }
}

/// The variable that an auth block names, without white space around it.
pub open spec fn named_env(a: manifest::AuthView) -> Option<Seq<char>> {
    match declared_env(a) {
        Some(t) => if text::trimmed(t).len() > 0 {
            Some(text::trimmed(t))
        } else {
            None
        },
        None => None,
    }
}

/// The variables that the manifest names.
pub open spec fn manifest_envs(m: ProtocolManifest) -> Seq<Seq<char>> {
    match manifest::opt_auth(active_auth(m)) {
        Some(a) => match named_env(a) {
            Some(t) => seq![t],
            None => Seq::empty(),
        },
        None => Seq::empty(),
    }
}

/// The variables that the manifest names, of the auth block that counts only.
pub fn required_envs(manifest: &ProtocolManifest) -> (r: Vec<String>)
    ensures
        text::texts(r@) == manifest_envs(*manifest),
{
    let mut out: Vec<String> = Vec::new();
    assert(text::texts(out@) =~= Seq::empty());
    if let Some(auth) = primary_auth(manifest) {
        let raw = match &auth.token_env {
            Some(t) => Some(t),
            None => match &auth.key_env {
                Some(t) => Some(t),
                None => None,
            },
        };
        if let Some(t) = raw {
            let name = text::trim(t.as_str());
            if name.as_str().unicode_len() > 0 {
                let ghost n = name@;
                out.push(name);
                assert(text::texts(out@) =~= seq![n]);
            }
        }
    }
    out
}

/// The provider's id: its own field, else the manifest's id.
pub open spec fn provider_name(m: ProtocolManifest) -> Seq<char> {
    match m.provider_id {
        Some(p) => p@,
        None => m.id@,
    }
}

/// The provider's id.
pub fn provider_id(manifest: &ProtocolManifest) -> (r: &str)
    ensures
        r@ == provider_name(*manifest),
{
    match &manifest.provider_id {
        Some(p) => p.as_str(),
        None => manifest.id.as_str(),
    }
}

/// The conventional variable, given the provider's id in upper case.
pub open spec fn key_variable(upper: Seq<char>) -> Seq<char> {
    text::char_replaced(upper, '-', '_') + "_API_KEY"@
}

/// The conventional variable, given the provider's id in upper case.
pub fn key_variable_for(upper: &str) -> (r: String)
    ensures
        r@ == key_variable(upper@),
{
    text::cat(text::replace_char(upper, '-', '_').as_str(), "_API_KEY")
}

/// The conventional variables of a provider.
pub open spec fn conventional_names(provider: Seq<char>) -> Seq<Seq<char>> {
    seq![key_variable(text::uppercase_text(provider))]
}

/// The conventional variable of a provider, `<PROVIDER>_API_KEY`.
pub fn conventional_envs(provider_id: &str) -> (r: Vec<String>)
    ensures
        text::texts(r@) == conventional_names(provider_id@),
{
    let name = key_variable_for(text::to_uppercase(provider_id).as_str());
    let ghost n = name@;
    let mut out: Vec<String> = Vec::new();
    out.push(name);
    assert(text::texts(out@) =~= seq![n]);
    out
}

/// A text without white space around it, where anything is left.
pub open spec fn usable(s: Option<Seq<char>>) -> Option<Seq<char>> {
    match s {
        Some(t) => if text::trimmed(t).len() > 0 {
            Some(text::trimmed(t))
        } else {
            None
        },
        None => None,
    }
}

/// The value of a variable.
pub open spec fn variable(env: Map<Seq<char>, String>, name: Seq<char>) -> Option<Seq<char>> {
    if env.dom().contains(name) {
        Some(env[name]@)
    } else {
        None
    }
}

/// The first of the variables from the `k`th on that holds something, and what it holds.
pub open spec fn first_set(env: Map<Seq<char>, String>, names: Seq<Seq<char>>, k: int) -> Option<
    (Seq<char>, Seq<char>),
>
    decreases names.len() - k,
{
    if 0 <= k < names.len() {
        match usable(variable(env, names[k])) {
            Some(v) => Some((names[k], v)),
            None => first_set(env, names, k + 1),
        }
    } else {
        None
    }
}

/// The credential for a provider: the first that is there of an explicit one,
/// a variable that the manifest names, the conventional variable and the
/// keyring.
pub open spec fn resolved(
    required: Seq<Seq<char>>,
    conventional: Seq<Seq<char>>,
    provider: Seq<char>,
    explicit: Option<Seq<char>>,
    env: Map<Seq<char>, String>,
    keyring: Option<Seq<char>>,
) -> CredentialView {
    let none = CredentialView {
        secret: None,
        source_kind: CredentialSourceKind::Missing,
        source_name: None,
        required_envs: required,
        conventional_envs: conventional,
    };
    match usable(explicit) {
        Some(v) => CredentialView {
            secret: Some(v),
            source_kind: CredentialSourceKind::Explicit,
            source_name: Some("explicit"@),
            ..none
        },
        None => match first_set(env, required, 0) {
            Some((name, v)) => CredentialView {
                secret: Some(v),
                source_kind: CredentialSourceKind::ManifestEnv,
                source_name: Some(name),
                ..none
            },
            None => match first_set(env, conventional, 0) {
                Some((name, v)) => CredentialView {
                    secret: Some(v),
                    source_kind: CredentialSourceKind::ConventionalEnv,
                    source_name: Some(name),
                    ..none
                },
                None => match usable(keyring) {
                    Some(v) => CredentialView {
                        secret: Some(v),
                        source_kind: CredentialSourceKind::Keyring,
                        source_name: Some("ai-protocol/"@ + provider),
                        ..none
                    },
                    None => none,
                },
            },
        },
    }
}

fn usable_text(s: &str) -> (r: Option<String>)
    ensures
        text::opt_text(r) == usable(Some(s@)),
{
    let t = text::trim(s);
    if t.as_str().unicode_len() > 0 {
        Some(t)
    } else {
        None
    }
}

fn find_set(env: &Table<String>, names: &Vec<String>) -> (r: Option<(String, String)>)
    ensures
        match (r, first_set(env@, text::texts(names@), 0)) {
            (Some((a, b)), Some((c, d))) => a@ == c && b@ == d,
            (None, None) => true,
            _ => false,
        },
{
    let ghost all = text::texts(names@);
    let mut k: usize = 0;
    while k < names.len()
        invariant
            k <= names@.len(),
            all == text::texts(names@),
            first_set(env@, all, 0) == first_set(env@, all, k as int),
        decreases names@.len() - k,
    {
        assert(all[k as int] == names@[k as int]@);
        if let Some(raw) = env.get(names[k].as_str()) {
            if let Some(v) = usable_text(raw.as_str()) {
                return Some((names[k].clone(), v));
            }
        }
        k += 1;
    }
    None
}

/// The view of an optional string slice.
pub open spec fn opt_str(s: Option<&str>) -> Option<Seq<char>> {
    match s {
        Some(t) => Some(t@),
        None => None,
    }
}

/// Finds the credential for a provider, given what the environment and the
/// keyring hold.
pub fn resolve_credential(
    manifest: &ProtocolManifest,
    explicit: Option<&str>,
    env: &Table<String>,
    keyring: Option<&str>,
) -> (r: ResolvedCredential)
    ensures
        r@ == resolved(
            manifest_envs(*manifest),
            conventional_names(provider_name(*manifest)),
            provider_name(*manifest),
            opt_str(explicit),
            env@,
            opt_str(keyring),
        ),
{
    let required_envs = required_envs(manifest);
    let conventional_envs = conventional_envs(provider_id(manifest));
    if let Some(value) = explicit {
        if let Some(v) = usable_text(value) {
            return ResolvedCredential {
                secret: Secret::of(v),
                source_kind: CredentialSourceKind::Explicit,
                source_name: Some("explicit".to_string()),
                required_envs,
                conventional_envs,
            };
        }
    }
    if let Some((name, v)) = find_set(env, &required_envs) {
        return ResolvedCredential {
            secret: Secret::of(v),
            source_kind: CredentialSourceKind::ManifestEnv,
            source_name: Some(name),
            required_envs,
            conventional_envs,
        };
    }
    if let Some((name, v)) = find_set(env, &conventional_envs) {
        return ResolvedCredential {
            secret: Secret::of(v),
            source_kind: CredentialSourceKind::ConventionalEnv,
            source_name: Some(name),
            required_envs,
            conventional_envs,
        };
    }
    if let Some(value) = keyring {
        if let Some(v) = usable_text(value) {
            return ResolvedCredential {
                secret: Secret::of(v),
                source_kind: CredentialSourceKind::Keyring,
                source_name: Some(text::cat("ai-protocol/", provider_id(manifest))),
                required_envs,
                conventional_envs,
            };
        }
    }
    ResolvedCredential::missing(required_envs, conventional_envs)
}

/// An explicit credential wins, whatever the environment and the keyring hold.
pub proof fn explicit_credential_always_wins(
    required: Seq<Seq<char>>,
    conventional: Seq<Seq<char>>,
    provider: Seq<char>,
    explicit: Seq<char>,
    env: Map<Seq<char>, String>,
    keyring: Option<Seq<char>>,
)
    requires
        text::trimmed(explicit).len() > 0,
    ensures
        ({
            let r = resolved(required, conventional, provider, Some(explicit), env, keyring);
            r.secret == Some(text::trimmed(explicit)) && r.source_kind
                == CredentialSourceKind::Explicit
        }),
{
}

/// A secret is there exactly where a source is.
pub proof fn secret_has_a_source(
    required: Seq<Seq<char>>,
    conventional: Seq<Seq<char>>,
    provider: Seq<char>,
    explicit: Option<Seq<char>>,
    env: Map<Seq<char>, String>,
    keyring: Option<Seq<char>>,
)
    ensures
        ({
            let r = resolved(required, conventional, provider, explicit, env, keyring);
            &&& (r.secret is Some) == (r.source_kind != CredentialSourceKind::Missing)
            &&& (r.secret is Some) == (r.source_name is Some)
        }),
{
}

impl ResolvedCredential {
    /// The variables that were looked at, those of the manifest first.
    pub fn tried(&self) -> (r: Vec<String>)
        ensures
            text::texts(r@) == self@.required_envs + self@.conventional_envs,
    {
        let mut out = text::copy_texts(&self.required_envs);
        let mut more = text::copy_texts(&self.conventional_envs);
        let ghost a = text::texts(out@);
        let ghost b = text::texts(more@);
        out.append(&mut more);
        assert(text::texts(out@) =~= a + b);
        out
    }

    /// The same credential again.
    pub fn copy(&self) -> (r: Self)
        ensures
            r@ == self@,
    {
        ResolvedCredential {
            secret: Secret { text: message::copy_opt(&self.secret.text) },
            source_kind: self.source_kind,
            source_name: message::copy_opt(&self.source_name),
            required_envs: text::copy_texts(&self.required_envs),
            conventional_envs: text::copy_texts(&self.conventional_envs),
        }
    }
}

proof fn lemma_first_set(env: Map<Seq<char>, String>, names: Seq<Seq<char>>, i: int, k: int)
    requires
        0 <= i <= k <= names.len(),
        forall|j: int| i <= j < k ==> is_unset(env, #[trigger] names[j]),
        k < names.len() ==> !is_unset(env, names[k]),
    ensures
        first_set(env, names, i) == (if k < names.len() {
            Some((names[k], text::trimmed(env[names[k]]@)))
        } else {
            None
        }),
    decreases k - i,
{
    if i < k {
        assert(is_unset(env, names[i]));
        lemma_first_set(env, names, i + 1, k);
    }
}

/// The variable is missing or blank.
pub open spec fn is_unset(env: Map<Seq<char>, String>, name: Seq<char>) -> bool {
    !env.dom().contains(name) || text::trimmed(env[name]@).len() == 0
}

/// No credential is given where one was expected, or it is blank.
pub open spec fn is_blank(s: Option<Seq<char>>) -> bool {
    s matches Some(t) ==> text::trimmed(t).len() == 0
}

/// Without an explicit credential the first of the manifest's variables that is
/// set gives it, without white space around it.
pub proof fn manifest_variable_comes_next(
    required: Seq<Seq<char>>,
    conventional: Seq<Seq<char>>,
    provider: Seq<char>,
    explicit: Option<Seq<char>>,
    env: Map<Seq<char>, String>,
    keyring: Option<Seq<char>>,
    k: int,
)
    requires
        is_blank(explicit),
        0 <= k < required.len(),
        !is_unset(env, required[k]),
        forall|j: int| 0 <= j < k ==> is_unset(env, #[trigger] required[j]),
    ensures
        ({
            let r = resolved(required, conventional, provider, explicit, env, keyring);
            &&& r.secret == Some(text::trimmed(env[required[k]]@))
            &&& r.source_kind == CredentialSourceKind::ManifestEnv
            &&& r.source_name == Some(required[k])
            &&& r.required_envs == required
            &&& r.conventional_envs == conventional
        }),
{
    lemma_first_set(env, required, 0, k);
}

/// Where none of the manifest's variables is set, the first conventional one
/// that is gives the credential.
pub proof fn conventional_variable_comes_after(
    required: Seq<Seq<char>>,
    conventional: Seq<Seq<char>>,
    provider: Seq<char>,
    explicit: Option<Seq<char>>,
    env: Map<Seq<char>, String>,
    keyring: Option<Seq<char>>,
    k: int,
)
    requires
        is_blank(explicit),
        forall|j: int| 0 <= j < required.len() ==> is_unset(env, #[trigger] required[j]),
        0 <= k < conventional.len(),
        !is_unset(env, conventional[k]),
        forall|j: int| 0 <= j < k ==> is_unset(env, #[trigger] conventional[j]),
    ensures
        ({
            let r = resolved(required, conventional, provider, explicit, env, keyring);
            &&& r.secret == Some(text::trimmed(env[conventional[k]]@))
            &&& r.source_kind == CredentialSourceKind::ConventionalEnv
            &&& r.source_name == Some(conventional[k])
            &&& r.required_envs == required
            &&& r.conventional_envs == conventional
        }),
{
    lemma_first_set(env, required, 0, required.len() as int);
    lemma_first_set(env, conventional, 0, k);
}

/// Where no variable is set the keyring gives the credential, and where it
/// holds none there is no credential.
pub proof fn keyring_comes_last(
    required: Seq<Seq<char>>,
    conventional: Seq<Seq<char>>,
    provider: Seq<char>,
    explicit: Option<Seq<char>>,
    env: Map<Seq<char>, String>,
    keyring: Option<Seq<char>>,
)
    requires
        is_blank(explicit),
        forall|j: int| 0 <= j < required.len() ==> is_unset(env, #[trigger] required[j]),
        forall|j: int| 0 <= j < conventional.len() ==> is_unset(env, #[trigger] conventional[j]),
    ensures
        ({
            let r = resolved(required, conventional, provider, explicit, env, keyring);
            &&& !is_blank(keyring) ==> r.secret == Some(text::trimmed(keyring->0)) && r.source_kind
                == CredentialSourceKind::Keyring && r.source_name == Some(
                "ai-protocol/"@ + provider,
            )
            &&& is_blank(keyring) ==> r.secret is None && r.source_kind
                == CredentialSourceKind::Missing && r.source_name is None
            &&& r.required_envs == required
            &&& r.conventional_envs == conventional
        }),
{
    lemma_first_set(env, required, 0, required.len() as int);
    lemma_first_set(env, conventional, 0, conventional.len() as int);
}

/// The endpoint's auth block counts before the manifest's own, and its token
/// variable before its key variable; a blank one is none.
pub proof fn winning_block_names_the_variable(m: ProtocolManifest, a: AuthConfig)
    requires
        m.endpoint.auth == Some(a) || (m.endpoint.auth is None && m.auth == Some(a)),
    ensures
        active_auth(m) == Some(a),
        ({
            let named = match a.token_env {
                Some(t) => Some(t@),
                None => match a.key_env {
                    Some(t) => Some(t@),
                    None => None,
                },
            };
            manifest_envs(m) == (match named {
                Some(n) if text::trimmed(n).len() > 0 => seq![text::trimmed(n)],
                _ => Seq::empty(),
            })
        }),
{
}

/// Without an auth block no variable is named.
pub proof fn no_block_names_no_variable(m: ProtocolManifest)
    requires
        m.endpoint.auth is None,
        m.auth is None,
    ensures
        active_auth(m) is None,
        manifest_envs(m).len() == 0,
{
}

/// The conventional variable is the provider's id in upper case, with
/// underscores for hyphens, and `_API_KEY`.
pub proof fn conventional_variable_is_made_of_the_id(provider: Seq<char>, i: int)
    requires
        0 <= i < text::uppercase_text(provider).len(),
    ensures
        ({
            let upper = text::uppercase_text(provider);
            let name = conventional_names(provider)[0];
            &&& conventional_names(provider).len() == 1
            &&& name.len() == upper.len() + "_API_KEY"@.len()
            &&& name[i] == (if upper[i] == '-' {
                '_'
            } else {
                upper[i]
            })
            &&& name.subrange(upper.len() as int, name.len() as int) == "_API_KEY"@
        }),
{
    let upper = text::uppercase_text(provider);
    let name = conventional_names(provider)[0];
    assert(name.subrange(upper.len() as int, name.len() as int) =~= "_API_KEY"@);
}

/// The provider goes by its own id where it has one, else by the manifest's.
pub proof fn own_id_counts_first(m: ProtocolManifest)
    ensures
        m.provider_id matches Some(p) ==> provider_name(m) == p@,
        m.provider_id is None ==> provider_name(m) == m.id@,
{
}

/// Of two auth blocks that ask for different credentials the manifest's own is
/// the one in the shadow; blocks that agree shadow nothing.
pub proof fn differing_blocks_shadow_each_other(
    manifest: &ProtocolManifest,
    r: Option<&AuthConfig>,
)
    requires
        call_ensures(shadowed_auth, (manifest,), r),
    ensures
        manifest.endpoint.auth is None || manifest.auth is None ==> r is None,
        manifest.endpoint.auth matches Some(a) ==> (manifest.auth matches Some(b) ==> {
            &&& a.auth_type@ != b.auth_type@ ==> r == Some(&b)
            &&& text::opt_text(a.token_env) != text::opt_text(b.token_env) && a.token_env is Some
                && b.token_env is Some ==> r == Some(&b)
            &&& a@ == b@ ==> r is None
        }),
{
}

/// A credential that was found is handed out as it is, and nothing where none
/// was.
pub proof fn found_secrets_are_handed_out(c: &ResolvedCredential, r: Option<&str>)
    requires
        call_ensures(ResolvedCredential::secret, (c,), r),
    ensures
        r is Some <==> c@.secret is Some,
        r matches Some(s) ==> c@.secret == Some(s@),
{
}

/// What is shown of a credential tells where it came from, and which variables
/// were looked at.
pub proof fn shown_credentials_tell_their_source(
    has_secret: bool,
    kind: CredentialSourceKind,
    name: Option<Seq<char>>,
    required: Seq<Seq<char>>,
    conventional: Seq<Seq<char>>,
)
    ensures
        ({
            let s = shown(has_secret, kind, name, required, conventional);
            &&& text::has_part(s, ", source_kind: "@ + kind_name(kind))
            &&& text::has_part(s, ", required_envs: "@ + text::quoted_list(required))
            &&& text::has_part(s, ", conventional_envs: "@ + text::quoted_list(conventional))
        }),
{
    let a = "ResolvedCredential { secret: "@ + quoted_option(
        if has_secret {
            Some("<redacted>"@)
        } else {
            None
        },
    );
    let b = ", source_kind: "@ + kind_name(kind);
    let c = ", source_name: "@ + quoted_option(name);
    let d = ", required_envs: "@ + text::quoted_list(required);
    let e = ", conventional_envs: "@ + text::quoted_list(conventional);
    let s = shown(has_secret, kind, name, required, conventional);
    assert(s =~= a + b + (c + d + e + " }"@));
    assert(s =~= (a + b + c) + d + (e + " }"@));
    assert(s =~= (a + b + c + d) + e + " }"@);
    text::parts_are_found(a, b, c + d + e + " }"@);
    text::parts_are_found(a + b + c, d, e + " }"@);
    text::parts_are_found(a + b + c + d, e, " }"@);
}

/// Where a credential came from has a name of its own.
pub proof fn source_kinds_have_their_names()
    ensures
        kind_name(CredentialSourceKind::Explicit) == "Explicit"@,
        kind_name(CredentialSourceKind::ManifestEnv) == "ManifestEnv"@,
        kind_name(CredentialSourceKind::ConventionalEnv) == "ConventionalEnv"@,
        kind_name(CredentialSourceKind::Keyring) == "Keyring"@,
        kind_name(CredentialSourceKind::Missing) == "None"@,
{
}

} // verus!
