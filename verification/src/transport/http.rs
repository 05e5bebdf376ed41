//! The HTTP transport's decisions: how a request is authenticated, which
//! routes are tried in which order, and where a request goes.

use crate::credentials;
use crate::credentials::ResolvedCredential;
use crate::error;
use crate::error::TransportError;
use crate::protocol::manifest;
use crate::protocol::manifest::{AuthConfig, ProtocolManifest};
use crate::table::Table;
use crate::text;
use vstd::prelude::*;

verus! {

broadcast use vstd::string::group_string_axioms;

/// Auth types that a warning was given for.
#[derive(Debug)]
pub struct UnknownAuthTypes {
    seen: Vec<String>,
}

impl View for UnknownAuthTypes {
    type V = Set<Seq<char>>;

    closed spec fn view(&self) -> Set<Seq<char>> {
        text::texts(self.seen@).to_set()
    }
}

impl UnknownAuthTypes {
    /// No warning given yet.
    pub fn new() -> (r: Self)
        ensures
            r@ == Set::<Seq<char>>::empty(),
    {
        let r = UnknownAuthTypes { seen: Vec::new() };
        assert(r@ =~= Set::empty());
        r
    }

    /// Notes an auth type; true the first time it is noted.
    pub fn note(&mut self, auth_type: &str) -> (r: bool)
        ensures
            r == !old(self)@.contains(auth_type@),
            final(self)@ == old(self)@.insert(auth_type@),
    {
        let ghost all = text::texts(self.seen@);
        let ghost t = auth_type@;
        let mut i: usize = 0;
        while i < self.seen.len()
            invariant
                i <= self.seen@.len(),
                self.seen@ == old(self).seen@,
                all == text::texts(self.seen@),
                t == auth_type@,
                forall|k: int| 0 <= k < i ==> #[trigger] all[k] != t,
            decreases self.seen@.len() - i,
        {
            assert(all[i as int] == self.seen@[i as int]@);
            if text::text_eq(self.seen[i].as_str(), auth_type) {
                assert(all.contains(t));
                assert(self@.insert(t) =~= self@);
                return false;
            }
            i += 1;
        }
        assert(!all.contains(t)) by {
            if all.contains(t) {
                let k = choose|k: int| 0 <= k < all.len() && all[k] == t;
                assert(all[k] != t);
            }
        }
        self.seen.push(auth_type.to_string());
        proof {
            let after = text::texts(self.seen@);
            assert(after =~= all.push(t));
            assert forall|x: Seq<char>| after.contains(x) == (all.contains(x) || x == t) by {
                if all.contains(x) {
                    let k = choose|k: int| 0 <= k < all.len() && all[k] == x;
                    assert(after[k] == x);
                }
                if x == t {
                    assert(after[all.len() as int] == x);
                }
                if after.contains(x) && x != t {
                    let k = choose|k: int| 0 <= k < after.len() && after[k] == x;
                    assert(all[k] == x);
                }
            }
            assert(self@ =~= old(self)@.insert(t));
        }
        true
    }
}

/// The value of an authorization header: the prefix, a space and the secret,
/// or the secret alone.
pub open spec fn header_value(prefix: Seq<char>, secret: Seq<char>) -> Seq<char> {
    if text::trimmed(prefix).len() == 0 {
        secret
    } else {
        text::trimmed(prefix) + " "@ + secret
    }
}

/// The value of an authorization header.
pub fn auth_header_value(prefix: &str, secret: &str) -> (r: String)
    ensures
        r@ == header_value(prefix@, secret@),
{
    let trimmed = text::trim(prefix);
    if trimmed.as_str().unicode_len() == 0 {
        secret.to_string()
    } else {
        text::cat(text::cat(trimmed.as_str(), " ").as_str(), secret)
    }
}

/// What authentication adds to a request.
pub enum AuthAttachment {
    Nothing,
    Query { name: String, value: String },
    Header { name: String, value: String },
}

/// What an attachment is.
pub enum AttachmentView {
    Nothing,
    Query { name: Seq<char>, value: Seq<char> },
    Header { name: Seq<char>, value: Seq<char> },
}

impl View for AuthAttachment {
    type V = AttachmentView;

    open spec fn view(&self) -> AttachmentView {
        match self {
            AuthAttachment::Nothing => AttachmentView::Nothing,
            AuthAttachment::Query { name, value } => AttachmentView::Query {
                name: name@,
                value: value@,
            },
            AuthAttachment::Header { name, value } => AttachmentView::Header {
                name: name@,
                value: value@,
            },
        }
    }
}

/// The text, or another where there is none.
pub open spec fn text_or(s: Option<Seq<char>>, other: Seq<char>) -> Seq<char> {
    match s {
        Some(t) => t,
        None => other,
    }
}

/// The auth type is one that the transport knows.
pub open spec fn known_auth_type(t: Seq<char>) -> bool {
    t == "query_param"@ || t == "api_key"@ || t == "custom_header"@ || t == "header"@ || t
        == "bearer"@
}

/// What authentication adds to a request: nothing without a secret, a bearer
/// header without an auth block, else what the block asks for. An auth type
/// that is not known counts as a bearer token.
pub open spec fn attachment(auth: Option<manifest::AuthView>, secret: Option<Seq<char>>) -> AttachmentView {
    match (secret, auth) {
        (None, _) => AttachmentView::Nothing,
        (Some(s), None) => AttachmentView::Header {
            name: "Authorization"@,
            value: "Bearer "@ + s,
        },
        (Some(s), Some(a)) => if a.auth_type == "query_param"@ {
            AttachmentView::Query { name: text_or(a.param_name, "api_key"@), value: s }
        } else if a.auth_type == "api_key"@ || a.auth_type == "custom_header"@ || a.auth_type
            == "header"@ {
            AttachmentView::Header { name: text_or(a.header_name, "X-API-Key"@), value: s }
        } else {
            AttachmentView::Header {
                name: text_or(a.header_name, "Authorization"@),
                value: header_value(text_or(a.prefix, "Bearer"@), s),
            }
        },
    }
}

fn str_or<'a>(s: &'a Option<String>, other: &'a str) -> (r: &'a str)
    ensures
        r@ == text_or(text::opt_text(*s), other@),
{
    match s {
        Some(t) => t.as_str(),
        None => other,
    }
}

/// Whether the auth type is one that the transport knows.
pub fn is_known_auth_type(t: &str) -> (r: bool)
    ensures
        r == known_auth_type(t@),
{
    text::text_eq(t, "query_param") || text::text_eq(t, "api_key") || text::text_eq(
        t,
        "custom_header",
    ) || text::text_eq(t, "header") || text::text_eq(t, "bearer")
}

/// What authentication adds to a request.
pub fn auth_attachment(auth: Option<&AuthConfig>, secret: Option<&str>) -> (r: AuthAttachment)
    ensures
        r@ == attachment(manifest::opt_auth_ref(auth), credentials::opt_str(secret)),
{
    let s = match secret {
        Some(s) => s,
        None => {
            return AuthAttachment::Nothing;
        },
    };
    let a = match auth {
        Some(a) => a,
        None => {
            return AuthAttachment::Header {
                name: "Authorization".to_string(),
                value: text::cat("Bearer ", s),
            };
        },
    };
    let t = a.auth_type.as_str();
    if text::text_eq(t, "query_param") {
        AuthAttachment::Query {
            name: str_or(&a.param_name, "api_key").to_string(),
            value: s.to_string(),
        }
    } else if text::text_eq(t, "api_key") || text::text_eq(t, "custom_header") || text::text_eq(
        t,
        "header",
    ) {
        AuthAttachment::Header {
            name: str_or(&a.header_name, "X-API-Key").to_string(),
            value: s.to_string(),
        }
    } else {
        AuthAttachment::Header {
            name: str_or(&a.header_name, "Authorization").to_string(),
            value: auth_header_value(str_or(&a.prefix, "Bearer"), s),
        }
    }
}

/// The proxies to fall back to: the one that `AI_PROXY_URL` names.
pub open spec fn proxies(url: Option<Seq<char>>) -> Seq<Seq<char>> {
    match credentials::usable(url) {
        Some(p) => seq![p],
        None => Seq::empty(),
    }
}

/// The proxies to fall back to, given what `AI_PROXY_URL` holds.
pub fn proxy_candidates(url: Option<&str>) -> (r: Vec<String>)
    ensures
        text::texts(r@) == proxies(credentials::opt_str(url)),
{
    let mut out: Vec<String> = Vec::new();
    assert(text::texts(out@) =~= Seq::empty());
    if let Some(u) = url {
        let trimmed = text::trim(u);
        if trimmed.as_str().unicode_len() > 0 {
            let ghost t = trimmed@;
            out.push(trimmed);
            assert(text::texts(out@) =~= seq![t]);
        }
    }
    out
}

/// The names of the routes: the direct one, then one for each proxy.
pub open spec fn route_labels(proxies: Seq<Seq<char>>) -> Seq<Seq<char>> {
    seq!["direct"@] + Seq::new(proxies.len(), |i: int| "proxy:"@ + proxies[i])
}

/// The names of the routes: the direct one, then one for each proxy.
pub fn build_routes(proxies: &Vec<String>) -> (r: Vec<String>)
    ensures
        text::texts(r@) == route_labels(text::texts(proxies@)),
        r@.len() == proxies@.len() + 1,
{
    let ghost want = route_labels(text::texts(proxies@));
    let mut out: Vec<String> = Vec::new();
    out.push("direct".to_string());
    let mut i: usize = 0;
    while i < proxies.len()
        invariant
            i <= proxies@.len(),
            want == route_labels(text::texts(proxies@)),
            out@.len() == i + 1,
            forall|k: int| 0 <= k <= i ==> #[trigger] out@[k]@ == want[k],
        decreases proxies@.len() - i,
    {
        let label = text::cat("proxy:", proxies[i].as_str());
        assert(label@ == want[i + 1]);
        out.push(label);
        i += 1;
    }
    assert(text::texts(out@) =~= want);
    out
}

/// The settings of an HTTP client.
#[derive(Debug)]
pub struct ClientSettings {
    pub timeout_secs: u64,
    pub connect_timeout_ms: u64,
    pub pool_max_idle_per_host: usize,
    pub pool_idle_timeout_secs: u64,
}

/// The number that a variable writes, or another where it writes none.
pub open spec fn number_or(v: Option<Seq<char>>, max: nat, other: nat) -> nat {
    match v {
        Some(s) => match text::parsed_number(s, max) {
            Some(n) => n,
            None => other,
        },
        None => other,
    }
}

fn read_number(env: &Table<String>, name: &str, max: u64) -> (r: Option<u64>)
    ensures
        match (
            r,
            match credentials::variable(env@, name@) {
                Some(s) => text::parsed_number(s, max as nat),
                None => None,
            },
        ) {
            (Some(a), Some(b)) => a == b,
            (None, None) => true,
            _ => false,
        },
{
    match env.get(name) {
        Some(s) => text::parse_number(s.as_str(), max),
        None => None,
    }
}

/// The settings of an HTTP client, given the environment. With a route to
/// fall back to, connecting is given up sooner.
pub fn client_settings(env: &Table<String>, has_failover_routes: bool) -> (r: ClientSettings)
    ensures
        r.timeout_secs == number_or(
            credentials::variable(env@, "AI_HTTP_TIMEOUT_SECS"@),
            u64::MAX as nat,
            number_or(credentials::variable(env@, "AI_TIMEOUT_SECS"@), u64::MAX as nat, 300),
        ),
        r.connect_timeout_ms == number_or(
            credentials::variable(env@, "AI_HTTP_CONNECT_TIMEOUT_MS"@),
            u64::MAX as nat,
            if has_failover_routes {
                2500
            } else {
                10000
            },
        ),
        r.pool_max_idle_per_host == number_or(
            credentials::variable(env@, "AI_HTTP_POOL_MAX_IDLE_PER_HOST"@),
            usize::MAX as nat,
            32,
        ),
        r.pool_idle_timeout_secs == number_or(
            credentials::variable(env@, "AI_HTTP_POOL_IDLE_TIMEOUT_SECS"@),
            u64::MAX as nat,
            90,
        ),
{
    let timeout_secs: u64 = match read_number(env, "AI_HTTP_TIMEOUT_SECS", u64::MAX) {
        Some(n) => n,
        None => match read_number(env, "AI_TIMEOUT_SECS", u64::MAX) {
            Some(n) => n,
            None => 300,
        },
    };
    let connect_timeout_ms: u64 = match read_number(env, "AI_HTTP_CONNECT_TIMEOUT_MS", u64::MAX) {
        Some(n) => n,
        None => if has_failover_routes {
            2500
        } else {
            10000
        },
    };
    let pool_max_idle_per_host: usize = match read_number(
        env,
        "AI_HTTP_POOL_MAX_IDLE_PER_HOST",
        usize::MAX as u64,
    ) {
        Some(n) => {
            proof {
                lemma_number_bound(
                    credentials::variable(env@, "AI_HTTP_POOL_MAX_IDLE_PER_HOST"@)->0,
                    usize::MAX as nat,
                );
            }
            n as usize
        },
        None => 32,
    };
    let pool_idle_timeout_secs: u64 = match read_number(
        env,
        "AI_HTTP_POOL_IDLE_TIMEOUT_SECS",
        u64::MAX,
    ) {
        Some(n) => n,
        None => 90,
    };
    ClientSettings {
        timeout_secs,
        connect_timeout_ms,
        pool_max_idle_per_host,
        pool_idle_timeout_secs,
    }
}

proof fn lemma_number_bound(s: Seq<char>, max: nat)
    ensures
        text::parsed_number(s, max) matches Some(n) ==> n <= max,
{
}

/// How a request is sent.
#[derive(Debug, Clone, Copy, PartialEq, Eq, Structural)]
pub enum HttpMethod {
    Get,
    Post,
    Put,
    Delete,
}

/// The method that an upper-case name stands for; anything else is a GET.
pub open spec fn method_named(upper: Seq<char>) -> HttpMethod {
    if upper == "POST"@ {
        HttpMethod::Post
    } else if upper == "PUT"@ {
        HttpMethod::Put
    } else if upper == "DELETE"@ {
        HttpMethod::Delete
    } else {
        HttpMethod::Get
    }
}

/// The method that an upper-case name stands for.
pub fn method_from_upper(upper: &str) -> (r: HttpMethod)
    ensures
        r == method_named(upper@),
{
    if text::text_eq(upper, "POST") {
        HttpMethod::Post
    } else if text::text_eq(upper, "PUT") {
        HttpMethod::Put
    } else if text::text_eq(upper, "DELETE") {
        HttpMethod::Delete
    } else {
        HttpMethod::Get
    }
}

/// The method that a name stands for, whatever its case.
pub fn method_for(name: &str) -> (r: HttpMethod)
    ensures
        r == method_named(text::uppercase_text(name@)),
{
    method_from_upper(text::to_uppercase(name).as_str())
}

impl HttpMethod {
    /// Whether a streaming request carries its body with the method.
    pub fn carries_body(self) -> (r: bool)
        ensures
            r == (self == HttpMethod::Post || self == HttpMethod::Put),
    {
        matches!(self, HttpMethod::Post | HttpMethod::Put)
    }
}

/// The headers of a streaming request: what it accepts, and the id that the
/// client gave it.
pub open spec fn stream_headers(accept_event_stream: bool, id: Option<Seq<char>>) -> Seq<
    (Seq<char>, Seq<char>),
> {
    let accept = (
        "accept"@,
        if accept_event_stream {
            "text/event-stream"@
        } else {
            "application/json"@
        },
    );
    match id {
        Some(i) => seq![accept, ("x-ai-protocol-request-id"@, i)],
        None => seq![accept],
    }
}

/// The headers of a streaming request, in the order they are set.
pub fn request_headers(accept_event_stream: bool, request_id: Option<&str>) -> (r: Vec<
    (String, String),
>)
    ensures
        manifest::pair_views(r@) == stream_headers(
            accept_event_stream,
            credentials::opt_str(request_id),
        ),
{
    let accepted = if accept_event_stream {
        "text/event-stream"
    } else {
        "application/json"
    };
    let mut out: Vec<(String, String)> = Vec::new();
    out.push(("accept".to_string(), accepted.to_string()));
    if let Some(id) = request_id {
        out.push(("x-ai-protocol-request-id".to_string(), id.to_string()));
    }
    assert(manifest::pair_views(out@) =~= stream_headers(
        accept_event_stream,
        credentials::opt_str(request_id),
    ));
    out
}

/// Where a path of a provider is reached: a path that is a URL of its own
/// stands alone, any other follows the base.
pub open spec fn joined_url(base: Seq<char>, path: Seq<char>) -> Seq<char> {
    if text::has_prefix(path, "http://"@) || text::has_prefix(path, "https://"@) {
        path
    } else {
        base + path
    }
}

/// Where a path of a provider is reached.
pub fn join_base_and_path(base: &str, path: &str) -> (r: String)
    ensures
        r@ == joined_url(base@, path@),
{
    if text::starts_with(path, "http://") || text::starts_with(path, "https://") {
        path.to_string()
    } else {
        text::cat(base, path)
    }
}

/// The path with the model's name filled in.
pub open spec fn filled_path(path: Seq<char>, model: Seq<char>) -> Seq<char> {
    text::part_replaced(path, "{model}"@, model)
}

/// Another route may give a better answer than this status.
pub open spec fn retryable(status: u16) -> bool {
    status == 403 || status == 407 || status == 451 || status == 502 || status == 503 || status
        == 504
}

/// Whether another route may give a better answer than this status.
pub fn should_try_alternate_route(status: u16) -> (r: bool)
    ensures
        r == retryable(status),
{
    status == 403 || status == 407 || status == 451 || status == 502 || status == 503 || status
        == 504
}

/// The order in which `len` routes are tried: from the preferred one on, and
/// round to the one before it.
pub open spec fn route_order(len: nat, preferred: usize) -> Seq<usize> {
    let start = if preferred < len {
        preferred as int
    } else {
        len - 1
    };
    Seq::new(len, |i: int| ((start + i) % (len as int)) as usize)
}

/// Every route is tried, and none twice.
pub proof fn route_order_is_complete(len: nat, preferred: usize, route: int)
    requires
        0 < len <= usize::MAX,
        0 <= route < len,
    ensures
        exists|i: int|
            0 <= i < len && #[trigger] route_order(len, preferred)[i] == route && forall|j: int|
                0 <= j < len && #[trigger] route_order(len, preferred)[j] == route ==> j == i,
{
    let n = len as int;
    let start: int = if preferred < len {
        preferred as int
    } else {
        n - 1
    };
    let i = if route >= start {
        route - start
    } else {
        route - start + n
    };
    let order = route_order(len, preferred);
    assert((start + i) % n == route) by (nonlinear_arith)
        requires
            0 <= route < n,
            start + i == route || start + i == route + n,
    ;
    assert(order[i] == route);
    assert forall|j: int| 0 <= j < n && #[trigger] order[j] == route implies j == i by {
        let s = start + j;
        assert(0 <= s % n < n) by (nonlinear_arith)
            requires
                n > 0,
        ;
        assert(s % n == route);
        assert(s == route || s == route + n) by (nonlinear_arith)
            requires
                0 <= s < 2 * n,
                s % n == route,
                0 <= route < n,
        ;
    }
}

/// The transport to one provider.
#[derive(Clone)]
pub struct HttpTransport {
    /// The names of the routes, the direct one first.
    pub routes: Vec<String>,
    /// The route that worked last.
    pub preferred_route: usize,
    pub base_url: String,
    pub model: String,
    pub credential: ResolvedCredential,
    pub auth: Option<AuthConfig>,
}

/// What the process environment and the keyring hold.
pub struct Environment {
    pub vars: Table<String>,
    pub keyring_secret: Option<String>,
}

impl Environment {
    /// What the keyring holds.
    pub fn keyring(&self) -> (r: Option<&str>)
        ensures
            credentials::opt_str(r) == text::opt_text(self.keyring_secret),
    {
        match &self.keyring_secret {
            Some(s) => Some(s.as_str()),
            None => None,
        }
    }
}

impl HttpTransport {
    /// There is at least the direct route.
    pub open spec fn well_formed(self) -> bool {
        self.routes@.len() > 0
    }

    /// A transport for a manifest.
    pub fn new(manifest: &ProtocolManifest, model: &str, env: &Environment) -> (r: Self)
        ensures
            is_transport_for(r, *manifest, model@, None, None, *env),
    {
        Self::new_with_base_url(manifest, model, None, env)
    }

    /// A transport for a manifest, or for another base URL.
    pub fn new_with_base_url(
        manifest: &ProtocolManifest,
        model: &str,
        base_url_override: Option<&str>,
        env: &Environment,
    ) -> (r: Self)
        ensures
            is_transport_for(
                r,
                *manifest,
                model@,
                credentials::opt_str(base_url_override),
                None,
                *env,
            ),
    {
        Self::new_with_base_url_and_credential(manifest, model, base_url_override, None, env)
    }

    /// A transport for a manifest, or for another base URL or credential.
    pub fn new_with_base_url_and_credential(
        manifest: &ProtocolManifest,
        model: &str,
        base_url_override: Option<&str>,
        credential_override: Option<&str>,
        env: &Environment,
    ) -> (r: Self)
        ensures
            is_transport_for(
                r,
                *manifest,
                model@,
                credentials::opt_str(base_url_override),
                credentials::opt_str(credential_override),
                *env,
            ),
    {
        let credential = credentials::resolve_credential(
            manifest,
            credential_override,
            &env.vars,
            env.keyring(),
        );
        let auth = match credentials::primary_auth(manifest) {
            Some(a) => Some(a.copy()),
            None => None,
        };
        let base_url = match base_url_override {
            Some(u) => u.to_string(),
            None => manifest.get_base_url().to_string(),
        };
        let proxy_url = match env.vars.get("AI_PROXY_URL") {
            Some(u) => Some(u.as_str()),
            None => None,
        };
        let routes = build_routes(&proxy_candidates(proxy_url));
        HttpTransport {
            routes,
            preferred_route: 0,
            base_url,
            model: model.to_string(),
            credential,
            auth,
        }
    }

    /// The order in which the routes are tried.
    pub fn preferred_route_indices(&self) -> (r: Vec<usize>)
        requires
            self.well_formed(),
        ensures
            r@ == route_order(self.routes@.len(), self.preferred_route),
            r@.len() == self.routes@.len(),
            forall|i: int| 0 <= i < r@.len() ==> #[trigger] r@[i] < self.routes@.len(),
    {
        let len: usize = self.routes.len();
        let start: usize = if self.preferred_route < len {
            self.preferred_route
        } else {
            len - 1
        };
        let ghost want = route_order(len as nat, self.preferred_route);
        let mut out: Vec<usize> = Vec::new();
        let mut i: usize = 0;
        while i < len
            invariant
                i <= len,
                0 < len,
                start < len,
                want.len() == len,
                forall|k: int|
                    0 <= k < len ==> #[trigger] want[k] == ((start + k) % (len as int)) as usize,
                out@.len() == i,
                forall|k: int| 0 <= k < i ==> #[trigger] out@[k] == want[k] && out@[k] < len,
            decreases len - i,
        {
            let next: usize = if i < len - start {
                start + i
            } else {
                i - (len - start)
            };
            assert((start + i) % (len as int) == next) by (nonlinear_arith)
                requires
                    0 <= next < len,
                    start + i == next || start + i == next + len,
            ;
            assert(want[i as int] == next);
            out.push(next);
            i += 1;
        }
        assert(out@ =~= want);
        out
    }

    /// What authentication adds to a request.
    pub fn apply_auth(&self) -> (r: AuthAttachment)
        ensures
            r@ == attachment(manifest::opt_auth(self.auth), self.credential@.secret),
    {
        let auth = match &self.auth {
            Some(a) => Some(a),
            None => None,
        };
        auth_attachment(auth, self.credential.secret())
    }

    /// Where a request to a path goes.
    pub fn request_url(&self, path: &str) -> (r: String)
        ensures
            r@ == joined_url(self.base_url@, filled_path(path@, self.model@)),
    {
        let filled = text::replace(path, "{model}", self.model.as_str());
        join_base_and_path(self.base_url.as_str(), filled.as_str())
    }

    /// Starts trying the routes for one request.
    pub fn start(&self) -> (r: RouteRun)
        requires
            self.well_formed(),
        ensures
            r@ == (RunView {
                order: route_order(self.routes@.len(), self.preferred_route),
                at: 0,
                last_error: None,
            }),
    {
        RouteRun { order: self.preferred_route_indices(), at: 0, last_error: None }
    }

    /// Remembers the route that worked.
    pub fn select(&mut self, route: usize)
        ensures
            final(self).preferred_route == route,
            final(self).routes == old(self).routes,
            final(self).base_url == old(self).base_url,
            final(self).model == old(self).model,
            final(self).credential == old(self).credential,
            final(self).auth == old(self).auth,
    {
        self.preferred_route = route;
    }
}

/// What a transport is made of.
pub open spec fn is_transport_for(
    t: HttpTransport,
    m: ProtocolManifest,
    model: Seq<char>,
    base_url: Option<Seq<char>>,
    credential: Option<Seq<char>>,
    env: Environment,
) -> bool {
    &&& t.well_formed()
    &&& text::texts(t.routes@) == route_labels(
        proxies(credentials::variable(env.vars@, "AI_PROXY_URL"@)),
    )
    &&& t.preferred_route == 0
    &&& t.base_url@ == text_or(base_url, m.endpoint.base_url@)
    &&& t.model@ == model
    &&& t.credential@ == credentials::resolved(
        credentials::manifest_envs(m),
        credentials::conventional_names(credentials::provider_name(m)),
        credentials::provider_name(m),
        credential,
        env.vars@,
        text::opt_text(env.keyring_secret),
    )
    &&& manifest::opt_auth(t.auth) == manifest::opt_auth(credentials::active_auth(m))
}

/// One request on its way over the routes.
#[derive(Debug)]
pub struct RouteRun {
    order: Vec<usize>,
    at: usize,
    last_error: Option<String>,
}

/// What a run is.
pub struct RunView {
    pub order: Seq<usize>,
    pub at: int,
    pub last_error: Option<Seq<char>>,
}

impl View for RouteRun {
    type V = RunView;

    closed spec fn view(&self) -> RunView {
        RunView {
            order: self.order@,
            at: self.at as int,
            last_error: text::opt_text(self.last_error),
        }
    }
}

/// What came of trying a route.
#[derive(Debug)]
pub enum RouteOutcome {
    /// A response with this status.
    Response(u16),
    /// No response, and why.
    Failed(String),
}

/// What to do next.
#[derive(Debug)]
pub enum RouteDecision {
    /// Take the response; this route worked.
    Accept(usize),
    /// Try the next route.
    Next,
}

/// What is said when no route is left.
pub open spec fn exhausted(last_error: Option<Seq<char>>) -> error::TransportErrorView {
    match last_error {
        Some(e) => error::TransportErrorView::Http(e),
        None => error::TransportErrorView::Other(
            "all HTTP routes exhausted with retryable status codes"@,
        ),
    }
}

impl RouteRun {
    /// The route to try now.
    pub fn current(&self) -> (r: Option<usize>)
        ensures
            r == (if 0 <= self@.at < self@.order.len() {
                Some(self@.order[self@.at])
            } else {
                None
            }),
    {
        if self.at < self.order.len() {
            Some(self.order[self.at])
        } else {
            None
        }
    }

    /// Takes in what came of trying the current route. A response is taken
    /// unless there are other routes and its status speaks for trying one.
    pub fn report(&mut self, outcome: RouteOutcome) -> (r: RouteDecision)
        requires
            0 <= old(self)@.at < old(self)@.order.len(),
        ensures
            ({
                let before = old(self)@;
                match outcome {
                    RouteOutcome::Response(status) => if before.order.len() > 1 && retryable(
                        status,
                    ) {
                        r == RouteDecision::Next && final(self)@ == (RunView {
                            at: before.at + 1,
                            ..before
                        })
                    } else {
                        r == RouteDecision::Accept(before.order[before.at]) && final(self)@
                            == before
                    },
                    RouteOutcome::Failed(e) => r == RouteDecision::Next && final(self)@
                        == (RunView { at: before.at + 1, last_error: Some(e@), ..before }),
                }
            }),
    {
        let routes: usize = self.order.len();
        match outcome {
            RouteOutcome::Response(status) => {
                if routes > 1 && should_try_alternate_route(status) {
                    self.at = self.at + 1;
                    RouteDecision::Next
                } else {
                    RouteDecision::Accept(self.order[self.at])
                }
            },
            RouteOutcome::Failed(e) => {
                self.last_error = Some(e);
                self.at = self.at + 1;
                RouteDecision::Next
            },
        }
    }

    /// What is said when no route is left.
    pub fn error(&self) -> (r: TransportError)
        ensures
            r@ == exhausted(self@.last_error),
    {
        match &self.last_error {
            Some(e) => TransportError::Http(e.clone()),
            None => TransportError::Other(
                "all HTTP routes exhausted with retryable status codes".to_string(),
            ),
        }
    }
}

proof fn reveal_auth_types()
    ensures
        "query_param"@.len() == 11,
        "api_key"@.len() == 7,
        "custom_header"@.len() == 13,
        "header"@.len() == 6,
        "bearer"@.len() == 6,
        "header"@ != "bearer"@,
        "X-API-Key"@.len() == 9,
        "Authorization"@.len() == 13,
{
    reveal_strlit("query_param");
    reveal_strlit("api_key");
    reveal_strlit("custom_header");
    reveal_strlit("header");
    reveal_strlit("bearer");
    reveal_strlit("X-API-Key");
    reveal_strlit("Authorization");
    assert("header"@[0] != "bearer"@[0]);
}

/// Without a secret nothing is attached.
pub proof fn nothing_is_attached_without_a_secret(auth: Option<manifest::AuthView>)
    ensures
        attachment(auth, None) is Nothing,
{
}

/// Without an auth block the secret goes as a bearer token.
pub proof fn secrets_go_as_bearer_tokens(secret: Seq<char>)
    ensures
        attachment(None, Some(secret)) == (AttachmentView::Header {
            name: "Authorization"@,
            value: "Bearer "@ + secret,
        }),
{
}

/// An auth block decides where the secret goes: into the query, into a header
/// as it is, or into the authorization header after a prefix.
pub proof fn auth_block_places_the_secret(a: AuthConfig, secret: Seq<char>)
    ensures
        ({
            let r = attachment(Some(a@), Some(secret));
            &&& a.auth_type@ == "query_param"@ ==> r == (AttachmentView::Query {
                name: match a.param_name {
                    Some(n) => n@,
                    None => "api_key"@,
                },
                value: secret,
            })
            &&& a.auth_type@ == "api_key"@ || a.auth_type@ == "custom_header"@ || a.auth_type@
                == "header"@ ==> r == (AttachmentView::Header {
                name: match a.header_name {
                    Some(n) => n@,
                    None => "X-API-Key"@,
                },
                value: secret,
            })
            &&& a.auth_type@ == "bearer"@ || !known_auth_type(a.auth_type@) ==> {
                &&& r matches AttachmentView::Header { name, value } && name == (match a.header_name {
                    Some(n) => n@,
                    None => "Authorization"@,
                }) && value == (match a.prefix {
                    Some(p) => if text::trimmed(p@).len() == 0 {
                        secret
                    } else {
                        text::trimmed(p@) + " "@ + secret
                    },
                    None => "Bearer"@ + " "@ + secret,
                })
            }
        }),
{
    reveal_auth_types();
    reveal_strlit("Bearer");
    let b = "Bearer"@;
    text::trimming_takes_white_space_alone(b, 0, b.len() as int);
    assert(b.subrange(0, b.len() as int) =~= b);
}

/// The auth types that are known by name.
pub proof fn five_auth_types_are_known(t: Seq<char>)
    ensures
        known_auth_type(t) <==> t == "query_param"@ || t == "api_key"@ || t == "custom_header"@ || t
            == "header"@ || t == "bearer"@,
{
}

/// The direct route comes first, then the proxy that is named, where one is.
pub proof fn proxy_follows_the_direct_route(url: Option<Seq<char>>)
    ensures
        ({
            let labels = route_labels(proxies(url));
            &&& labels[0] == "direct"@
            &&& (url matches Some(u) && text::trimmed(u).len() > 0) ==> labels.len() == 2 && labels[1]
                == "proxy:"@ + text::trimmed(url->0)
            &&& !(url matches Some(u) && text::trimmed(u).len() > 0) ==> labels.len() == 1
        }),
{
}

/// The route that worked last is tried first, and the others after it in turn.
pub proof fn preferred_route_is_tried_first(len: nat, preferred: usize, i: int)
    requires
        0 < len <= usize::MAX,
        preferred < len,
        0 <= i < len - 1,
    ensures
        route_order(len, preferred).len() == len,
        route_order(len, preferred)[0] == preferred,
        route_order(len, preferred)[i + 1] == (if route_order(len, preferred)[i] == len - 1 {
            0
        } else {
            route_order(len, preferred)[i] + 1
        }),
{
    let n = len as int;
    let s = preferred + i;
    assert(preferred as int % n == preferred) by (nonlinear_arith)
        requires
            0 <= preferred < n,
    ;
    if s < n {
        assert(s % n == s) by (nonlinear_arith)
            requires
                0 <= s < n,
        ;
        if s + 1 < n {
            assert((s + 1) % n == s + 1) by (nonlinear_arith)
                requires
                    0 <= s,
                    s + 1 < n,
            ;
        } else {
            assert((s + 1) % n == 0) by (nonlinear_arith)
                requires
                    s + 1 == n,
                    n > 0,
            ;
        }
    } else {
        assert(s % n == s - n) by (nonlinear_arith)
            requires
                n <= s < 2 * n,
        ;
        assert((s + 1) % n == s + 1 - n) by (nonlinear_arith)
            requires
                n <= s,
                s + 1 < 2 * n,
        ;
    }
}

/// Another route is tried where this one is barred or broken, and nowhere else.
pub proof fn barred_and_broken_routes_are_left(status: u16)
    ensures
        retryable(403) && retryable(407) && retryable(451),
        retryable(502) && retryable(503) && retryable(504),
        retryable(status) ==> 403 <= status <= 451 || 502 <= status <= 504,
        !retryable(200) && !retryable(400) && !retryable(401) && !retryable(404) && !retryable(429)
            && !retryable(500),
{
}

/// The methods go by their names; every other name is a GET.
pub proof fn methods_go_by_name(upper: Seq<char>)
    ensures
        method_named(upper) == HttpMethod::Post <==> upper == "POST"@,
        method_named(upper) == HttpMethod::Put <==> upper == "PUT"@,
        method_named(upper) == HttpMethod::Delete <==> upper == "DELETE"@,
{
    reveal_strlit("POST");
    reveal_strlit("PUT");
    reveal_strlit("DELETE");
    assert("POST"@.len() == 4 && "PUT"@.len() == 3 && "DELETE"@.len() == 6);
}

/// A streaming request says what it accepts, and its id where it has one.
pub proof fn streams_are_asked_for(accept: bool, id: Option<Seq<char>>)
    ensures
        ({
            let r = stream_headers(accept, id);
            &&& r[0] == ("accept"@, if accept {
                "text/event-stream"@
            } else {
                "application/json"@
            })
            &&& id matches Some(i) ==> r.len() == 2 && r[1] == ("x-ai-protocol-request-id"@, i)
            &&& id is None ==> r.len() == 1
        }),
{
}

/// A path follows the base URL, unless it is a URL itself.
pub proof fn paths_follow_the_base(base: Seq<char>, path: Seq<char>)
    requires
        path.len() > 0,
        path[0] == '/',
    ensures
        joined_url(base, path) == base + path,
        forall|rest: Seq<char>| #[trigger]
            joined_url(base, "https://"@ + rest) == "https://"@ + rest,
        forall|rest: Seq<char>| #[trigger] joined_url(base, "http://"@ + rest) == "http://"@ + rest,
{
    reveal_strlit("http://");
    reveal_strlit("https://");
    assert(!text::has_prefix(path, "http://"@)) by {
        if text::has_prefix(path, "http://"@) {
            assert(path.subrange(0, 7)[0] == path[0]);
        }
    }
    assert(!text::has_prefix(path, "https://"@)) by {
        if text::has_prefix(path, "https://"@) {
            assert(path.subrange(0, 8)[0] == path[0]);
        }
    }
    assert forall|rest: Seq<char>| #[trigger]
        joined_url(base, "https://"@ + rest) == "https://"@ + rest by {
        assert(("https://"@ + rest).subrange(0, 8) =~= "https://"@);
    }
    assert forall|rest: Seq<char>| #[trigger]
        joined_url(base, "http://"@ + rest) == "http://"@ + rest by {
        assert(("http://"@ + rest).subrange(0, 7) =~= "http://"@);
    }
}

/// The model's name takes the place of `{model}` in a path; a path without
/// braces stays as it is.
pub proof fn model_is_filled_in(a: Seq<char>, b: Seq<char>, model: Seq<char>)
    requires
        forall|i: int| 0 <= i < a.len() ==> #[trigger] a[i] != '{',
        forall|i: int| 0 <= i < b.len() ==> #[trigger] b[i] != '{',
    ensures
        filled_path(a + "{model}"@ + b, model) == a + model + b,
        filled_path(a, model) == a,
{
    reveal_strlit("{model}");
    text::replacing_goes_from_the_left(a, "{model}"@, b, model);
    text::nothing_to_replace_changes_nothing(b, "{model}"@, model);
    text::nothing_to_replace_changes_nothing(a, "{model}"@, model);
}

/// A transport goes to the given base URL where one is given, else to the
/// manifest's, directly at first; it carries the credential that is found for
/// the manifest, by the auth block that counts.
pub proof fn overrides_count_before_the_manifest(
    t: HttpTransport,
    m: ProtocolManifest,
    model: Seq<char>,
    base_url: Option<Seq<char>>,
    credential: Option<Seq<char>>,
    env: Environment,
)
    requires
        is_transport_for(t, m, model, base_url, credential, env),
    ensures
        base_url matches Some(u) ==> t.base_url@ == u,
        base_url is None ==> t.base_url@ == m.endpoint.base_url@,
        t.model@ == model,
        t.preferred_route == 0,
        t.routes@[0]@ == "direct"@,
        credential matches Some(c) && text::trimmed(c).len() > 0 ==> t.credential@.secret == Some(
            text::trimmed(credential->0),
        ),
        m.endpoint.auth matches Some(a) ==> (t.auth matches Some(b) && b@ == a@),
        m.endpoint.auth is None ==> (match (m.auth, t.auth) {
            (Some(a), Some(b)) => b@ == a@,
            (None, None) => true,
            _ => false,
        }),
{
    assert(text::texts(t.routes@)[0] == t.routes@[0]@);
}

/// What the last route failed with is what is said where no route is left.
pub proof fn last_failure_is_reported(e: Option<Seq<char>>)
    ensures
        e matches Some(t) ==> exhausted(e) == error::TransportErrorView::Http(t),
        e is None ==> exhausted(e) is Other,
{
}

/// A variable that writes a number gives it; others give the usual one.
pub proof fn numbers_are_read_from_variables(n: nat, max: nat, other: nat)
    ensures
        n <= max ==> number_or(Some(text::decimal(n)), max, other) == n,
        n > max ==> number_or(Some(text::decimal(n)), max, other) == other,
        number_or(None, max, other) == other,
        number_or(Some(Seq::empty()), max, other) == other,
{
    text::decimal_reads_back(n, n);
    assert(text::decimal(n)[0] != '+');
    if n <= max {
        text::decimal_reads_back(n, max);
    }
}

/// A request goes to the base URL and its path, with the model filled in.
pub proof fn requests_go_below_the_base(
    t: &HttpTransport,
    path: &str,
    r: String,
    a: Seq<char>,
    b: Seq<char>,
)
    requires
        call_ensures(HttpTransport::request_url, (t, path), r),
        a.len() > 0,
        a[0] == '/',
        forall|i: int| 0 <= i < a.len() ==> #[trigger] a[i] != '{',
        forall|i: int| 0 <= i < b.len() ==> #[trigger] b[i] != '{',
    ensures
        path@ == a ==> r@ == t.base_url@ + a,
        path@ == a + "{model}"@ + b ==> r@ == t.base_url@ + (a + t.model@ + b),
{
    model_is_filled_in(a, b, t.model@);
    paths_follow_the_base(t.base_url@, a);
    paths_follow_the_base(t.base_url@, a + t.model@ + b);
}

/// The routes are tried from the one that worked last, each once.
pub proof fn every_route_is_tried(t: &HttpTransport, r: Vec<usize>)
    requires
        t.well_formed(),
        t.routes@.len() <= usize::MAX,
        call_ensures(HttpTransport::preferred_route_indices, (t,), r),
    ensures
        r@.len() == t.routes@.len(),
        t.preferred_route < t.routes@.len() ==> r@[0] == t.preferred_route,
        forall|route: int|
            0 <= route < t.routes@.len() ==> #[trigger] is_tried(r@, route),
{
    let n = t.routes@.len() as int;
    if t.preferred_route < n {
        let p = t.preferred_route as int;
        assert(p % n == p) by (nonlinear_arith)
            requires
                0 <= p < n,
        ;
    }
    assert forall|route: int| 0 <= route < n implies #[trigger] is_tried(r@, route) by {
        route_order_is_complete(n as nat, t.preferred_route, route);
    }
}

/// The route is among those tried.
pub open spec fn is_tried(order: Seq<usize>, route: int) -> bool {
    exists|i: int| 0 <= i < order.len() && #[trigger] order[i] == route
}

/// What a transport attaches is its credential, by its auth block.
pub proof fn transports_attach_their_credential(t: &HttpTransport, r: AuthAttachment)
    requires
        call_ensures(HttpTransport::apply_auth, (t,), r),
    ensures
        t.credential@.secret is None ==> r is Nothing,
        t.credential@.secret matches Some(s) ==> (t.auth is None ==> r@ == (
        AttachmentView::Header { name: "Authorization"@, value: "Bearer "@ + s })),
        t.credential@.secret matches Some(s) ==> (t.auth matches Some(a) ==> r@ == attachment(
            Some(a@),
            Some(s),
        )),
{
}

} // verus!
