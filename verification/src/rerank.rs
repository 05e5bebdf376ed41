//! Ordering documents by how well they answer a query.

use crate::client::exchange;
use crate::client::exchange::{TextOutcome, Wording};
use crate::error;
use crate::error::Error;
use crate::json;
use crate::json::{JsonNumber, JsonValue};
use crate::protocol::manifest::ProtocolManifest;
use crate::text;
use crate::transport::ancillary;
use crate::transport::http::Environment;
use vstd::prelude::*;

verus! {

broadcast use vstd::string::group_string_axioms;

/// What may be asked for beside the ranking itself.
#[derive(Debug, Clone, Copy, PartialEq, Eq, Structural)]
pub struct RerankOptions {
    pub top_n: Option<u64>,
    pub max_tokens_per_doc: Option<u64>,
}

/// One document of a ranking.
#[derive(Debug)]
pub struct RerankResult {
    /// The document's place among those that were sent.
    pub index: usize,
    /// How well it answers the query; 0 where the provider gives no number.
    pub relevance_score: JsonNumber,
    pub document: Option<String>,
}

/// What a ranked document is.
pub struct RankView {
    pub index: usize,
    pub relevance_score: JsonNumber,
    pub document: Option<Seq<char>>,
}

impl View for RerankResult {
    type V = RankView;

    open spec fn view(&self) -> RankView {
        RankView {
            index: self.index,
            relevance_score: self.relevance_score,
            document: text::opt_text(self.document),
        }
    }
}

/// The views of ranked documents, in order.
pub open spec fn rank_views(v: Seq<RerankResult>) -> Seq<RankView> {
    Seq::new(v.len(), |i: int| v[i]@)
}

/// Ranks documents. The HTTP exchange itself is the caller's.
pub struct RerankerClient {
    pub model: String,
    pub base_url: String,
    pub endpoint_path: String,
    pub api_key: String,
}

/// The body of a request.
pub open spec fn rerank_json(
    model: Seq<char>,
    query: Seq<char>,
    documents: Seq<Seq<char>>,
    options: RerankOptions,
) -> json::Json {
    let m = Map::<Seq<char>, json::Json>::empty().insert("model"@, json::Json::Str(model)).insert(
        "query"@,
        json::Json::Str(query),
    ).insert(
        "documents"@,
        json::Json::Array(Seq::new(documents.len(), |i: int| json::Json::Str(documents[i]))),
    );
    let m = match options.top_n {
        Some(n) => m.insert("top_n"@, json::Json::Number(JsonNumber::Unsigned(n))),
        None => m,
    };
    match options.max_tokens_per_doc {
        Some(n) => json::Json::Object(
            m.insert("max_tokens_per_doc"@, json::Json::Number(JsonNumber::Unsigned(n))),
        ),
        None => json::Json::Object(m),
    }
}

/// One entry of a response.
pub open spec fn rank_of(r: json::Json) -> RankView {
    RankView {
        index: match r.field("index"@) {
            Some(v) => match v.natural() {
                Some(n) => n as usize,
                None => 0,
            },
            None => 0,
        },
        relevance_score: match r.field("relevance_score"@) {
            Some(json::Json::Number(n)) => n,
            _ => JsonNumber::Unsigned(0),
        },
        document: json::text_in(r.field("document"@)),
    }
}

/// The ranking in a response.
pub open spec fn ranking_in(v: json::Json) -> Result<Seq<RankView>, error::ErrorView> {
    match v.field("results"@) {
        Some(json::Json::Array(s)) => Ok(Seq::new(s.len(), |i: int| rank_of(s[i]))),
        _ => Err(error::ErrorView::Api("Invalid rerank response: missing results"@)),
    }
}

/// The ranking that an answer gives, or what went wrong.
pub open spec fn ranking_of(o: TextOutcome) -> Result<
    Seq<RankView>,
    error::ErrorView,
> {
    match exchange::answer_json(rerank_words(), o) {
        Ok(v) => ranking_in(v),
        Err(e) => Err(e),
    }
}

/// Rankings agree: the same documents, or the same error.
pub open spec fn rankings_agree(
    r: Result<Vec<RerankResult>, Error>,
    want: Result<Seq<RankView>, error::ErrorView>,
) -> bool {
    match (r, want) {
        (Ok(v), Ok(s)) => rank_views(v@) == s,
        (Err(e), Err(f)) => e@ == f,
        _ => false,
    }
}

fn read_rank(r: &JsonValue) -> (v: RerankResult)
    ensures
        v@ == rank_of(r@),
{
    let index: usize = match r.get("index") {
        Some(v) => match v.as_u64() {
            #[verifier::truncate]
            Some(n) => n as usize,
            None => 0,
        },
        None => 0,
    };
    let relevance_score = match r.get("relevance_score") {
        Some(JsonValue::Number(n)) => n.copy(),
        _ => JsonNumber::Unsigned(0),
    };
    RerankResult { index, relevance_score, document: json::text_of(r.get("document")) }
}

/// The ranking in a response.
pub fn read_ranking(v: &JsonValue) -> (r: Result<Vec<RerankResult>, Error>)
    ensures
        rankings_agree(r, ranking_in(v@)),
{
    let list = match v.get("results") {
        Some(x) => x.as_array(),
        None => None,
    };
    match list {
        Some(results) => {
            let ghost views = json::array_view(results@);
            let mut out: Vec<RerankResult> = Vec::new();
            let mut i: usize = 0;
            proof {
                json::lemma_array_view(results@);
            }
            while i < results.len()
                invariant
                    i <= results@.len(),
                    views.len() == results@.len(),
                    forall|k: int|
                        0 <= k < results@.len() ==> #[trigger] views[k] == results@[k]@,
                    out@.len() == i,
                    forall|k: int| 0 <= k < i ==> #[trigger] out@[k]@ == rank_of(views[k]),
                decreases results@.len() - i,
            {
                assert(views[i as int] == results@[i as int]@);
                out.push(read_rank(&results[i]));
                i += 1;
            }
            assert(rank_views(out@) =~= Seq::new(views.len(), |i: int| rank_of(views[i])));
            Ok(out)
        },
        None => Err(Error::Api("Invalid rerank response: missing results".to_string())),
    }
}

/// The words of this client.
pub open spec fn rerank_words() -> exchange::Words {
    exchange::Words {
        send: "Rerank request failed: "@,
        read: "Failed to read Rerank response: "@,
        api: "Rerank API error ("@,
        source: "rerank"@,
    }
}

fn wording() -> (r: Wording<'static>)
    ensures
        r@ == rerank_words(),
{
    Wording {
        send: "Rerank request failed: ",
        read: "Failed to read Rerank response: ",
        api: "Rerank API error (",
        source: "rerank",
    }
}

impl RerankerClient {
    /// Sets up a client.
    pub fn builder() -> (r: RerankerClientBuilder)
        ensures
            is_fresh(r),
    {
        RerankerClientBuilder::new()
    }

    /// Where a ranking is asked for, and the body of the request.
    pub fn rerank_request(
        &self,
        query: &str,
        documents: &Vec<String>,
        options: &RerankOptions,
    ) -> (r: (String, JsonValue))
        ensures
            r.0@ == exchange::url_below(self.base_url@, self.endpoint_path@),
            r.1@ == rerank_json(self.model@, query@, text::texts(documents@), *options),
    {
        let docs = exchange::string_values(documents);
        assert(json::array_view(docs@) =~= Seq::new(
            text::texts(documents@).len(),
            |i: int| json::Json::Str(text::texts(documents@)[i]),
        ));
        let mut body = JsonValue::object().with(
            "model",
            JsonValue::string(self.model.as_str()),
        ).with("query", JsonValue::string(query)).with("documents", JsonValue::Array(docs));
        if let Some(n) = options.top_n {
            body = body.with("top_n", JsonValue::number(n));
        }
        if let Some(n) = options.max_tokens_per_doc {
            body = body.with("max_tokens_per_doc", JsonValue::number(n));
        }
        (exchange::join_url(self.base_url.as_str(), self.endpoint_path.as_str()), body)
    }

    /// The ranking that an answer gives, or what went wrong.
    pub fn rerank_response(&self, outcome: TextOutcome) -> (r: Result<Vec<RerankResult>, Error>)
        ensures
            rankings_agree(r, ranking_of(outcome)),
    {
        match exchange::read_json(&wording(), outcome) {
            Ok(v) => read_ranking(&v),
            Err(e) => Err(e),
        }
    }

    /// The model.
    pub fn model(&self) -> (r: &str)
        ensures
            r@ == self.model@,
    {
        self.model.as_str()
    }
}

/// Sets up a `RerankerClient`.
pub struct RerankerClientBuilder {
    pub model: Option<String>,
    pub api_key: Option<String>,
    pub base_url: Option<String>,
    pub endpoint_path: Option<String>,
    pub timeout_secs: u64,
    pub protocol_path: Option<String>,
}

/// Nothing was set yet.
pub open spec fn is_fresh(b: RerankerClientBuilder) -> bool {
    b.model is None && b.api_key is None && b.base_url is None && b.endpoint_path is None
        && b.timeout_secs == 60 && b.protocol_path is None
}

impl RerankerClientBuilder {
    /// Nothing set yet.
    pub fn new() -> (r: Self)
        ensures
            is_fresh(r),
    {
        RerankerClientBuilder {
            model: None,
            api_key: None,
            base_url: None,
            endpoint_path: None,
            timeout_secs: 60,
            protocol_path: None,
        }
    }

    /// Sets the model.
    pub fn model(self, model: &str) -> (r: Self)
        ensures
            text::opt_text(r.model) == Some(model@),
            r == (RerankerClientBuilder { model: r.model, ..self }),
    {
        RerankerClientBuilder { model: Some(model.to_string()), ..self }
    }

    /// Sets the key.
    pub fn api_key(self, api_key: &str) -> (r: Self)
        ensures
            text::opt_text(r.api_key) == Some(api_key@),
            r == (RerankerClientBuilder { api_key: r.api_key, ..self }),
    {
        RerankerClientBuilder { api_key: Some(api_key.to_string()), ..self }
    }

    /// Sets the base URL.
    pub fn base_url(self, url: &str) -> (r: Self)
        ensures
            text::opt_text(r.base_url) == Some(url@),
            r == (RerankerClientBuilder { base_url: r.base_url, ..self }),
    {
        RerankerClientBuilder { base_url: Some(url.to_string()), ..self }
    }

    /// Sets the path below the base URL.
    pub fn endpoint_path(self, path: &str) -> (r: Self)
        ensures
            text::opt_text(r.endpoint_path) == Some(path@),
            r == (RerankerClientBuilder { endpoint_path: r.endpoint_path, ..self }),
    {
        RerankerClientBuilder { endpoint_path: Some(path.to_string()), ..self }
    }

    /// Sets where manifests are looked for.
    pub fn protocol_path(self, path: &str) -> (r: Self)
        ensures
            text::opt_text(r.protocol_path) == Some(path@),
            r == (RerankerClientBuilder { protocol_path: r.protocol_path, ..self }),
    {
        RerankerClientBuilder { protocol_path: Some(path.to_string()), ..self }
    }

    /// Takes base URL, key and path from a manifest. A path that was set stays,
    /// and a key that was set goes before those of the environment.
    pub fn from_manifest(
        self,
        manifest: &ProtocolManifest,
        model_id: &str,
        env: &Environment,
    ) -> (r: Result<Self, Error>)
        ensures
            match (
                r,
                exchange::secret_for("rerank"@, *manifest, text::opt_text(self.api_key), *env),
            ) {
                (Ok(b), Ok(secret)) => {
                    &&& text::opt_text(b.api_key) == Some(secret)
                    &&& text::opt_text(b.base_url) == Some(manifest.endpoint.base_url@)
                    &&& text::opt_text(b.endpoint_path) == Some(
                        match self.endpoint_path {
                            Some(p) => p@,
                            None => exchange::path_in(*manifest, "rerank"@, "/rerank"@),
                        },
                    )
                    &&& text::opt_text(b.model) == Some(model_id@)
                    &&& b.timeout_secs == self.timeout_secs
                    &&& b.protocol_path == self.protocol_path
                },
                (Err(e), Err(f)) => e@ == f,
                _ => false,
            },
    {
        let explicit = match &self.api_key {
            Some(k) => Some(k.as_str()),
            None => None,
        };
        let secret = match exchange::require_secret("rerank", manifest, explicit, env) {
            Ok(s) => s,
            Err(e) => {
                return Err(e);
            },
        };
        let path = match self.endpoint_path {
            Some(p) => p,
            None => exchange::path_from_manifest(manifest, "rerank", "/rerank"),
        };
        Ok(
            RerankerClientBuilder {
                model: Some(model_id.to_string()),
                api_key: Some(secret),
                base_url: Some(manifest.get_base_url().to_string()),
                endpoint_path: Some(path),
                timeout_secs: self.timeout_secs,
                protocol_path: self.protocol_path,
            },
        )
    }

    /// The client. `made` tells whether an HTTP client could be had.
    pub fn build(self, made: Result<(), String>) -> (r: Result<RerankerClient, Error>)
        ensures
            match (r, exchange::setup_error(self.model, self.api_key, self.base_url, made)) {
                (Ok(c), None) => {
                    &&& self.model == Some(c.model)
                    &&& self.api_key == Some(c.api_key)
                    &&& self.base_url == Some(c.base_url)
                    &&& c.endpoint_path@ == ancillary::slashed(
                        match self.endpoint_path {
                            Some(p) => p@,
                            None => "/rerank"@,
                        },
                    )
                },
                (Err(e), Some(f)) => e@ == f,
                _ => false,
            },
    {
        match exchange::check_setup(self.model, self.api_key, self.base_url, made) {
            Ok((model, api_key, base_url)) => {
                let path = match self.endpoint_path {
                    Some(p) => p,
                    None => "/rerank".to_string(),
                };
                Ok(
                    RerankerClient {
                        model,
                        base_url,
                        endpoint_path: ancillary::normalize_endpoint_path(path),
                        api_key,
                    },
                )
            },
            Err(e) => Err(e),
        }
    }
}

impl Default for RerankerClientBuilder {
    fn default() -> (r: Self)
        ensures
            is_fresh(r),
    {
        RerankerClientBuilder::new()
    }
}

proof fn reveal_request_keys()
    ensures
        "model"@.len() == 5,
        "query"@.len() == 5,
        "model"@ != "query"@,
        "documents"@.len() == 9,
        "top_n"@.len() == 5,
        "top_n"@ != "model"@,
        "top_n"@ != "query"@,
        "max_tokens_per_doc"@.len() == 18,
{
    reveal_strlit("model");
    reveal_strlit("query");
    reveal_strlit("documents");
    reveal_strlit("top_n");
    reveal_strlit("max_tokens_per_doc");
    assert("model"@[0] != "query"@[0]);
    assert("top_n"@[0] != "model"@[0]);
    assert("top_n"@[0] != "query"@[0]);
}

/// A request holds the model, the query and every document, in order; limits
/// are said only where they are set.
pub proof fn requests_hold_every_document(
    model: Seq<char>,
    query: Seq<char>,
    documents: Seq<String>,
    options: RerankOptions,
    i: int,
)
    requires
        0 <= i < documents.len(),
    ensures
        ({
            let r = rerank_json(model, query, text::texts(documents), options);
            &&& r.field("model"@) == Some(json::Json::Str(model))
            &&& r.field("query"@) == Some(json::Json::Str(query))
            &&& r.field("documents"@) matches Some(json::Json::Array(s)) && s.len()
                == documents.len() && s[i] == json::Json::Str(documents[i]@)
            &&& r.field("top_n"@) == (match options.top_n {
                Some(n) => Some(json::Json::Number(JsonNumber::Unsigned(n))),
                None => None,
            })
            &&& r.field("max_tokens_per_doc"@) == (match options.max_tokens_per_doc {
                Some(n) => Some(json::Json::Number(JsonNumber::Unsigned(n))),
                None => None,
            })
        }),
{
    reveal_request_keys();
}

/// The ranking keeps the provider's order, and each entry its document's place,
/// score and text.
pub proof fn rankings_are_read_in_order(v: json::Json, results: Seq<json::Json>, k: int)
    requires
        v.field("results"@) == Some(json::Json::Array(results)),
        0 <= k < results.len(),
    ensures
        match ranking_in(v) {
            Ok(r) => {
                &&& r.len() == results.len()
                &&& match results[k].field("index"@) {
                    Some(json::Json::Number(JsonNumber::Unsigned(n))) => n <= usize::MAX
                        ==> r[k].index == n,
                    _ => r[k].index == 0,
                }
                &&& match results[k].field("relevance_score"@) {
                    Some(json::Json::Number(n)) => r[k].relevance_score == n,
                    _ => r[k].relevance_score == JsonNumber::Unsigned(0),
                }
                &&& r[k].document == (match results[k].field("document"@) {
                    Some(json::Json::Str(t)) => Some(t),
                    _ => None,
                })
            },
            Err(_) => false,
        },
{
}

/// A response without a list of results is refused.
pub proof fn missing_results_are_refused(v: json::Json)
    ensures
        ranking_in(v) is Ok <==> (v.field("results"@) matches Some(r) && (r is Array)),
{
}

/// The ranking of a good answer is that of its JSON; other answers are errors.
pub proof fn good_answers_give_rankings(o: TextOutcome)
    ensures
        o matches TextOutcome::Answered { success, status, body } ==> {
            &&& success ==> match json::json_parsed(vstd::utf8::encode_utf8(body@)) {
                Ok(v) => ranking_of(o) == ranking_in(v),
                Err(_) => ranking_of(o) is Err,
            }
            &&& !success ==> ranking_of(o) is Err
        },
        !(o is Answered) ==> ranking_of(o) is Err,
{
}

/// A client is set up from the manifest: its base URL, the secret that is found
/// for it, and its path for ranking, unless another was set.
pub proof fn manifest_sets_up_the_client(
    b: RerankerClientBuilder,
    manifest: &ProtocolManifest,
    model_id: &str,
    env: &Environment,
    r: Result<RerankerClientBuilder, Error>,
)
    requires
        call_ensures(RerankerClientBuilder::from_manifest, (b, manifest, model_id, env), r),
    ensures
        r is Ok <==> exchange::credential_for(
            *manifest,
            text::opt_text(b.api_key),
            *env,
        ).secret is Some,
        r matches Ok(c) ==> {
            &&& text::opt_text(c.api_key) == exchange::credential_for(
                *manifest,
                text::opt_text(b.api_key),
                *env,
            ).secret
            &&& text::opt_text(c.base_url) == Some(manifest.endpoint.base_url@)
            &&& text::opt_text(c.model) == Some(model_id@)
            &&& b.endpoint_path matches Some(p) ==> text::opt_text(c.endpoint_path) == Some(p@)
            &&& b.endpoint_path is None ==> text::opt_text(c.endpoint_path) == Some(
                exchange::path_in(*manifest, "rerank"@, "/rerank"@),
            )
        },
{
}

/// A client has what was set, its path with a slash in front, and is refused
/// where anything is missing.
pub proof fn clients_have_what_was_set(
    b: RerankerClientBuilder,
    made: Result<(), String>,
    r: Result<RerankerClient, Error>,
)
    requires
        call_ensures(RerankerClientBuilder::build, (b, made), r),
    ensures
        r is Ok <==> b.model is Some && b.api_key is Some && b.base_url is Some && made is Ok,
        r matches Ok(c) ==> {
            &&& b.model == Some(c.model)
            &&& b.api_key == Some(c.api_key)
            &&& b.base_url == Some(c.base_url)
            &&& b.endpoint_path matches Some(p) ==> c.endpoint_path@ == ancillary::slashed(p@)
            &&& b.endpoint_path is None ==> c.endpoint_path@ == "/rerank"@
        },
{
    exchange::setup_needs_everything(b.model, b.api_key, b.base_url, made);
    reveal_strlit("/rerank");
    ancillary::paths_begin_with_a_slash("/rerank"@);
}

/// A ranking is asked for below the base URL, for the client's own model.
pub proof fn rankings_are_asked_for_below_the_base(
    c: &RerankerClient,
    query: &str,
    documents: &Vec<String>,
    options: &RerankOptions,
    r: (String, JsonValue),
)
    requires
        call_ensures(RerankerClient::rerank_request, (c, query, documents, options), r),
        c.base_url@.len() > 0,
        c.base_url@.last() != '/',
        c.endpoint_path@.len() > 0,
        c.endpoint_path@[0] == '/',
        documents@.len() > 0,
    ensures
        r.0@ == c.base_url@ + c.endpoint_path@,
        r.1@.field("model"@) == Some(json::Json::Str(c.model@)),
        r.1@.field("query"@) == Some(json::Json::Str(query@)),
        r.1@.field("documents"@) matches Some(json::Json::Array(s)) && s.len() == documents@.len(),
{
    exchange::one_slash_stands_between(c.base_url@, c.endpoint_path@);
    requests_hold_every_document(c.model@, query@, documents@, *options, 0);
}

} // verus!
