//! Turning texts into vectors.

use crate::client::exchange;
use crate::client::exchange::{TextOutcome, Wording};
use crate::drivers;
use crate::error;
use crate::error::Error;
use crate::json;
use crate::json::{JsonNumber, JsonValue};
use crate::protocol::manifest::ProtocolManifest;
use crate::text;
use crate::transport::http::Environment;
use vstd::prelude::*;

verus! {

broadcast use vstd::string::group_string_axioms;

/// The vector of one text.
#[derive(Debug)]
pub struct Embedding {
    /// The text's place among those that were sent.
    pub index: usize,
    pub vector: Vec<JsonNumber>,
}

/// What an embedding is.
pub struct EmbeddingView {
    pub index: usize,
    pub vector: Seq<JsonNumber>,
}

impl View for Embedding {
    type V = EmbeddingView;

    open spec fn view(&self) -> EmbeddingView {
        EmbeddingView { index: self.index, vector: self.vector@ }
    }
}

/// The views of embeddings, in order.
pub open spec fn embedding_views(v: Seq<Embedding>) -> Seq<EmbeddingView> {
    Seq::new(v.len(), |i: int| v[i]@)
}

/// Tokens that embedding took.
#[derive(Debug, Clone, Copy, PartialEq, Eq, Structural)]
pub struct EmbeddingUsage {
    pub prompt_tokens: u64,
    pub total_tokens: u64,
}

/// No tokens.
pub open spec fn no_usage() -> EmbeddingUsage {
    EmbeddingUsage { prompt_tokens: 0, total_tokens: 0 }
}

/// The tokens of both, each count stopping at the largest `u64`.
pub open spec fn usage_sum(a: EmbeddingUsage, b: EmbeddingUsage) -> EmbeddingUsage {
    EmbeddingUsage {
        prompt_tokens: drivers::capped_sum(a.prompt_tokens, b.prompt_tokens),
        total_tokens: drivers::capped_sum(a.total_tokens, b.total_tokens),
    }
}

impl Default for EmbeddingUsage {
    fn default() -> (r: Self)
        ensures
            r == no_usage(),
    {
        EmbeddingUsage { prompt_tokens: 0, total_tokens: 0 }
    }
}

/// The vectors of some texts.
#[derive(Debug)]
pub struct EmbeddingResponse {
    pub embeddings: Vec<Embedding>,
    pub model: String,
    pub usage: EmbeddingUsage,
}

/// What a response is.
pub struct EmbeddedView {
    pub embeddings: Seq<EmbeddingView>,
    pub model: Seq<char>,
    pub usage: EmbeddingUsage,
}

impl View for EmbeddingResponse {
    type V = EmbeddedView;

    open spec fn view(&self) -> EmbeddedView {
        EmbeddedView {
            embeddings: embedding_views(self.embeddings@),
            model: self.model@,
            usage: self.usage,
        }
    }
}

/// The views of responses, in order.
pub open spec fn response_views(v: Seq<EmbeddingResponse>) -> Seq<EmbeddedView> {
    Seq::new(v.len(), |i: int| v[i]@)
}

/// The numbers among the first `n` items of a list.
pub open spec fn numbers_in(list: Seq<json::Json>, n: int) -> Seq<JsonNumber>
    decreases n,
{
    if n <= 0 {
        Seq::empty()
    } else {
        match list[n - 1] {
            json::Json::Number(x) => numbers_in(list, n - 1).push(x),
            _ => numbers_in(list, n - 1),
        }
    }
}

/// One entry of a response. An entry without an index stands at its own place.
pub open spec fn embedding_of(v: json::Json, place: nat) -> EmbeddingView {
    EmbeddingView {
        index: match v.field("index"@) {
            Some(x) => match x.natural() {
                Some(n) => n as usize,
                None => place as usize,
            },
            None => place as usize,
        },
        vector: match v.field("embedding"@) {
            Some(json::Json::Array(s)) => numbers_in(s, s.len() as int),
            _ => Seq::empty(),
        },
    }
}

/// The tokens that a response states.
pub open spec fn usage_in(v: json::Json) -> EmbeddingUsage {
    match v.field("usage"@) {
        Some(u) => EmbeddingUsage {
            prompt_tokens: drivers::count_at(u, "prompt_tokens"@),
            total_tokens: drivers::count_at(u, "total_tokens"@),
        },
        None => no_usage(),
    }
}

/// The vectors in a response of the OpenAI shape.
pub open spec fn embedded_in(v: json::Json) -> Result<EmbeddedView, error::ErrorView> {
    match v.field("data"@) {
        Some(json::Json::Array(s)) => Ok(
            EmbeddedView {
                embeddings: Seq::new(s.len(), |i: int| embedding_of(s[i], i as nat)),
                model: match json::text_in(v.field("model"@)) {
                    Some(t) => t,
                    None => ""@,
                },
                usage: usage_in(v),
            },
        ),
        _ => Err(error::ErrorView::Api("Invalid embedding response: missing data"@)),
    }
}

fn read_embedding(v: &JsonValue, place: usize) -> (r: Embedding)
    ensures
        r@ == embedding_of(v@, place as nat),
{
    let index: usize = match v.get("index") {
        Some(x) => match x.as_u64() {
            #[verifier::truncate]
            Some(n) => n as usize,
            None => place,
        },
        None => place,
    };
    let mut vector: Vec<JsonNumber> = Vec::new();
    let list = match v.get("embedding") {
        Some(x) => x.as_array(),
        None => None,
    };
    if let Some(items) = list {
        let ghost views = json::array_view(items@);
        proof {
            json::lemma_array_view(items@);
        }
        let mut i: usize = 0;
        while i < items.len()
            invariant
                i <= items@.len(),
                views.len() == items@.len(),
                forall|k: int| 0 <= k < items@.len() ==> #[trigger] views[k] == items@[k]@,
                vector@ == numbers_in(views, i as int),
            decreases items@.len() - i,
        {
            assert(views[i as int] == items@[i as int]@);
            if let JsonValue::Number(n) = &items[i] {
                vector.push(n.copy());
            }
            i += 1;
        }
    }
    Embedding { index, vector }
}

impl EmbeddingResponse {
    /// A response of its parts.
    pub fn new(embeddings: Vec<Embedding>, model: String, usage: EmbeddingUsage) -> (r: Self)
        ensures
            r.embeddings == embeddings,
            r.model == model,
            r.usage == usage,
    {
        EmbeddingResponse { embeddings, model, usage }
    }

    /// The vectors in a response of the OpenAI shape.
    pub fn from_openai_format(v: &JsonValue) -> (r: Result<Self, Error>)
        ensures
            error::agrees(r, embedded_in(v@)),
    {
        let list = match v.get("data") {
            Some(x) => x.as_array(),
            None => None,
        };
        let items = match list {
            Some(items) => items,
            None => {
                return Err(Error::Api("Invalid embedding response: missing data".to_string()));
            },
        };
        let ghost views = json::array_view(items@);
        proof {
            json::lemma_array_view(items@);
        }
        let mut embeddings: Vec<Embedding> = Vec::new();
        let mut i: usize = 0;
        while i < items.len()
            invariant
                i <= items@.len(),
                views.len() == items@.len(),
                forall|k: int| 0 <= k < items@.len() ==> #[trigger] views[k] == items@[k]@,
                embeddings@.len() == i,
                forall|k: int|
                    0 <= k < i ==> #[trigger] embeddings@[k]@ == embedding_of(views[k], k as nat),
            decreases items@.len() - i,
        {
            assert(views[i as int] == items@[i as int]@);
            embeddings.push(read_embedding(&items[i], i));
            i += 1;
        }
        assert(embedding_views(embeddings@) =~= Seq::new(
            views.len(),
            |i: int| embedding_of(views[i], i as nat),
        ));
        let model = match json::text_of(v.get("model")) {
            Some(t) => t,
            None => "".to_string(),
        };
        let usage = match v.get("usage") {
            Some(u) => EmbeddingUsage {
                prompt_tokens: drivers::read_count(u, "prompt_tokens"),
                total_tokens: drivers::read_count(u, "total_tokens"),
            },
            None => EmbeddingUsage::default(),
        };
        Ok(EmbeddingResponse { embeddings, model, usage })
    }
}

/// Turns texts into vectors. The HTTP exchange itself is the caller's.
pub struct EmbeddingClient {
    pub model: String,
    pub base_url: String,
    pub endpoint_path: String,
    pub api_key: String,
    pub dimensions: Option<usize>,
    pub max_batch_size: usize,
}

/// The body of a request for the given input.
pub open spec fn embedding_json(
    model: Seq<char>,
    input: json::Json,
    dimensions: Option<usize>,
) -> json::Json {
    let m = Map::<Seq<char>, json::Json>::empty().insert("model"@, json::Json::Str(model)).insert(
        "input"@,
        input,
    );
    match dimensions {
        Some(d) => json::Json::Object(
            m.insert("dimensions"@, json::Json::Number(JsonNumber::Unsigned(d as u64))),
        ),
        None => json::Json::Object(m),
    }
}

/// The texts as a JSON list.
pub open spec fn texts_json(texts: Seq<Seq<char>>) -> json::Json {
    json::Json::Array(Seq::new(texts.len(), |i: int| json::Json::Str(texts[i])))
}

/// The smaller of two numbers.
pub open spec fn smaller(a: int, b: int) -> int {
    if a < b {
        a
    } else {
        b
    }
}

/// How many of `n` are left from the `at`th on.
pub open spec fn left_from(n: nat, at: int) -> nat {
    if at < n {
        (n - at) as nat
    } else {
        0
    }
}

/// The texts from the `at`th on in pieces of `max`, the last one maybe shorter.
pub open spec fn pieces_from(texts: Seq<Seq<char>>, max: int, at: int) -> Seq<Seq<Seq<char>>>
    decreases left_from(texts.len(), at),
{
    if max > 0 && 0 <= at < texts.len() {
        seq![texts.subrange(at, smaller(at + max, texts.len() as int))] + pieces_from(
            texts,
            max,
            at + max,
        )
    } else {
        Seq::empty()
    }
}

/// The texts in batches: one, where they all fit, even where there are none.
pub open spec fn batches(texts: Seq<Seq<char>>, max: int) -> Seq<Seq<Seq<char>>> {
    if texts.len() <= max {
        seq![texts]
    } else {
        pieces_from(texts, max, 0)
    }
}

/// The embeddings with their places moved on, stopping at the largest `usize`.
pub open spec fn moved_on(embeddings: Seq<EmbeddingView>, by: int) -> Seq<EmbeddingView> {
    Seq::new(
        embeddings.len(),
        |i: int|
            EmbeddingView {
                index: smaller(embeddings[i].index + by, usize::MAX as int) as usize,
                vector: embeddings[i].vector,
            },
    )
}

/// The embeddings of the responses from the `k`th on, the first of which
/// belongs to the texts from the `at`th on, in pieces of `max`.
pub open spec fn merged_from(
    responses: Seq<EmbeddedView>,
    max: int,
    k: int,
    at: int,
) -> Seq<EmbeddingView>
    decreases responses.len() - k,
{
    if 0 <= k < responses.len() {
        moved_on(responses[k].embeddings, at) + merged_from(responses, max, k + 1, at + max)
    } else {
        Seq::empty()
    }
}

/// The tokens of the first `n` responses together.
pub open spec fn usage_upto(responses: Seq<EmbeddedView>, n: int) -> EmbeddingUsage
    decreases n,
{
    if n <= 0 {
        no_usage()
    } else {
        usage_sum(usage_upto(responses, n - 1), responses[n - 1].usage)
    }
}

/// The responses to batches as one.
pub open spec fn merged(responses: Seq<EmbeddedView>, max: int, model: Seq<char>) -> EmbeddedView {
    EmbeddedView {
        embeddings: merged_from(responses, max, 0, 0),
        model,
        usage: usage_upto(responses, responses.len() as int),
    }
}

/// The words of this client.
pub open spec fn embedding_words() -> exchange::Words {
    exchange::Words {
        send: "Embedding request failed: "@,
        read: "Failed to read response: "@,
        api: "Embedding API error ("@,
        source: "embeddings"@,
    }
}

/// The vectors that an answer gives, or what went wrong.
pub open spec fn embedded_of(o: TextOutcome) -> Result<EmbeddedView, error::ErrorView> {
    match exchange::answer_json(embedding_words(), o) {
        Ok(v) => embedded_in(v),
        Err(e) => Err(e),
    }
}

fn copy_texts_between(texts: &Vec<String>, from: usize, to: usize) -> (r: Vec<String>)
    requires
        from <= to <= texts@.len(),
    ensures
        text::texts(r@) == text::texts(texts@).subrange(from as int, to as int),
{
    let mut out: Vec<String> = Vec::new();
    let mut i: usize = from;
    while i < to
        invariant
            from <= i <= to <= texts@.len(),
            out@.len() == i - from,
            forall|k: int| 0 <= k < out@.len() ==> #[trigger] out@[k]@ == texts@[from + k]@,
        decreases to - i,
    {
        out.push(texts[i].clone());
        i += 1;
    }
    assert(text::texts(out@) =~= text::texts(texts@).subrange(from as int, to as int));
    out
}

/// The texts of batches.
pub open spec fn batch_texts(v: Seq<Vec<String>>) -> Seq<Seq<Seq<char>>> {
    Seq::new(v.len(), |i: int| text::texts(v[i]@))
}

impl EmbeddingClient {
    /// Sets up a client.
    pub fn builder() -> (r: EmbeddingClientBuilder)
        ensures
            is_fresh(r),
    {
        EmbeddingClientBuilder::new()
    }

    /// Where vectors are asked for.
    pub fn endpoint(&self) -> (r: String)
        ensures
            r@ == exchange::url_below(self.base_url@, self.endpoint_path@),
    {
        exchange::join_url(self.base_url.as_str(), self.endpoint_path.as_str())
    }

    fn body_for(&self, input: JsonValue) -> (r: JsonValue)
        ensures
            r@ == embedding_json(self.model@, input@, self.dimensions),
    {
        let body = JsonValue::object().with("model", JsonValue::string(self.model.as_str())).with(
            "input",
            input,
        );
        match self.dimensions {
            Some(d) => body.with("dimensions", JsonValue::number(d as u64)),
            None => body,
        }
    }

    /// The body of a request for the vector of one text.
    pub fn embed_request(&self, text: &str) -> (r: JsonValue)
        ensures
            r@ == embedding_json(self.model@, json::Json::Str(text@), self.dimensions),
    {
        self.body_for(JsonValue::string(text))
    }

    /// The body of a request for the vectors of a batch.
    pub fn batch_request(&self, texts: &Vec<String>) -> (r: JsonValue)
        ensures
            r@ == embedding_json(
                self.model@,
                texts_json(text::texts(texts@)),
                self.dimensions,
            ),
    {
        let list = exchange::string_values(texts);
        assert(json::array_view(list@) =~= Seq::new(
            text::texts(texts@).len(),
            |i: int| json::Json::Str(text::texts(texts@)[i]),
        ));
        self.body_for(JsonValue::Array(list))
    }

    /// The texts in batches, each to be asked for in its turn.
    pub fn plan_batches(&self, texts: &Vec<String>) -> (r: Vec<Vec<String>>)
        requires
            self.max_batch_size > 0,
        ensures
            batch_texts(r@) == batches(text::texts(texts@), self.max_batch_size as int),
    {
        let ghost all = text::texts(texts@);
        let ghost max = self.max_batch_size as int;
        let mut out: Vec<Vec<String>> = Vec::new();
        if texts.len() <= self.max_batch_size {
            out.push(text::copy_texts(texts));
            assert(batch_texts(out@) =~= seq![all]);
            return out;
        }
        let n: usize = texts.len();
        let mut at: usize = 0;
        assert(batch_texts(out@) + pieces_from(all, max, 0) =~= pieces_from(all, max, 0));
        while at < n
            invariant
                at <= n,
                n == texts@.len(),
                all == text::texts(texts@),
                max == self.max_batch_size,
                max > 0,
                batch_texts(out@) + pieces_from(all, max, at as int) == pieces_from(all, max, 0),
            decreases n - at,
        {
            let to: usize = if n - at <= self.max_batch_size {
                n
            } else {
                at + self.max_batch_size
            };
            let piece = copy_texts_between(texts, at, to);
            let ghost before = batch_texts(out@);
            let ghost p = text::texts(piece@);
            out.push(piece);
            proof {
                assert(batch_texts(out@) =~= before.push(p));
                assert(pieces_from(all, max, at as int) =~= seq![p] + pieces_from(
                    all,
                    max,
                    at + max,
                ));
                assert(pieces_from(all, max, to as int) =~= pieces_from(all, max, at + max));
                assert(batch_texts(out@) + pieces_from(all, max, to as int) =~= before
                    + pieces_from(all, max, at as int));
            }
            at = to;
        }
        assert(pieces_from(all, max, n as int) =~= Seq::empty());
        assert(batch_texts(out@) =~= pieces_from(all, max, 0));
        out
    }

    /// The vectors that an answer gives, or what went wrong.
    pub fn embed_response(&self, outcome: TextOutcome) -> (r: Result<EmbeddingResponse, Error>)
        ensures
            error::agrees(r, embedded_of(outcome)),
    {
        let w = Wording {
            send: "Embedding request failed: ",
            read: "Failed to read response: ",
            api: "Embedding API error (",
            source: "embeddings",
        };
        assert(w@ == embedding_words());
        match exchange::read_json(&w, outcome) {
            Ok(v) => EmbeddingResponse::from_openai_format(&v),
            Err(e) => Err(e),
        }
    }

    /// The responses to the batches of `count` texts as one. The response to a
    /// single batch stays as it is.
    pub fn merge_batches(&self, count: usize, responses: Vec<EmbeddingResponse>) -> (r:
        EmbeddingResponse)
        requires
            count <= self.max_batch_size ==> responses@.len() == 1,
        ensures
            count <= self.max_batch_size ==> r == responses@[0],
            count > self.max_batch_size ==> r@ == merged(
                response_views(responses@),
                self.max_batch_size as int,
                self.model@,
            ),
    {
        let ghost views = response_views(responses@);
        let ghost max = self.max_batch_size as int;
        let mut responses = responses;
        if count <= self.max_batch_size {
            if let Some(only) = responses.pop() {
                return only;
            }
        }
        let n: usize = responses.len();
        let mut all: Vec<Embedding> = Vec::new();
        let mut usage = EmbeddingUsage::default();
        let mut offset: usize = 0;
        let ghost mut at: int = 0;
        let mut k: usize = 0;
        assert(embedding_views(all@) + merged_from(views, max, 0, 0) =~= merged_from(
            views,
            max,
            0,
            0,
        ));
        while k < n
            invariant
                k <= n,
                n == responses@.len(),
                views == response_views(responses@),
                max == self.max_batch_size,
                at >= 0,
                offset == smaller(at, usize::MAX as int),
                embedding_views(all@) + merged_from(views, max, k as int, at) == merged_from(
                    views,
                    max,
                    0,
                    0,
                ),
                usage == usage_upto(views, k as int),
            decreases n - k,
        {
            let response = &responses[k];
            assert(views[k as int] == response@);
            let ghost before = embedding_views(all@);
            move_on(&response.embeddings, offset, &mut all);
            proof {
                let moved = moved_on(views[k as int].embeddings, at);
                assert(moved_on(views[k as int].embeddings, offset as int) =~= moved);
                assert(embedding_views(all@) =~= before + moved);
                assert(before + moved + merged_from(views, max, k + 1, at + max) =~= before
                    + merged_from(views, max, k as int, at));
                at = at + max;
            }
            usage = EmbeddingUsage {
                prompt_tokens: drivers::add_counts(
                    usage.prompt_tokens,
                    response.usage.prompt_tokens,
                ),
                total_tokens: drivers::add_counts(usage.total_tokens, response.usage.total_tokens),
            };
            offset = if offset > usize::MAX - self.max_batch_size {
                usize::MAX
            } else {
                offset + self.max_batch_size
            };
            k += 1;
        }
        assert(embedding_views(all@) =~= merged_from(views, max, 0, 0));
        EmbeddingResponse::new(all, self.model.clone(), usage)
    }

    /// The model.
    pub fn model(&self) -> (r: &str)
        ensures
            r@ == self.model@,
    {
        self.model.as_str()
    }
}

fn copy_numbers(v: &Vec<JsonNumber>) -> (r: Vec<JsonNumber>)
    ensures
        r@ == v@,
{
    let mut out: Vec<JsonNumber> = Vec::new();
    let mut i: usize = 0;
    while i < v.len()
        invariant
            i <= v@.len(),
            out@ == v@.take(i as int),
        decreases v@.len() - i,
    {
        out.push(v[i].copy());
        i += 1;
        assert(out@ =~= v@.take(i as int));
    }
    assert(out@ =~= v@);
    out
}

fn move_on(embeddings: &Vec<Embedding>, by: usize, out: &mut Vec<Embedding>)
    ensures
        embedding_views(final(out)@) == embedding_views(old(out)@) + moved_on(
            embedding_views(embeddings@),
            by as int,
        ),
{
    let ghost base = embedding_views(out@);
    let ghost want = moved_on(embedding_views(embeddings@), by as int);
    let mut i: usize = 0;
    assert(base + want.take(0) =~= base);
    while i < embeddings.len()
        invariant
            i <= embeddings@.len(),
            want == moved_on(embedding_views(embeddings@), by as int),
            embedding_views(out@) == base + want.take(i as int),
        decreases embeddings@.len() - i,
    {
        let e = &embeddings[i];
        let index: usize = if e.index > usize::MAX - by {
            usize::MAX
        } else {
            e.index + by
        };
        let m = Embedding { index, vector: copy_numbers(&e.vector) };
        let ghost before = embedding_views(out@);
        let ghost mv = m@;
        out.push(m);
        proof {
            assert(embedding_views(out@) =~= before.push(mv));
            assert(want[i as int] == mv);
            assert(base + want.take(i + 1) =~= (base + want.take(i as int)).push(mv));
        }
        i += 1;
    }
    assert(want.take(want.len() as int) =~= want);
}

/// Sets up an `EmbeddingClient`.
pub struct EmbeddingClientBuilder {
    pub model: Option<String>,
    pub api_key: Option<String>,
    pub base_url: Option<String>,
    pub endpoint_path: Option<String>,
    pub dimensions: Option<usize>,
    pub max_batch_size: usize,
    pub timeout_secs: u64,
    pub protocol_path: Option<String>,
}

/// Nothing was set yet.
pub open spec fn is_fresh(b: EmbeddingClientBuilder) -> bool {
    b.model is None && b.api_key is None && b.base_url is None && b.endpoint_path is None
        && b.dimensions is None && b.max_batch_size == 100 && b.timeout_secs == 60
        && b.protocol_path is None
}

impl EmbeddingClientBuilder {
    /// Nothing set yet.
    pub fn new() -> (r: Self)
        ensures
            is_fresh(r),
    {
        EmbeddingClientBuilder {
            model: None,
            api_key: None,
            base_url: None,
            endpoint_path: None,
            dimensions: None,
            max_batch_size: 100,
            timeout_secs: 60,
            protocol_path: None,
        }
    }

    /// Sets the model.
    pub fn model(self, model: &str) -> (r: Self)
        ensures
            text::opt_text(r.model) == Some(model@),
            r == (EmbeddingClientBuilder { model: r.model, ..self }),
    {
        EmbeddingClientBuilder { model: Some(model.to_string()), ..self }
    }

    /// Sets the key.
    pub fn api_key(self, api_key: &str) -> (r: Self)
        ensures
            text::opt_text(r.api_key) == Some(api_key@),
            r == (EmbeddingClientBuilder { api_key: r.api_key, ..self }),
    {
        EmbeddingClientBuilder { api_key: Some(api_key.to_string()), ..self }
    }

    /// Sets the base URL.
    pub fn base_url(self, url: &str) -> (r: Self)
        ensures
            text::opt_text(r.base_url) == Some(url@),
            r == (EmbeddingClientBuilder { base_url: r.base_url, ..self }),
    {
        EmbeddingClientBuilder { base_url: Some(url.to_string()), ..self }
    }

    /// Sets the path below the base URL.
    pub fn endpoint_path(self, path: &str) -> (r: Self)
        ensures
            text::opt_text(r.endpoint_path) == Some(path@),
            r == (EmbeddingClientBuilder { endpoint_path: r.endpoint_path, ..self }),
    {
        EmbeddingClientBuilder { endpoint_path: Some(path.to_string()), ..self }
    }

    /// Sets how long vectors are to be.
    pub fn dimensions(self, dimensions: usize) -> (r: Self)
        ensures
            r == (EmbeddingClientBuilder { dimensions: Some(dimensions), ..self }),
    {
        EmbeddingClientBuilder { dimensions: Some(dimensions), ..self }
    }

    /// Sets where manifests are looked for.
    pub fn protocol_path(self, path: &str) -> (r: Self)
        ensures
            text::opt_text(r.protocol_path) == Some(path@),
            r == (EmbeddingClientBuilder { protocol_path: r.protocol_path, ..self }),
    {
        EmbeddingClientBuilder { protocol_path: Some(path.to_string()), ..self }
    }

    /// Takes base URL, key and path from a manifest. A path that was set stays,
    /// and a key that was set goes before those of the environment.
    pub fn from_manifest(
        self,
        manifest: &ProtocolManifest,
        model_id: &str,
        env: &Environment,
    ) -> (r: Result<Self, Error>)
        ensures
            match (
                r,
                exchange::secret_for("embeddings"@, *manifest, text::opt_text(self.api_key), *env),
            ) {
                (Ok(b), Ok(secret)) => {
                    &&& text::opt_text(b.api_key) == Some(secret)
                    &&& text::opt_text(b.base_url) == Some(manifest.endpoint.base_url@)
                    &&& text::opt_text(b.endpoint_path) == Some(
                        match self.endpoint_path {
                            Some(p) => p@,
                            None => exchange::path_in(*manifest, "embeddings"@, "/embeddings"@),
                        },
                    )
                    &&& text::opt_text(b.model) == Some(model_id@)
                    &&& b.dimensions == self.dimensions
                    &&& b.max_batch_size == self.max_batch_size
                    &&& b.timeout_secs == self.timeout_secs
                    &&& b.protocol_path == self.protocol_path
                },
                (Err(e), Err(f)) => e@ == f,
                _ => false,
            },
    {
        let explicit = match &self.api_key {
            Some(k) => Some(k.as_str()),
            None => None,
        };
        let secret = match exchange::require_secret("embeddings", manifest, explicit, env) {
            Ok(s) => s,
            Err(e) => {
                return Err(e);
            },
        };
        let path = match self.endpoint_path {
            Some(p) => p,
            None => exchange::path_from_manifest(manifest, "embeddings", "/embeddings"),
        };
        Ok(
            EmbeddingClientBuilder {
                model: Some(model_id.to_string()),
                api_key: Some(secret),
                base_url: Some(manifest.get_base_url().to_string()),
                endpoint_path: Some(path),
                dimensions: self.dimensions,
                max_batch_size: self.max_batch_size,
                timeout_secs: self.timeout_secs,
                protocol_path: self.protocol_path,
            },
        )
    }

    /// The client. `made` tells whether an HTTP client could be had.
    pub fn build(self, made: Result<(), String>) -> (r: Result<EmbeddingClient, Error>)
        ensures
            match (r, exchange::setup_error(self.model, self.api_key, self.base_url, made)) {
                (Ok(c), None) => {
                    &&& self.model == Some(c.model)
                    &&& self.api_key == Some(c.api_key)
                    &&& self.base_url == Some(c.base_url)
                    &&& c.endpoint_path@ == (match self.endpoint_path {
                        Some(p) => p@,
                        None => "/embeddings"@,
                    })
                    &&& c.dimensions == self.dimensions
                    &&& c.max_batch_size == self.max_batch_size
                },
                (Err(e), Some(f)) => e@ == f,
                _ => false,
            },
    {
        match exchange::check_setup(self.model, self.api_key, self.base_url, made) {
            Ok((model, api_key, base_url)) => {
                let endpoint_path = match self.endpoint_path {
                    Some(p) => p,
                    None => "/embeddings".to_string(),
                };
                Ok(
                    EmbeddingClient {
                        model,
                        base_url,
                        endpoint_path,
                        api_key,
                        dimensions: self.dimensions,
                        max_batch_size: self.max_batch_size,
                    },
                )
            },
            Err(e) => Err(e),
        }
    }
}

impl Default for EmbeddingClientBuilder {
    fn default() -> (r: Self)
        ensures
            is_fresh(r),
    {
        EmbeddingClientBuilder::new()
    }
}

/// Each response has one embedding per text of its piece, in order.
pub open spec fn numbered(
    responses: Seq<EmbeddedView>,
    k: int,
    pieces: Seq<Seq<Seq<char>>>,
) -> bool {
    &&& responses.len() - k == pieces.len()
    &&& forall|j: int|
        0 <= j < pieces.len() ==> counts_up(
            #[trigger] responses[k + j].embeddings,
            pieces[j].len(),
        )
}

/// There are `n` embeddings, and each stands at its own place.
pub open spec fn counts_up(embeddings: Seq<EmbeddingView>, n: nat) -> bool {
    &&& embeddings.len() == n
    &&& forall|i: int| 0 <= i < n ==> (#[trigger] embeddings[i]).index == i
}

/// Where the response to each piece numbers the piece's texts from 0, the
/// merged embeddings number all the texts: the `i`th is that of the text at
/// `at + i`.
pub proof fn pieces_are_numbered_through(
    texts: Seq<Seq<char>>,
    max: int,
    at: int,
    responses: Seq<EmbeddedView>,
    k: int,
)
    requires
        max > 0,
        0 <= at,
        0 <= k <= responses.len(),
        texts.len() <= usize::MAX,
        numbered(responses, k, pieces_from(texts, max, at)),
    ensures
        merged_from(responses, max, k, at).len() == left_from(texts.len(), at),
        forall|i: int|
            0 <= i < merged_from(responses, max, k, at).len() ==> (#[trigger] merged_from(
                responses,
                max,
                k,
                at,
            )[i]).index == at + i,
    decreases left_from(texts.len(), at),
{
    let pieces = pieces_from(texts, max, at);
    if at < texts.len() {
        let rest = pieces_from(texts, max, at + max);
        assert(pieces =~= seq![texts.subrange(at, smaller(at + max, texts.len() as int))] + rest);
        assert(pieces.len() >= 1);
        assert(responses[k + 0].embeddings.len() == pieces[0].len());
        assert(counts_up(responses[k + 0].embeddings, pieces[0].len()));
        assert forall|j: int| 0 <= j < rest.len() implies counts_up(
            #[trigger] responses[k + 1 + j].embeddings,
            rest[j].len(),
        ) by {
            assert(pieces[j + 1] == rest[j]);
            assert(responses[k + (j + 1)] == responses[k + 1 + j]);
            assert(counts_up(responses[k + (j + 1)].embeddings, pieces[j + 1].len()));
        }
        pieces_are_numbered_through(texts, max, at + max, responses, k + 1);
        let head = moved_on(responses[k].embeddings, at);
        let tail = merged_from(responses, max, k + 1, at + max);
        assert(merged_from(responses, max, k, at) =~= head + tail);
        assert forall|i: int| 0 <= i < (head + tail).len() implies (#[trigger] (head
            + tail)[i]).index == at + i by {
            if i < head.len() {
                assert(responses[k].embeddings[i].index == i);
            } else {
                assert(tail[i - head.len()].index == at + max + (i - head.len()));
            }
        }
    } else {
        assert(pieces.len() == 0);
    }
}

proof fn reveal_request_keys()
    ensures
        "model"@.len() == 5,
        "input"@.len() == 5,
        "model"@ != "input"@,
        "dimensions"@.len() == 10,
{
    reveal_strlit("model");
    reveal_strlit("input");
    reveal_strlit("dimensions");
    assert("model"@[0] != "input"@[0]);
}

/// A request names the model and holds the input; how long vectors are to be is
/// said only where it was set.
pub proof fn requests_hold_model_and_input(
    model: Seq<char>,
    input: json::Json,
    dimensions: Option<usize>,
)
    ensures
        ({
            let r = embedding_json(model, input, dimensions);
            &&& r.field("model"@) == Some(json::Json::Str(model))
            &&& r.field("input"@) == Some(input)
            &&& r.field("dimensions"@) == (match dimensions {
                Some(d) => Some(json::Json::Number(JsonNumber::Unsigned(d as u64))),
                None => None,
            })
        }),
{
    reveal_request_keys();
}

/// The texts of a request are sent all, and in order.
pub proof fn texts_are_sent_in_order(texts: Seq<String>, i: int)
    requires
        0 <= i < texts.len(),
    ensures
        texts_json(text::texts(texts)) matches json::Json::Array(s) && s.len() == texts.len(),
        texts_json(text::texts(texts)).item(i) == Some(json::Json::Str(texts[i]@)),
{
}

proof fn lemma_numbers(list: Seq<json::Json>, n: int, i: int)
    requires
        0 <= i < n <= list.len(),
        forall|j: int| 0 <= j < list.len() ==> (#[trigger] list[j]) is Number,
    ensures
        numbers_in(list, n).len() == n,
        list[i] == json::Json::Number(numbers_in(list, n)[i]),
    decreases n,
{
    assert(list[n - 1] is Number);
    if n > 1 {
        lemma_numbers(list, n - 1, if i < n - 1 { i } else { 0 });
    } else {
        assert(numbers_in(list, 0).len() == 0);
    }
}

/// Each entry of a response gives one embedding, in order: at the index that it
/// states, else at its own place, with the numbers of its vector in order.
pub proof fn embeddings_are_read_in_order(
    v: json::Json,
    data: Seq<json::Json>,
    k: int,
    numbers: Seq<json::Json>,
    i: int,
)
    requires
        v.field("data"@) == Some(json::Json::Array(data)),
        0 <= k < data.len() <= usize::MAX,
        data[k].field("embedding"@) == Some(json::Json::Array(numbers)),
        forall|j: int| 0 <= j < numbers.len() ==> (#[trigger] numbers[j]) is Number,
        0 <= i < numbers.len(),
    ensures
        match embedded_in(v) {
            Ok(r) => {
                &&& r.embeddings.len() == data.len()
                &&& r.embeddings[k].vector.len() == numbers.len()
                &&& numbers[i] == json::Json::Number(r.embeddings[k].vector[i])
                &&& match data[k].field("index"@) {
                    Some(json::Json::Number(JsonNumber::Unsigned(n))) => n <= usize::MAX
                        ==> r.embeddings[k].index == n,
                    _ => r.embeddings[k].index == k,
                }
            },
            Err(_) => false,
        },
{
    lemma_numbers(numbers, numbers.len() as int, i);
}

/// A response says which model it comes from and what it took; without a list
/// of data it is refused.
pub proof fn responses_tell_model_and_usage(v: json::Json)
    ensures
        embedded_in(v) is Ok <==> (v.field("data"@) matches Some(d) && (d is Array)),
        embedded_in(v) matches Ok(r) ==> {
            &&& r.model == (match v.field("model"@) {
                Some(json::Json::Str(t)) => t,
                _ => Seq::empty(),
            })
            &&& r.usage.prompt_tokens == drivers::stated_below(v, "usage"@, "prompt_tokens"@)
            &&& r.usage.total_tokens == drivers::stated_below(v, "usage"@, "total_tokens"@)
        },
{
    reveal_strlit("");
    assert(""@ =~= Seq::empty());
}

/// Batches cut the texts up without loss: the `j`th begins `j` batch sizes in,
/// holds as many texts as fit or are left, and the last reaches to the end.
pub proof fn batches_cut_without_loss(texts: Seq<Seq<char>>, max: int, at: int, j: int)
    requires
        max > 0,
        0 <= at,
        0 <= j < pieces_from(texts, max, at).len(),
    ensures
        at + j * max < texts.len(),
        pieces_from(texts, max, at)[j] == texts.subrange(
            at + j * max,
            smaller(at + j * max + max, texts.len() as int),
        ),
        j == pieces_from(texts, max, at).len() - 1 ==> at + j * max + max >= texts.len(),
    decreases left_from(texts.len(), at),
{
    let all = pieces_from(texts, max, at);
    let rest = pieces_from(texts, max, at + max);
    assert(all =~= seq![texts.subrange(at, smaller(at + max, texts.len() as int))] + rest);
    if j > 0 {
        batches_cut_without_loss(texts, max, at + max, j - 1);
        assert(all[j] == rest[j - 1]);
        assert(at + max + (j - 1) * max == at + j * max) by (nonlinear_arith);
    } else {
        assert(j * max == 0) by (nonlinear_arith)
            requires
                j == 0,
        ;
        if all.len() == 1 && at + max < texts.len() {
            assert(rest.len() > 0);
        }
    }
}

/// Texts that fit one batch are sent as one; more are cut up.
pub proof fn one_batch_where_it_fits(texts: Seq<Seq<char>>, max: int)
    requires
        max > 0,
    ensures
        texts.len() <= max ==> batches(texts, max) == seq![texts],
        texts.len() > max ==> batches(texts, max) == pieces_from(texts, max, 0) && batches(
            texts,
            max,
        ).len() > 1,
{
    if texts.len() > max {
        let rest = pieces_from(texts, max, max);
        assert(rest.len() > 0);
    }
}

/// Merging keeps every vector: those of each response follow those of the
/// responses before it, with their places moved on by the texts before.
pub proof fn merging_keeps_every_vector(
    responses: Seq<EmbeddedView>,
    max: int,
    k: int,
    at: int,
    i: int,
)
    requires
        0 <= k < responses.len(),
        0 <= at,
        0 <= i < merged_from(responses, max, k, at).len(),
    ensures
        ({
            let all = merged_from(responses, max, k, at);
            let own = responses[k].embeddings;
            let rest = merged_from(responses, max, k + 1, at + max);
            &&& all.len() == own.len() + rest.len()
            &&& i < own.len() ==> all[i].vector == own[i].vector && (own[i].index + at <= usize::MAX
                ==> all[i].index == own[i].index + at)
            &&& i >= own.len() ==> all[i] == rest[i - own.len()]
        }),
{
}

/// The tokens of merged responses are those of each together.
pub proof fn merged_usage_adds_up(responses: Seq<EmbeddedView>, n: int)
    requires
        0 <= n < responses.len(),
    ensures
        ({
            let a = usage_upto(responses, n);
            let b = usage_upto(responses, n + 1);
            let c = responses[n].usage;
            &&& usage_upto(responses, 0) == (EmbeddingUsage { prompt_tokens: 0, total_tokens: 0 })
            &&& a.prompt_tokens + c.prompt_tokens <= u64::MAX ==> b.prompt_tokens == a.prompt_tokens
                + c.prompt_tokens
            &&& a.total_tokens + c.total_tokens <= u64::MAX ==> b.total_tokens == a.total_tokens
                + c.total_tokens
        }),
{
}

/// What is merged is every response, from the first on.
pub proof fn all_responses_are_merged(responses: Seq<EmbeddedView>, max: int, model: Seq<char>)
    ensures
        merged(responses, max, model).model == model,
        merged(responses, max, model).embeddings == merged_from(responses, max, 0, 0),
        merged(responses, max, model).usage == usage_upto(responses, responses.len() as int),
{
}

/// The vectors of a good answer are those of its JSON; other answers are errors.
pub proof fn good_answers_give_vectors(o: TextOutcome)
    ensures
        o matches TextOutcome::Answered { success, status, body } ==> {
            &&& success ==> match json::json_parsed(vstd::utf8::encode_utf8(body@)) {
                Ok(v) => embedded_of(o) == embedded_in(v),
                Err(_) => embedded_of(o) is Err,
            }
            &&& !success ==> embedded_of(o) is Err
        },
        !(o is Answered) ==> embedded_of(o) is Err,
{
}

/// A client is set up from the manifest: its base URL, the secret that is found
/// for it, and its path for embeddings, unless another was set.
pub proof fn manifest_sets_up_the_client(
    b: EmbeddingClientBuilder,
    manifest: &ProtocolManifest,
    model_id: &str,
    env: &Environment,
    r: Result<EmbeddingClientBuilder, Error>,
)
    requires
        call_ensures(EmbeddingClientBuilder::from_manifest, (b, manifest, model_id, env), r),
    ensures
        r is Ok <==> exchange::credential_for(
            *manifest,
            text::opt_text(b.api_key),
            *env,
        ).secret is Some,
        r matches Ok(c) ==> {
            &&& text::opt_text(c.api_key) == exchange::credential_for(
                *manifest,
                text::opt_text(b.api_key),
                *env,
            ).secret
            &&& text::opt_text(c.base_url) == Some(manifest.endpoint.base_url@)
            &&& text::opt_text(c.model) == Some(model_id@)
            &&& b.endpoint_path matches Some(p) ==> text::opt_text(c.endpoint_path) == Some(p@)
            &&& b.endpoint_path is None ==> text::opt_text(c.endpoint_path) == Some(
                exchange::path_in(*manifest, "embeddings"@, "/embeddings"@),
            )
            &&& c.dimensions == b.dimensions
            &&& c.max_batch_size == b.max_batch_size
        },
{
}

/// A client has what was set, and is refused where anything is missing.
pub proof fn clients_have_what_was_set(
    b: EmbeddingClientBuilder,
    made: Result<(), String>,
    r: Result<EmbeddingClient, Error>,
)
    requires
        call_ensures(EmbeddingClientBuilder::build, (b, made), r),
    ensures
        r is Ok <==> b.model is Some && b.api_key is Some && b.base_url is Some && made is Ok,
        r matches Ok(c) ==> {
            &&& b.model == Some(c.model)
            &&& b.api_key == Some(c.api_key)
            &&& b.base_url == Some(c.base_url)
            &&& b.endpoint_path matches Some(p) ==> c.endpoint_path@ == p@
            &&& b.endpoint_path is None ==> c.endpoint_path@ == "/embeddings"@
            &&& c.dimensions == b.dimensions
            &&& c.max_batch_size == b.max_batch_size
        },
{
    exchange::setup_needs_everything(b.model, b.api_key, b.base_url, made);
}

/// One batch's response is handed on as it is; those of more are merged.
pub proof fn one_response_is_handed_on(
    c: &EmbeddingClient,
    count: usize,
    responses: Vec<EmbeddingResponse>,
    r: EmbeddingResponse,
)
    requires
        count <= c.max_batch_size ==> responses@.len() == 1,
        call_ensures(EmbeddingClient::merge_batches, (c, count, responses), r),
    ensures
        count <= c.max_batch_size ==> r == responses@[0],
        count > c.max_batch_size ==> r.model@ == c.model@ && embedding_views(r.embeddings@)
            == merged_from(response_views(responses@), c.max_batch_size as int, 0, 0),
{
}

/// Vectors are asked for below the base URL, with one slash between.
pub proof fn vectors_are_asked_for_below_the_base(c: &EmbeddingClient, r: String)
    requires
        call_ensures(EmbeddingClient::endpoint, (c,), r),
        c.base_url@.len() > 0,
        c.base_url@.last() != '/',
        c.endpoint_path@.len() > 0,
        c.endpoint_path@[0] == '/',
    ensures
        r@ == c.base_url@ + c.endpoint_path@,
{
    exchange::one_slash_stands_between(c.base_url@, c.endpoint_path@);
}

} // verus!
