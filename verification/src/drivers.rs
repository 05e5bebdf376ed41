//! Turning unified requests into a provider's own, and its responses into
//! unified ones.

use crate::error;
use crate::error::{Error, ProtocolError};
use crate::json;
use crate::json::{JsonNumber, JsonValue};
use crate::protocol::manifest::{ApiStyle, Capability};
use crate::table::Table;
use crate::text;
use crate::types::events;
use crate::types::events::StreamingEvent;
use crate::types::message;
use crate::types::message::{ContentBlock, Message, MessageContent, MessageRole};
use crate::utils::thinking_extract;
use vstd::prelude::*;

verus! {

broadcast use vstd::string::group_string_axioms;

/// A request as it goes over HTTP.
#[derive(Debug, Clone)]
pub struct DriverRequest {
    /// Filled in from the manifest by the client.
    pub url: String,
    pub method: String,
    pub headers: Table<String>,
    pub body: JsonValue,
    pub stream: bool,
}

/// What a request is.
pub struct RequestView {
    pub url: Seq<char>,
    pub method: Seq<char>,
    pub headers: Map<Seq<char>, String>,
    pub body: json::Json,
    pub stream: bool,
}

impl View for DriverRequest {
    type V = RequestView;

    open spec fn view(&self) -> RequestView {
        RequestView {
            url: self.url@,
            method: self.method@,
            headers: self.headers@,
            body: self.body@,
            stream: self.stream,
        }
    }
}

/// Tokens that a request took.
#[derive(Debug, Clone, Copy, PartialEq, Eq, Structural)]
pub struct UsageInfo {
    pub prompt_tokens: u64,
    pub completion_tokens: u64,
    pub total_tokens: u64,
    pub reasoning_tokens: Option<u64>,
    pub cache_read_tokens: Option<u64>,
    pub cache_creation_tokens: Option<u64>,
}

impl Default for UsageInfo {
    fn default() -> (r: Self)
        ensures
            r == (UsageInfo {
                prompt_tokens: 0,
                completion_tokens: 0,
                total_tokens: 0,
                reasoning_tokens: None,
                cache_read_tokens: None,
                cache_creation_tokens: None,
            }),
    {
        UsageInfo {
            prompt_tokens: 0,
            completion_tokens: 0,
            total_tokens: 0,
            reasoning_tokens: None,
            cache_read_tokens: None,
            cache_creation_tokens: None,
        }
    }
}

/// Tokens that a request took, as an execution reports them.
#[derive(Debug, Clone, Copy, PartialEq, Eq, Structural)]
pub struct ExecutionUsage {
    pub prompt_tokens: u64,
    pub completion_tokens: u64,
    pub total_tokens: u64,
    pub reasoning_tokens: Option<u64>,
    pub cache_read_tokens: Option<u64>,
    pub cache_creation_tokens: Option<u64>,
}

impl UsageInfo {
    /// The usage as an execution reports it.
    pub fn into_execution(self) -> (r: ExecutionUsage)
        ensures
            r == (ExecutionUsage {
                prompt_tokens: self.prompt_tokens,
                completion_tokens: self.completion_tokens,
                total_tokens: self.total_tokens,
                reasoning_tokens: self.reasoning_tokens,
                cache_read_tokens: self.cache_read_tokens,
                cache_creation_tokens: self.cache_creation_tokens,
            }),
    {
        ExecutionUsage {
            prompt_tokens: self.prompt_tokens,
            completion_tokens: self.completion_tokens,
            total_tokens: self.total_tokens,
            reasoning_tokens: self.reasoning_tokens,
            cache_read_tokens: self.cache_read_tokens,
            cache_creation_tokens: self.cache_creation_tokens,
        }
    }
}

/// A response in unified form.
#[derive(Debug, Clone)]
pub struct DriverResponse {
    pub content: Option<String>,
    /// Thinking text, apart from the answer.
    pub thinking: Option<String>,
    pub finish_reason: Option<String>,
    pub usage: Option<UsageInfo>,
    pub tool_calls: Vec<JsonValue>,
    /// The provider's own response.
    pub raw: JsonValue,
}

/// What a response is.
pub struct ResponseView {
    pub content: Option<Seq<char>>,
    pub thinking: Option<Seq<char>>,
    pub finish_reason: Option<Seq<char>>,
    pub usage: Option<UsageInfo>,
    pub tool_calls: Seq<json::Json>,
    pub raw: json::Json,
}

impl View for DriverResponse {
    type V = ResponseView;

    open spec fn view(&self) -> ResponseView {
        ResponseView {
            content: text::opt_text(self.content),
            thinking: text::opt_text(self.thinking),
            finish_reason: text::opt_text(self.finish_reason),
            usage: self.usage,
            tool_calls: json::array_view(self.tool_calls@),
            raw: self.raw@,
        }
    }
}

/// What is asked of a provider.
pub struct ParamsView {
    pub messages: Seq<message::MessageView>,
    pub model: Seq<char>,
    pub temperature: Option<JsonNumber>,
    pub max_tokens: Option<u32>,
    pub stream: bool,
    /// Fields laid over the body.
    pub extra: Option<json::Json>,
}

/// What the arguments of a request ask for.
pub open spec fn asked(
    messages: Seq<Message>,
    model: Seq<char>,
    temperature: Option<JsonNumber>,
    max_tokens: Option<u32>,
    stream: bool,
    extra: Option<&JsonValue>,
) -> ParamsView {
    ParamsView {
        messages: message::message_views(messages),
        model,
        temperature,
        max_tokens,
        stream,
        extra: json::opt_ref(extra),
    }
}

/// The two results agree: values with the same view, or errors that say the same.
pub open spec fn events_agree(
    r: Result<Vec<StreamingEvent>, Error>,
    want: Result<Seq<events::EventView>, error::ErrorView>,
) -> bool {
    match (r, want) {
        (Ok(v), Ok(s)) => events::event_views(v@) == s,
        (Err(e), Err(f)) => e@ == f,
        _ => false,
    }
}

/// Speaks one provider's API.
pub trait ProviderDriver: Send + Sync {
    /// The provider.
    spec fn provider(&self) -> Seq<char>;

    /// Whose API it speaks.
    spec fn style(&self) -> ApiStyle;

    /// The request for what is asked.
    spec fn request_for(&self, p: ParamsView) -> Result<RequestView, error::ErrorView>;

    /// The unified form of a response.
    spec fn response_of(&self, body: json::Json) -> Result<ResponseView, error::ErrorView>;

    /// The events in one frame of a stream.
    spec fn events_of(&self, data: Seq<char>) -> Result<Seq<events::EventView>, error::ErrorView>;

    /// What the provider can do.
    spec fn capabilities_of(&self) -> Seq<Capability>;

    /// The frame ends the stream.
    spec fn ends_stream(&self, data: Seq<char>) -> bool;

    /// The provider.
    fn provider_id(&self) -> (r: &str)
        ensures
            r@ == self.provider(),
    ;

    /// Whose API it speaks.
    fn api_style(&self) -> (r: ApiStyle)
        ensures
            r == self.style(),
    ;

    /// Builds the request for what is asked.
    fn build_request(
        &self,
        messages: &Vec<Message>,
        model: &str,
        temperature: Option<JsonNumber>,
        max_tokens: Option<u32>,
        stream: bool,
        extra: Option<&JsonValue>,
    ) -> (r: Result<DriverRequest, Error>)
        ensures
            error::agrees(
                r,
                self.request_for(
                    asked(messages@, model@, temperature, max_tokens, stream, extra),
                ),
            ),
    ;

    /// Reads a complete response.
    fn parse_response(&self, body: &JsonValue) -> (r: Result<DriverResponse, Error>)
        ensures
            error::agrees(r, self.response_of(body@)),
    ;

    /// Reads one frame of a stream. A frame may hold several events.
    fn parse_stream_event(&self, data: &str) -> (r: Result<Vec<StreamingEvent>, Error>)
        ensures
            events_agree(r, self.events_of(data@)),
    ;

    /// What the provider can do.
    fn supported_capabilities(&self) -> (r: &Vec<Capability>)
        ensures
            r@ == self.capabilities_of(),
    ;

    /// Whether the frame ends the stream.
    fn is_stream_done(&self, data: &str) -> (r: bool)
        ensures
            r == self.ends_stream(data@),
    ;
}

/// Speaks the OpenAI API, as many providers do.
#[derive(Debug)]
pub struct OpenAiDriver {
    provider_id: String,
    capabilities: Vec<Capability>,
}

impl OpenAiDriver {
    /// The provider.
    pub closed spec fn id(self) -> Seq<char> {
        self.provider_id@
    }

    /// What the provider can do.
    pub closed spec fn caps(self) -> Seq<Capability> {
        self.capabilities@
    }

    /// A driver for a provider.
    pub fn new(provider_id: &str, capabilities: Vec<Capability>) -> (r: Self)
        ensures
            r.id() == provider_id@,
            r.caps() == capabilities@,
    {
        OpenAiDriver { provider_id: provider_id.to_string(), capabilities }
    }
}

/// The block holds a document.
pub open spec fn is_document(b: message::BlockView) -> bool {
    b is Document
}

/// One of the blocks is a document.
pub open spec fn document_among(blocks: Seq<message::BlockView>) -> bool {
    exists|i: int| 0 <= i < blocks.len() && is_document(#[trigger] blocks[i])
}

/// The content holds a document.
pub open spec fn has_document(c: message::ContentView) -> bool {
    match c {
        message::ContentView::Text(_) => false,
        message::ContentView::Blocks(b) => document_among(b),
    }
}

/// One of the messages holds a document.
pub open spec fn any_document(ms: Seq<message::MessageView>) -> bool {
    exists|i: int| 0 <= i < ms.len() && has_document((#[trigger] ms[i]).content)
}

/// A message in the OpenAI shape.
pub open spec fn openai_message(m: message::MessageView) -> json::Json {
    let base = Map::<Seq<char>, json::Json>::empty().insert(
        "role"@,
        json::Json::Str(message::role_name(m.role)),
    ).insert("content"@, message::content_json(m.content));
    if m.role == MessageRole::Tool && m.tool_call_id is Some {
        json::Json::Object(base.insert("tool_call_id"@, json::Json::Str(m.tool_call_id->0)))
    } else {
        json::Json::Object(base)
    }
}

/// The body of a request in the OpenAI shape.
pub open spec fn openai_body(p: ParamsView) -> json::Json {
    let m = Map::<Seq<char>, json::Json>::empty().insert(
        "model"@,
        json::Json::Str(p.model),
    ).insert(
        "messages"@,
        json::Json::Array(Seq::new(p.messages.len(), |i: int| openai_message(p.messages[i]))),
    ).insert("stream"@, json::Json::Bool(p.stream));
    let m = match p.temperature {
        Some(t) => m.insert("temperature"@, json::Json::Number(t)),
        None => m,
    };
    let m = match p.max_tokens {
        Some(n) => m.insert("max_tokens"@, json::Json::Number(JsonNumber::Unsigned(n as u64))),
        None => m,
    };
    match p.extra {
        Some(json::Json::Object(x)) => json::Json::Object(m.union_prefer_right(x)),
        _ => json::Json::Object(m),
    }
}

/// The request for what is asked, in the OpenAI shape. It has no documents.
pub open spec fn openai_request(p: ParamsView) -> Result<RequestView, error::ErrorView> {
    if any_document(p.messages) {
        Err(
            error::ErrorView::Protocol(
                error::ProtocolErrorView::ValidationError(
                    "OpenAI-compatible driver does not encode document blocks; use Anthropic or Gemini"@,
                ),
            ),
        )
    } else {
        Ok(
            RequestView {
                url: Seq::empty(),
                method: "POST"@,
                headers: Map::empty(),
                body: openai_body(p),
                stream: p.stream,
            },
        )
    }
}

/// The number under a key, zero where there is none.
pub open spec fn count_at(u: json::Json, key: Seq<char>) -> u64 {
    match u.field(key) {
        Some(v) => match v.natural() {
            Some(n) => n,
            None => 0,
        },
        None => 0,
    }
}

/// The number under a key below another, zero where there is none.
pub open spec fn count_below(u: json::Json, outer: Seq<char>, inner: Seq<char>) -> u64 {
    match json::field_in(u.field(outer), inner) {
        Some(v) => match v.natural() {
            Some(n) => n,
            None => 0,
        },
        None => 0,
    }
}

/// The first number that is not zero, zero where all are.
pub open spec fn first_count(a: u64, b: u64, c: u64) -> u64 {
    if a != 0 {
        a
    } else if b != 0 {
        b
    } else {
        c
    }
}

/// A count that is there only where it is above zero.
pub open spec fn above_zero(n: u64) -> Option<u64> {
    if n > 0 {
        Some(n)
    } else {
        None
    }
}

/// The sum, stopping at the largest `u64`.
pub open spec fn capped_sum(a: u64, b: u64) -> u64 {
    if a + b > u64::MAX {
        u64::MAX
    } else {
        (a + b) as u64
    }
}

/// The tokens that a `usage` object states, under OpenAI's names or Anthropic's.
pub open spec fn usage_of(u: json::Json) -> UsageInfo {
    let prompt = first_count(count_at(u, "prompt_tokens"@), count_at(u, "input_tokens"@), 0);
    let completion = first_count(
        count_at(u, "completion_tokens"@),
        count_at(u, "output_tokens"@),
        0,
    );
    let total = count_at(u, "total_tokens"@);
    UsageInfo {
        prompt_tokens: prompt,
        completion_tokens: completion,
        total_tokens: if total == 0 {
            capped_sum(prompt, completion)
        } else {
            total
        },
        reasoning_tokens: above_zero(
            first_count(
                count_at(u, "reasoning_tokens"@),
                count_below(u, "completion_tokens_details"@, "reasoning_tokens"@),
                0,
            ),
        ),
        cache_read_tokens: above_zero(
            first_count(
                count_at(u, "cache_read_tokens"@),
                count_below(u, "prompt_tokens_details"@, "cached_tokens"@),
                count_at(u, "cache_read_input_tokens"@),
            ),
        ),
        cache_creation_tokens: above_zero(
            first_count(
                count_at(u, "cache_creation_tokens"@),
                count_at(u, "cache_creation_input_tokens"@),
                count_at(u, "cache_write_tokens"@),
            ),
        ),
    }
}

/// The value at `/choices/0/<a>/<b>`.
pub open spec fn choice_field(body: json::Json, a: Seq<char>, b: Seq<char>) -> Option<json::Json> {
    json::field_in(thinking_extract::first_choice(body, a), b)
}

/// The unified form of an OpenAI response.
pub open spec fn openai_response(body: json::Json) -> ResponseView {
    ResponseView {
        content: json::text_in(choice_field(body, "message"@, "content"@)),
        thinking: match thinking_extract::first_choice(body, "message"@) {
            Some(m) => thinking_extract::first_nonempty(m, thinking_extract::thinking_keys()),
            None => None,
        },
        finish_reason: json::text_in(thinking_extract::first_choice(body, "finish_reason"@)),
        usage: match body.field("usage"@) {
            Some(u) => Some(usage_of(u)),
            None => None,
        },
        tool_calls: match choice_field(body, "message"@, "tool_calls"@) {
            Some(json::Json::Array(s)) => s,
            _ => Seq::empty(),
        },
        raw: body,
    }
}

/// The events in a frame: thinking first, then content; the end only where
/// there is neither.
pub open spec fn frame_events(v: json::Json) -> Seq<events::EventView> {
    let thinking = match thinking_extract::first_choice(v, "delta"@) {
        Some(d) => thinking_extract::first_nonempty(d, thinking_extract::thinking_keys()),
        None => None,
    };
    let first = match thinking {
        Some(t) => seq![
            events::EventView::ThinkingDelta { thinking: t, tool_consideration: None },
        ],
        None => Seq::empty(),
    };
    let second = match json::text_in(choice_field(v, "delta"@, "content"@)) {
        Some(c) => if c.len() > 0 {
            first.push(events::EventView::PartialContentDelta { content: c, sequence_id: None })
        } else {
            first
        },
        None => first,
    };
    if second.len() > 0 {
        second
    } else {
        match json::text_in(thinking_extract::first_choice(v, "finish_reason"@)) {
            Some(r) => seq![events::EventView::StreamEnd { finish_reason: Some(r) }],
            None => Seq::empty(),
        }
    }
}

/// The frame says that the stream is over.
pub open spec fn is_done(data: Seq<char>) -> bool {
    text::trimmed(data) == "[DONE]"@
}

/// The events in the data of a frame.
pub open spec fn openai_events(data: Seq<char>) -> Result<
    Seq<events::EventView>,
    error::ErrorView,
> {
    if text::trimmed(data).len() == 0 || is_done(data) {
        Ok(Seq::empty())
    } else {
        match json::json_parsed(vstd::utf8::encode_utf8(data)) {
            Ok(v) => Ok(frame_events(v)),
            Err(e) => Err(
                error::ErrorView::Protocol(
                    error::ProtocolErrorView::ValidationError("Failed to parse SSE data: "@ + e),
                ),
            ),
        }
    }
}

fn holds_document(messages: &Vec<Message>) -> (r: bool)
    ensures
        r == any_document(message::message_views(messages@)),
{
    let ghost views = message::message_views(messages@);
    let mut i: usize = 0;
    while i < messages.len()
        invariant
            i <= messages@.len(),
            views == message::message_views(messages@),
            forall|k: int| 0 <= k < i ==> !has_document((#[trigger] views[k]).content),
        decreases messages@.len() - i,
    {
        assert(views[i as int] == messages@[i as int]@);
        if let MessageContent::Blocks(blocks) = &messages[i].content {
            if holds_document_block(blocks) {
                return true;
            }
        }
        i += 1;
    }
    false
}

fn holds_document_block(blocks: &Vec<ContentBlock>) -> (r: bool)
    ensures
        r == document_among(message::block_views(blocks@)),
{
    let ghost views = message::block_views(blocks@);
    let mut j: usize = 0;
    while j < blocks.len()
        invariant
            j <= blocks@.len(),
            views == message::block_views(blocks@),
            forall|k: int| 0 <= k < j ==> !is_document(#[trigger] views[k]),
        decreases blocks@.len() - j,
    {
        assert(views[j as int] == blocks@[j as int]@);
        if let ContentBlock::Document { .. } = &blocks[j] {
            assert(is_document(views[j as int]));
            return true;
        }
        j += 1;
    }
    false
}

fn message_body(m: &Message) -> (r: JsonValue)
    ensures
        r@ == openai_message(m@),
{
    let base = JsonValue::object().with("role", JsonValue::string(m.role.as_str())).with(
        "content",
        m.content.to_json(),
    );
    if m.role == MessageRole::Tool {
        if let Some(id) = &m.tool_call_id {
            return base.with("tool_call_id", JsonValue::string(id.as_str()));
        }
    }
    base
}

/// The body of a request in the OpenAI shape.
pub fn build_openai_body(
    messages: &Vec<Message>,
    model: &str,
    temperature: Option<JsonNumber>,
    max_tokens: Option<u32>,
    stream: bool,
    extra: Option<&JsonValue>,
) -> (r: JsonValue)
    ensures
        r@ == openai_body(asked(messages@, model@, temperature, max_tokens, stream, extra)),
{
    let ghost p = asked(messages@, model@, temperature, max_tokens, stream, extra);
    let mut list: Vec<JsonValue> = Vec::new();
    let mut i: usize = 0;
    while i < messages.len()
        invariant
            i <= messages@.len(),
            list@.len() == i,
            forall|k: int|
                0 <= k < i ==> #[trigger] list@[k]@ == openai_message(messages@[k]@),
        decreases messages@.len() - i,
    {
        list.push(message_body(&messages[i]));
        i += 1;
    }
    proof {
        json::lemma_array_view(list@);
        assert(json::array_view(list@) =~= Seq::new(
            p.messages.len(),
            |i: int| openai_message(p.messages[i]),
        ));
    }
    let mut body = JsonValue::object().with("model", JsonValue::string(model)).with(
        "messages",
        JsonValue::Array(list),
    ).with("stream", JsonValue::Bool(stream));
    if let Some(t) = temperature {
        body = body.with("temperature", JsonValue::Number(t));
    }
    if let Some(n) = max_tokens {
        body = body.with("max_tokens", JsonValue::number(n as u64));
    }
    if let Some(x) = extra {
        body = body.overlaid(x);
    }
    body
}

/// The number under a key, zero where there is none.
pub fn read_count(u: &JsonValue, key: &str) -> (r: u64)
    ensures
        r == count_at(u@, key@),
{
    match u.get(key) {
        Some(v) => match v.as_u64() {
            Some(n) => n,
            None => 0,
        },
        None => 0,
    }
}

fn read_count_below(u: &JsonValue, outer: &str, inner: &str) -> (r: u64)
    ensures
        r == count_below(u@, outer@, inner@),
{
    match json::field_of(u.get(outer), inner) {
        Some(v) => match v.as_u64() {
            Some(n) => n,
            None => 0,
        },
        None => 0,
    }
}

fn pick_count(a: u64, b: u64, c: u64) -> (r: u64)
    ensures
        r == first_count(a, b, c),
{
    if a != 0 {
        a
    } else if b != 0 {
        b
    } else {
        c
    }
}

fn positive_count(n: u64) -> (r: Option<u64>)
    ensures
        r == above_zero(n),
{
    if n > 0 {
        Some(n)
    } else {
        None
    }
}

/// The sum, stopping at the largest `u64`.
pub fn add_counts(a: u64, b: u64) -> (r: u64)
    ensures
        r == capped_sum(a, b),
{
    if a > u64::MAX - b {
        u64::MAX
    } else {
        a + b
    }
}

/// The tokens that a `usage` object states.
pub fn parse_openai_usage_value(u: &JsonValue) -> (r: UsageInfo)
    ensures
        r == usage_of(u@),
{
    let prompt_tokens: u64 = pick_count(
        read_count(u, "prompt_tokens"),
        read_count(u, "input_tokens"),
        0,
    );
    let completion_tokens: u64 = pick_count(
        read_count(u, "completion_tokens"),
        read_count(u, "output_tokens"),
        0,
    );
    let stated: u64 = read_count(u, "total_tokens");
    let total_tokens: u64 = if stated == 0 {
        add_counts(prompt_tokens, completion_tokens)
    } else {
        stated
    };
    let reasoning: u64 = pick_count(
        read_count(u, "reasoning_tokens"),
        read_count_below(u, "completion_tokens_details", "reasoning_tokens"),
        0,
    );
    let cache_read: u64 = pick_count(
        read_count(u, "cache_read_tokens"),
        read_count_below(u, "prompt_tokens_details", "cached_tokens"),
        read_count(u, "cache_read_input_tokens"),
    );
    let cache_creation: u64 = pick_count(
        read_count(u, "cache_creation_tokens"),
        read_count(u, "cache_creation_input_tokens"),
        read_count(u, "cache_write_tokens"),
    );
    UsageInfo {
        prompt_tokens,
        completion_tokens,
        total_tokens,
        reasoning_tokens: positive_count(reasoning),
        cache_read_tokens: positive_count(cache_read),
        cache_creation_tokens: positive_count(cache_creation),
    }
}

fn find_choice_field<'a>(body: &'a JsonValue, a: &str, b: &str) -> (r: Option<&'a JsonValue>)
    ensures
        json::opt_ref(r) == choice_field(body@, a@, b@),
{
    json::field_of(thinking_extract::first_choice_part(body, a), b)
}

/// The unified form of an OpenAI response.
pub fn read_openai_response(body: &JsonValue) -> (r: DriverResponse)
    ensures
        r@ == openai_response(body@),
{
    let tool_calls = match find_choice_field(body, "message", "tool_calls") {
        Some(v) => match v.as_array() {
            Some(list) => json::copy_values(list),
            None => Vec::new(),
        },
        None => Vec::new(),
    };
    proof {
        json::lemma_array_view(tool_calls@);
        if tool_calls@.len() == 0 {
            assert(json::array_view(tool_calls@) =~= Seq::empty());
        }
    }
    let usage = match body.get("usage") {
        Some(u) => Some(parse_openai_usage_value(u)),
        None => None,
    };
    DriverResponse {
        content: json::text_of(find_choice_field(body, "message", "content")),
        thinking: thinking_extract::thinking_from_openai_compat_message(body),
        finish_reason: json::text_of(
            thinking_extract::first_choice_part(body, "finish_reason"),
        ),
        usage,
        tool_calls,
        raw: body.copy(),
    }
}

/// The events in a frame.
pub fn read_frame_events(v: &JsonValue) -> (r: Vec<StreamingEvent>)
    ensures
        events::event_views(r@) == frame_events(v@),
{
    let mut out: Vec<StreamingEvent> = Vec::new();
    assert(events::event_views(out@) =~= Seq::empty());
    if let Some(thinking) = thinking_extract::thinking_from_openai_compat_delta(v) {
        let e = StreamingEvent::ThinkingDelta { thinking, tool_consideration: None };
        let ghost ev = e@;
        out.push(e);
        assert(events::event_views(out@) =~= seq![ev]);
    }
    if let Some(content) = json::text_of(find_choice_field(v, "delta", "content")) {
        if content.as_str().unicode_len() > 0 {
            let e = StreamingEvent::PartialContentDelta { content, sequence_id: None };
            let ghost ev = e@;
            let ghost o0 = events::event_views(out@);
            out.push(e);
            assert(events::event_views(out@) =~= o0.push(ev));
        }
    }
    assert(events::event_views(out@).len() == out@.len());
    if out.len() == 0 {
        if let Some(reason) = json::text_of(
            thinking_extract::first_choice_part(v, "finish_reason"),
        ) {
            let e = StreamingEvent::StreamEnd { finish_reason: Some(reason) };
            let ghost ev = e@;
            out.push(e);
            assert(events::event_views(out@) =~= seq![ev]);
        } else {
            assert(events::event_views(out@) =~= Seq::empty());
        }
    }
    out
}

impl ProviderDriver for OpenAiDriver {
    open spec fn provider(&self) -> Seq<char> {
        self.id()
    }

    open spec fn style(&self) -> ApiStyle {
        ApiStyle::OpenAiCompatible
    }

    open spec fn request_for(&self, p: ParamsView) -> Result<RequestView, error::ErrorView> {
        openai_request(p)
    }

    open spec fn response_of(&self, body: json::Json) -> Result<ResponseView, error::ErrorView> {
        Ok(openai_response(body))
    }

    open spec fn events_of(&self, data: Seq<char>) -> Result<
        Seq<events::EventView>,
        error::ErrorView,
    > {
        openai_events(data)
    }

    open spec fn capabilities_of(&self) -> Seq<Capability> {
        self.caps()
    }

    open spec fn ends_stream(&self, data: Seq<char>) -> bool {
        is_done(data)
    }

    fn provider_id(&self) -> (r: &str) {
        self.provider_id.as_str()
    }

    fn api_style(&self) -> (r: ApiStyle) {
        ApiStyle::OpenAiCompatible
    }

    fn build_request(
        &self,
        messages: &Vec<Message>,
        model: &str,
        temperature: Option<JsonNumber>,
        max_tokens: Option<u32>,
        stream: bool,
        extra: Option<&JsonValue>,
    ) -> (r: Result<DriverRequest, Error>) {
        if holds_document(messages) {
            return Err(
                Error::Protocol(
                    ProtocolError::ValidationError(
                        "OpenAI-compatible driver does not encode document blocks; use Anthropic or Gemini".to_string(),
                    ),
                ),
            );
        }
        let r = DriverRequest {
            url: String::new(),
            method: "POST".to_string(),
            headers: Table::new(),
            body: build_openai_body(messages, model, temperature, max_tokens, stream, extra),
            stream: stream,
        };
        assert(r@.url =~= Seq::empty());
        Ok(r)
    }

    fn parse_response(&self, body: &JsonValue) -> (r: Result<DriverResponse, Error>) {
        Ok(read_openai_response(body))
    }

    fn parse_stream_event(&self, data: &str) -> (r: Result<Vec<StreamingEvent>, Error>) {
        if text::is_blank(data) || self.is_stream_done(data) {
            let none: Vec<StreamingEvent> = Vec::new();
            assert(events::event_views(none@) =~= Seq::empty());
            return Ok(none);
        }
        match json::parse_text(data) {
            Ok(v) => Ok(read_frame_events(&v)),
            Err(e) => Err(
                Error::Protocol(
                    ProtocolError::ValidationError(
                        text::cat("Failed to parse SSE data: ", e.as_str()),
                    ),
                ),
            ),
        }
    }

    fn supported_capabilities(&self) -> (r: &Vec<Capability>) {
        &self.capabilities
    }

    fn is_stream_done(&self, data: &str) -> (r: bool) {
        text::text_eq(text::trim(data).as_str(), "[DONE]")
    }
}

/// The driver for an API style: the library's own, or another of the given style.
#[derive(Debug)]
pub enum DriverChoice {
    OpenAi(OpenAiDriver),
    Other(ApiStyle),
}

/// The style is served by the OpenAI driver.
pub open spec fn speaks_openai(style: ApiStyle) -> bool {
    style == ApiStyle::OpenAiCompatible || style == ApiStyle::Custom
}

/// The driver for an API style. A custom style is taken for OpenAI's, which
/// most providers follow.
pub fn create_driver(
    api_style: ApiStyle,
    provider_id: &str,
    capabilities: Vec<Capability>,
) -> (r: DriverChoice)
    ensures
        match r {
            DriverChoice::OpenAi(d) => speaks_openai(api_style) && d.id() == provider_id@
                && d.caps() == capabilities@,
            DriverChoice::Other(s) => !speaks_openai(api_style) && s == api_style,
        },
{
    match api_style {
        ApiStyle::OpenAiCompatible | ApiStyle::Custom => DriverChoice::OpenAi(
            OpenAiDriver::new(provider_id, capabilities),
        ),
        other => DriverChoice::Other(other),
    }
}

/// A frame with both thinking and content gives both, thinking first.
pub proof fn thinking_never_hides_content(v: json::Json, thinking: Seq<char>, content: Seq<char>)
    requires
        thinking_extract::first_choice(v, "delta"@) matches Some(d)
            && thinking_extract::first_nonempty(d, thinking_extract::thinking_keys()) == Some(
            thinking,
        ),
        json::text_in(choice_field(v, "delta"@, "content"@)) == Some(content),
        content.len() > 0,
    ensures
        frame_events(v) == seq![
            events::EventView::ThinkingDelta { thinking, tool_consideration: None },
            events::EventView::PartialContentDelta { content, sequence_id: None },
        ],
{
    assert(frame_events(v) =~= seq![
        events::EventView::ThinkingDelta { thinking, tool_consideration: None },
        events::EventView::PartialContentDelta { content, sequence_id: None },
    ]);
}

proof fn reveal_body_keys()
    ensures
        "model"@.len() == 5,
        "messages"@.len() == 8,
        "stream"@.len() == 6,
        "temperature"@.len() == 11,
        "max_tokens"@.len() == 10,
        "role"@.len() == 4,
        "content"@.len() == 7,
        "tool_call_id"@.len() == 12,
{
    reveal_strlit("model");
    reveal_strlit("messages");
    reveal_strlit("stream");
    reveal_strlit("temperature");
    reveal_strlit("max_tokens");
    reveal_strlit("role");
    reveal_strlit("content");
    reveal_strlit("tool_call_id");
}

/// The conversation is sent as it is given: one entry for each message, in the
/// messages' order, with its role, its content, and for what a tool gave back
/// the call that it answers.
pub proof fn messages_are_sent_in_order(
    messages: Seq<Message>,
    model: Seq<char>,
    temperature: Option<JsonNumber>,
    max_tokens: Option<u32>,
    stream: bool,
    extra: Option<&JsonValue>,
)
    requires
        json::field_in(json::opt_ref(extra), "messages"@) is None,
    ensures
        ({
            let body = openai_body(asked(messages, model, temperature, max_tokens, stream, extra));
            &&& body.field("messages"@) matches Some(json::Json::Array(list)) && list.len()
                == messages.len()
            &&& forall|k: int|
                0 <= k < messages.len() ==> sent_message(
                    #[trigger] json::item_in(body.field("messages"@), k),
                    messages[k],
                )
        }),
{
    reveal_body_keys();
    let p = asked(messages, model, temperature, max_tokens, stream, extra);
    let body = openai_body(p);
    let list = Seq::new(p.messages.len(), |i: int| openai_message(p.messages[i]));
    assert(body.field("messages"@) == Some(json::Json::Array(list)));
    assert forall|k: int| 0 <= k < messages.len() implies sent_message(
        #[trigger] json::item_in(body.field("messages"@), k),
        messages[k],
    ) by {
        let m = openai_message(messages[k]@);
        assert(json::item_in(body.field("messages"@), k) == Some(m));
        match messages[k].content {
            MessageContent::Text(t) => {},
            MessageContent::Blocks(b) => {
                let list = message::content_json(messages[k].content@);
                assert forall|i: int| 0 <= i < b@.len() implies json::item_in(Some(list), i) == Some(
                    message::block_json((#[trigger] b@[i])@),
                ) by {}
            },
        }
    }
}

/// The entry says who a message is from, what it says, and which call it answers.
pub open spec fn sent_message(entry: Option<json::Json>, m: Message) -> bool {
    &&& json::text_in(json::field_in(entry, "role"@)) == Some(
        match m.role {
            MessageRole::System => "system"@,
            MessageRole::User => "user"@,
            MessageRole::Assistant => "assistant"@,
            MessageRole::Tool => "tool"@,
        },
    )
    &&& m.content matches MessageContent::Text(t) ==> json::text_in(
        json::field_in(entry, "content"@),
    ) == Some(t@)
    &&& m.content matches MessageContent::Blocks(b) ==> {
        &&& json::field_in(entry, "content"@) matches Some(json::Json::Array(list)) && list.len()
            == b@.len()
        &&& forall|i: int|
            0 <= i < b@.len() ==> json::item_in(json::field_in(entry, "content"@), i) == Some(
                message::block_json((#[trigger] b@[i])@),
            )
    }
    &&& json::field_in(entry, "tool_call_id"@) == (match m.tool_call_id {
        Some(id) if m.role == MessageRole::Tool => Some(json::Json::Str(id@)),
        _ => None,
    })
}

/// A body names the model and says whether to stream; temperature and token
/// limit are there where they are given, with their values, and not otherwise.
pub proof fn body_says_what_is_asked(
    messages: Seq<Message>,
    model: Seq<char>,
    temperature: Option<JsonNumber>,
    max_tokens: Option<u32>,
    stream: bool,
)
    ensures
        ({
            let body = openai_body(asked(messages, model, temperature, max_tokens, stream, None));
            &&& body.field("model"@) == Some(json::Json::Str(model))
            &&& body.field("stream"@) == Some(json::Json::Bool(stream))
            &&& body.field("temperature"@) == (match temperature {
                Some(t) => Some(json::Json::Number(t)),
                None => None,
            })
            &&& body.field("max_tokens"@) == (match max_tokens {
                Some(n) => Some(json::Json::Number(JsonNumber::Unsigned(n as u64))),
                None => None,
            })
            &&& forall|key: Seq<char>| #[trigger]
                body.field(key) is Some ==> key == "model"@ || key == "messages"@ || key
                    == "stream"@ || key == "temperature"@ || key == "max_tokens"@
        }),
{
    reveal_body_keys();
}

/// Extra fields are laid over the body: each stands there with its own value,
/// every other field is as without them.
pub proof fn extra_fields_win(
    messages: Seq<Message>,
    model: Seq<char>,
    temperature: Option<JsonNumber>,
    max_tokens: Option<u32>,
    stream: bool,
    extra: &JsonValue,
    key: Seq<char>,
)
    ensures
        ({
            let plain = openai_body(asked(messages, model, temperature, max_tokens, stream, None));
            let body = openai_body(
                asked(messages, model, temperature, max_tokens, stream, Some(extra)),
            );
            body.field(key) == (match extra@.field(key) {
                Some(v) => Some(v),
                None => plain.field(key),
            })
        }),
{
}

/// A request is refused exactly where a message holds a document; otherwise it
/// is posted with the body for what is asked.
pub proof fn only_documents_are_refused(
    d: OpenAiDriver,
    messages: Seq<Message>,
    model: Seq<char>,
    temperature: Option<JsonNumber>,
    max_tokens: Option<u32>,
    stream: bool,
    extra: Option<&JsonValue>,
)
    ensures
        ({
            let p = asked(messages, model, temperature, max_tokens, stream, extra);
            let with_document = exists|i: int, j: int|
                0 <= i < messages.len() && (messages[i].content matches MessageContent::Blocks(b)
                    && 0 <= j < b@.len() && #[trigger] block_at(messages[i], j) is Document);
            match d.request_for(p) {
                Ok(r) => !with_document && r.method == "POST"@ && r.url.len() == 0 && r.stream
                    == stream && r.body == openai_body(p) && r.headers.dom().is_empty(),
                Err(_) => with_document,
            }
        }),
{
    let p = asked(messages, model, temperature, max_tokens, stream, extra);
    if any_document(p.messages) {
        let i = choose|i: int|
            0 <= i < p.messages.len() && has_document((#[trigger] p.messages[i]).content);
        let b = messages[i].content->Blocks_0;
        let views = message::block_views(b@);
        let j = choose|j: int| 0 <= j < views.len() && is_document(#[trigger] views[j]);
        assert(views[j] == b@[j]@);
        assert(block_at(messages[i], j) is Document);
    }
    assert forall|i: int, j: int|
        0 <= i < messages.len() && (messages[i].content matches MessageContent::Blocks(b) && 0 <= j
            < b@.len() && #[trigger] block_at(messages[i], j) is Document) implies any_document(
        p.messages,
    ) by {
        let b = messages[i].content->Blocks_0;
        let views = message::block_views(b@);
        assert(is_document(views[j]));
        assert(has_document(p.messages[i].content));
    }
}

/// A block of a message.
pub open spec fn block_at(m: Message, j: int) -> ContentBlock {
    m.content->Blocks_0@[j]
}

/// What the first choice of a response says is what the unified form says: the
/// content, the finish reason and every tool call, in the provider's order. The
/// provider's own response is kept.
pub proof fn first_choice_is_read(d: OpenAiDriver, body: json::Json, choices: Seq<json::Json>)
    requires
        body.field("choices"@) == Some(json::Json::Array(choices)),
        choices.len() > 0,
    ensures
        match d.response_of(body) {
            Ok(r) => {
                let m = choices[0].field("message"@);
                &&& r.content == (match json::field_in(m, "content"@) {
                    Some(json::Json::Str(s)) => Some(s),
                    _ => None,
                })
                &&& r.finish_reason == (match choices[0].field("finish_reason"@) {
                    Some(json::Json::Str(s)) => Some(s),
                    _ => None,
                })
                &&& r.tool_calls == (match json::field_in(m, "tool_calls"@) {
                    Some(json::Json::Array(calls)) => calls,
                    _ => Seq::empty(),
                })
                &&& r.usage is Some == body.field("usage"@) is Some
                &&& r.raw == body
            },
            Err(_) => false,
        },
{
}

/// No tool call of a provider is lost.
pub proof fn tool_calls_are_kept(d: OpenAiDriver, body: json::Json, calls: Seq<json::Json>, k: int)
    requires
        json::field_in(
            json::field_in(json::item_in(body.field("choices"@), 0), "message"@),
            "tool_calls"@,
        ) == Some(json::Json::Array(calls)),
        0 <= k < calls.len(),
    ensures
        match d.response_of(body) {
            Ok(r) => r.tool_calls.len() == calls.len() && r.tool_calls[k] == calls[k],
            Err(_) => false,
        },
{
}

/// A response without choices has neither content nor calls.
pub proof fn nothing_is_read_without_choices(d: OpenAiDriver, body: json::Json)
    requires
        body.field("choices"@) is None || body.field("choices"@) == Some(
            json::Json::Array(Seq::empty()),
        ),
    ensures
        match d.response_of(body) {
            Ok(r) => r.content is None && r.thinking is None && r.finish_reason is None
                && r.tool_calls.len() == 0 && r.raw == body,
            Err(_) => false,
        },
{
}

/// The thinking of a response or a frame is the first field that is not empty
/// among the names for it, of which `reasoning_content` counts most.
pub proof fn thinking_is_read(d: OpenAiDriver, body: json::Json, m: json::Json, k: int)
    requires
        json::field_in(json::item_in(body.field("choices"@), 0), "message"@) == Some(m),
        0 <= k < 6,
        json::text_in(m.field(thinking_name(k))) matches Some(s) && s.len() > 0,
        forall|i: int|
            0 <= i < k ==> !(json::text_in(m.field(#[trigger] thinking_name(i))) matches Some(s)
                && s.len() > 0),
    ensures
        match d.response_of(body) {
            Ok(r) => r.thinking == json::text_in(m.field(thinking_name(k))),
            Err(_) => false,
        },
{
    let keys = thinking_extract::thinking_keys();
    assert forall|i: int| 0 <= i < k implies !(json::text_in(
        m.field(#[trigger] keys[i]),
    ) matches Some(s) && s.len() > 0) by {
        assert(keys[i] == thinking_name(i));
    }
    thinking_extract::earlier_key_wins(m, keys, k);
}

/// The names of the fields that hold thinking text, by preference.
pub open spec fn thinking_name(k: int) -> Seq<char> {
    if k == 0 {
        "reasoning_content"@
    } else if k == 1 {
        "reasoning"@
    } else if k == 2 {
        "thinking"@
    } else if k == 3 {
        "thought"@
    } else if k == 4 {
        "reasoning_text"@
    } else {
        "analysis"@
    }
}

/// No thinking is read where none of the names for it holds a text.
pub proof fn no_thinking_is_made_up(d: OpenAiDriver, body: json::Json, m: json::Json)
    requires
        json::field_in(json::item_in(body.field("choices"@), 0), "message"@) == Some(m),
        forall|i: int|
            0 <= i < 6 ==> !(json::text_in(m.field(#[trigger] thinking_name(i))) matches Some(s)
                && s.len() > 0),
    ensures
        match d.response_of(body) {
            Ok(r) => r.thinking is None,
            Err(_) => false,
        },
{
    let keys = thinking_extract::thinking_keys();
    assert forall|i: int| 0 <= i < keys.len() implies !(json::text_in(
        m.field(#[trigger] keys[i]),
    ) matches Some(s) && s.len() > 0) by {
        assert(keys[i] == thinking_name(i));
    }
    thinking_extract::nothing_where_all_are_empty(m, keys);
}

/// The text under a key of the first choice's delta, where it is not empty.
pub open spec fn delta_text(v: json::Json, key: Seq<char>) -> Option<Seq<char>> {
    match json::text_in(
        json::field_in(json::field_in(json::item_in(v.field("choices"@), 0), "delta"@), key),
    ) {
        Some(s) if s.len() > 0 => Some(s),
        _ => None,
    }
}

/// A frame with content and no thinking is one event with that content. It
/// does not end the stream.
pub proof fn content_is_passed_on(v: json::Json, content: Seq<char>)
    requires
        delta_text(v, "content"@) == Some(content),
        forall|i: int| 0 <= i < 6 ==> delta_text(v, #[trigger] thinking_name(i)) is None,
        v.field("choices"@) matches Some(json::Json::Array(_)),
    ensures
        frame_events(v) == seq![
            events::EventView::PartialContentDelta { content, sequence_id: None },
        ],
{
    let d = json::field_in(json::item_in(v.field("choices"@), 0), "delta"@)->0;
    let keys = thinking_extract::thinking_keys();
    assert forall|i: int| 0 <= i < keys.len() implies !(json::text_in(
        d.field(#[trigger] keys[i]),
    ) matches Some(s) && s.len() > 0) by {
        assert(keys[i] == thinking_name(i));
    }
    thinking_extract::nothing_where_all_are_empty(d, keys);
    assert(frame_events(v) =~= seq![
        events::EventView::PartialContentDelta { content, sequence_id: None },
    ]);
}

/// A frame with thinking and no content is one event with the preferred
/// thinking text.
pub proof fn thinking_is_passed_on(v: json::Json, thinking: Seq<char>, k: int)
    requires
        0 <= k < 6,
        delta_text(v, thinking_name(k)) == Some(thinking),
        forall|i: int| 0 <= i < k ==> delta_text(v, #[trigger] thinking_name(i)) is None,
        delta_text(v, "content"@) is None,
        v.field("choices"@) matches Some(json::Json::Array(_)),
    ensures
        frame_events(v) == seq![
            events::EventView::ThinkingDelta { thinking, tool_consideration: None },
        ],
{
    let d = json::field_in(json::item_in(v.field("choices"@), 0), "delta"@)->0;
    let keys = thinking_extract::thinking_keys();
    assert(forall|i: int| 0 <= i < 6 ==> keys[i] == #[trigger] thinking_name(i));
    assert forall|i: int| 0 <= i < k implies !(json::text_in(
        d.field(#[trigger] keys[i]),
    ) matches Some(s) && s.len() > 0) by {
        assert(delta_text(v, thinking_name(i)) is None);
    }
    thinking_extract::earlier_key_wins(d, keys, k);
    assert(frame_events(v) =~= seq![
        events::EventView::ThinkingDelta { thinking, tool_consideration: None },
    ]);
}

/// A frame with neither thinking nor content ends the stream where it gives a
/// reason, and says nothing otherwise.
pub proof fn reason_ends_the_stream(v: json::Json, choices: Seq<json::Json>)
    requires
        v.field("choices"@) == Some(json::Json::Array(choices)),
        choices.len() > 0,
        forall|i: int| 0 <= i < 6 ==> delta_text(v, #[trigger] thinking_name(i)) is None,
        delta_text(v, "content"@) is None,
    ensures
        frame_events(v) == (match choices[0].field("finish_reason"@) {
            Some(json::Json::Str(reason)) => seq![
                events::EventView::StreamEnd { finish_reason: Some(reason) },
            ],
            _ => Seq::empty(),
        }),
{
    if let Some(d) = choices[0].field("delta"@) {
        let keys = thinking_extract::thinking_keys();
        assert forall|i: int| 0 <= i < keys.len() implies !(json::text_in(
            d.field(#[trigger] keys[i]),
        ) matches Some(s) && s.len() > 0) by {
            assert(keys[i] == thinking_name(i));
            assert(delta_text(v, thinking_name(i)) is None);
        }
        thinking_extract::nothing_where_all_are_empty(d, keys);
    }
}

/// A blank frame and the closing frame hold no events; another frame's events
/// are those of the JSON that it holds, and a frame that is no JSON is an error.
pub proof fn frames_are_read_as_json(d: OpenAiDriver, data: Seq<char>)
    ensures
        text::trimmed(data).len() == 0 ==> d.events_of(data) == Ok::<_, error::ErrorView>(
            Seq::<events::EventView>::empty(),
        ),
        text::trimmed(data) == "[DONE]"@ ==> d.ends_stream(data) && d.events_of(data) == Ok::<
            _,
            error::ErrorView,
        >(Seq::<events::EventView>::empty()),
        text::trimmed(data) != "[DONE]"@ ==> !d.ends_stream(data),
        text::trimmed(data).len() > 0 && text::trimmed(data) != "[DONE]"@ ==> match json::json_parsed(
            vstd::utf8::encode_utf8(data),
        ) {
            Ok(v) => d.events_of(data) == Ok::<_, error::ErrorView>(frame_events(v)),
            Err(_) => d.events_of(data) is Err,
        },
{
}

/// The number of a `usage` object under a name, zero where there is none.
pub open spec fn stated(u: json::Json, key: Seq<char>) -> u64 {
    match u.field(key) {
        Some(json::Json::Number(JsonNumber::Unsigned(n))) => n,
        _ => 0,
    }
}

/// The number of a `usage` object under a name below another.
pub open spec fn stated_below(u: json::Json, outer: Seq<char>, inner: Seq<char>) -> u64 {
    match u.field(outer) {
        Some(v) => stated(v, inner),
        None => 0,
    }
}

/// Counts are taken as they are stated, under OpenAI's names before others,
/// and the total, where it is not stated, is their sum.
pub proof fn stated_counts_are_taken(u: json::Json)
    ensures
        ({
            let r = usage_of(u);
            &&& stated(u, "prompt_tokens"@) > 0 ==> r.prompt_tokens == stated(u, "prompt_tokens"@)
            &&& stated(u, "prompt_tokens"@) == 0 ==> r.prompt_tokens == stated(u, "input_tokens"@)
            &&& stated(u, "completion_tokens"@) > 0 ==> r.completion_tokens == stated(
                u,
                "completion_tokens"@,
            )
            &&& stated(u, "completion_tokens"@) == 0 ==> r.completion_tokens == stated(
                u,
                "output_tokens"@,
            )
            &&& stated(u, "total_tokens"@) > 0 ==> r.total_tokens == stated(u, "total_tokens"@)
            &&& stated(u, "total_tokens"@) == 0 && r.prompt_tokens + r.completion_tokens <= u64::MAX
                ==> r.total_tokens == r.prompt_tokens + r.completion_tokens
            &&& stated(u, "total_tokens"@) == 0 && r.prompt_tokens + r.completion_tokens > u64::MAX
                ==> r.total_tokens == u64::MAX
        }),
{
}

/// Counts of reasoning and cached tokens are there where one is stated that is
/// not zero: the first of the places where services put it.
pub proof fn stated_details_are_taken(u: json::Json)
    ensures
        ({
            let r = usage_of(u);
            let a = stated(u, "reasoning_tokens"@);
            let b = stated_below(u, "completion_tokens_details"@, "reasoning_tokens"@);
            &&& a > 0 ==> r.reasoning_tokens == Some(a)
            &&& a == 0 && b > 0 ==> r.reasoning_tokens == Some(b)
            &&& a == 0 && b == 0 ==> r.reasoning_tokens is None
        }),
        ({
            let r = usage_of(u);
            let a = stated(u, "cache_read_tokens"@);
            let b = stated_below(u, "prompt_tokens_details"@, "cached_tokens"@);
            let c = stated(u, "cache_read_input_tokens"@);
            &&& a > 0 ==> r.cache_read_tokens == Some(a)
            &&& a == 0 && b > 0 ==> r.cache_read_tokens == Some(b)
            &&& a == 0 && b == 0 && c > 0 ==> r.cache_read_tokens == Some(c)
            &&& a == 0 && b == 0 && c == 0 ==> r.cache_read_tokens is None
        }),
        ({
            let r = usage_of(u);
            let a = stated(u, "cache_creation_tokens"@);
            let b = stated(u, "cache_creation_input_tokens"@);
            let c = stated(u, "cache_write_tokens"@);
            &&& a > 0 ==> r.cache_creation_tokens == Some(a)
            &&& a == 0 && b > 0 ==> r.cache_creation_tokens == Some(b)
            &&& a == 0 && b == 0 && c > 0 ==> r.cache_creation_tokens == Some(c)
            &&& a == 0 && b == 0 && c == 0 ==> r.cache_creation_tokens is None
        }),
{
}

/// The usage of a response is that of its `usage` field.
pub proof fn usage_is_read(d: OpenAiDriver, body: json::Json, u: json::Json)
    requires
        body.field("usage"@) == Some(u),
    ensures
        match d.response_of(body) {
            Ok(r) => r.usage == Some(usage_of(u)),
            Err(_) => false,
        },
{
}

/// The body that is built holds the conversation message by message, in the
/// order in which it was given.
pub proof fn built_body_keeps_the_conversation(
    messages: &Vec<Message>,
    model: &str,
    temperature: Option<JsonNumber>,
    max_tokens: Option<u32>,
    stream: bool,
    r: JsonValue,
)
    requires
        call_ensures(
            build_openai_body,
            (messages, model, temperature, max_tokens, stream, None),
            r,
        ),
    ensures
        r@.field("messages"@) matches Some(json::Json::Array(list)) && list.len()
            == messages@.len(),
        forall|k: int|
            0 <= k < messages@.len() ==> sent_message(
                #[trigger] json::item_in(r@.field("messages"@), k),
                messages@[k],
            ),
        r@.field("model"@) == Some(json::Json::Str(model@)),
        r@.field("stream"@) == Some(json::Json::Bool(stream)),
{
    messages_are_sent_in_order(messages@, model@, temperature, max_tokens, stream, None);
    body_says_what_is_asked(messages@, model@, temperature, max_tokens, stream);
}

/// What is read of a response is what its first choice says.
pub proof fn read_response_keeps_the_first_choice(
    body: &JsonValue,
    choices: Seq<json::Json>,
    r: DriverResponse,
)
    requires
        call_ensures(read_openai_response, (body,), r),
        body@.field("choices"@) == Some(json::Json::Array(choices)),
        choices.len() > 0,
    ensures
        json::array_view(r.tool_calls@) == (match json::field_in(
            choices[0].field("message"@),
            "tool_calls"@,
        ) {
            Some(json::Json::Array(calls)) => calls,
            _ => Seq::empty(),
        }),
        text::opt_text(r.content) == json::text_in(
            json::field_in(choices[0].field("message"@), "content"@),
        ),
        text::opt_text(r.finish_reason) == json::text_in(choices[0].field("finish_reason"@)),
        r.raw@ == body@,
{
}

/// OpenAI's API and custom ones have the library's own driver, and every other
/// style is told as it is.
pub proof fn openai_driver_serves_two_styles(
    api_style: ApiStyle,
    provider_id: &str,
    capabilities: Vec<Capability>,
    r: DriverChoice,
)
    requires
        call_ensures(create_driver, (api_style, provider_id, capabilities), r),
    ensures
        api_style == ApiStyle::OpenAiCompatible || api_style == ApiStyle::Custom ==> (
        r matches DriverChoice::OpenAi(d) && d.id() == provider_id@ && d.caps()
            == capabilities@),
        api_style == ApiStyle::AnthropicMessages || api_style == ApiStyle::GeminiGenerate ==> r
            == DriverChoice::Other(api_style),
{
}

/// Usage is passed on to an execution count by count.
pub proof fn usage_is_passed_on(u: UsageInfo, r: ExecutionUsage)
    requires
        call_ensures(UsageInfo::into_execution, (u,), r),
    ensures
        r.prompt_tokens == u.prompt_tokens,
        r.completion_tokens == u.completion_tokens,
        r.total_tokens == u.total_tokens,
        r.reasoning_tokens == u.reasoning_tokens,
        r.cache_read_tokens == u.cache_read_tokens,
        r.cache_creation_tokens == u.cache_creation_tokens,
{
}

} // verus!
