//! The operations, one function each.

use crate::drivers;
use crate::drivers::{DriverChoice, DriverResponse, ProviderDriver, UsageInfo};
use crate::error;
use crate::error_code;
use crate::error_code::StandardErrorCode;
use crate::json;
use crate::json::{JsonNumber, JsonValue};
use crate::protocol::manifest;
use crate::protocol::manifest::{ApiStyle, ProtocolManifest};
use crate::record;
use crate::text;
use crate::wasm::buffers;
use crate::wasm::buffers::{LoadedManifest, WasmChatRequest, WasmState};
use crate::wasm::state::WasmMetrics;
use vstd::prelude::*;

verus! {

broadcast use vstd::string::group_string_axioms;

/// A manifest read from bytes and found valid, and whose API it speaks; else
/// what is wrong with it.
pub type Loaded = Result<(ProtocolManifest, ApiStyle), String>;

/// The slot holds the manifest and the bytes that it came from.
pub open spec fn holds_loaded(
    slot: Option<LoadedManifest>,
    loaded: (ProtocolManifest, ApiStyle),
    raw: Seq<u8>,
) -> bool {
    match slot {
        Some(l) => l.manifest == loaded.0 && l.style == loaded.1 && l.raw@ == raw,
        None => false,
    }
}

/// What is wrong with a manifest that is to be loaded.
pub open spec fn load_error(bytes: Seq<u8>, loaded: Loaded) -> Option<Seq<char>> {
    if bytes.len() == 0 {
        Some(buffers::no_input())
    } else {
        match loaded {
            Ok(_) => None,
            Err(e) => Some(e@),
        }
    }
}

/// A manifest was loaded, or the error says why not.
pub open spec fn manifest_loaded(
    before: WasmState,
    after: WasmState,
    handle: u32,
    bytes: Seq<u8>,
    loaded: Loaded,
) -> bool {
    &&& after.last_out@ == before.last_out@
    &&& match load_error(bytes, loaded) {
        Some(t) => {
            &&& handle == 0
            &&& after.last_err@ == vstd::utf8::encode_utf8(t)
            &&& after.manifests@ == before.manifests@
            &&& after.metrics == buffers::counted(before.metrics, true)
        },
        None => {
            &&& handle == after.manifests@.len() as u32
            &&& after.last_err@ == Seq::<u8>::empty()
            &&& after.manifests@.len() == before.manifests@.len() + 1
            &&& after.manifests@.drop_last() == before.manifests@
            &&& holds_loaded(after.manifests@.last(), loaded->Ok_0, bytes)
            &&& after.metrics == buffers::counted(before.metrics, false)
        },
    }
}

/// Keeps a manifest, and returns its handle, counted from 1; 0 where the
/// manifest is not there or not valid. `loaded` is what the bytes were found
/// to be.
pub fn ailib_load_manifest(state: &mut WasmState, bytes: &Vec<u8>, loaded: Loaded) -> (r: u32)
    ensures
        manifest_loaded(*old(state), *final(state), r, bytes@, loaded),
{
    state.clear_err();
    state.bump_calls();
    if bytes.len() == 0 {
        state.fail_counted("null or empty input");
        return 0;
    }
    match loaded {
        Ok((manifest, style)) => {
            let ghost before = state.manifests@;
            state.manifests.push(
                Some(LoadedManifest { manifest, raw: text::copy_bytes(bytes), style }),
            );
            assert(state.manifests@.drop_last() =~= before);
            let n: usize = state.manifests.len();
            #[verifier::truncate]
            (n as u32)
        },
        Err(e) => {
            state.fail_counted(e.as_str());
            0
        },
    }
}

/// Whether the manifest declares a capability, or why that cannot be said.
pub open spec fn capability_check(
    manifests: Seq<Option<LoadedManifest>>,
    handle: u32,
    name: Seq<u8>,
) -> Result<bool, Seq<char>> {
    match buffers::input_text(name) {
        Err(e) => Err(e),
        Ok(t) => match buffers::slot(manifests, handle) {
            None => Err("invalid manifest handle"@),
            Some(l) => Ok(manifest::declares(l.manifest.capabilities, text::trimmed(t))),
        },
    }
}

/// 1 where the manifest declares the capability, 0 where it does not, -1 where
/// that cannot be said.
pub fn ailib_check_capability(state: &mut WasmState, handle: u32, name: &Vec<u8>) -> (r: i32)
    ensures
        final(state).last_out@ == old(state).last_out@,
        buffers::same_state(*old(state), *final(state)),
        match capability_check(old(state).manifests@, handle, name@) {
            Ok(b) => r == (if b {
                1i32
            } else {
                0i32
            }) && final(state).last_err@ == Seq::<u8>::empty(),
            Err(t) => r == -1 && final(state).last_err@ == vstd::utf8::encode_utf8(t),
        },
{
    state.clear_err();
    let name = match buffers::read_input_text(name) {
        Ok(s) => s,
        Err(e) => {
            return state.fail(e.as_str());
        },
    };
    let supported = match state.find_slot(handle) {
        Some(l) => Some(l.manifest.supports_capability(text::trim(name.as_str()).as_str())),
        None => None,
    };
    match supported {
        Some(true) => 1,
        Some(false) => 0,
        None => state.fail("invalid manifest handle"),
    }
}

/// The body of a provider's request, or why there is none. `elsewhere` is what
/// the driver of another API than OpenAI's made of it.
pub open spec fn built_body(
    manifests: Seq<Option<LoadedManifest>>,
    handle: u32,
    input: Seq<u8>,
    request: Result<WasmChatRequest, String>,
    elsewhere: Result<json::Json, Seq<char>>,
) -> Result<json::Json, Seq<char>> {
    if input.len() == 0 {
        Err(buffers::no_input())
    } else {
        match request {
            Err(e) => Err("messages json: "@ + e@),
            Ok(q) => match buffers::slot(manifests, handle) {
                None => Err("invalid manifest handle"@),
                Some(l) => if drivers::speaks_openai(l.style) {
                    match drivers::openai_request(buffers::params_of(q)) {
                        Ok(r) => Ok(r.body),
                        Err(e) => Err(error::error_text(e)),
                    }
                } else {
                    elsewhere
                },
            },
        }
    }
}

/// The answer to a request for a body.
pub open spec fn body_reply(body: Result<json::Json, Seq<char>>) -> buffers::Reply {
    match body {
        Ok(b) => buffers::Reply::Out(vstd::utf8::encode_utf8(json::json_text(b))),
        Err(t) => buffers::Reply::Fail(t),
    }
}

/// Writes the body of the provider's request for a chat request. `request` is
/// what the input was read as; `elsewhere` is what the driver of another API
/// than OpenAI's made of it, and counts only for a manifest of such an API.
pub fn ailib_build_chat_request(
    state: &mut WasmState,
    handle: u32,
    input: &Vec<u8>,
    request: Result<WasmChatRequest, String>,
    elsewhere: Result<JsonValue, String>,
) -> (r: i32)
    ensures
        final(state).manifests@ == old(state).manifests@,
        ({
            let body = built_body(
                old(state).manifests@,
                handle,
                input@,
                request,
                buffers::outcome(elsewhere),
            );
            &&& buffers::answered(*old(state), *final(state), r, body_reply(body))
            &&& final(state).metrics == buffers::counted(old(state).metrics, body is Err)
        }),
{
    state.clear_err();
    state.bump_calls();
    if input.len() == 0 {
        return state.fail_counted("null or empty input");
    }
    let q = match request {
        Ok(q) => q,
        Err(e) => {
            return state.fail_counted(text::cat("messages json: ", e.as_str()).as_str());
        },
    };
    let built: Result<JsonValue, String> = match buffers::driver_for_handle(state, handle) {
        Err(e) => Err(e),
        Ok(DriverChoice::OpenAi(d)) => match d.build_request(
            &q.messages,
            q.model.as_str(),
            q.temperature,
            q.max_tokens,
            q.stream,
            None,
        ) {
            Ok(r) => Ok(r.body),
            Err(e) => Err(e.message()),
        },
        Ok(DriverChoice::Other(_)) => elsewhere,
    };
    match built {
        Ok(body) => state.succeed(json::render(&body).as_str()),
        Err(e) => state.fail_counted(e.as_str()),
    }
}

/// A count as JSON, `null` where there is none.
pub open spec fn count_json(n: Option<u64>) -> json::Json {
    match n {
        Some(n) => json::Json::Number(JsonNumber::Unsigned(n)),
        None => json::Json::Null,
    }
}

/// Usage as JSON.
pub open spec fn usage_json(u: UsageInfo) -> json::Json {
    json::Json::Object(
        Map::<Seq<char>, json::Json>::empty().insert(
            "prompt_tokens"@,
            count_json(Some(u.prompt_tokens)),
        ).insert("completion_tokens"@, count_json(Some(u.completion_tokens))).insert(
            "total_tokens"@,
            count_json(Some(u.total_tokens)),
        ).insert("reasoning_tokens"@, count_json(u.reasoning_tokens)).insert(
            "cache_read_tokens"@,
            count_json(u.cache_read_tokens),
        ).insert("cache_creation_tokens"@, count_json(u.cache_creation_tokens)),
    )
}

fn count_value(n: Option<u64>) -> (r: JsonValue)
    ensures
        r@ == count_json(n),
{
    match n {
        Some(n) => JsonValue::number(n),
        None => JsonValue::Null,
    }
}

/// Usage as JSON.
pub fn usage_value(u: &UsageInfo) -> (r: JsonValue)
    ensures
        r@ == usage_json(*u),
{
    JsonValue::object().with("prompt_tokens", count_value(Some(u.prompt_tokens))).with(
        "completion_tokens",
        count_value(Some(u.completion_tokens)),
    ).with("total_tokens", count_value(Some(u.total_tokens))).with(
        "reasoning_tokens",
        count_value(u.reasoning_tokens),
    ).with("cache_read_tokens", count_value(u.cache_read_tokens)).with(
        "cache_creation_tokens",
        count_value(u.cache_creation_tokens),
    )
}

/// The usage field of a normalized response.
pub open spec fn usage_text(u: Option<UsageInfo>) -> Seq<char> {
    match u {
        Some(u) => json::json_text(usage_json(u)),
        None => "null"@,
    }
}

/// The JSON text of a normalized response: what a host needs of it.
pub open spec fn normalized_text(r: drivers::ResponseView) -> Seq<char> {
    record::record_text(
        seq![
            record::field_text("content"@, record::optional_text(r.content)),
            record::field_text("finish_reason"@, record::optional_text(r.finish_reason)),
            record::field_text("usage"@, usage_text(r.usage)),
            record::field_text("tool_calls"@, json::json_text(json::Json::Array(r.tool_calls))),
        ],
    )
}

fn opt_str(s: &Option<String>) -> (r: Option<&str>)
    ensures
        (match r {
            Some(t) => Some(t@),
            None => None,
        }) == text::opt_text(*s),
{
    match s {
        Some(t) => Some(t.as_str()),
        None => None,
    }
}

/// The JSON text of a normalized response.
pub fn write_normalized(r: DriverResponse) -> (s: String)
    ensures
        s@ == normalized_text(r@),
{
    let ghost v = r@;
    let usage = match &r.usage {
        Some(u) => json::render(&usage_value(u)),
        None => "null".to_string(),
    };
    let content = record::write_optional(opt_str(&r.content));
    let finish_reason = record::write_optional(opt_str(&r.finish_reason));
    let fields = vec![
        record::write_field("content", content),
        record::write_field("finish_reason", finish_reason),
        record::write_field("usage", usage),
        record::write_field("tool_calls", json::render(&JsonValue::Array(r.tool_calls))),
    ];
    assert(text::texts(fields@) =~= seq![
        record::field_text("content"@, record::optional_text(v.content)),
        record::field_text("finish_reason"@, record::optional_text(v.finish_reason)),
        record::field_text("usage"@, usage_text(v.usage)),
        record::field_text("tool_calls"@, json::json_text(json::Json::Array(v.tool_calls))),
    ]);
    record::write_record(&fields)
}

/// A provider's response in unified form, or why there is none. `elsewhere` is
/// what the driver of another API than OpenAI's read in it.
pub open spec fn parsed_response(
    manifests: Seq<Option<LoadedManifest>>,
    handle: u32,
    input: Seq<u8>,
    elsewhere: Result<drivers::ResponseView, Seq<char>>,
) -> Result<drivers::ResponseView, Seq<char>> {
    if input.len() == 0 {
        Err(buffers::no_input())
    } else {
        match json::json_parsed(input) {
            Err(e) => Err("response json: "@ + e),
            Ok(body) => read_response(manifests, handle, body, elsewhere),
        }
    }
}

/// The unified form of a provider's response that is JSON.
pub open spec fn read_response(
    manifests: Seq<Option<LoadedManifest>>,
    handle: u32,
    body: json::Json,
    elsewhere: Result<drivers::ResponseView, Seq<char>>,
) -> Result<drivers::ResponseView, Seq<char>> {
    match buffers::slot(manifests, handle) {
        None => Err("invalid manifest handle"@),
        Some(l) => if drivers::speaks_openai(l.style) {
            Ok(drivers::openai_response(body))
        } else {
            elsewhere
        },
    }
}

/// The unified form of a provider's response that is JSON.
pub fn read_chat_response(
    state: &WasmState,
    handle: u32,
    body: &JsonValue,
    elsewhere: Result<DriverResponse, String>,
) -> (r: Result<DriverResponse, String>)
    ensures
        buffers::outcome(r) == read_response(
            state.manifests@,
            handle,
            body@,
            buffers::outcome(elsewhere),
        ),
{
    match buffers::driver_for_handle(state, handle) {
        Err(e) => Err(e),
        Ok(DriverChoice::OpenAi(d)) => match d.parse_response(body) {
            Ok(r) => Ok(r),
            Err(e) => Err(e.message()),
        },
        Ok(DriverChoice::Other(_)) => elsewhere,
    }
}

/// The answer to a response that is to be read.
pub open spec fn response_reply(r: Result<drivers::ResponseView, Seq<char>>) -> buffers::Reply {
    match r {
        Ok(v) => buffers::Reply::Out(vstd::utf8::encode_utf8(normalized_text(v))),
        Err(t) => buffers::Reply::Fail(t),
    }
}

/// The counters after a response was read: one more call, and its tokens.
pub open spec fn response_counted(
    m: WasmMetrics,
    r: Result<drivers::ResponseView, Seq<char>>,
) -> WasmMetrics {
    let c = buffers::counted(m, r is Err);
    match r {
        Ok(v) => match v.usage {
            Some(u) => WasmMetrics {
                total_tokens_in: drivers::capped_sum(c.total_tokens_in, u.prompt_tokens),
                total_tokens_out: drivers::capped_sum(c.total_tokens_out, u.completion_tokens),
                ..c
            },
            None => c,
        },
        Err(_) => c,
    }
}

/// Writes the unified form of a provider's response. `elsewhere` is what the
/// driver of another API than OpenAI's read in it, and counts only for a
/// manifest of such an API.
pub fn ailib_parse_chat_response(
    state: &mut WasmState,
    handle: u32,
    input: &Vec<u8>,
    elsewhere: Result<DriverResponse, String>,
) -> (r: i32)
    ensures
        final(state).manifests@ == old(state).manifests@,
        ({
            let response = parsed_response(
                old(state).manifests@,
                handle,
                input@,
                buffers::outcome(elsewhere),
            );
            &&& buffers::answered(*old(state), *final(state), r, response_reply(response))
            &&& final(state).metrics == response_counted(old(state).metrics, response)
        }),
{
    state.clear_err();
    state.bump_calls();
    if input.len() == 0 {
        return state.fail_counted("null or empty input");
    }
    let body = match json::parse_bytes(input.as_slice()) {
        Ok(v) => v,
        Err(e) => {
            return state.fail_counted(text::cat("response json: ", e.as_str()).as_str());
        },
    };
    match read_chat_response(state, handle, &body, elsewhere) {
        Ok(response) => {
            if let Some(u) = &response.usage {
                state.metrics.total_tokens_in = drivers::add_counts(
                    state.metrics.total_tokens_in,
                    u.prompt_tokens,
                );
                state.metrics.total_tokens_out = drivers::add_counts(
                    state.metrics.total_tokens_out,
                    u.completion_tokens,
                );
            }
            let s = write_normalized(response);
            state.succeed(s.as_str())
        },
        Err(e) => state.fail_counted(e.as_str()),
    }
}

/// The class name in the body of an error: that of `error.type`, where there is
/// such a field, else that of `type`.
pub open spec fn class_in(v: json::Json) -> Seq<char> {
    let field = match json::field_in(v.field("error"@), "type"@) {
        Some(t) => Some(t),
        None => v.field("type"@),
    };
    match json::text_in(field) {
        Some(t) => t,
        None => ""@,
    }
}

/// The class of an error with a body: the one that the body names, where it is
/// a known one, else that of the status.
pub open spec fn classified_by(status: u16, v: json::Json) -> StandardErrorCode {
    if error_code::class_named(class_in(v)) == StandardErrorCode::Unknown {
        error_code::class_of_status(status)
    } else {
        error_code::class_named(class_in(v))
    }
}

/// The class of an error.
pub open spec fn classified(status: u16, body: Seq<u8>) -> StandardErrorCode {
    if body.len() == 0 {
        error_code::class_of_status(status)
    } else {
        match json::json_parsed(body) {
            Ok(v) => classified_by(status, v),
            Err(_) => error_code::class_of_status(status),
        }
    }
}

/// The answer to an error that is to be classified.
pub open spec fn class_reply(c: StandardErrorCode) -> buffers::Reply {
    buffers::Reply::Out(
        vstd::utf8::encode_utf8(
            json::json_text(
                json::Json::Object(
                    Map::<Seq<char>, json::Json>::empty().insert(
                        "code"@,
                        json::Json::Str(error_code::code_of(c)),
                    ),
                ),
            ),
        ),
    )
}

/// The class of an error with a body.
pub fn classify_body(status: u16, v: &JsonValue) -> (r: StandardErrorCode)
    ensures
        r == classified_by(status, v@),
{
    let field = match json::field_of(v.get("error"), "type") {
        Some(t) => Some(t),
        None => v.get("type"),
    };
    let class = match json::text_of(field) {
        Some(t) => t,
        None => "".to_string(),
    };
    let c = StandardErrorCode::from_error_class(class.as_str());
    if c == StandardErrorCode::Unknown {
        StandardErrorCode::from_http_status(status)
    } else {
        c
    }
}

/// Writes the standard code of an HTTP error.
pub fn ailib_classify_error(state: &mut WasmState, status_code: u16, body: &Vec<u8>) -> (r: i32)
    ensures
        buffers::answered(
            *old(state),
            *final(state),
            r,
            class_reply(classified(status_code, body@)),
        ),
        buffers::same_state(*old(state), *final(state)),
{
    state.clear_err();
    let code = if body.len() == 0 {
        StandardErrorCode::from_http_status(status_code)
    } else {
        match json::parse_bytes(body.as_slice()) {
            Ok(v) => classify_body(status_code, &v),
            Err(_) => StandardErrorCode::from_http_status(status_code),
        }
    };
    let out = JsonValue::object().with("code", JsonValue::string(code.code()));
    state.succeed(json::render(&out).as_str())
}

/// The usage object in a response, empty where there is none.
pub open spec fn usage_in(body: json::Json) -> json::Json {
    match body.field("usage"@) {
        Some(u) => u,
        None => json::Json::Object(Map::empty()),
    }
}

/// The usage object in a response, empty where there is none.
pub fn find_usage(body: &JsonValue) -> (r: JsonValue)
    ensures
        r@ == usage_in(body@),
{
    match body.get("usage") {
        Some(u) => u.copy(),
        None => JsonValue::object(),
    }
}

/// The answer to a response whose usage is asked for.
pub open spec fn usage_reply(input: Seq<u8>) -> buffers::Reply {
    if input.len() == 0 {
        buffers::Reply::Fail(buffers::no_input())
    } else {
        match json::json_parsed(input) {
            Ok(v) => buffers::Reply::Out(vstd::utf8::encode_utf8(json::json_text(usage_in(v)))),
            Err(e) => buffers::Reply::Fail("response json: "@ + e),
        }
    }
}

/// Writes the usage object of a response.
pub fn ailib_extract_usage(state: &mut WasmState, input: &Vec<u8>) -> (r: i32)
    ensures
        buffers::answered(*old(state), *final(state), r, usage_reply(input@)),
        buffers::same_state(*old(state), *final(state)),
{
    state.clear_err();
    if input.len() == 0 {
        return state.fail("null or empty input");
    }
    match json::parse_bytes(input.as_slice()) {
        Ok(v) => {
            let s = json::render(&find_usage(&v));
            state.succeed(s.as_str())
        },
        Err(e) => state.fail(text::cat("response json: ", e.as_str()).as_str()),
    }
}

/// A manifest that was loaded is found under its handle, with the bytes that it
/// came from; the handles before it lead where they led.
pub proof fn loaded_manifest_is_found(
    before: WasmState,
    after: WasmState,
    handle: u32,
    bytes: Seq<u8>,
    manifest: ProtocolManifest,
    style: ApiStyle,
    earlier: u32,
)
    requires
        manifest_loaded(before, after, handle, bytes, Ok((manifest, style))),
        bytes.len() > 0,
        before.manifests@.len() < u32::MAX,
        earlier <= before.manifests@.len(),
    ensures
        handle == before.manifests@.len() + 1,
        buffers::slot(after.manifests@, handle) matches Some(l) && l.manifest == manifest && l.style
            == style && l.raw@ == bytes,
        buffers::slot(after.manifests@, earlier) == buffers::slot(before.manifests@, earlier),
        after.last_err@.len() == 0,
{
    if earlier > 0 {
        assert(after.manifests@.drop_last()[earlier - 1] == after.manifests@[earlier - 1]);
    }
}

/// A manifest that is missing or not valid is refused, and nothing is kept.
pub proof fn bad_manifest_is_refused(
    before: WasmState,
    after: WasmState,
    handle: u32,
    bytes: Seq<u8>,
    loaded: Loaded,
)
    requires
        manifest_loaded(before, after, handle, bytes, loaded),
        bytes.len() == 0 || loaded is Err,
    ensures
        handle == 0,
        after.manifests@ == before.manifests@,
        bytes.len() > 0 ==> (loaded matches Err(e) && after.last_err@ == vstd::utf8::encode_utf8(
            e@,
        )),
{
}

/// A capability is supported where the manifest behind the handle declares it,
/// white space around its name aside.
pub proof fn declared_capability_is_supported(
    manifests: Seq<Option<LoadedManifest>>,
    handle: u32,
    name: Seq<char>,
)
    requires
        name.len() > 0,
    ensures
        match buffers::slot(manifests, handle) {
            Some(l) => capability_check(manifests, handle, vstd::utf8::encode_utf8(name)) == Ok::<
                bool,
                Seq<char>,
            >(manifest::declares(l.manifest.capabilities, text::trimmed(name))),
            None => capability_check(manifests, handle, vstd::utf8::encode_utf8(name)) is Err,
        },
{
    buffers::host_text_is_read_back(name);
}

/// For a manifest of the OpenAI kind the body is the one for what the request
/// asks; another kind's driver makes its own; without a manifest there is none.
pub proof fn requests_are_built_for_the_manifest(
    manifests: Seq<Option<LoadedManifest>>,
    handle: u32,
    input: Seq<u8>,
    q: WasmChatRequest,
    elsewhere: Result<json::Json, Seq<char>>,
)
    requires
        input.len() > 0,
    ensures
        ({
            let r = built_body(manifests, handle, input, Ok(q), elsewhere);
            match buffers::slot(manifests, handle) {
                None => r is Err,
                Some(l) => if l.style == ApiStyle::OpenAiCompatible || l.style == ApiStyle::Custom {
                    let p = drivers::asked(
                        q.messages@,
                        q.model@,
                        q.temperature,
                        q.max_tokens,
                        q.stream,
                        None,
                    );
                    &&& !drivers::any_document(p.messages) ==> r == Ok::<json::Json, Seq<char>>(
                        drivers::openai_body(p),
                    )
                    &&& drivers::any_document(p.messages) ==> r is Err
                } else {
                    r == elsewhere
                },
            }
        }),
{
}

/// The conversation of a request stands in the body that is written, message by
/// message.
pub proof fn built_bodies_keep_the_conversation(
    manifests: Seq<Option<LoadedManifest>>,
    handle: u32,
    input: Seq<u8>,
    q: WasmChatRequest,
    elsewhere: Result<json::Json, Seq<char>>,
    body: json::Json,
)
    requires
        built_body(manifests, handle, input, Ok(q), elsewhere) == Ok::<json::Json, Seq<char>>(body),
        buffers::slot(manifests, handle) matches Some(l) && (l.style == ApiStyle::OpenAiCompatible
            || l.style == ApiStyle::Custom),
    ensures
        body.field("messages"@) matches Some(json::Json::Array(list)) && list.len()
            == q.messages@.len(),
        forall|k: int|
            0 <= k < q.messages@.len() ==> drivers::sent_message(
                #[trigger] json::item_in(body.field("messages"@), k),
                q.messages@[k],
            ),
{
    drivers::messages_are_sent_in_order(
        q.messages@,
        q.model@,
        q.temperature,
        q.max_tokens,
        q.stream,
        None,
    );
}

proof fn reveal_usage_keys()
    ensures
        "prompt_tokens"@.len() == 13,
        "completion_tokens"@.len() == 17,
        "total_tokens"@.len() == 12,
        "reasoning_tokens"@.len() == 16,
        "cache_read_tokens"@.len() == 17,
        "cache_creation_tokens"@.len() == 21,
        "completion_tokens"@ != "cache_read_tokens"@,
{
    reveal_strlit("prompt_tokens");
    reveal_strlit("completion_tokens");
    reveal_strlit("total_tokens");
    reveal_strlit("reasoning_tokens");
    reveal_strlit("cache_read_tokens");
    reveal_strlit("cache_creation_tokens");
    assert("completion_tokens"@[1] != "cache_read_tokens"@[1]);
}

/// Usage is written with every count under its own name, and `null` for counts
/// that are not known.
pub proof fn usage_is_written_whole(u: UsageInfo)
    ensures
        ({
            let j = usage_json(u);
            let number = |n: u64| Some(json::Json::Number(JsonNumber::Unsigned(n)));
            &&& j.field("prompt_tokens"@) == number(u.prompt_tokens)
            &&& j.field("completion_tokens"@) == number(u.completion_tokens)
            &&& j.field("total_tokens"@) == number(u.total_tokens)
            &&& j.field("reasoning_tokens"@) == (match u.reasoning_tokens {
                Some(n) => number(n),
                None => Some(json::Json::Null),
            })
            &&& j.field("cache_read_tokens"@) == (match u.cache_read_tokens {
                Some(n) => number(n),
                None => Some(json::Json::Null),
            })
            &&& j.field("cache_creation_tokens"@) == (match u.cache_creation_tokens {
                Some(n) => number(n),
                None => Some(json::Json::Null),
            })
        }),
{
    reveal_usage_keys();
}

/// A response is written with its content, its finish reason, its usage and all
/// of its tool calls, each as JSON and `null` where it is missing.
pub proof fn responses_are_written_whole(r: drivers::ResponseView)
    ensures
        ({
            let content = match r.content {
                Some(t) => json::json_text(json::Json::Str(t)),
                None => "null"@,
            };
            let reason = match r.finish_reason {
                Some(t) => json::json_text(json::Json::Str(t)),
                None => "null"@,
            };
            let usage = match r.usage {
                Some(u) => json::json_text(usage_json(u)),
                None => "null"@,
            };
            let calls = json::json_text(json::Json::Array(r.tool_calls));
            normalized_text(r) == record::record_text(
                seq![
                    record::field_text("content"@, content),
                    record::field_text("finish_reason"@, reason),
                    record::field_text("usage"@, usage),
                    record::field_text("tool_calls"@, calls),
                ],
            )
        }),
{
}

/// A response is read by the driver of the manifest behind the handle.
pub proof fn responses_are_read_for_the_manifest(
    manifests: Seq<Option<LoadedManifest>>,
    handle: u32,
    input: Seq<u8>,
    elsewhere: Result<drivers::ResponseView, Seq<char>>,
)
    requires
        input.len() > 0,
    ensures
        ({
            let r = parsed_response(manifests, handle, input, elsewhere);
            match (json::json_parsed(input), buffers::slot(manifests, handle)) {
                (Ok(body), Some(l)) => if l.style == ApiStyle::OpenAiCompatible || l.style
                    == ApiStyle::Custom {
                    r == Ok::<drivers::ResponseView, Seq<char>>(drivers::openai_response(body))
                } else {
                    r == elsewhere
                },
                _ => r is Err,
            }
        }),
{
}

/// The tokens of a response are added to those taken in and given out; without
/// usage they stay.
pub proof fn response_tokens_are_counted(
    m: WasmMetrics,
    r: Result<drivers::ResponseView, Seq<char>>,
)
    ensures
        ({
            let c = response_counted(m, r);
            &&& m.total_calls < u64::MAX ==> c.total_calls == m.total_calls + 1
            &&& r is Err && m.total_errors < u64::MAX ==> c.total_errors == m.total_errors + 1
            &&& r is Ok ==> c.total_errors == m.total_errors
            &&& match r {
                Ok(v) => match v.usage {
                    Some(u) => {
                        &&& m.total_tokens_in + u.prompt_tokens <= u64::MAX ==> c.total_tokens_in
                            == m.total_tokens_in + u.prompt_tokens
                        &&& m.total_tokens_out + u.completion_tokens <= u64::MAX
                            ==> c.total_tokens_out == m.total_tokens_out + u.completion_tokens
                    },
                    None => c.total_tokens_in == m.total_tokens_in && c.total_tokens_out
                        == m.total_tokens_out,
                },
                Err(_) => c.total_tokens_in == m.total_tokens_in && c.total_tokens_out
                    == m.total_tokens_out,
            }
        }),
{
}

/// The class that the body of an error names counts where it is known, under
/// `error.type` before `type`; otherwise the status decides.
pub proof fn body_counts_before_status(status: u16, v: json::Json)
    ensures
        ({
            let named = match json::field_in(v.field("error"@), "type"@) {
                Some(json::Json::Str(t)) => Some(t),
                Some(_) => None,
                None => match v.field("type"@) {
                    Some(json::Json::Str(t)) => Some(t),
                    _ => None,
                },
            };
            &&& named matches Some(t) ==> error_code::class_named(t) != StandardErrorCode::Unknown
                ==> classified_by(status, v) == error_code::class_named(t)
            &&& named matches Some(t) ==> error_code::class_named(t) == StandardErrorCode::Unknown
                ==> classified_by(status, v) == error_code::class_of_status(status)
            &&& named is None ==> classified_by(status, v) == error_code::class_of_status(status)
        }),
{
    reveal_strlit("");
    reveal_strlit("invalid_request");
    reveal_strlit("authentication");
    reveal_strlit("permission_denied");
    reveal_strlit("not_found");
    reveal_strlit("request_too_large");
    reveal_strlit("rate_limited");
    reveal_strlit("quota_exhausted");
    reveal_strlit("server_error");
    reveal_strlit("overloaded");
    reveal_strlit("timeout");
    reveal_strlit("conflict");
    reveal_strlit("cancelled");
    assert(""@.len() == 0);
    assert("invalid_request"@.len() > 0 && "authentication"@.len() > 0);
    assert("permission_denied"@.len() > 0 && "not_found"@.len() > 0);
    assert("request_too_large"@.len() > 0 && "rate_limited"@.len() > 0);
    assert("quota_exhausted"@.len() > 0 && "server_error"@.len() > 0);
    assert("overloaded"@.len() > 0 && "timeout"@.len() > 0 && "conflict"@.len() > 0);
    assert("cancelled"@.len() > 0);
}

/// An error without a body, or with one that is no JSON, goes by its status.
pub proof fn status_decides_without_a_body(status: u16, body: Seq<u8>)
    ensures
        body.len() == 0 || json::json_parsed(body) is Err ==> classified(status, body)
            == error_code::class_of_status(status),
        body.len() > 0 ==> (json::json_parsed(body) matches Ok(v) ==> classified(status, body)
            == classified_by(status, v)),
{
}

/// The usage of a response is handed on as the provider wrote it, and is an
/// empty object where there is none.
pub proof fn usage_is_handed_on(body: json::Json)
    ensures
        body.field("usage"@) matches Some(u) ==> usage_in(body) == u,
        body.field("usage"@) is None ==> (usage_in(body) is Object && forall|key: Seq<char>|
            #[trigger]
            usage_in(body).field(key) is None),
{
}

} // verus!
