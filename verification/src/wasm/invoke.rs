//! One entry point for all operations, by name.

use crate::credentials;
use crate::drivers::DriverResponse;
use crate::json;
use crate::json::JsonValue;
use crate::protocol::manifest::ProtocolManifest;
use crate::record;
use crate::text;
use crate::wasm::abi;
use crate::wasm::buffers;
use crate::wasm::buffers::{LoadedManifest, WasmChatRequest, WasmState};
use crate::wasm::snapshot_ops;
use crate::wasm::state;
use crate::wasm::state::WasmStateSnapshot;
use crate::wasm::v1;
use crate::wasm::v1::Loaded;
use crate::wasm::AILIB_ABI_VERSION;
use vstd::prelude::*;

verus! {

broadcast use vstd::string::group_string_axioms;

/// What a host says about a call.
#[derive(Debug, Clone, Copy, PartialEq, Eq, Structural)]
pub struct InvokeCtx {
    /// The version of the interface that the host speaks.
    pub version: u32,
    pub manifest_handle: Option<u32>,
    pub status_code: Option<u16>,
}

/// What holds of a call where the host says nothing.
pub open spec fn default_ctx() -> InvokeCtx {
    InvokeCtx { version: 1, manifest_handle: None, status_code: None }
}

impl Default for InvokeCtx {
    fn default() -> (r: Self)
        ensures
            r == default_ctx(),
    {
        InvokeCtx { version: 1, manifest_handle: None, status_code: None }
    }
}

/// The input of a capability check.
#[derive(Debug)]
pub struct CheckCapabilityInput {
    pub handle: Option<u32>,
    pub name: String,
}

/// The input of a credential report.
pub struct ResolveCredentialInput {
    pub handle: Option<u32>,
    pub explicit_credential: Option<String>,
}

/// What the input bytes of an operation were read as.
pub enum TypedInput {
    /// The operation takes the bytes as they are, or none.
    Plain,
    Manifest(Loaded),
    Capability(Result<CheckCapabilityInput, String>),
    /// The request, and what the driver of another API than OpenAI's made of it.
    Chat { request: Result<WasmChatRequest, String>, body: Result<JsonValue, String> },
    /// What the driver of another API than OpenAI's read in a response.
    Response(Result<DriverResponse, String>),
    Credential(Result<ResolveCredentialInput, String>),
    /// The snapshot, and what each of its manifests was found to be.
    Snapshot { snapshot: Result<WasmStateSnapshot, String>, loaded: Vec<Loaded> },
}

/// What the input bytes of an operation are to be read as.
#[derive(Clone, Copy, PartialEq, Eq, Structural, Debug)]
pub enum InputKind {
    Plain,
    Manifest,
    Capability,
    Chat,
    Response,
    Credential,
    Snapshot,
}

/// What the input of an operation is to be read as.
pub open spec fn kind_of(op: Seq<char>) -> InputKind {
    if op == "load_manifest"@ {
        InputKind::Manifest
    } else if op == "check_capability"@ {
        InputKind::Capability
    } else if op == "build_request"@ {
        InputKind::Chat
    } else if op == "parse_response"@ {
        InputKind::Response
    } else if op == "resolve_credential"@ {
        InputKind::Credential
    } else if op == "restore_state"@ {
        InputKind::Snapshot
    } else {
        InputKind::Plain
    }
}

/// What the input of an operation is to be read as. An operation without a
/// readable name takes its input as it is.
pub open spec fn kind_for(op: Seq<u8>) -> InputKind {
    match buffers::input_text(op) {
        Ok(t) => kind_of(t),
        Err(_) => InputKind::Plain,
    }
}

fn kind_by_name(op: &str) -> (r: InputKind)
    ensures
        r == kind_of(op@),
{
    if text::text_eq(op, "load_manifest") {
        InputKind::Manifest
    } else if text::text_eq(op, "check_capability") {
        InputKind::Capability
    } else if text::text_eq(op, "build_request") {
        InputKind::Chat
    } else if text::text_eq(op, "parse_response") {
        InputKind::Response
    } else if text::text_eq(op, "resolve_credential") {
        InputKind::Credential
    } else if text::text_eq(op, "restore_state") {
        InputKind::Snapshot
    } else {
        InputKind::Plain
    }
}

/// What the input of an operation is to be read as, before it is invoked.
pub fn input_kind(op: &Vec<u8>) -> (r: InputKind)
    ensures
        r == kind_for(op@),
{
    match buffers::read_input_text(op) {
        Ok(t) => kind_by_name(t.as_str()),
        Err(_) => InputKind::Plain,
    }
}

/// The input was read as what the operation takes.
pub open spec fn suits(kind: InputKind, typed: TypedInput) -> bool {
    match kind {
        InputKind::Plain => true,
        InputKind::Manifest => typed is Manifest,
        InputKind::Capability => typed is Capability,
        InputKind::Chat => typed is Chat,
        InputKind::Response => typed is Response,
        InputKind::Credential => typed is Credential,
        InputKind::Snapshot => match typed {
            TypedInput::Snapshot { snapshot, loaded } => snapshot_ops::all_looked_at(
                snapshot,
                loaded@,
            ),
            _ => false,
        },
    }
}

/// The handle that counts: the input's, else the host's.
pub open spec fn handle_in(input: Option<u32>, ctx: InvokeCtx) -> Option<u32> {
    match input {
        Some(h) => Some(h),
        None => ctx.manifest_handle,
    }
}

fn pick_handle(input: Option<u32>, ctx: &InvokeCtx) -> (r: Option<u32>)
    ensures
        r == handle_in(input, *ctx),
{
    match input {
        Some(h) => Some(h),
        None => ctx.manifest_handle,
    }
}

/// The answer with a JSON object of one entry.
pub open spec fn entry_reply(key: Seq<char>, value: json::Json) -> buffers::Reply {
    buffers::Reply::Out(
        vstd::utf8::encode_utf8(
            json::json_text(json::Json::Object(abi::no_entries().insert(key, value))),
        ),
    )
}

/// A manifest was loaded and its handle written, or the error says why not.
pub open spec fn load_done(
    before: WasmState,
    after: WasmState,
    code: i32,
    input: Seq<u8>,
    loaded: Loaded,
) -> bool {
    match v1::load_error(input, loaded) {
        Some(t) => {
            &&& buffers::answered(before, after, code, buffers::Reply::Fail(t))
            &&& after.manifests@ == before.manifests@
            &&& after.metrics == buffers::counted(before.metrics, true)
        },
        None => {
            let handle = after.manifests@.len() as u32;
            &&& after.last_err@ == Seq::<u8>::empty()
            &&& after.manifests@.len() == before.manifests@.len() + 1
            &&& after.manifests@.drop_last() == before.manifests@
            &&& v1::holds_loaded(after.manifests@.last(), loaded->Ok_0, input)
            &&& after.metrics == buffers::counted(before.metrics, false)
            &&& if handle == 0 {
                code == -1 && after.last_out@ == before.last_out@
            } else {
                buffers::answered(
                    before,
                    after,
                    code,
                    entry_reply("handle"@, abi::number_json(handle as u64)),
                )
            }
        },
    }
}

fn load_manifest_bytes(state: &mut WasmState, input: &Vec<u8>, loaded: Loaded) -> (r: i32)
    ensures
        load_done(*old(state), *final(state), r, input@, loaded),
{
    let h: u32 = v1::ailib_load_manifest(state, input, loaded);
    if h == 0 {
        return -1;
    }
    let out = JsonValue::object().with("handle", JsonValue::number(h as u64));
    state.succeed(json::render(&out).as_str())
}

/// The answer to a capability check.
pub open spec fn check_reply(
    manifests: Seq<Option<LoadedManifest>>,
    ctx: InvokeCtx,
    input: Seq<u8>,
    read: Result<CheckCapabilityInput, String>,
) -> buffers::Reply {
    if input.len() == 0 {
        buffers::Reply::Fail("input required"@)
    } else {
        match read {
            Err(e) => buffers::Reply::Fail("input json: "@ + e@),
            Ok(q) => match handle_in(q.handle, ctx) {
                None => buffers::Reply::Fail(
                    "check_capability: missing manifest handle (in ctx or input)"@,
                ),
                Some(h) => match v1::capability_check(
                    manifests,
                    h,
                    vstd::utf8::encode_utf8(q.name@),
                ) {
                    Ok(b) => entry_reply("supported"@, json::Json::Bool(b)),
                    Err(t) => buffers::Reply::Fail(t),
                },
            },
        }
    }
}

fn invoke_check_capability(
    state: &mut WasmState,
    ctx: &InvokeCtx,
    input: &Vec<u8>,
    read: Result<CheckCapabilityInput, String>,
) -> (r: i32)
    ensures
        buffers::answered(
            *old(state),
            *final(state),
            r,
            check_reply(old(state).manifests@, *ctx, input@, read),
        ),
        buffers::same_state(*old(state), *final(state)),
{
    if input.len() == 0 {
        return state.fail("input required");
    }
    let q = match read {
        Ok(q) => q,
        Err(e) => {
            return state.fail(text::cat("input json: ", e.as_str()).as_str());
        },
    };
    let handle: u32 = match pick_handle(q.handle, ctx) {
        Some(h) => h,
        None => {
            return state.fail("check_capability: missing manifest handle (in ctx or input)");
        },
    };
    let name = text::bytes_of(q.name.as_str());
    let supported: i32 = v1::ailib_check_capability(state, handle, &name);
    if supported < 0 {
        return -1;
    }
    let out = JsonValue::object().with("supported", JsonValue::Bool(supported == 1));
    state.succeed(json::render(&out).as_str())
}

/// A request body was built, or the error says why not. Without a handle
/// nothing is tried, and nothing counted.
pub open spec fn build_done(
    before: WasmState,
    after: WasmState,
    code: i32,
    ctx: InvokeCtx,
    input: Seq<u8>,
    request: Result<WasmChatRequest, String>,
    elsewhere: Result<json::Json, Seq<char>>,
) -> bool {
    match ctx.manifest_handle {
        None => buffers::answered(
            before,
            after,
            code,
            buffers::Reply::Fail("build_request: ctx.manifest_handle required"@),
        ) && buffers::same_state(before, after),
        Some(h) => {
            let body = v1::built_body(before.manifests@, h, input, request, elsewhere);
            &&& buffers::answered(before, after, code, v1::body_reply(body))
            &&& after.manifests@ == before.manifests@
            &&& after.metrics == buffers::counted(before.metrics, body is Err)
        },
    }
}

fn invoke_build_request(
    state: &mut WasmState,
    ctx: &InvokeCtx,
    input: &Vec<u8>,
    request: Result<WasmChatRequest, String>,
    elsewhere: Result<JsonValue, String>,
) -> (r: i32)
    ensures
        build_done(
            *old(state),
            *final(state),
            r,
            *ctx,
            input@,
            request,
            buffers::outcome(elsewhere),
        ),
{
    match ctx.manifest_handle {
        Some(h) => v1::ailib_build_chat_request(state, h, input, request, elsewhere),
        None => state.fail("build_request: ctx.manifest_handle required"),
    }
}

/// A response was read, or the error says why not. Without a handle nothing is
/// tried, and nothing counted.
pub open spec fn parse_done(
    before: WasmState,
    after: WasmState,
    code: i32,
    ctx: InvokeCtx,
    input: Seq<u8>,
    elsewhere: Result<crate::drivers::ResponseView, Seq<char>>,
) -> bool {
    match ctx.manifest_handle {
        None => buffers::answered(
            before,
            after,
            code,
            buffers::Reply::Fail("parse_response: ctx.manifest_handle required"@),
        ) && buffers::same_state(before, after),
        Some(h) => {
            let response = v1::parsed_response(before.manifests@, h, input, elsewhere);
            &&& buffers::answered(before, after, code, v1::response_reply(response))
            &&& after.manifests@ == before.manifests@
            &&& after.metrics == v1::response_counted(before.metrics, response)
        },
    }
}

fn invoke_parse_response(
    state: &mut WasmState,
    ctx: &InvokeCtx,
    input: &Vec<u8>,
    elsewhere: Result<DriverResponse, String>,
) -> (r: i32)
    ensures
        parse_done(*old(state), *final(state), r, *ctx, input@, buffers::outcome(elsewhere)),
{
    match ctx.manifest_handle {
        Some(h) => v1::ailib_parse_chat_response(state, h, input, elsewhere),
        None => state.fail("parse_response: ctx.manifest_handle required"),
    }
}

/// The status in the body of an error, where it is one.
pub open spec fn status_in(v: json::Json) -> Option<u16> {
    match v.field("status_code"@) {
        Some(n) => match n.natural() {
            Some(n) => if n <= u16::MAX {
                Some(n as u16)
            } else {
                None
            },
            None => None,
        },
        None => None,
    }
}

/// The status in the body of an error, where it is one.
pub fn find_status(v: &JsonValue) -> (r: Option<u16>)
    ensures
        r == status_in(v@),
{
    match v.get("status_code") {
        Some(n) => match n.as_u64() {
            Some(n) => if n <= 65535 {
                Some(n as u16)
            } else {
                None
            },
            None => None,
        },
        None => None,
    }
}

/// The status that counts: the host's, else the one in the input.
pub open spec fn status_for(ctx: InvokeCtx, input: Seq<u8>) -> Result<u16, Seq<char>> {
    match ctx.status_code {
        Some(s) => Ok(s),
        None => if input.len() == 0 {
            Err("classify_error: status_code required in ctx or input"@)
        } else {
            match json::json_parsed(input) {
                Err(e) => Err("classify_error input: "@ + e),
                Ok(v) => match status_in(v) {
                    Some(s) => Ok(s),
                    None => Err("classify_error: status_code required in ctx or input"@),
                },
            }
        },
    }
}

/// The answer to an error that is to be classified.
pub open spec fn classify_reply(ctx: InvokeCtx, input: Seq<u8>) -> buffers::Reply {
    match status_for(ctx, input) {
        Ok(s) => v1::class_reply(v1::classified(s, input)),
        Err(t) => buffers::Reply::Fail(t),
    }
}

fn invoke_classify_error(state: &mut WasmState, ctx: &InvokeCtx, input: &Vec<u8>) -> (r: i32)
    ensures
        buffers::answered(*old(state), *final(state), r, classify_reply(*ctx, input@)),
        buffers::same_state(*old(state), *final(state)),
{
    let status: Option<u16> = match ctx.status_code {
        Some(s) => Some(s),
        None => if input.len() == 0 {
            None
        } else {
            match json::parse_bytes(input.as_slice()) {
                Ok(v) => find_status(&v),
                Err(e) => {
                    return state.fail(text::cat("classify_error input: ", e.as_str()).as_str());
                },
            }
        },
    };
    match status {
        Some(s) => v1::ailib_classify_error(state, s, input),
        None => state.fail("classify_error: status_code required in ctx or input"),
    }
}

/// What is reported of a credential: whether the host supplied one, and which
/// variables a host may look into. The credential itself has no part in it.
pub open spec fn report_text(
    supplied: bool,
    required: Seq<Seq<char>>,
    conventional: Seq<Seq<char>>,
) -> Seq<char> {
    record::record_text(
        seq![
            record::field_text(
                "status"@,
                record::string_text(
                    if supplied {
                        "available"@
                    } else {
                        "missing"@
                    },
                ),
            ),
            record::field_text(
                "source_kind"@,
                record::string_text(
                    if supplied {
                        "explicit"@
                    } else {
                        "none"@
                    },
                ),
            ),
            record::field_text(
                "source_name"@,
                record::optional_text(
                    if supplied {
                        Some("host_supplied"@)
                    } else {
                        None
                    },
                ),
            ),
            record::field_text("required"@, record::list_text(record::strings_of(required))),
            record::field_text(
                "conventional_fallbacks"@,
                record::list_text(record::strings_of(conventional)),
            ),
            record::field_text("implicit_env_allowed"@, record::bool_text(false)),
            record::field_text("implicit_keyring_allowed"@, record::bool_text(false)),
            record::field_text("value_redacted"@, record::bool_text(true)),
        ],
    )
}

/// The host supplied a credential that is not blank.
pub open spec fn is_supplied(explicit: Option<String>) -> bool {
    match explicit {
        Some(s) => text::trimmed(s@).len() > 0,
        None => false,
    }
}

/// What is reported of a credential for a manifest.
pub open spec fn report_for(m: ProtocolManifest, explicit: Option<String>) -> Seq<char> {
    report_text(
        is_supplied(explicit),
        credentials::manifest_envs(m),
        credentials::conventional_names(credentials::provider_name(m)),
    )
}

/// The answer to a request for a credential report.
pub open spec fn credential_reply(
    manifests: Seq<Option<LoadedManifest>>,
    ctx: InvokeCtx,
    input: Seq<u8>,
    read: Result<ResolveCredentialInput, String>,
) -> buffers::Reply {
    if input.len() == 0 {
        buffers::Reply::Fail("input required"@)
    } else {
        match read {
            Err(e) => buffers::Reply::Fail("input json: "@ + e@),
            Ok(q) => match handle_in(q.handle, ctx) {
                None => buffers::Reply::Fail(
                    "resolve_credential: missing manifest handle (in ctx or input)"@,
                ),
                Some(h) => match buffers::slot(manifests, h) {
                    None => buffers::Reply::Fail("invalid manifest handle"@),
                    Some(l) => buffers::Reply::Out(
                        vstd::utf8::encode_utf8(report_for(l.manifest, q.explicit_credential)),
                    ),
                },
            },
        }
    }
}

/// Writes what is reported of a credential.
pub fn write_report(supplied: bool, required: &Vec<String>, conventional: &Vec<String>) -> (r:
    String)
    ensures
        r@ == report_text(supplied, text::texts(required@), text::texts(conventional@)),
{
    let status = if supplied {
        "available"
    } else {
        "missing"
    };
    let kind = if supplied {
        "explicit"
    } else {
        "none"
    };
    let name = if supplied {
        Some("host_supplied")
    } else {
        None
    };
    let fields = vec![
        record::write_field("status", record::write_string(status)),
        record::write_field("source_kind", record::write_string(kind)),
        record::write_field("source_name", record::write_optional(name)),
        record::write_field("required", record::write_strings(required)),
        record::write_field("conventional_fallbacks", record::write_strings(conventional)),
        record::write_field("implicit_env_allowed", record::write_bool(false)),
        record::write_field("implicit_keyring_allowed", record::write_bool(false)),
        record::write_field("value_redacted", record::write_bool(true)),
    ];
    assert(text::texts(fields@) =~= seq![
        record::field_text("status"@, record::string_text(status@)),
        record::field_text("source_kind"@, record::string_text(kind@)),
        record::field_text(
            "source_name"@,
            record::optional_text(
                if supplied {
                    Some("host_supplied"@)
                } else {
                    None
                },
            ),
        ),
        record::field_text(
            "required"@,
            record::list_text(record::strings_of(text::texts(required@))),
        ),
        record::field_text(
            "conventional_fallbacks"@,
            record::list_text(record::strings_of(text::texts(conventional@))),
        ),
        record::field_text("implicit_env_allowed"@, record::bool_text(false)),
        record::field_text("implicit_keyring_allowed"@, record::bool_text(false)),
        record::field_text("value_redacted"@, record::bool_text(true)),
    ]);
    record::write_record(&fields)
}

/// Writes what is reported of the credential for a manifest. Only a credential
/// that the host supplies counts: neither the environment nor a keyring is
/// looked into.
pub fn ailib_invoke_resolve_credential(
    state: &mut WasmState,
    ctx: &InvokeCtx,
    input: &Vec<u8>,
    read: Result<ResolveCredentialInput, String>,
) -> (r: i32)
    ensures
        buffers::answered(
            *old(state),
            *final(state),
            r,
            credential_reply(old(state).manifests@, *ctx, input@, read),
        ),
        buffers::same_state(*old(state), *final(state)),
{
    state.clear_err();
    if input.len() == 0 {
        return state.fail("input required");
    }
    let q = match read {
        Ok(q) => q,
        Err(e) => {
            return state.fail(text::cat("input json: ", e.as_str()).as_str());
        },
    };
    let handle: u32 = match pick_handle(q.handle, ctx) {
        Some(h) => h,
        None => {
            return state.fail("resolve_credential: missing manifest handle (in ctx or input)");
        },
    };
    let supplied = match &q.explicit_credential {
        Some(s) => !text::is_blank(s.as_str()),
        None => false,
    };
    let report = match state.find_slot(handle) {
        Some(l) => Some(
            write_report(
                supplied,
                &credentials::required_envs(&l.manifest),
                &credentials::conventional_envs(credentials::provider_id(&l.manifest)),
            ),
        ),
        None => None,
    };
    match report {
        Some(t) => state.succeed(t.as_str()),
        None => state.fail("invalid manifest handle"),
    }
}

/// What is said of a host that speaks a newer version.
pub open spec fn newer_ctx(version: u32) -> Seq<char> {
    "ctx version "@ + text::decimal(version as nat) + " newer than AILIB_ABI_VERSION "@
        + text::decimal(AILIB_ABI_VERSION as nat)
}

/// What an operation of the given name does.
pub open spec fn dispatched(
    before: WasmState,
    after: WasmState,
    code: i32,
    op: Seq<char>,
    ctx: InvokeCtx,
    input: Seq<u8>,
    typed: TypedInput,
) -> bool {
    match kind_of(op) {
        InputKind::Manifest => load_done(before, after, code, input, typed->Manifest_0),
        InputKind::Capability => {
            &&& buffers::same_state(before, after)
            &&& buffers::answered(
                before,
                after,
                code,
                check_reply(before.manifests@, ctx, input, typed->Capability_0),
            )
        },
        InputKind::Chat => build_done(
            before,
            after,
            code,
            ctx,
            input,
            typed->request,
            buffers::outcome(typed->body),
        ),
        InputKind::Response => parse_done(
            before,
            after,
            code,
            ctx,
            input,
            buffers::outcome(typed->Response_0),
        ),
        InputKind::Credential => {
            &&& buffers::same_state(before, after)
            &&& buffers::answered(
                before,
                after,
                code,
                credential_reply(before.manifests@, ctx, input, typed->Credential_0),
            )
        },
        InputKind::Snapshot => snapshot_ops::restored(
            before,
            after,
            code,
            input,
            buffers::outcome(typed->snapshot),
            typed->loaded@,
        ),
        InputKind::Plain => {
            &&& buffers::same_state(before, after)
            &&& buffers::answered(before, after, code, plain_reply(before, op, ctx, input))
        },
    }
}

/// The answer of an operation that takes its input as it is.
pub open spec fn plain_reply(
    before: WasmState,
    op: Seq<char>,
    ctx: InvokeCtx,
    input: Seq<u8>,
) -> buffers::Reply {
    if op == "abi_version"@ {
        entry_reply("version"@, abi::number_json(AILIB_ABI_VERSION as u64))
    } else if op == "capabilities"@ {
        buffers::Reply::Out(
            vstd::utf8::encode_utf8(json::json_text(abi::capabilities_value())),
        )
    } else if op == "metrics"@ {
        buffers::Reply::Out(vstd::utf8::encode_utf8(state::metrics_text(before.metrics)))
    } else if op == "classify_error"@ {
        classify_reply(ctx, input)
    } else if op == "extract_usage"@ {
        v1::usage_reply(input)
    } else if op == "snapshot_state"@ {
        snapshot_ops::snapshot_reply(before)
    } else {
        buffers::Reply::Fail("unknown op: "@ + op)
    }
}

/// Why a call is refused before its operation is looked at, or the operation's
/// name and the context that holds.
pub open spec fn call_of(op: Seq<u8>, ctx: Option<Result<InvokeCtx, String>>) -> Result<
    (Seq<char>, InvokeCtx),
    Seq<char>,
> {
    match buffers::input_text(op) {
        Err(e) => Err("op: "@ + e),
        Ok(name) => match ctx {
            Some(Err(e)) => Err("ctx json: "@ + e@),
            Some(Ok(c)) => if c.version > AILIB_ABI_VERSION {
                Err(newer_ctx(c.version))
            } else {
                Ok((name, c))
            },
            None => Ok((name, default_ctx())),
        },
    }
}

/// What a call did.
pub open spec fn invoked(
    before: WasmState,
    after: WasmState,
    code: i32,
    op: Seq<u8>,
    input: Seq<u8>,
    ctx: Option<Result<InvokeCtx, String>>,
    typed: TypedInput,
) -> bool {
    match call_of(op, ctx) {
        Err(t) => buffers::answered(before, after, code, buffers::Reply::Fail(t))
            && buffers::same_state(before, after),
        Ok((name, c)) => dispatched(before, after, code, name, c, input, typed),
    }
}

/// Does the operation that `op` names. `input` holds its input, `ctx` what the
/// host says about the call, where it says anything; `typed` is what the input
/// was read as, of the kind that `input_kind` tells for the operation.
pub fn ailib_invoke(
    state: &mut WasmState,
    op: &Vec<u8>,
    input: &Vec<u8>,
    ctx: Option<Result<InvokeCtx, String>>,
    typed: TypedInput,
) -> (r: i32)
    requires
        suits(kind_for(op@), typed),
    ensures
        invoked(*old(state), *final(state), r, op@, input@, ctx, typed),
{
    state.clear_err();
    assert(snapshot_ops::snapshot_of(*state) == snapshot_ops::snapshot_of(*old(state)));
    let name = match buffers::read_input_text(op) {
        Ok(s) => s,
        Err(e) => {
            return state.fail(text::cat("op: ", e.as_str()).as_str());
        },
    };
    let c: InvokeCtx = match ctx {
        None => InvokeCtx::default(),
        Some(Ok(c)) => c,
        Some(Err(e)) => {
            return state.fail(text::cat("ctx json: ", e.as_str()).as_str());
        },
    };
    if c.version > AILIB_ABI_VERSION {
        let mut t = text::cat("ctx version ", text::decimal_text(c.version as u64).as_str());
        t.append(" newer than AILIB_ABI_VERSION ");
        t.append(text::decimal_text(AILIB_ABI_VERSION as u64).as_str());
        return state.fail(t.as_str());
    }
    let kind = kind_by_name(name.as_str());
    if kind == InputKind::Plain {
        return invoke_plain(state, name.as_str(), &c, input);
    }
    match typed {
        TypedInput::Manifest(loaded) => load_manifest_bytes(state, input, loaded),
        TypedInput::Capability(read) => invoke_check_capability(state, &c, input, read),
        TypedInput::Chat { request, body } => invoke_build_request(
            state,
            &c,
            input,
            request,
            body,
        ),
        TypedInput::Response(read) => invoke_parse_response(state, &c, input, read),
        TypedInput::Credential(read) => ailib_invoke_resolve_credential(state, &c, input, read),
        TypedInput::Snapshot { snapshot, loaded } => snapshot_ops::ailib_restore_state(
            state,
            input,
            snapshot,
            loaded,
        ),
        TypedInput::Plain => -1,
    }
}

/// Does an operation that takes its input as it is.
fn invoke_plain(state: &mut WasmState, name: &str, ctx: &InvokeCtx, input: &Vec<u8>) -> (r: i32)
    requires
        old(state).last_err@.len() == 0,
    ensures
        buffers::same_state(*old(state), *final(state)),
        buffers::answered(
            *old(state),
            *final(state),
            r,
            plain_reply(*old(state), name@, *ctx, input@),
        ),
{
    if text::text_eq(name, "abi_version") {
        let out = JsonValue::object().with("version", JsonValue::number(AILIB_ABI_VERSION as u64));
        state.succeed(json::render(&out).as_str())
    } else if text::text_eq(name, "capabilities") {
        state.set_out(abi::capabilities_json());
        assert(state.last_err@ =~= Seq::empty());
        0
    } else if text::text_eq(name, "metrics") {
        let t = state::write_metrics(&state.metrics);
        state.succeed(t.as_str())
    } else if text::text_eq(name, "classify_error") {
        invoke_classify_error(state, ctx, input)
    } else if text::text_eq(name, "extract_usage") {
        v1::ailib_extract_usage(state, input)
    } else if text::text_eq(name, "snapshot_state") {
        snapshot_ops::ailib_snapshot_state(state)
    } else {
        state.fail(text::cat("unknown op: ", name).as_str())
    }
}

/// What is reported of a credential does not depend on which credential the
/// host supplied, only on whether it is blank.
pub proof fn report_hides_the_credential(m: ProtocolManifest, a: String, b: String)
    requires
        is_supplied(Some(a)) == is_supplied(Some(b)),
    ensures
        report_for(m, Some(a)) == report_for(m, Some(b)),
{
}

/// A host that speaks a newer version is refused, whatever it asks for, and
/// nothing changes.
pub proof fn newer_host_is_refused(
    before: WasmState,
    after: WasmState,
    code: i32,
    op: Seq<u8>,
    input: Seq<u8>,
    ctx: InvokeCtx,
    typed: TypedInput,
)
    requires
        invoked(before, after, code, op, input, Some(Ok(ctx)), typed),
        ctx.version > AILIB_ABI_VERSION,
    ensures
        code == -1,
        buffers::same_state(before, after),
        after.last_out@ == before.last_out@,
{
}

/// Every operation that the module lists is known to the dispatcher: where no
/// typed reading of the input is asked for, the answer is not that the
/// operation is unknown.
pub proof fn listed_operations_are_known(i: int)
    requires
        0 <= i < abi::operations().len(),
    ensures
        kind_of(abi::operations()[i]) != InputKind::Plain || is_plain_op(abi::operations()[i]),
{
    assert(i == 0 || i == 1 || i == 2 || i == 3 || i == 4 || i == 5 || i == 6 || i == 7 || i == 8
        || i == 9 || i == 10 || i == 11);
}

/// The operation takes its input as it is.
pub open spec fn is_plain_op(op: Seq<char>) -> bool {
    op == "abi_version"@ || op == "capabilities"@ || op == "metrics"@ || op == "classify_error"@
        || op == "extract_usage"@ || op == "snapshot_state"@
}

/// The handle in the input counts before that of the host.
pub proof fn input_handle_counts_first(input: Option<u32>, ctx: InvokeCtx)
    ensures
        input matches Some(h) ==> handle_in(input, ctx) == Some(h),
        input is None ==> handle_in(input, ctx) == ctx.manifest_handle,
{
}

/// The host's status counts before the one in the input; without either an
/// error cannot be classified.
pub proof fn host_status_counts_first(ctx: InvokeCtx, input: Seq<u8>)
    ensures
        ctx.status_code matches Some(s) ==> status_for(ctx, input) == Ok::<u16, Seq<char>>(s),
        ctx.status_code is None && input.len() == 0 ==> status_for(ctx, input) is Err,
        ctx.status_code is None && input.len() > 0 ==> match json::json_parsed(input) {
            Ok(v) => match v.field("status_code"@) {
                Some(json::Json::Number(json::JsonNumber::Unsigned(n))) => if n <= 65535 {
                    status_for(ctx, input) == Ok::<u16, Seq<char>>(n as u16)
                } else {
                    status_for(ctx, input) is Err
                },
                _ => status_for(ctx, input) is Err,
            },
            Err(_) => status_for(ctx, input) is Err,
        },
{
}

/// A capability check answers whether the manifest declares the capability.
pub proof fn checks_answer_what_is_declared(
    manifests: Seq<Option<LoadedManifest>>,
    ctx: InvokeCtx,
    input: Seq<u8>,
    q: CheckCapabilityInput,
    h: u32,
    l: LoadedManifest,
)
    requires
        input.len() > 0,
        q.name@.len() > 0,
        q.handle == Some(h) || (q.handle is None && ctx.manifest_handle == Some(h)),
        buffers::slot(manifests, h) == Some(l),
    ensures
        check_reply(manifests, ctx, input, Ok(q)) == buffers::Reply::Out(
            vstd::utf8::encode_utf8(
                json::json_text(
                    json::Json::Object(
                        Map::<Seq<char>, json::Json>::empty().insert(
                            "supported"@,
                            json::Json::Bool(
                                crate::protocol::manifest::declares(
                                    l.manifest.capabilities,
                                    text::trimmed(q.name@),
                                ),
                            ),
                        ),
                    ),
                ),
            ),
        ),
{
    buffers::host_text_is_read_back(q.name@);
}

/// A credential report says that a credential is there exactly where the host
/// supplied one that is not blank, and names the manifest's variables and the
/// conventional one. It never allows looking elsewhere.
pub proof fn reports_say_what_the_host_supplied(m: ProtocolManifest, explicit: Option<String>)
    ensures
        ({
            let supplied = explicit matches Some(s) && text::trimmed(s@).len() > 0;
            let name = |n: Seq<char>| json::json_text(json::Json::Str(n)) + ":"@;
            let string = |s: Seq<char>| json::json_text(json::Json::Str(s));
            report_for(m, explicit) == record::record_text(
                seq![
                    name("status"@) + string(
                        if supplied {
                            "available"@
                        } else {
                            "missing"@
                        },
                    ),
                    name("source_kind"@) + string(
                        if supplied {
                            "explicit"@
                        } else {
                            "none"@
                        },
                    ),
                    name("source_name"@) + (if supplied {
                        string("host_supplied"@)
                    } else {
                        "null"@
                    }),
                    name("required"@) + record::list_text(
                        record::strings_of(credentials::manifest_envs(m)),
                    ),
                    name("conventional_fallbacks"@) + record::list_text(
                        record::strings_of(
                            credentials::conventional_names(credentials::provider_name(m)),
                        ),
                    ),
                    name("implicit_env_allowed"@) + "false"@,
                    name("implicit_keyring_allowed"@) + "false"@,
                    name("value_redacted"@) + "true"@,
                ],
            )
        }),
{
}

/// A report is given for the manifest behind the handle, and refused without one.
pub proof fn reports_are_for_the_manifest(
    manifests: Seq<Option<LoadedManifest>>,
    ctx: InvokeCtx,
    input: Seq<u8>,
    q: ResolveCredentialInput,
)
    requires
        input.len() > 0,
    ensures
        match handle_in(q.handle, ctx) {
            Some(h) => match buffers::slot(manifests, h) {
                Some(l) => credential_reply(manifests, ctx, input, Ok(q)) == buffers::Reply::Out(
                    vstd::utf8::encode_utf8(report_for(l.manifest, q.explicit_credential)),
                ),
                None => credential_reply(manifests, ctx, input, Ok(q)) is Fail,
            },
            None => credential_reply(manifests, ctx, input, Ok(q)) is Fail,
        },
{
}

/// Each operation that takes typed input is told by its own name.
pub proof fn operations_take_their_own_input(op: Seq<char>)
    ensures
        kind_of(op) == InputKind::Manifest <==> op == "load_manifest"@,
        kind_of(op) == InputKind::Capability <==> op == "check_capability"@,
        kind_of(op) == InputKind::Chat <==> op == "build_request"@,
        kind_of(op) == InputKind::Response <==> op == "parse_response"@,
        kind_of(op) == InputKind::Credential <==> op == "resolve_credential"@,
        kind_of(op) == InputKind::Snapshot <==> op == "restore_state"@,
{
    reveal_strlit("load_manifest");
    reveal_strlit("check_capability");
    reveal_strlit("build_request");
    reveal_strlit("parse_response");
    reveal_strlit("resolve_credential");
    reveal_strlit("restore_state");
    assert("load_manifest"@.len() == 13 && "restore_state"@.len() == 13 && "build_request"@.len()
        == 13);
    assert("load_manifest"@[0] == 'l' && "restore_state"@[0] == 'r' && "build_request"@[0] == 'b');
    assert("check_capability"@.len() == 16 && "parse_response"@.len() == 14);
    assert("resolve_credential"@.len() == 18);
}

/// A call is let through unless its operation has no readable name, its context
/// cannot be read, or its host speaks a newer version.
pub proof fn readable_calls_are_let_through(op: Seq<char>, ctx: Option<Result<InvokeCtx, String>>)
    requires
        op.len() > 0,
    ensures
        match ctx {
            None => call_of(vstd::utf8::encode_utf8(op), ctx) == Ok::<
                (Seq<char>, InvokeCtx),
                Seq<char>,
            >((op, InvokeCtx { version: 1, manifest_handle: None, status_code: None })),
            Some(Ok(c)) => if c.version <= 2 {
                call_of(vstd::utf8::encode_utf8(op), ctx) == Ok::<
                    (Seq<char>, InvokeCtx),
                    Seq<char>,
                >((op, c))
            } else {
                call_of(vstd::utf8::encode_utf8(op), ctx) is Err
            },
            Some(Err(_)) => call_of(vstd::utf8::encode_utf8(op), ctx) is Err,
        },
{
    buffers::host_text_is_read_back(op);
}

/// An operation of no known name is refused, and changes nothing.
pub proof fn unknown_operations_are_refused(
    before: WasmState,
    after: WasmState,
    code: i32,
    op: Seq<char>,
    input: Seq<u8>,
    typed: TypedInput,
)
    requires
        op.len() > 0,
        forall|i: int| 0 <= i < abi::operations().len() ==> #[trigger] abi::operations()[i] != op,
        invoked(before, after, code, vstd::utf8::encode_utf8(op), input, None, typed),
    ensures
        code == -1,
        buffers::same_state(before, after),
        after.last_err@ == vstd::utf8::encode_utf8("unknown op: "@ + op),
{
    buffers::host_text_is_read_back(op);
    let ops = abi::operations();
    assert(ops[0] != op && ops[1] != op && ops[2] != op && ops[3] != op && ops[4] != op && ops[5]
        != op && ops[6] != op && ops[7] != op && ops[8] != op && ops[9] != op && ops[10] != op
        && ops[11] != op);
}

/// Loading through the dispatcher keeps the manifest and answers its handle.
pub proof fn loading_answers_the_handle(
    before: WasmState,
    after: WasmState,
    code: i32,
    input: Seq<u8>,
    loaded: Loaded,
)
    requires
        load_done(before, after, code, input, loaded),
        input.len() > 0,
        loaded is Ok,
        before.manifests@.len() < u32::MAX,
    ensures
        code == 0,
        ({
            let h = (before.manifests@.len() + 1) as u32;
            &&& buffers::slot(after.manifests@, h) matches Some(l) && l.manifest == loaded->Ok_0.0
                && l.style == loaded->Ok_0.1 && l.raw@ == input
            &&& after.last_out@ == vstd::utf8::encode_utf8(
                json::json_text(
                    json::Json::Object(
                        Map::<Seq<char>, json::Json>::empty().insert(
                            "handle"@,
                            json::Json::Number(json::JsonNumber::Unsigned(h as u64)),
                        ),
                    ),
                ),
            )
        }),
{
}

/// Operations that only look leave the manifests and the counters alone.
pub proof fn looking_changes_nothing(
    before: WasmState,
    after: WasmState,
    code: i32,
    op: Seq<char>,
    ctx: InvokeCtx,
    input: Seq<u8>,
    typed: TypedInput,
)
    requires
        dispatched(before, after, code, op, ctx, input, typed),
        op != "load_manifest"@,
        op != "build_request"@,
        op != "parse_response"@,
        op != "restore_state"@,
    ensures
        after.manifests@ == before.manifests@,
        after.metrics == before.metrics,
{
}

/// Building a request or reading a response keeps every manifest.
pub proof fn chats_keep_the_manifests(
    before: WasmState,
    after: WasmState,
    code: i32,
    op: Seq<char>,
    ctx: InvokeCtx,
    input: Seq<u8>,
    typed: TypedInput,
)
    requires
        dispatched(before, after, code, op, ctx, input, typed),
        op == "build_request"@ || op == "parse_response"@,
    ensures
        after.manifests@ == before.manifests@,
        ctx.manifest_handle is None ==> code == -1 && after.metrics == before.metrics,
{
    operations_take_their_own_input(op);
}

} // verus!
