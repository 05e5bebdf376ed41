//! The module's state: manifests, output, error and counters.

use crate::drivers;
use crate::drivers::DriverChoice;
use crate::json::{JsonNumber, JsonValue};
use crate::protocol::manifest;
use crate::protocol::manifest::{ApiStyle, Capability, ProtocolManifest};
use crate::text;
use crate::types::message::Message;
use crate::types::tool::ToolDefinition;
use crate::wasm::state;
use crate::wasm::state::WasmMetrics;
use vstd::prelude::*;

verus! {

broadcast use vstd::string::group_string_axioms;

/// A chat request as the host sends it.
#[derive(Debug)]
pub struct WasmChatRequest {
    pub operation: String,
    pub model: String,
    pub messages: Vec<Message>,
    pub temperature: Option<JsonNumber>,
    pub max_tokens: Option<u32>,
    pub stream: bool,
    pub tools: Option<Vec<ToolDefinition>>,
    pub tool_choice: Option<JsonValue>,
}

/// What a chat request asks of a driver.
pub open spec fn params_of(q: WasmChatRequest) -> drivers::ParamsView {
    drivers::asked(q.messages@, q.model@, q.temperature, q.max_tokens, q.stream, None)
}

/// A manifest, the bytes it was loaded from, and whose API it speaks.
#[derive(Debug)]
pub struct LoadedManifest {
    pub manifest: ProtocolManifest,
    pub raw: Vec<u8>,
    pub style: ApiStyle,
}

/// The state of the module.
#[derive(Debug)]
pub struct WasmState {
    pub manifests: Vec<Option<LoadedManifest>>,
    pub last_out: Vec<u8>,
    pub last_err: Vec<u8>,
    pub metrics: WasmMetrics,
}

/// What an operation answers: bytes in the output buffer, or a text in the
/// error buffer.
pub enum Reply {
    Out(Seq<u8>),
    Fail(Seq<char>),
}

/// The answer is in the buffers, and the code says which: on success the error
/// buffer is empty, on failure the output buffer is as it was.
pub open spec fn answered(before: WasmState, after: WasmState, code: i32, reply: Reply) -> bool {
    match reply {
        Reply::Out(b) => code == 0 && after.last_out@ == b && after.last_err@ == Seq::<u8>::empty(),
        Reply::Fail(t) => code == -1 && after.last_out@ == before.last_out@ && after.last_err@
            == vstd::utf8::encode_utf8(t),
    }
}

/// The manifests are the same, and so are the counters.
pub open spec fn same_state(before: WasmState, after: WasmState) -> bool {
    after.manifests@ == before.manifests@ && after.metrics == before.metrics
}

/// The counters after one more call.
pub open spec fn counted(m: WasmMetrics, failed: bool) -> WasmMetrics {
    WasmMetrics {
        total_calls: drivers::capped_sum(m.total_calls, 1),
        total_errors: if failed {
            drivers::capped_sum(m.total_errors, 1)
        } else {
            m.total_errors
        },
        total_tokens_in: m.total_tokens_in,
        total_tokens_out: m.total_tokens_out,
    }
}

/// The manifest behind a handle. Handles count from 1.
pub open spec fn slot(manifests: Seq<Option<LoadedManifest>>, handle: u32) -> Option<
    LoadedManifest,
> {
    if 1 <= handle && handle - 1 < manifests.len() {
        manifests[handle - 1]
    } else {
        None
    }
}

/// The result, its value or error by its view.
pub open spec fn outcome<T: View>(r: Result<T, String>) -> Result<T::V, Seq<char>> {
    match r {
        Ok(v) => Ok(v@),
        Err(e) => Err(e@),
    }
}

impl WasmState {
    /// A module in which nothing has happened.
    pub fn new() -> (r: Self)
        ensures
            r.manifests@ == Seq::<Option<LoadedManifest>>::empty(),
            r.last_out@ == Seq::<u8>::empty(),
            r.last_err@ == Seq::<u8>::empty(),
            r.metrics == state::no_metrics(),
    {
        WasmState {
            manifests: Vec::new(),
            last_out: Vec::new(),
            last_err: Vec::new(),
            metrics: WasmMetrics::default(),
        }
    }

    /// Puts bytes into the output buffer.
    pub fn set_out(&mut self, bytes: Vec<u8>)
        ensures
            final(self).last_out@ == bytes@,
            final(self).last_err@ == old(self).last_err@,
            same_state(*old(self), *final(self)),
    {
        self.last_out = bytes;
    }

    /// Puts a text into the error buffer.
    pub fn set_err(&mut self, s: &str)
        ensures
            final(self).last_err@ == vstd::utf8::encode_utf8(s@),
            final(self).last_out@ == old(self).last_out@,
            same_state(*old(self), *final(self)),
    {
        self.last_err = text::bytes_of(s);
    }

    /// Empties the error buffer.
    pub fn clear_err(&mut self)
        ensures
            final(self).last_err@ == Seq::<u8>::empty(),
            final(self).last_out@ == old(self).last_out@,
            same_state(*old(self), *final(self)),
    {
        self.last_err = Vec::new();
    }

    /// Counts a call.
    pub fn bump_calls(&mut self)
        ensures
            final(self).metrics == counted(old(self).metrics, false),
            final(self).manifests@ == old(self).manifests@,
            final(self).last_out@ == old(self).last_out@,
            final(self).last_err@ == old(self).last_err@,
    {
        self.metrics.total_calls = drivers::add_counts(self.metrics.total_calls, 1);
    }

    /// Counts an error.
    pub fn bump_errors(&mut self)
        ensures
            final(self).metrics == (WasmMetrics {
                total_errors: drivers::capped_sum(old(self).metrics.total_errors, 1),
                ..old(self).metrics
            }),
            final(self).manifests@ == old(self).manifests@,
            final(self).last_out@ == old(self).last_out@,
            final(self).last_err@ == old(self).last_err@,
    {
        self.metrics.total_errors = drivers::add_counts(self.metrics.total_errors, 1);
    }

    /// Answers with an error.
    pub fn fail(&mut self, s: &str) -> (r: i32)
        ensures
            answered(*old(self), *final(self), r, Reply::Fail(s@)),
            same_state(*old(self), *final(self)),
    {
        self.set_err(s);
        -1
    }

    /// Answers with an error, and counts it.
    pub fn fail_counted(&mut self, s: &str) -> (r: i32)
        ensures
            answered(*old(self), *final(self), r, Reply::Fail(s@)),
            final(self).manifests@ == old(self).manifests@,
            final(self).metrics == (WasmMetrics {
                total_errors: drivers::capped_sum(old(self).metrics.total_errors, 1),
                ..old(self).metrics
            }),
    {
        self.set_err(s);
        self.bump_errors();
        -1
    }

    /// Answers with a text in the output buffer.
    pub fn succeed(&mut self, s: &str) -> (r: i32)
        requires
            old(self).last_err@.len() == 0,
        ensures
            answered(*old(self), *final(self), r, Reply::Out(vstd::utf8::encode_utf8(s@))),
            same_state(*old(self), *final(self)),
    {
        self.set_out(text::bytes_of(s));
        assert(self.last_err@ =~= Seq::empty());
        0
    }

    /// The manifest behind a handle.
    pub fn find_slot(&self, handle: u32) -> (r: Option<&LoadedManifest>)
        ensures
            match (r, slot(self.manifests@, handle)) {
                (Some(l), Some(m)) => *l == m,
                (None, None) => true,
                _ => false,
            },
    {
        if handle == 0 {
            return None;
        }
        let at: u32 = handle - 1;
        let i: usize = at as usize;
        if i >= self.manifests.len() {
            return None;
        }
        match &self.manifests[i] {
            Some(l) => Some(l),
            None => None,
        }
    }
}

/// What the provider of a manifest declares that it can do.
pub fn caps_from_manifest(m: &ProtocolManifest) -> (r: Vec<Capability>)
    ensures
        r@ == manifest::declared_capabilities(m.capabilities),
{
    m.capabilities.all_capabilities()
}

/// The driver for the manifest behind a handle.
pub fn driver_for_handle(state: &WasmState, handle: u32) -> (r: Result<DriverChoice, String>)
    ensures
        match (r, slot(state.manifests@, handle)) {
            (Ok(DriverChoice::OpenAi(d)), Some(l)) => drivers::speaks_openai(l.style) && d.id()
                == l.manifest.id@ && d.caps() == manifest::declared_capabilities(
                l.manifest.capabilities,
            ),
            (Ok(DriverChoice::Other(s)), Some(l)) => !drivers::speaks_openai(l.style) && s
                == l.style,
            (Err(e), None) => e@ == "invalid manifest handle"@,
            _ => false,
        },
{
    match state.find_slot(handle) {
        Some(l) => Ok(
            drivers::create_driver(
                l.style,
                l.manifest.id.as_str(),
                caps_from_manifest(&l.manifest),
            ),
        ),
        None => Err("invalid manifest handle".to_string()),
    }
}

/// What is said of input that is not there.
pub open spec fn no_input() -> Seq<char> {
    "null or empty input"@
}

/// The text that input bytes encode.
pub open spec fn input_text(bytes: Seq<u8>) -> Result<Seq<char>, Seq<char>> {
    if bytes.len() == 0 {
        Err(no_input())
    } else if vstd::utf8::valid_utf8(bytes) {
        Ok(vstd::utf8::decode_utf8(bytes))
    } else {
        Err(text::utf8_error(bytes))
    }
}

/// The text that input bytes encode.
pub fn read_input_text(bytes: &Vec<u8>) -> (r: Result<String, String>)
    ensures
        outcome(r) == input_text(bytes@),
{
    if bytes.len() == 0 {
        return Err("null or empty input".to_string());
    }
    text::from_utf8(text::copy_bytes(bytes))
}

/// Handles count from one, in the order in which manifests were loaded; zero and
/// handles that were never given lead nowhere.
pub proof fn handles_count_from_one(manifests: Seq<Option<LoadedManifest>>, handle: u32)
    ensures
        slot(manifests, 0) is None,
        1 <= handle <= manifests.len() ==> slot(manifests, handle) == manifests[handle - 1],
        handle > manifests.len() ==> slot(manifests, handle) is None,
{
}

/// A call is counted, and its failure too; tokens stay.
pub proof fn calls_and_failures_are_counted(m: WasmMetrics, failed: bool)
    ensures
        m.total_calls < u64::MAX ==> counted(m, failed).total_calls == m.total_calls + 1,
        failed && m.total_errors < u64::MAX ==> counted(m, failed).total_errors == m.total_errors
            + 1,
        !failed ==> counted(m, failed).total_errors == m.total_errors,
        counted(m, failed).total_tokens_in == m.total_tokens_in,
        counted(m, failed).total_tokens_out == m.total_tokens_out,
{
}

/// Text that a host writes in UTF-8 is read as it was written; no text is
/// refused.
pub proof fn host_text_is_read_back(t: Seq<char>)
    ensures
        t.len() > 0 ==> input_text(vstd::utf8::encode_utf8(t)) == Ok::<Seq<char>, Seq<char>>(t),
        input_text(Seq::empty()) is Err,
{
    vstd::utf8::encode_utf8_valid_utf8(t);
    vstd::utf8::encode_utf8_decode_utf8(t);
    if t.len() > 0 {
        vstd::utf8::encode_utf8_first_scalar(t);
    }
}

/// The code tells where the answer is: the output buffer holds it on success,
/// the error buffer on failure, and the other tells nothing new.
pub proof fn code_tells_where_the_answer_is(
    before: WasmState,
    after: WasmState,
    code: i32,
    reply: Reply,
)
    requires
        answered(before, after, code, reply),
    ensures
        code == 0 || code == -1,
        code == 0 <==> reply is Out,
        reply matches Reply::Out(b) ==> after.last_out@ == b && after.last_err@.len() == 0,
        reply matches Reply::Fail(t) ==> after.last_err@ == vstd::utf8::encode_utf8(t)
            && after.last_out@ == before.last_out@,
{
}

/// A chat request asks for what it holds.
pub proof fn requests_ask_for_what_they_hold(q: WasmChatRequest, i: int)
    requires
        0 <= i < q.messages@.len(),
    ensures
        params_of(q).messages.len() == q.messages@.len(),
        params_of(q).messages[i] == q.messages@[i]@,
        params_of(q).model == q.model@,
        params_of(q).temperature == q.temperature,
        params_of(q).max_tokens == q.max_tokens,
        params_of(q).stream == q.stream,
        params_of(q).extra is None,
{
}

} // verus!
