//! The parts of a provider manifest that decisions are made on.

use crate::json;
use crate::json::JsonValue;
use crate::table::Table;
use crate::text;
use crate::types::message;
use vstd::prelude::*;

verus! {

/// How requests are authenticated.
#[derive(Debug, Clone)]
pub struct AuthConfig {
    pub auth_type: String,
    pub token_env: Option<String>,
    pub key_env: Option<String>,
    pub param_name: Option<String>,
    pub header_name: Option<String>,
    pub prefix: Option<String>,
    pub extra_headers: Option<Vec<(String, String)>>,
}

/// What an auth block is.
pub struct AuthView {
    pub auth_type: Seq<char>,
    pub token_env: Option<Seq<char>>,
    pub key_env: Option<Seq<char>>,
    pub param_name: Option<Seq<char>>,
    pub header_name: Option<Seq<char>>,
    pub prefix: Option<Seq<char>>,
    pub extra_headers: Option<Seq<(Seq<char>, Seq<char>)>>,
}

/// The views of pairs of texts, in order.
pub open spec fn pair_views(v: Seq<(String, String)>) -> Seq<(Seq<char>, Seq<char>)> {
    Seq::new(v.len(), |i: int| (v[i].0@, v[i].1@))
}

/// The view of optional headers.
pub open spec fn opt_pairs(v: Option<Vec<(String, String)>>) -> Option<
    Seq<(Seq<char>, Seq<char>)>,
> {
    match v {
        Some(x) => Some(pair_views(x@)),
        None => None,
    }
}

fn copy_pairs(v: &Option<Vec<(String, String)>>) -> (r: Option<Vec<(String, String)>>)
    ensures
        opt_pairs(r) == opt_pairs(*v),
{
    match v {
        Some(pairs) => {
            let mut out: Vec<(String, String)> = Vec::new();
            let mut i: usize = 0;
            while i < pairs.len()
                invariant
                    i <= pairs@.len(),
                    out@.len() == i,
                    forall|k: int|
                        0 <= k < i ==> (#[trigger] out@[k]).0@ == pairs@[k].0@ && out@[k].1@
                            == pairs@[k].1@,
                decreases pairs@.len() - i,
            {
                out.push((pairs[i].0.clone(), pairs[i].1.clone()));
                i += 1;
            }
            assert(pair_views(out@) =~= pair_views(pairs@));
            Some(out)
        },
        None => None,
    }
}

impl View for AuthConfig {
    type V = AuthView;

    open spec fn view(&self) -> AuthView {
        AuthView {
            auth_type: self.auth_type@,
            token_env: crate::text::opt_text(self.token_env),
            key_env: crate::text::opt_text(self.key_env),
            param_name: crate::text::opt_text(self.param_name),
            header_name: crate::text::opt_text(self.header_name),
            prefix: crate::text::opt_text(self.prefix),
            extra_headers: opt_pairs(self.extra_headers),
        }
    }
}

/// The view of an optional auth block.
pub open spec fn opt_auth(a: Option<AuthConfig>) -> Option<AuthView> {
    match a {
        Some(x) => Some(x@),
        None => None,
    }
}

/// The view of a reference to an optional auth block.
pub open spec fn opt_auth_ref(a: Option<&AuthConfig>) -> Option<AuthView> {
    match a {
        Some(x) => Some(x@),
        None => None,
    }
}

impl AuthConfig {
    /// The same block again.
    pub fn copy(&self) -> (r: Self)
        ensures
            r@ == self@,
    {
        AuthConfig {
            auth_type: self.auth_type.clone(),
            token_env: message::copy_opt(&self.token_env),
            key_env: message::copy_opt(&self.key_env),
            param_name: message::copy_opt(&self.param_name),
            header_name: message::copy_opt(&self.header_name),
            prefix: message::copy_opt(&self.prefix),
            extra_headers: copy_pairs(&self.extra_headers),
        }
    }
}

/// Where a provider is reached.
#[derive(Debug, Clone)]
pub struct EndpointDefinition {
    pub base_url: String,
    pub auth: Option<AuthConfig>,
}

/// One operation of a provider.
#[derive(Debug, Clone)]
pub struct EndpointConfig {
    pub path: String,
    pub method: String,
    pub adapter: Option<String>,
}

/// One service of a provider.
#[derive(Debug, Clone)]
pub struct ServiceConfig {
    pub path: String,
    pub method: String,
    pub headers: Option<Vec<(String, String)>>,
    pub query_params: Option<Vec<(String, String)>>,
}

/// Whose chat API a provider speaks.
#[derive(Debug, Clone, Copy, PartialEq, Eq, Structural)]
pub enum ApiStyle {
    OpenAiCompatible,
    AnthropicMessages,
    GeminiGenerate,
    Custom,
}

/// Something that a model or provider can do.
#[derive(Debug, Clone, Copy, PartialEq, Eq, Structural)]
pub enum Capability {
    Text,
    Streaming,
    Tools,
    Vision,
    Agentic,
    Reasoning,
    ParallelTools,
}

/// What a provider declares that it can do.
#[derive(Debug, Clone, Copy, PartialEq, Eq, Structural)]
pub struct LegacyCapabilities {
    pub streaming: bool,
    pub tools: bool,
    pub vision: bool,
    pub agentic: bool,
    pub reasoning: bool,
    pub parallel_tools: bool,
}

/// The capability in a list of its own where it is declared.
pub open spec fn where_declared(declared: bool, c: Capability) -> Seq<Capability> {
    if declared {
        seq![c]
    } else {
        Seq::empty()
    }
}

/// The declared capabilities, text before all.
pub open spec fn declared_capabilities(c: LegacyCapabilities) -> Seq<Capability> {
    seq![Capability::Text] + where_declared(c.streaming, Capability::Streaming) + where_declared(
        c.tools,
        Capability::Tools,
    ) + where_declared(c.vision, Capability::Vision) + where_declared(
        c.agentic,
        Capability::Agentic,
    ) + where_declared(c.reasoning, Capability::Reasoning) + where_declared(
        c.parallel_tools,
        Capability::ParallelTools,
    )
}

fn push_declared(list: &mut Vec<Capability>, declared: bool, c: Capability)
    ensures
        final(list)@ == old(list)@ + where_declared(declared, c),
{
    if declared {
        list.push(c);
        assert(list@ =~= old(list)@ + where_declared(declared, c));
    } else {
        assert(list@ =~= old(list)@ + where_declared(declared, c));
    }
}

impl LegacyCapabilities {
    /// The declared capabilities, text before all.
    pub fn all_capabilities(&self) -> (r: Vec<Capability>)
        ensures
            r@ == declared_capabilities(*self),
    {
        let mut list: Vec<Capability> = Vec::new();
        list.push(Capability::Text);
        assert(list@ =~= seq![Capability::Text]);
        push_declared(&mut list, self.streaming, Capability::Streaming);
        push_declared(&mut list, self.tools, Capability::Tools);
        push_declared(&mut list, self.vision, Capability::Vision);
        push_declared(&mut list, self.agentic, Capability::Agentic);
        push_declared(&mut list, self.reasoning, Capability::Reasoning);
        push_declared(&mut list, self.parallel_tools, Capability::ParallelTools);
        list
    }
}

/// The capability of the given name is declared.
pub open spec fn declares(c: LegacyCapabilities, name: Seq<char>) -> bool {
    ||| name == "streaming"@ && c.streaming
    ||| name == "tools"@ && c.tools
    ||| name == "vision"@ && c.vision
    ||| name == "agentic"@ && c.agentic
    ||| name == "reasoning"@ && c.reasoning
    ||| name == "parallel_tools"@ && c.parallel_tools
}

/// The value is a list that holds the name.
pub open spec fn lists(v: Option<json::Json>, name: Seq<char>) -> bool {
    match v {
        Some(json::Json::Array(items)) => items.contains(json::Json::Str(name)),
        _ => false,
    }
}

/// The capability of the given name is written down: as a flag, in a list, or
/// in a list of required or optional ones.
pub open spec fn writes_capability(v: json::Json, name: Seq<char>) -> bool {
    ||| lists(Some(v), name)
    ||| v.field(name) == Some(json::Json::Bool(true))
    ||| lists(v.field("required"@), name)
    ||| lists(v.field("optional"@), name)
}

fn has_name(v: Option<&JsonValue>, name: &str) -> (r: bool)
    ensures
        r == lists(json::opt_ref(v), name@),
{
    if let Some(value) = v {
        if let Some(items) = value.as_array() {
            proof {
                json::lemma_array_view(items@);
            }
            let ghost views = json::array_view(items@);
            let mut i: usize = 0;
            while i < items.len()
                invariant
                    i <= items@.len(),
                    views == json::array_view(items@),
                    views.len() == items@.len(),
                    forall|k: int| 0 <= k < items@.len() ==> #[trigger] views[k] == items@[k]@,
                    json::opt_ref(v) == Some(json::Json::Array(views)),
                    forall|k: int| 0 <= k < i ==> #[trigger] views[k] != json::Json::Str(name@),
                decreases items@.len() - i,
            {
                assert(views[i as int] == items@[i as int]@);
                if let Some(t) = items[i].as_str() {
                    if text::text_eq(t, name) {
                        assert(views.contains(json::Json::Str(name@)));
                        return true;
                    }
                }
                i += 1;
            }
        }
    }
    false
}

fn has_capability(v: &JsonValue, name: &str) -> (r: bool)
    ensures
        r == writes_capability(v@, name@),
{
    let flag = match v.get(name) {
        Some(JsonValue::Bool(b)) => *b,
        _ => false,
    };
    flag || has_name(Some(v), name) || has_name(v.get("required"), name) || has_name(
        v.get("optional"),
        name,
    )
}

impl LegacyCapabilities {
    /// The capabilities that a manifest's `capabilities` field writes down.
    pub fn from_value(v: &JsonValue) -> (r: Self)
        ensures
            r == (LegacyCapabilities {
                streaming: writes_capability(v@, "streaming"@),
                tools: writes_capability(v@, "tools"@),
                vision: writes_capability(v@, "vision"@),
                agentic: writes_capability(v@, "agentic"@),
                reasoning: writes_capability(v@, "reasoning"@),
                parallel_tools: writes_capability(v@, "parallel_tools"@),
            }),
    {
        LegacyCapabilities {
            streaming: has_capability(v, "streaming"),
            tools: has_capability(v, "tools"),
            vision: has_capability(v, "vision"),
            agentic: has_capability(v, "agentic"),
            reasoning: has_capability(v, "reasoning"),
            parallel_tools: has_capability(v, "parallel_tools"),
        }
    }
}

/// The API style that a manifest names, under `provider_contract` or at its top.
pub open spec fn named_style(v: json::Json) -> Option<Seq<char>> {
    json::text_in(
        match json::field_in(v.field("provider_contract"@), "api_style"@) {
            Some(s) => Some(s),
            None => v.field("api_style"@),
        },
    )
}

/// The API style of a name; OpenAI's for one that is missing or not known.
pub open spec fn style_of(name: Option<Seq<char>>) -> ApiStyle {
    if name == Some("anthropic_messages"@) {
        ApiStyle::AnthropicMessages
    } else if name == Some("gemini_generate"@) {
        ApiStyle::GeminiGenerate
    } else if name == Some("custom"@) {
        ApiStyle::Custom
    } else {
        ApiStyle::OpenAiCompatible
    }
}

/// Whose chat API the provider of a manifest speaks.
pub fn detect_api_style(manifest: &JsonValue) -> (r: ApiStyle)
    ensures
        r == style_of(named_style(manifest@)),
{
    let contract = json::field_of(manifest.get("provider_contract"), "api_style");
    let stated = match contract {
        Some(s) => Some(s),
        None => manifest.get("api_style"),
    };
    match json::text_of(stated) {
        Some(name) => if text::text_eq(name.as_str(), "anthropic_messages") {
            ApiStyle::AnthropicMessages
        } else if text::text_eq(name.as_str(), "gemini_generate") {
            ApiStyle::GeminiGenerate
        } else if text::text_eq(name.as_str(), "custom") {
            ApiStyle::Custom
        } else {
            ApiStyle::OpenAiCompatible
        },
        None => ApiStyle::OpenAiCompatible,
    }
}

/// A provider manifest.
#[derive(Debug, Clone)]
pub struct ProtocolManifest {
    pub id: String,
    pub provider_id: Option<String>,
    pub protocol_version: String,
    pub endpoint: EndpointDefinition,
    pub auth: Option<AuthConfig>,
    pub capabilities: LegacyCapabilities,
    pub endpoints: Option<Table<EndpointConfig>>,
    pub services: Option<Table<ServiceConfig>>,
    pub aliases: Option<Vec<String>>,
    /// Fields without a place of their own, `metadata` among them.
    pub extra: Table<JsonValue>,
}

/// The metadata entry of a model: `metadata.models.<model>`.
pub open spec fn model_metadata(extra: Map<Seq<char>, JsonValue>, model: Seq<char>) -> Option<
    json::Json,
> {
    if extra.dom().contains("metadata"@) {
        json::field_in(extra["metadata"@]@.field("models"@), model)
    } else {
        None
    }
}

/// The metadata entry of a model.
pub fn find_model_metadata<'a>(extra: &'a Table<JsonValue>, model: &str) -> (r: Option<
    &'a JsonValue,
>)
    ensures
        json::opt_ref(r) == model_metadata(extra@, model@),
{
    match extra.get("metadata") {
        Some(metadata) => match metadata.get("models") {
            Some(models) => models.get(model),
            None => None,
        },
        None => None,
    }
}

/// The model is known to have the capability: `model_capabilities.<key>` is true.
pub open spec fn supports_generative(
    extra: Map<Seq<char>, JsonValue>,
    model: Seq<char>,
    key: Seq<char>,
) -> bool {
    match json::field_in(
        json::field_in(model_metadata(extra, model), "model_capabilities"@),
        key,
    ) {
        Some(v) => v.boolean() == Some(true),
        None => false,
    }
}

impl ProtocolManifest {
    /// Where the provider is reached.
    pub fn get_base_url(&self) -> (r: &str)
        ensures
            r@ == self.endpoint.base_url@,
    {
        self.endpoint.base_url.as_str()
    }

    /// Whether the capability of the given name is declared.
    pub fn supports_capability(&self, name: &str) -> (r: bool)
        ensures
            r == declares(self.capabilities, name@),
    {
        let c = &self.capabilities;
        (text::text_eq(name, "streaming") && c.streaming) || (text::text_eq(name, "tools")
            && c.tools) || (text::text_eq(name, "vision") && c.vision) || (text::text_eq(
            name,
            "agentic",
        ) && c.agentic) || (text::text_eq(name, "reasoning") && c.reasoning) || (text::text_eq(
            name,
            "parallel_tools",
        ) && c.parallel_tools)
    }

    /// Whether the model is known to have the capability. A capability that is
    /// not declared is unknown, and does not count.
    pub fn supports_generative_for_model(&self, model: &str, key: &str) -> (r: bool)
        ensures
            r == supports_generative(self.extra@, model@, key@),
    {
        match find_model_metadata(&self.extra, model) {
            Some(entry) => match entry.get("model_capabilities") {
                Some(caps) => match caps.get(key) {
                    Some(v) => match v.as_bool() {
                        Some(b) => b,
                        None => false,
                    },
                    None => false,
                },
                None => false,
            },
            None => false,
        }
    }
}

/// The list of capabilities has text first, and each other capability exactly
/// where it is declared, once.
pub proof fn declared_capabilities_are_listed(c: LegacyCapabilities)
    ensures
        ({
            let list = declared_capabilities(c);
            &&& list[0] == Capability::Text
            &&& list.contains(Capability::Streaming) == c.streaming
            &&& list.contains(Capability::Tools) == c.tools
            &&& list.contains(Capability::Vision) == c.vision
            &&& list.contains(Capability::Agentic) == c.agentic
            &&& list.contains(Capability::Reasoning) == c.reasoning
            &&& list.contains(Capability::ParallelTools) == c.parallel_tools
        }),
        declared_capabilities(c).no_duplicates(),
{
    let a = seq![Capability::Text];
    lemma_listed(a, c.streaming, Capability::Streaming);
    let a = a + where_declared(c.streaming, Capability::Streaming);
    lemma_listed(a, c.tools, Capability::Tools);
    let a = a + where_declared(c.tools, Capability::Tools);
    lemma_listed(a, c.vision, Capability::Vision);
    let a = a + where_declared(c.vision, Capability::Vision);
    lemma_listed(a, c.agentic, Capability::Agentic);
    let a = a + where_declared(c.agentic, Capability::Agentic);
    lemma_listed(a, c.reasoning, Capability::Reasoning);
    let a = a + where_declared(c.reasoning, Capability::Reasoning);
    lemma_listed(a, c.parallel_tools, Capability::ParallelTools);
}

proof fn lemma_listed(a: Seq<Capability>, declared: bool, c: Capability)
    requires
        a.len() > 0,
    ensures
        (a + where_declared(declared, c))[0] == a[0],
        forall|x: Capability| #[trigger]
            (a + where_declared(declared, c)).contains(x) == (a.contains(x) || (declared && x
                == c)),
        a.no_duplicates() && !a.contains(c) ==> (a + where_declared(declared, c)).no_duplicates(),
{
    let b = a + where_declared(declared, c);
    assert forall|x: Capability| #[trigger] b.contains(x) == (a.contains(x) || (declared && x
        == c)) by {
        if a.contains(x) {
            let i = choose|i: int| 0 <= i < a.len() && a[i] == x;
            assert(b[i] == x);
        }
        if declared && x == c {
            assert(b[a.len() as int] == x);
        }
        if b.contains(x) {
            let i = choose|i: int| 0 <= i < b.len() && b[i] == x;
            if i < a.len() {
                assert(a[i] == x);
            }
        }
    }
}

/// A capability is supported under its own name exactly where it is declared.
pub proof fn names_stand_for_capabilities(c: LegacyCapabilities, name: Seq<char>)
    ensures
        declares(c, "streaming"@) == c.streaming,
        declares(c, "tools"@) == c.tools,
        declares(c, "vision"@) == c.vision,
        declares(c, "agentic"@) == c.agentic,
        declares(c, "reasoning"@) == c.reasoning,
        declares(c, "parallel_tools"@) == c.parallel_tools,
        name != "streaming"@ && name != "tools"@ && name != "vision"@ && name != "agentic"@ && name
            != "reasoning"@ && name != "parallel_tools"@ ==> !declares(c, name),
{
    reveal_strlit("streaming");
    reveal_strlit("tools");
    reveal_strlit("vision");
    reveal_strlit("agentic");
    reveal_strlit("reasoning");
    reveal_strlit("parallel_tools");
    assert("streaming"@.len() == 9 && "tools"@.len() == 5 && "vision"@.len() == 6);
    assert("agentic"@.len() == 7 && "reasoning"@.len() == 9 && "parallel_tools"@.len() == 14);
    assert("streaming"@[0] != "reasoning"@[0]);
}

/// A capability is written down as a flag that is true, or by its name in a
/// list: the value itself, or its required or optional ones.
pub proof fn capabilities_are_written_by_name(v: json::Json, name: Seq<char>, items: Seq<json::Json>, i: int)
    requires
        0 <= i < items.len(),
        items[i] == json::Json::Str(name),
    ensures
        v == json::Json::Array(items) ==> writes_capability(v, name),
        v.field("required"@) == Some(json::Json::Array(items)) ==> writes_capability(v, name),
        v.field("optional"@) == Some(json::Json::Array(items)) ==> writes_capability(v, name),
        v.field(name) == Some(json::Json::Bool(true)) ==> writes_capability(v, name),
{
    assert(items.contains(json::Json::Str(name)));
}

/// A flag that is not true, where no list names it, writes nothing down.
pub proof fn unnamed_capabilities_are_not_written(m: Map<Seq<char>, json::Json>, name: Seq<char>)
    requires
        json::Json::Object(m).field(name) != Some(json::Json::Bool(true)),
        !m.dom().contains("required"@),
        !m.dom().contains("optional"@),
    ensures
        !writes_capability(json::Json::Object(m), name),
{
}

/// The contract's style counts before the one at the top; each of the three
/// other styles has its name, and everything else is OpenAI's.
pub proof fn styles_go_by_name(v: json::Json, name: Seq<char>)
    requires
        json::field_in(v.field("provider_contract"@), "api_style"@) == Some(json::Json::Str(name))
            || (json::field_in(v.field("provider_contract"@), "api_style"@) is None && v.field(
            "api_style"@,
        ) == Some(json::Json::Str(name))),
    ensures
        style_of(named_style(v)) == ApiStyle::AnthropicMessages <==> name == "anthropic_messages"@,
        style_of(named_style(v)) == ApiStyle::GeminiGenerate <==> name == "gemini_generate"@,
        style_of(named_style(v)) == ApiStyle::Custom <==> name == "custom"@,
{
    reveal_strlit("anthropic_messages");
    reveal_strlit("gemini_generate");
    reveal_strlit("custom");
    assert("anthropic_messages"@.len() == 18 && "gemini_generate"@.len() == 15 && "custom"@.len()
        == 6);
}

/// Without a style the provider speaks OpenAI's.
pub proof fn nameless_style_is_openai(v: json::Json)
    requires
        v.field("provider_contract"@) is None,
        v.field("api_style"@) is None,
    ensures
        style_of(named_style(v)) == ApiStyle::OpenAiCompatible,
{
}

/// A model has a generative capability exactly where its metadata say so.
pub proof fn generative_capabilities_need_a_true_flag(
    extra: Map<Seq<char>, JsonValue>,
    model: Seq<char>,
    key: Seq<char>,
)
    ensures
        supports_generative(extra, model, key) <==> extra.dom().contains("metadata"@)
            && json::field_in(
            json::field_in(
                json::field_in(extra["metadata"@]@.field("models"@), model),
                "model_capabilities"@,
            ),
            key,
        ) == Some(json::Json::Bool(true)),
{
}

} // verus!
