//! Tool calls written as text, for models without reliable native calling:
//! the standard `<tool_call>` blocks, their lenient variants and the dialects
//! that models fall back to.

use crate::json;
use crate::json::JsonValue;
use crate::pattern;
use crate::pattern::Match;
use crate::sorting;
use crate::text;
use crate::types::tool;
use crate::types::tool::{ToolCall, ToolDefinition, ToolResult};
use vstd::prelude::*;

verus! {

broadcast use vstd::string::group_string_axioms;

/// How much a prompt says about the protocol.
#[derive(Debug, Clone, Copy, PartialEq, Eq, Structural)]
pub enum PromptLevel {
    L1,
    L2,
    L3,
}

/// The level that an upper-case name stands for; `L1` where it stands for none.
pub open spec fn level_named(upper: Seq<char>) -> PromptLevel {
    if upper == "L2"@ {
        PromptLevel::L2
    } else if upper == "L3"@ {
        PromptLevel::L3
    } else {
        PromptLevel::L1
    }
}

impl PromptLevel {
    /// The level that an upper-case name stands for.
    pub fn from_upper(upper: &str) -> (r: Self)
        ensures
            r == level_named(upper@),
    {
        if text::text_eq(upper, "L2") {
            PromptLevel::L2
        } else if text::text_eq(upper, "L3") {
            PromptLevel::L3
        } else {
            PromptLevel::L1
        }
    }

    /// The level that a name stands for, whatever its case.
    pub fn parse(s: &str) -> (r: Self)
        ensures
            r == level_named(text::uppercase_text(s@)),
    {
        Self::from_upper(text::to_uppercase(s).as_str())
    }
}

impl Default for PromptLevel {
    fn default() -> (r: Self)
        ensures
            r == PromptLevel::L1,
    {
        PromptLevel::L1
    }
}

/// A dialect that a manifest declares: an XML tag and the tool it stands for.
#[derive(Debug, Clone, PartialEq, Eq)]
pub struct KnownDialect {
    pub tag: String,
    pub map_to: String,
}

/// What a dialect is.
pub struct DialectView {
    pub tag: Seq<char>,
    pub map_to: Seq<char>,
}

impl View for KnownDialect {
    type V = DialectView;

    open spec fn view(&self) -> DialectView {
        DialectView { tag: self.tag@, map_to: self.map_to@ }
    }
}

impl Default for KnownDialect {
    fn default() -> (r: Self)
        ensures
            r@ == (DialectView { tag: Seq::empty(), map_to: Seq::empty() }),
    {
        let r = KnownDialect { tag: String::new(), map_to: String::new() };
        assert(r@.tag =~= Seq::empty());
        assert(r@.map_to =~= Seq::empty());
        r
    }
}

/// The views of dialects, in order.
pub open spec fn dialect_views(v: Seq<KnownDialect>) -> Seq<DialectView> {
    Seq::new(v.len(), |i: int| v[i]@)
}

/// Settings for reading text tool calls and writing prompts.
#[derive(Debug, Clone)]
pub struct TextToolConfig {
    /// Accept variants and dialects of the standard block.
    pub lenient_parsing: bool,
    /// Nesting depth allowed for tool call blocks.
    pub max_call_depth: u8,
    /// Warn of other formats in prompts.
    pub include_counterexamples: bool,
    /// How much a prompt says.
    pub prompt_level: PromptLevel,
    /// Prompt language, `en` or `zh`.
    pub locale: String,
    /// The key that holds the arguments, where the manifest names one.
    pub args_key: Option<String>,
    /// The dialects that the manifest declares.
    pub dialects: Vec<KnownDialect>,
}

/// What a configuration is.
pub struct ConfigView {
    pub lenient_parsing: bool,
    pub max_call_depth: u8,
    pub include_counterexamples: bool,
    pub prompt_level: PromptLevel,
    pub locale: Seq<char>,
    pub args_key: Option<Seq<char>>,
    pub dialects: Seq<DialectView>,
}

impl View for TextToolConfig {
    type V = ConfigView;

    open spec fn view(&self) -> ConfigView {
        ConfigView {
            lenient_parsing: self.lenient_parsing,
            max_call_depth: self.max_call_depth,
            include_counterexamples: self.include_counterexamples,
            prompt_level: self.prompt_level,
            locale: self.locale@,
            args_key: text::opt_text(self.args_key),
            dialects: dialect_views(self.dialects@),
        }
    }
}

/// The configuration that holds where nothing is set.
pub open spec fn default_config() -> ConfigView {
    ConfigView {
        lenient_parsing: false,
        max_call_depth: 1,
        include_counterexamples: true,
        prompt_level: PromptLevel::L1,
        locale: "en"@,
        args_key: None,
        dialects: Seq::empty(),
    }
}

impl Default for TextToolConfig {
    fn default() -> (r: Self)
        ensures
            r@ == default_config(),
    {
        let c = TextToolConfig {
            lenient_parsing: false,
            max_call_depth: 1,
            include_counterexamples: true,
            prompt_level: PromptLevel::L1,
            locale: "en".to_string(),
            args_key: None,
            dialects: Vec::new(),
        };
        assert(c@.dialects =~= Seq::empty());
        c
    }
}

/// How tools are offered to a provider.
#[derive(Debug, Clone, Copy, PartialEq, Eq, Structural)]
pub enum NativeStrategy {
    /// Native tools only.
    Full,
    /// Native tools, and text calls where the provider falls back to them.
    Hybrid,
    /// Text calls only.
    TextOnly,
}

/// How tools are offered, and the parser for what comes back.
#[derive(Debug, Clone)]
pub struct ToolCallingPolicy {
    pub native_strategy: NativeStrategy,
    pub parser: StandardTextToolParser,
}

/// The strategy that a manifest's `tool_calling` block asks for.
pub open spec fn native_strategy_of(tc: json::Json) -> NativeStrategy {
    let native = tc.field("native"@);
    let supported = match json::field_in(native, "supported"@) {
        Some(v) => v.boolean() == Some(true),
        None => false,
    };
    let reliability = match json::text_in(json::field_in(native, "reliability"@)) {
        Some(s) => s,
        None => "unreliable"@,
    };
    let has_fallback = match tc.field("text_fallback"@) {
        Some(v) => !(v is Null),
        None => false,
    };
    if !supported {
        NativeStrategy::TextOnly
    } else if reliability == "full"@ {
        NativeStrategy::Full
    } else if reliability == "partial"@ {
        if has_fallback {
            NativeStrategy::Hybrid
        } else {
            NativeStrategy::Full
        }
    } else if has_fallback {
        NativeStrategy::TextOnly
    } else {
        NativeStrategy::Full
    }
}

/// The configuration where a manifest says nothing of tool calling.
pub open spec fn lenient_config() -> ConfigView {
    ConfigView { lenient_parsing: true, prompt_level: PromptLevel::L2, ..default_config() }
}

/// The dialects among the first `n` entries of a list: those with a tag.
pub open spec fn dialects_in(list: Seq<json::Json>, n: int) -> Seq<DialectView>
    decreases n,
{
    if n <= 0 {
        Seq::empty()
    } else {
        let rest = dialects_in(list, n - 1);
        let tag = match json::text_in(list[n - 1].field("tag"@)) {
            Some(s) => s,
            None => Seq::empty(),
        };
        let map_to = match json::text_in(list[n - 1].field("map_to"@)) {
            Some(s) => s,
            None => Seq::empty(),
        };
        if tag.len() == 0 {
            rest
        } else {
            rest.push(DialectView { tag, map_to })
        }
    }
}

/// The configuration that a `text_fallback` block adds to `base`.
pub open spec fn with_fallback(base: ConfigView, fallback: json::Json) -> ConfigView {
    let level = match json::text_in(fallback.field("prompt_level"@)) {
        Some(s) => level_named(text::uppercase_text(s)),
        None => base.prompt_level,
    };
    ConfigView {
        prompt_level: level,
        args_key: match json::text_in(fallback.field("args_key"@)) {
            Some(s) => Some(s),
            None => base.args_key,
        },
        dialects: match fallback.field("known_dialects"@) {
            Some(json::Json::Array(list)) => base.dialects + dialects_in(list, list.len() as int),
            _ => base.dialects,
        },
        include_counterexamples: level != PromptLevel::L1,
        ..base
    }
}

/// The configuration that a manifest's `tool_calling` block asks for.
pub open spec fn config_of(tc: json::Json) -> ConfigView {
    let base = ConfigView {
        lenient_parsing: true,
        prompt_level: PromptLevel::L2,
        ..default_config()
    };
    let cfg = match tc.field("text_fallback"@) {
        Some(f) => if f is Null {
            base
        } else {
            with_fallback(base, f)
        },
        None => base,
    };
    if json::text_in(json::field_in(tc.field("native"@), "reliability"@)) == Some("full"@) {
        ConfigView { lenient_parsing: false, ..cfg }
    } else {
        cfg
    }
}

fn field_text<'a>(v: &'a JsonValue, key: &str) -> (r: Option<&'a str>)
    ensures
        match (r, json::text_in(v@.field(key@))) {
            (Some(s), Some(t)) => s@ == t,
            (None, None) => true,
            _ => false,
        },
{
    match v.get(key) {
        Some(x) => x.as_str(),
        None => None,
    }
}

impl ToolCallingPolicy {
    /// The policy that a manifest's `tool_calling` block asks for; text calls
    /// only where there is none.
    pub fn from_tool_calling(tool_calling: Option<&JsonValue>) -> (r: Self)
        ensures
            match tool_calling {
                Some(tc) => r.native_strategy == native_strategy_of(tc@) && r.parser@ == config_of(
                    tc@,
                ),
                None => r.native_strategy == NativeStrategy::TextOnly && r.parser@
                    == lenient_config(),
            },
    {
        match tool_calling {
            Some(tc) => ToolCallingPolicy {
                native_strategy: infer_native_strategy(tc),
                parser: StandardTextToolParser::from_manifest_tool_calling(tc),
            },
            None => ToolCallingPolicy {
                native_strategy: NativeStrategy::TextOnly,
                parser: default_lenient_parser(),
            },
        }
    }

    /// Whether native tool definitions go to the provider.
    pub fn send_native_tool_specs(&self) -> (r: bool)
        ensures
            r == (self.native_strategy != NativeStrategy::TextOnly),
    {
        matches!(self.native_strategy, NativeStrategy::Full | NativeStrategy::Hybrid)
    }

    /// Whether automatic mode prefers the native dispatcher.
    pub fn prefer_native_dispatcher(&self) -> (r: bool)
        ensures
            r == (self.native_strategy != NativeStrategy::TextOnly),
    {
        self.send_native_tool_specs()
    }
}

fn default_lenient_parser() -> (r: StandardTextToolParser)
    ensures
        r@ == lenient_config(),
{
    let mut config = TextToolConfig::default();
    config.lenient_parsing = true;
    config.prompt_level = PromptLevel::L2;
    config.include_counterexamples = true;
    StandardTextToolParser::new(config)
}

fn infer_native_strategy(tool_calling: &JsonValue) -> (r: NativeStrategy)
    ensures
        r == native_strategy_of(tool_calling@),
{
    let native = tool_calling.get("native");
    let supported = match native {
        Some(n) => match n.get("supported") {
            Some(v) => match v.as_bool() {
                Some(b) => b,
                None => false,
            },
            None => false,
        },
        None => false,
    };
    if !supported {
        return NativeStrategy::TextOnly;
    }
    let reliability = match native {
        Some(n) => match field_text(n, "reliability") {
            Some(s) => s,
            None => "unreliable",
        },
        None => "unreliable",
    };
    let has_fallback = match tool_calling.get("text_fallback") {
        Some(v) => !v.is_null(),
        None => false,
    };
    if text::text_eq(reliability, "full") {
        NativeStrategy::Full
    } else if text::text_eq(reliability, "partial") {
        if has_fallback {
            NativeStrategy::Hybrid
        } else {
            NativeStrategy::Full
        }
    } else if has_fallback {
        NativeStrategy::TextOnly
    } else {
        NativeStrategy::Full
    }
}

/// A parser of text tool calls. What each method returns is a function of the
/// parser and the arguments.
pub trait TextToolParser: Send + Sync {
    /// The plain text and the calls in a response.
    spec fn parsed(&self, response: Seq<char>) -> (Seq<char>, Seq<tool::ToolCallView>);

    /// The instructions for a list of tools.
    spec fn instructed(&self, tools: Seq<ToolDefinition>) -> Seq<char>;

    /// The text of a list of results.
    spec fn formatted(&self, results: Seq<ToolResult>) -> Seq<char>;

    /// Splits a response into plain text and tool calls.
    fn parse(&self, response_text: &str) -> (r: (String, Vec<ToolCall>))
        ensures
            r.0@ == self.parsed(response_text@).0,
            tool::call_views(r.1@) == self.parsed(response_text@).1,
    ;

    /// Writes the instructions for using the tools.
    fn prompt_instructions(&self, tools: &Vec<ToolDefinition>) -> (r: String)
        ensures
            r@ == self.instructed(tools@),
    ;

    /// Writes tool results for the next turn.
    fn format_results(&self, results: &Vec<ToolResult>) -> (r: String)
        ensures
            r@ == self.formatted(results@),
    ;
}

/// The parser for the standard `<tool_call>` format.
#[derive(Debug, Clone)]
pub struct StandardTextToolParser {
    config: TextToolConfig,
}

impl View for StandardTextToolParser {
    type V = ConfigView;

    closed spec fn view(&self) -> ConfigView {
        self.config@
    }
}

impl StandardTextToolParser {
    /// A parser with the given configuration.
    pub fn new(config: TextToolConfig) -> (r: Self)
        ensures
            r@ == config@,
    {
        StandardTextToolParser { config }
    }

    /// The parser that a manifest's `tool_calling` block asks for.
    pub fn from_manifest_tool_calling(tool_calling: &JsonValue) -> (r: Self)
        ensures
            r@ == config_of(tool_calling@),
    {
        let mut config = TextToolConfig::default();
        config.lenient_parsing = true;
        config.prompt_level = PromptLevel::L2;
        if let Some(fallback) = tool_calling.get("text_fallback") {
            if !fallback.is_null() {
                config = apply_fallback(config, fallback);
            }
        }
        if let Some(native) = tool_calling.get("native") {
            if let Some(r) = field_text(native, "reliability") {
                if text::text_eq(r, "full") {
                    config.lenient_parsing = false;
                }
            }
        }
        Self::new(config)
    }
}

fn apply_fallback(base: TextToolConfig, fallback: &JsonValue) -> (r: TextToolConfig)
    ensures
        r@ == with_fallback(base@, fallback@),
{
    let mut config = base;
    if let Some(level) = field_text(fallback, "prompt_level") {
        config.prompt_level = PromptLevel::parse(level);
    }
    if let Some(key) = field_text(fallback, "args_key") {
        config.args_key = Some(key.to_string());
    }
    if let Some(list) = fallback.get("known_dialects") {
        if let Some(entries) = list.as_array() {
            add_dialects(&mut config.dialects, entries);
        }
    }
    config.include_counterexamples = config.prompt_level != PromptLevel::L1;
    config
}

fn add_dialects(dialects: &mut Vec<KnownDialect>, list: &Vec<JsonValue>)
    ensures
        dialect_views(final(dialects)@) == dialect_views(old(dialects)@) + dialects_in(
            json::array_view(list@),
            list@.len() as int,
        ),
{
    let ghost before = dialect_views(dialects@);
    let ghost views = json::array_view(list@);
    proof {
        json::lemma_array_view(list@);
        assert(before + dialects_in(views, 0) =~= before);
    }
    let mut i: usize = 0;
    while i < list.len()
        invariant
            i <= list@.len(),
            views == json::array_view(list@),
            dialect_views(dialects@) == before + dialects_in(views, i as int),
        decreases list@.len() - i,
    {
        proof {
            json::lemma_array_view(list@);
        }
        let entry = &list[i];
        assert(views[i as int] == entry@);
        let tag = match field_text(entry, "tag") {
            Some(s) => s.to_string(),
            None => String::new(),
        };
        let map_to = match field_text(entry, "map_to") {
            Some(s) => s.to_string(),
            None => String::new(),
        };
        assert(field_text_or_empty(entry@, "tag"@) =~= tag@);
        assert(field_text_or_empty(entry@, "map_to"@) =~= map_to@);
        if tag.as_str().unicode_len() > 0 {
            let ghost d0 = dialect_views(dialects@);
            let ghost d = DialectView { tag: tag@, map_to: map_to@ };
            dialects.push(KnownDialect { tag, map_to });
            assert(dialect_views(dialects@) =~= d0.push(d));
            assert(d0.push(d) =~= before + dialects_in(views, i as int).push(d));
        }
        i += 1;
    }
}

spec fn field_text_or_empty(v: json::Json, key: Seq<char>) -> Seq<char> {
    match json::text_in(v.field(key)) {
        Some(s) => s,
        None => Seq::empty(),
    }
}

/// Markup by which a model wrote its tool calls.
#[derive(Debug, Clone, Copy, PartialEq, Eq, Structural)]
pub enum TextToolDeviation {
    StandardToolCall,
    ShellDialect,
    BashDialect,
    DsmlDialect,
}

impl TextToolDeviation {
    /// The name of the markup.
    pub fn as_str(self) -> (r: &'static str)
        ensures
            r@ == (match self {
                TextToolDeviation::StandardToolCall => "standard_tool_call"@,
                TextToolDeviation::ShellDialect => "shell"@,
                TextToolDeviation::BashDialect => "bash"@,
                TextToolDeviation::DsmlDialect => "dsml"@,
            }),
    {
        match self {
            TextToolDeviation::StandardToolCall => "standard_tool_call",
            TextToolDeviation::ShellDialect => "shell",
            TextToolDeviation::BashDialect => "bash",
            TextToolDeviation::DsmlDialect => "dsml",
        }
    }
}

/// A standard block and its body.
pub const TOOL_CALL_BLOCK: &'static str = "(?s)<tool_call(?:\\s+[^>]*)?>(.*?)</tool_call>";

/// A shell block with a command element.
pub const SHELL_DIALECT: &'static str = "(?s)<shell>\\s*<command>(.*?)</command>\\s*</shell>";

/// A shell block with the command as its body.
pub const SHELL_PLAIN_BODY: &'static str = "(?s)<shell>\\s*(.*?)\\s*</shell>";

/// A bash block and its body.
pub const BASH_DIALECT: &'static str = "(?s)<bash>(.*?)</bash>";

/// What sets DSML tags apart: the name between fullwidth vertical lines.
pub const DSML_TAG: &'static str = "\u{FF5C}\u{FF5C}DSML\u{FF5C}\u{FF5C}";

/// A DSML call: its tool and its body.
pub const DSML_INVOKE: &'static str =
    "(?s)<\u{FF5C}\u{FF5C}DSML\u{FF5C}\u{FF5C}invoke\\s+name=\"([^\"]+)\">(.*?)</\u{FF5C}\u{FF5C}DSML\u{FF5C}\u{FF5C}invoke>";

/// A parameter of a DSML call: its name and its value.
pub const DSML_PARAMETER: &'static str =
    "(?s)<\u{FF5C}\u{FF5C}DSML\u{FF5C}\u{FF5C}parameter\\s+name=\"([^\"]+)\"[^>]*>(.*?)</\u{FF5C}\u{FF5C}DSML\u{FF5C}\u{FF5C}parameter>";

/// A block of DSML calls.
pub const DSML_WRAPPER: &'static str =
    "(?s)<\u{FF5C}\u{FF5C}DSML\u{FF5C}\u{FF5C}tool_calls>\\s*(.*?)\\s*</\u{FF5C}\u{FF5C}DSML\u{FF5C}\u{FF5C}tool_calls>";

/// A block of standard calls.
pub const TOOL_CALLS_WRAPPER: &'static str = "(?s)<tool_calls>\\s*(.*?)\\s*</tool_calls>";

/// A name attribute.
pub const NAME_ATTRIBUTE: &'static str = "name=\"([^\"]+)\"";

/// The markup, given which patterns the text holds.
pub open spec fn deviation(dsml: bool, shell: bool, bash: bool, block: bool) -> Option<
    TextToolDeviation,
> {
    if dsml {
        Some(TextToolDeviation::DsmlDialect)
    } else if shell {
        Some(TextToolDeviation::ShellDialect)
    } else if bash {
        Some(TextToolDeviation::BashDialect)
    } else if block {
        Some(TextToolDeviation::StandardToolCall)
    } else {
        None
    }
}

/// The markup, given which patterns the text holds.
pub fn deviation_of(dsml: bool, shell: bool, bash: bool, block: bool) -> (r: Option<
    TextToolDeviation,
>)
    ensures
        r == deviation(dsml, shell, bash, block),
{
    if dsml {
        Some(TextToolDeviation::DsmlDialect)
    } else if shell {
        Some(TextToolDeviation::ShellDialect)
    } else if bash {
        Some(TextToolDeviation::BashDialect)
    } else if block {
        Some(TextToolDeviation::StandardToolCall)
    } else {
        None
    }
}

/// The first markup recognised in a model's text.
pub fn detect_text_tool_deviation(text: &str) -> (r: Option<TextToolDeviation>)
    ensures
        r == deviation(
            text::has_part(text@, DSML_TAG@),
            pattern::matched(SHELL_DIALECT@, text@) || pattern::matched(SHELL_PLAIN_BODY@, text@),
            pattern::matched(BASH_DIALECT@, text@),
            pattern::matched(TOOL_CALL_BLOCK@, text@),
        ),
{
    let shell = pattern::is_match(SHELL_DIALECT, text);
    let plain = pattern::is_match(SHELL_PLAIN_BODY, text);
    deviation_of(
        text::contains(text, DSML_TAG),
        shell || plain,
        pattern::is_match(BASH_DIALECT, text),
        pattern::is_match(TOOL_CALL_BLOCK, text),
    )
}

/// The native calls where there are any, else what the parser reads from the text.
pub fn parse_hybrid_tool_calls<P: TextToolParser>(
    parser: &P,
    content: &str,
    native_calls: &Vec<ToolCall>,
) -> (r: (String, Vec<ToolCall>))
    ensures
        native_calls@.len() > 0 ==> r.0@ == content@ && tool::call_views(r.1@)
            == tool::call_views(native_calls@),
        native_calls@.len() == 0 ==> r.0@ == parser.parsed(content@).0 && tool::call_views(r.1@)
            == parser.parsed(content@).1,
{
    if native_calls.len() > 0 {
        return (content.to_string(), tool::copy_calls(native_calls));
    }
    parser.parse(content)
}

/// The identifier of the call at position `n`.
pub open spec fn call_id(n: nat) -> Seq<char> {
    "text_tool_"@ + text::decimal(n)
}

fn call_id_text(n: usize) -> (r: String)
    ensures
        r@ == call_id(n as nat),
{
    text::cat("text_tool_", text::decimal_text(n as u64).as_str())
}

/// The span of a match.
pub open spec fn match_span(m: Seq<Option<(usize, usize)>>) -> (usize, usize) {
    m[0]->0
}

/// The text of group `k`, empty where it took no part.
pub open spec fn group_or_empty(
    s: Seq<char>,
    m: Seq<Option<(usize, usize)>>,
    k: int,
) -> Seq<char> {
    match pattern::group_text(s, m, k) {
        Some(t) => t,
        None => Seq::empty(),
    }
}

fn group_or_blank(m: &Match, chars: &Vec<char>, k: usize) -> (r: String)
    requires
        pattern::placed(m@, chars@.len() as int),
    ensures
        r@ == group_or_empty(chars@, m@, k as int),
{
    match m.group(chars, k) {
        Some(s) => s,
        None => {
            let s = String::new();
            assert(s@ =~= Seq::empty());
            s
        },
    }
}

fn span_of(m: &Match, n: usize) -> (r: (usize, usize))
    requires
        pattern::placed(m@, n as int),
    ensures
        r == match_span(m@),
        r.0 <= r.1 <= n,
{
    match m.span(0) {
        Some(s) => s,
        None => (0, 0),
    }
}

/// The arguments in the body of a call: what stands under the preferred key or
/// one of the usual keys, else the body without the call's own fields.
pub open spec fn arguments_in(
    m: Map<Seq<char>, json::Json>,
    preferred: Option<Seq<char>>,
) -> json::Json {
    if preferred is Some && m.dom().contains(preferred->0) {
        m[preferred->0]
    } else if m.dom().contains("arguments"@) {
        m["arguments"@]
    } else if m.dom().contains("parameters"@) {
        m["parameters"@]
    } else if m.dom().contains("params"@) {
        m["params"@]
    } else if m.dom().contains("args"@) {
        m["args"@]
    } else {
        json::Json::Object(m.remove("name"@).remove("id"@).remove("type"@))
    }
}

/// The arguments in the body of a call.
pub fn normalize_arguments(
    obj: &Vec<(String, JsonValue)>,
    preferred_key: &Option<String>,
) -> (r: JsonValue)
    ensures
        r@ == arguments_in(json::object_view(obj@), text::opt_text(*preferred_key)),
{
    if let Some(key) = preferred_key {
        if let Some(v) = json::find_entry(obj, key.as_str()) {
            return v.copy();
        }
    }
    if let Some(v) = json::find_entry(obj, "arguments") {
        return v.copy();
    }
    if let Some(v) = json::find_entry(obj, "parameters") {
        return v.copy();
    }
    if let Some(v) = json::find_entry(obj, "params") {
        return v.copy();
    }
    if let Some(v) = json::find_entry(obj, "args") {
        return v.copy();
    }
    let a = json::without_entry(obj, "name");
    let b = json::without_entry(&a, "id");
    let c = json::without_entry(&b, "type");
    JsonValue::Object(c)
}

/// The value that the body of a call writes, where it writes one.
pub open spec fn parsed_body(body: Seq<char>) -> Option<json::Json> {
    let t = text::trimmed(body);
    if t.len() == 0 {
        None
    } else {
        match json::json_parsed(vstd::utf8::encode_utf8(t)) {
            Ok(j) => Some(j),
            Err(_) => None,
        }
    }
}

/// The name and arguments of a call, given the value of its body and the name
/// on its opening tag.
pub open spec fn call_in(
    parsed: Option<json::Json>,
    attr_name: Option<Seq<char>>,
    preferred: Option<Seq<char>>,
) -> Option<(Seq<char>, json::Json)> {
    match parsed {
        Some(json::Json::Object(m)) => {
            let name = match json::text_in(json::Json::Object(m).field("name"@)) {
                Some(n) => Some(n),
                None => attr_name,
            };
            match name {
                Some(n) => Some((n, arguments_in(m, preferred))),
                None => None,
            }
        },
        _ => None,
    }
}

fn parse_body(body: &str) -> (r: Option<JsonValue>)
    ensures
        json::opt_json(r) == parsed_body(body@),
{
    let trimmed = text::trim(body);
    if trimmed.as_str().unicode_len() == 0 {
        return None;
    }
    match json::parse_text(trimmed.as_str()) {
        Ok(v) => Some(v),
        Err(_) => None,
    }
}

/// The name and arguments of a call, given the value of its body and the name
/// on its opening tag.
pub fn call_from_body(
    parsed: &Option<JsonValue>,
    attr_name: &Option<String>,
    preferred_args_key: &Option<String>,
) -> (r: Option<(String, JsonValue)>)
    ensures
        match (
            r,
            call_in(
                json::opt_json(*parsed),
                text::opt_text(*attr_name),
                text::opt_text(*preferred_args_key),
            ),
        ) {
            (Some((n, a)), Some((m, b))) => n@ == m && a@ == b,
            (None, None) => true,
            _ => false,
        },
{
    match parsed {
        Some(value) => match value {
            JsonValue::Object(entries) => {
                let own = field_text(value, "name");
                let name = match own {
                    Some(n) => Some(n.to_string()),
                    None => match attr_name {
                        Some(n) => Some(n.clone()),
                        None => None,
                    },
                };
                match name {
                    Some(n) => Some((n, normalize_arguments(entries, preferred_args_key))),
                    None => None,
                }
            },
            _ => None,
        },
        None => None,
    }
}

/// Calls and the spans they were read from.
pub struct CallsView {
    pub calls: Seq<tool::ToolCallView>,
    pub spans: Seq<(usize, usize)>,
}

/// No call.
pub open spec fn no_calls() -> CallsView {
    CallsView { calls: Seq::empty(), spans: Seq::empty() }
}

/// The calls in the first `n` blocks, given the name on each opening tag and
/// the value of each body.
pub open spec fn block_calls(
    found: Seq<Seq<Option<(usize, usize)>>>,
    attrs: Seq<Option<Seq<char>>>,
    bodies: Seq<Option<json::Json>>,
    preferred: Option<Seq<char>>,
    n: int,
) -> CallsView
    decreases n,
{
    if n <= 0 {
        no_calls()
    } else {
        let rest = block_calls(found, attrs, bodies, preferred, n - 1);
        match call_in(bodies[n - 1], attrs[n - 1], preferred) {
            Some((name, arguments)) => CallsView {
                calls: rest.calls.push(
                    tool::ToolCallView { id: call_id(rest.calls.len()), name, arguments },
                ),
                spans: rest.spans.push(match_span(found[n - 1])),
            },
            None => rest,
        }
    }
}

/// The views of optional names.
pub open spec fn opt_texts(v: Seq<Option<String>>) -> Seq<Option<Seq<char>>> {
    Seq::new(v.len(), |i: int| text::opt_text(v[i]))
}

/// The views of optional values.
pub open spec fn opt_jsons(v: Seq<Option<JsonValue>>) -> Seq<Option<json::Json>> {
    Seq::new(v.len(), |i: int| json::opt_json(v[i]))
}

/// Each span ends before the next begins.
pub open spec fn in_order(spans: Seq<(usize, usize)>, n: int) -> bool {
    &&& forall|i: int| 0 <= i < spans.len() ==> (#[trigger] spans[i]).0 <= spans[i].1 <= n
    &&& forall|i: int, j: int|
        0 <= i < j < spans.len() ==> (#[trigger] spans[i]).1 <= (#[trigger] spans[j]).0
}

/// The calls in standard blocks, given the name on each opening tag and the
/// value of each body.
pub fn collect_blocks(
    found: &Vec<Match>,
    attrs: &Vec<Option<String>>,
    bodies: &Vec<Option<JsonValue>>,
    args_key: &Option<String>,
    len: usize,
) -> (r: (Vec<ToolCall>, Vec<(usize, usize)>))
    requires
        pattern::all_placed(pattern::match_views(found@), len as int),
        attrs@.len() == found@.len(),
        bodies@.len() == found@.len(),
    ensures
        tool::call_views(r.0@) == block_calls(
            pattern::match_views(found@),
            opt_texts(attrs@),
            opt_jsons(bodies@),
            text::opt_text(*args_key),
            found@.len() as int,
        ).calls,
        r.1@ == block_calls(
            pattern::match_views(found@),
            opt_texts(attrs@),
            opt_jsons(bodies@),
            text::opt_text(*args_key),
            found@.len() as int,
        ).spans,
        r.0@.len() == r.1@.len(),
        in_order(r.1@, len as int),
{
    let ghost views = pattern::match_views(found@);
    let ghost names = opt_texts(attrs@);
    let ghost values = opt_jsons(bodies@);
    let ghost key = text::opt_text(*args_key);
    let mut calls: Vec<ToolCall> = Vec::new();
    let mut spans: Vec<(usize, usize)> = Vec::new();
    assert(tool::call_views(calls@) =~= Seq::empty());
    assert(spans@ =~= Seq::empty());
    let mut i: usize = 0;
    while i < found.len()
        invariant
            i <= found@.len(),
            attrs@.len() == found@.len(),
            bodies@.len() == found@.len(),
            views == pattern::match_views(found@),
            names == opt_texts(attrs@),
            values == opt_jsons(bodies@),
            key == text::opt_text(*args_key),
            pattern::all_placed(views, len as int),
            tool::call_views(calls@) == block_calls(views, names, values, key, i as int).calls,
            spans@ == block_calls(views, names, values, key, i as int).spans,
            calls@.len() == spans@.len(),
            in_order(spans@, len as int),
            i > 0 ==> forall|k: int|
                0 <= k < spans@.len() ==> (#[trigger] spans@[k]).1 <= pattern::match_end(
                    views[i - 1],
                ),
            i == 0 ==> spans@.len() == 0,
        decreases found@.len() - i,
    {
        assert(views[i as int] == found@[i as int]@);
        assert(pattern::placed(views[i as int], len as int));
        proof {
            if i > 0 {
                assert(pattern::match_end(views[i - 1]) <= pattern::match_start(views[i as int]));
            }
        }
        let (a, b) = span_of(&found[i], len);
        match call_from_body(&bodies[i], &attrs[i], args_key) {
            Some((name, arguments)) => {
                let ghost c0 = tool::call_views(calls@);
                let id = call_id_text(calls.len());
                calls.push(ToolCall { id, name, arguments });
                spans.push((a, b));
                assert(tool::call_views(calls@) =~= c0.push(calls@.last()@));
            },
            None => {},
        }
        i += 1;
    }
    (calls, spans)
}

/// `s` without the characters of one span.
pub open spec fn without_span(s: Seq<char>, span: (usize, usize)) -> Seq<char> {
    if span.0 <= span.1 <= s.len() {
        s.subrange(0, span.0 as int) + s.subrange(span.1 as int, s.len() as int)
    } else {
        s
    }
}

/// `s` without the characters of the spans, the last span taken out first so
/// that earlier positions stay what they were.
pub open spec fn without_spans(s: Seq<char>, spans: Seq<(usize, usize)>) -> Seq<char>
    decreases spans.len(),
{
    if spans.len() == 0 {
        s
    } else {
        without_spans(without_span(s, spans.last()), spans.drop_last())
    }
}

/// `s` without the characters of the spans.
pub fn remove_spans(s: &str, spans: &Vec<(usize, usize)>) -> (r: String)
    ensures
        r@ == without_spans(s@, spans@),
{
    let mut chars = text::to_chars(s);
    let mut k: usize = spans.len();
    assert(spans@.take(k as int) =~= spans@);
    while k > 0
        invariant
            k <= spans@.len(),
            without_spans(s@, spans@) == without_spans(chars@, spans@.take(k as int)),
        decreases k,
    {
        let (a, b) = spans[k - 1];
        let ghost before = chars@;
        assert(spans@.take(k as int).drop_last() =~= spans@.take(k - 1));
        assert(spans@.take(k as int).last() == spans@[k - 1]);
        if a <= b && b <= chars.len() {
            let mut head = text::slice(&chars, 0, a);
            let mut tail = text::slice(&chars, b, chars.len());
            head.append(&mut tail);
            chars = head;
            assert(chars@ =~= without_span(before, (a, b)));
        }
        k -= 1;
    }
    text::string_of(&chars)
}

/// The lines of the text without white space around them, empty ones left out.
pub open spec fn tidied(s: Seq<char>) -> Seq<char> {
    text::trimmed(text::joined(kept_lines(text::lines_of(s)), "\n"@))
}

/// The lines trimmed, empty ones left out.
pub open spec fn kept_lines(lines: Seq<Seq<char>>) -> Seq<Seq<char>>
    decreases lines.len(),
{
    if lines.len() == 0 {
        Seq::empty()
    } else {
        let rest = kept_lines(lines.drop_last());
        let line = text::trimmed(lines.last());
        if line.len() > 0 {
            rest.push(line)
        } else {
            rest
        }
    }
}

/// The text with its lines trimmed and empty ones left out.
pub fn tidy(s: &str) -> (r: String)
    ensures
        r@ == tidied(s@),
{
    let lines = text::lines(s);
    let ghost all = text::texts(lines@);
    let mut kept: Vec<String> = Vec::new();
    assert(text::texts(kept@) =~= Seq::empty());
    let mut i: usize = 0;
    while i < lines.len()
        invariant
            i <= lines@.len(),
            all == text::texts(lines@),
            text::texts(kept@) == kept_lines(all.take(i as int)),
        decreases lines@.len() - i,
    {
        assert(all.take(i + 1).drop_last() =~= all.take(i as int));
        assert(all.take(i + 1).last() == lines@[i as int]@);
        let line = text::trim(lines[i].as_str());
        if line.as_str().unicode_len() > 0 {
            let ghost k0 = text::texts(kept@);
            let ghost t = line@;
            kept.push(line);
            assert(text::texts(kept@) =~= k0.push(t));
        }
        i += 1;
    }
    assert(all.take(all.len() as int) =~= all);
    let joined = text::join(&kept, "\n");
    text::trim(joined.as_str())
}

/// The parameters of a DSML call: the first `n` matches in its body.
pub open spec fn dsml_arguments(
    body: Seq<char>,
    params: Seq<Seq<Option<(usize, usize)>>>,
    n: int,
) -> Map<Seq<char>, json::Json>
    decreases n,
{
    if n <= 0 {
        Map::empty()
    } else {
        let rest = dsml_arguments(body, params, n - 1);
        let key = group_or_empty(body, params[n - 1], 1);
        if key.len() > 0 {
            rest.insert(
                key,
                json::Json::Str(text::trimmed(group_or_empty(body, params[n - 1], 2))),
            )
        } else {
            rest
        }
    }
}

/// The DSML calls among the first `n` matches, given the parameters in each body.
pub open spec fn dsml_calls(
    s: Seq<char>,
    found: Seq<Seq<Option<(usize, usize)>>>,
    params: Seq<Seq<Seq<Option<(usize, usize)>>>>,
    n: int,
) -> CallsView
    decreases n,
{
    if n <= 0 {
        no_calls()
    } else {
        let rest = dsml_calls(s, found, params, n - 1);
        let name = text::trimmed(group_or_empty(s, found[n - 1], 1));
        if name.len() == 0 {
            rest
        } else {
            let body = group_or_empty(s, found[n - 1], 2);
            let args = dsml_arguments(body, params[n - 1], params[n - 1].len() as int);
            CallsView {
                calls: rest.calls.push(
                    tool::ToolCallView {
                        id: call_id(rest.calls.len()),
                        name,
                        arguments: json::Json::Object(args),
                    },
                ),
                spans: rest.spans.push(match_span(found[n - 1])),
            }
        }
    }
}

/// The views of lists of matches.
pub open spec fn match_lists(v: Seq<Vec<Match>>) -> Seq<Seq<Seq<Option<(usize, usize)>>>> {
    Seq::new(v.len(), |i: int| pattern::match_views(v[i]@))
}

fn collect_arguments(body: &str, params: &Vec<Match>) -> (r: JsonValue)
    requires
        pattern::all_placed(pattern::match_views(params@), body@.len() as int),
    ensures
        r@ == json::Json::Object(
            dsml_arguments(body@, pattern::match_views(params@), params@.len() as int),
        ),
{
    let chars = text::to_chars(body);
    let ghost views = pattern::match_views(params@);
    let mut entries: Vec<(String, JsonValue)> = Vec::new();
    let mut i: usize = 0;
    while i < params.len()
        invariant
            i <= params@.len(),
            chars@ == body@,
            views == pattern::match_views(params@),
            pattern::all_placed(views, body@.len() as int),
            json::object_view(entries@) == dsml_arguments(body@, views, i as int),
        decreases params@.len() - i,
    {
        assert(views[i as int] == params@[i as int]@);
        let key = group_or_blank(&params[i], &chars, 1);
        let value = text::trim(group_or_blank(&params[i], &chars, 2).as_str());
        if key.as_str().unicode_len() > 0 {
            let ghost before = entries@;
            let ghost t = value@;
            entries.push((key, JsonValue::Str(value)));
            assert(entries@.drop_last() =~= before);
            assert(entries@.last().1@ == json::Json::Str(t));
        }
        i += 1;
    }
    JsonValue::Object(entries)
}

/// The DSML calls, given the matches of the call pattern and of the parameter
/// pattern in each body.
pub fn collect_dsml(chars: &Vec<char>, found: &Vec<Match>, params: &Vec<Vec<Match>>) -> (r: (
    Vec<ToolCall>,
    Vec<(usize, usize)>,
))
    requires
        pattern::all_placed(pattern::match_views(found@), chars@.len() as int),
        params@.len() == found@.len(),
        forall|i: int|
            0 <= i < params@.len() ==> pattern::all_placed(
                pattern::match_views((#[trigger] params@[i])@),
                group_or_empty(chars@, found@[i]@, 2).len() as int,
            ),
    ensures
        tool::call_views(r.0@) == dsml_calls(
            chars@,
            pattern::match_views(found@),
            match_lists(params@),
            found@.len() as int,
        ).calls,
        r.1@ == dsml_calls(
            chars@,
            pattern::match_views(found@),
            match_lists(params@),
            found@.len() as int,
        ).spans,
        r.0@.len() == r.1@.len(),
        forall|i: int| 0 <= i < r.1@.len() ==> (#[trigger] r.1@[i]).0 <= r.1@[i].1 <= chars@.len(),
{
    let ghost views = pattern::match_views(found@);
    let ghost lists = match_lists(params@);
    let mut calls: Vec<ToolCall> = Vec::new();
    let mut spans: Vec<(usize, usize)> = Vec::new();
    assert(tool::call_views(calls@) =~= Seq::empty());
    assert(spans@ =~= Seq::empty());
    let mut i: usize = 0;
    while i < found.len()
        invariant
            i <= found@.len(),
            params@.len() == found@.len(),
            views == pattern::match_views(found@),
            lists == match_lists(params@),
            pattern::all_placed(views, chars@.len() as int),
            forall|k: int|
                0 <= k < params@.len() ==> pattern::all_placed(
                    pattern::match_views((#[trigger] params@[k])@),
                    group_or_empty(chars@, found@[k]@, 2).len() as int,
                ),
            tool::call_views(calls@) == dsml_calls(chars@, views, lists, i as int).calls,
            spans@ == dsml_calls(chars@, views, lists, i as int).spans,
            calls@.len() == spans@.len(),
            forall|k: int|
                0 <= k < spans@.len() ==> (#[trigger] spans@[k]).0 <= spans@[k].1 <= chars@.len(),
        decreases found@.len() - i,
    {
        assert(views[i as int] == found@[i as int]@);
        assert(lists[i as int] == pattern::match_views(params@[i as int]@));
        let name = text::trim(group_or_blank(&found[i], chars, 1).as_str());
        if name.as_str().unicode_len() > 0 {
            let body = group_or_blank(&found[i], chars, 2);
            assert(pattern::all_placed(
                pattern::match_views(params@[i as int]@),
                body@.len() as int,
            ));
            let arguments = collect_arguments(body.as_str(), &params[i]);
            assert(params@[i as int]@.len() == lists[i as int].len());
            let ghost c0 = tool::call_views(calls@);
            let id = call_id_text(calls.len());
            let span = span_of(&found[i], chars.len());
            calls.push(ToolCall { id, name, arguments });
            spans.push(span);
            assert(tool::call_views(calls@) =~= c0.push(calls@.last()@));
        }
        i += 1;
    }
    (calls, spans)
}

/// The keys that order spans by where they begin.
pub open spec fn span_keys(spans: Seq<(usize, usize)>) -> Seq<sorting::KeyView> {
    Seq::new(
        spans.len(),
        |i: int|
            sorting::KeyView { first: spans[i].0 as u64, second: 0, text: Seq::empty() },
    )
}

/// The spans by where they begin; spans with one beginning keep their order.
pub open spec fn sorted_spans(spans: Seq<(usize, usize)>) -> Seq<(usize, usize)> {
    sorting::sorted_by(spans, span_keys(spans))
}

/// The spans, each joined to the one before it where it begins no later than that one ends.
pub open spec fn joined_spans(spans: Seq<(usize, usize)>) -> Seq<(usize, usize)>
    decreases spans.len(),
{
    if spans.len() == 0 {
        Seq::empty()
    } else {
        let rest = joined_spans(spans.drop_last());
        let x = spans.last();
        if rest.len() > 0 && x.0 <= rest.last().1 {
            let last = rest.last();
            rest.update(
                rest.len() - 1,
                (
                    last.0,
                    if last.1 < x.1 {
                        x.1
                    } else {
                        last.1
                    },
                ),
            )
        } else {
            rest.push(x)
        }
    }
}

/// The spans merged where they overlap or touch.
pub open spec fn merged_spans(spans: Seq<(usize, usize)>) -> Seq<(usize, usize)> {
    joined_spans(sorted_spans(spans))
}

/// Every span is the right way round and within the first `n` characters.
pub open spec fn spans_within(spans: Seq<(usize, usize)>, n: int) -> bool {
    forall|i: int| 0 <= i < spans.len() ==> (#[trigger] spans[i]).0 <= spans[i].1 <= n
}

proof fn lemma_joined_apart(spans: Seq<(usize, usize)>, n: int)
    requires
        spans_within(spans, n),
    ensures
        in_order(joined_spans(spans), n),
        forall|i: int, j: int|
            0 <= i < j < joined_spans(spans).len() ==> (#[trigger] joined_spans(spans)[i]).1 < (
            #[trigger] joined_spans(spans)[j]).0,
    decreases spans.len(),
{
    if spans.len() > 0 {
        assert(spans_within(spans.drop_last(), n)) by {
            assert forall|i: int| 0 <= i < spans.drop_last().len() implies (
            #[trigger] spans.drop_last()[i]).0 <= spans.drop_last()[i].1 <= n by {
                assert(spans[i] == spans.drop_last()[i]);
            }
        }
        lemma_joined_apart(spans.drop_last(), n);
        let rest = joined_spans(spans.drop_last());
        assert(spans[spans.len() - 1].0 <= spans[spans.len() - 1].1 <= n);
        if rest.len() > 0 {
            assert(rest[rest.len() - 1].0 <= rest[rest.len() - 1].1 <= n);
        }
    }
}

/// `outer` holds all characters of `inner`.
pub open spec fn covers(outer: (usize, usize), inner: (usize, usize)) -> bool {
    outer.0 <= inner.0 && inner.1 <= outer.1
}

/// Some span of `spans` holds all characters of `inner`.
pub open spec fn covered(spans: Seq<(usize, usize)>, inner: (usize, usize)) -> bool {
    exists|j: int| 0 <= j < spans.len() && covers(#[trigger] spans[j], inner)
}

proof fn lemma_joined_cover(spans: Seq<(usize, usize)>, k: int)
    requires
        forall|i: int, j: int|
            0 <= i < j < spans.len() ==> (#[trigger] spans[i]).0 <= (#[trigger] spans[j]).0,
        forall|i: int| 0 <= i < spans.len() ==> (#[trigger] spans[i]).0 <= spans[i].1,
        0 <= k < spans.len(),
    ensures
        covered(joined_spans(spans), spans[k]),
        joined_spans(spans).len() > 0,
        joined_spans(spans).last().0 <= spans.last().0,
    decreases spans.len(),
{
    let head = spans.drop_last();
    let rest = joined_spans(head);
    let all = joined_spans(spans);
    let x = spans.last();
    if head.len() > 0 {
        assert forall|i: int, j: int| 0 <= i < j < head.len() implies (#[trigger] head[i]).0 <= (
        #[trigger] head[j]).0 by {
            assert(spans[i].0 <= spans[j].0);
        }
        lemma_joined_cover(head, if k < head.len() { k } else { 0 });
        assert(head.last() == spans[spans.len() - 2]);
        assert(spans[spans.len() - 2].0 <= spans[spans.len() - 1].0);
    }
    if k < head.len() {
        let j = choose|j: int| 0 <= j < rest.len() && covers(#[trigger] rest[j], head[k]);
        assert(covers(all[j], spans[k]));
    } else {
        assert(covers(all[all.len() - 1], x));
    }
}

proof fn lemma_sorted_within(spans: Seq<(usize, usize)>, n: int)
    requires
        spans_within(spans, n),
        spans.len() <= usize::MAX,
    ensures
        spans_within(sorted_spans(spans), n),
{
    let keys = span_keys(spans);
    let order = sorting::order_of(keys);
    sorting::order_is_stable(keys, keys.len());
    let sorted = sorted_spans(spans);
    assert forall|i: int| 0 <= i < sorted.len() implies (#[trigger] sorted[i]).0 <= sorted[i].1
        <= n by {
        assert(order[i] < spans.len());
        assert(sorted[i] == spans[order[i] as int]);
    }
}

/// Merging keeps every span covered, and what is left lies apart in ascending order.
pub proof fn merging_covers_all(spans: Seq<(usize, usize)>, n: int, k: int)
    requires
        spans_within(spans, n),
        spans.len() <= usize::MAX,
        n <= u64::MAX,
        0 <= k < spans.len(),
    ensures
        covered(merged_spans(spans), spans[k]),
        in_order(merged_spans(spans), n),
{
    let keys = span_keys(spans);
    let order = sorting::order_of(keys);
    sorting::order_is_stable(keys, keys.len());
    let sorted = sorted_spans(spans);
    lemma_sorted_within(spans, n);
    assert forall|i: int, j: int| 0 <= i < j < sorted.len() implies (#[trigger] sorted[i]).0 <= (
    #[trigger] sorted[j]).0 by {
        let a = order[i];
        let b = order[j];
        assert(spans[a as int].0 <= spans[a as int].1 <= n);
        assert(spans[b as int].0 <= spans[b as int].1 <= n);
        assert(keys[a as int].first == spans[a as int].0);
        assert(keys[b as int].first == spans[b as int].0);
        assert(sorting::goes_before(keys, a, b));
    }
    assert(sorting::holds(order, k));
    let at = choose|i: int| 0 <= i < order.len() && #[trigger] order[i] == k;
    assert(sorted[at] == spans[k]);
    lemma_joined_cover(sorted, at);
    lemma_joined_apart(sorted, n);
}

/// The span holds the character at `p`.
pub open spec fn holds_char(span: (usize, usize), p: int) -> bool {
    span.0 <= p < span.1
}

/// Some span of `spans` holds the character at `p`.
pub open spec fn char_covered(spans: Seq<(usize, usize)>, p: int) -> bool {
    exists|i: int| 0 <= i < spans.len() && holds_char(#[trigger] spans[i], p)
}

proof fn lemma_joined_holds(spans: Seq<(usize, usize)>, p: int)
    requires
        char_covered(joined_spans(spans), p),
    ensures
        char_covered(spans, p),
    decreases spans.len(),
{
    let all = joined_spans(spans);
    let j = choose|j: int| 0 <= j < all.len() && holds_char(#[trigger] all[j], p);
    if spans.len() > 0 {
        let head = spans.drop_last();
        let rest = joined_spans(head);
        if holds_char(spans.last(), p) {
            assert(holds_char(spans[spans.len() - 1], p));
        } else {
            assert(0 <= j < rest.len() && holds_char(rest[j], p));
            lemma_joined_holds(head, p);
            let i = choose|i: int| 0 <= i < head.len() && holds_char(#[trigger] head[i], p);
            assert(holds_char(spans[i], p));
        }
    }
}

/// Merged spans neither overlap nor touch.
pub proof fn merged_spans_lie_apart(spans: Seq<(usize, usize)>, n: int, i: int, j: int)
    requires
        spans_within(spans, n),
        spans.len() <= usize::MAX,
        0 <= i < j < merged_spans(spans).len(),
    ensures
        merged_spans(spans)[i].1 < merged_spans(spans)[j].0,
{
    lemma_sorted_within(spans, n);
    lemma_joined_apart(sorted_spans(spans), n);
}

/// Merging covers no character that no span held.
pub proof fn merging_covers_nothing_new(spans: Seq<(usize, usize)>, p: int)
    requires
        spans.len() <= usize::MAX,
        char_covered(merged_spans(spans), p),
    ensures
        char_covered(spans, p),
{
    let keys = span_keys(spans);
    sorting::order_is_stable(keys, keys.len());
    let order = sorting::order_of(keys);
    let sorted = sorted_spans(spans);
    lemma_joined_holds(sorted, p);
    let i = choose|i: int| 0 <= i < sorted.len() && holds_char(#[trigger] sorted[i], p);
    assert(order[i] < spans.len());
    assert(holds_char(spans[order[i] as int], p));
}

/// Merges spans that overlap or touch.
pub fn merge_spans(spans: &Vec<(usize, usize)>) -> (r: Vec<(usize, usize)>)
    ensures
        r@ == merged_spans(spans@),
{
    let mut keys: Vec<sorting::SortKey> = Vec::new();
    let mut i: usize = 0;
    while i < spans.len()
        invariant
            i <= spans@.len(),
            sorting::key_views(keys@) == span_keys(spans@).take(i as int),
        decreases spans@.len() - i,
    {
        let ghost k0 = sorting::key_views(keys@);
        let key = sorting::SortKey { first: spans[i].0 as u64, second: 0, text: String::new() };
        let ghost new = key@;
        assert(new.text =~= Seq::empty());
        keys.push(key);
        i += 1;
        assert(sorting::key_views(keys@) =~= k0.push(new));
        assert(k0.push(new) =~= span_keys(spans@).take(i as int));
    }
    assert(sorting::key_views(keys@) =~= span_keys(spans@));
    let order = sorting::sorted_order(&keys);
    let ghost sorted = sorted_spans(spans@);
    let mut out: Vec<(usize, usize)> = Vec::new();
    let mut k: usize = 0;
    assert(sorted.take(0) =~= Seq::empty());
    while k < order.len()
        invariant
            k <= order@.len(),
            sorted == sorted_spans(spans@),
            order@ == sorting::order_of(span_keys(spans@)),
            sorting::is_stable_order(order@, span_keys(spans@), spans@.len()),
            out@ == joined_spans(sorted.take(k as int)),
        decreases order@.len() - k,
    {
        let x = spans[order[k]];
        assert(sorted.take(k + 1).drop_last() =~= sorted.take(k as int));
        assert(sorted.take(k + 1).last() == x);
        let n: usize = out.len();
        if n > 0 && x.0 <= out[n - 1].1 {
            let last = out[n - 1];
            let end: usize = if last.1 < x.1 {
                x.1
            } else {
                last.1
            };
            out.set(n - 1, (last.0, end));
        } else {
            out.push(x);
        }
        k += 1;
    }
    assert(sorted.take(sorted.len() as int) =~= sorted);
    out
}

/// The spans of all matches.
pub open spec fn match_spans(found: Seq<Seq<Option<(usize, usize)>>>) -> Seq<(usize, usize)> {
    Seq::new(found.len(), |i: int| match_span(found[i]))
}

/// The DSML calls of a text, and the spans of their markup.
pub open spec fn dsml_of(s: Seq<char>) -> CallsView {
    let found = pattern::matches_of(DSML_INVOKE@, s);
    let params = Seq::new(
        found.len(),
        |i: int| pattern::matches_of(DSML_PARAMETER@, group_or_empty(s, found[i], 2)),
    );
    let read = dsml_calls(s, found, params, found.len() as int);
    CallsView {
        calls: read.calls,
        spans: merged_spans(read.spans + match_spans(pattern::matches_of(DSML_WRAPPER@, s))),
    }
}

fn parse_dsml_dialect(text: &str) -> (r: (Vec<ToolCall>, Vec<(usize, usize)>))
    ensures
        tool::call_views(r.0@) == dsml_of(text@).calls,
        r.1@ == dsml_of(text@).spans,
        in_order(r.1@, text@.len() as int),
{
    let chars = text::to_chars(text);
    let found = pattern::find_all(DSML_INVOKE, text);
    let ghost views = pattern::match_views(found@);
    let mut params: Vec<Vec<Match>> = Vec::new();
    let mut i: usize = 0;
    while i < found.len()
        invariant
            i <= found@.len(),
            chars@ == text@,
            views == pattern::match_views(found@),
            pattern::all_placed(views, chars@.len() as int),
            params@.len() == i,
            forall|k: int|
                0 <= k < i ==> pattern::match_views((#[trigger] params@[k])@)
                    == pattern::matches_of(
                    DSML_PARAMETER@,
                    group_or_empty(chars@, found@[k]@, 2),
                ) && pattern::all_placed(
                    pattern::match_views(params@[k]@),
                    group_or_empty(chars@, found@[k]@, 2).len() as int,
                ),
        decreases found@.len() - i,
    {
        assert(views[i as int] == found@[i as int]@);
        let body = group_or_blank(&found[i], &chars, 2);
        params.push(pattern::find_all(DSML_PARAMETER, body.as_str()));
        i += 1;
    }
    let (calls, mut spans) = collect_dsml(&chars, &found, &params);
    let ghost own = spans@;
    let wrappers = pattern::find_all(DSML_WRAPPER, text);
    let ghost wviews = pattern::match_views(wrappers@);
    let total: usize = chars.len();
    let mut k: usize = 0;
    assert(own + match_spans(wviews).take(0) =~= own);
    while k < wrappers.len()
        invariant
            k <= wrappers@.len(),
            chars@ == text@,
            wviews == pattern::match_views(wrappers@),
            pattern::all_placed(wviews, chars@.len() as int),
            spans@ == own + match_spans(wviews).take(k as int),
            spans_within(spans@, chars@.len() as int),
        decreases wrappers@.len() - k,
    {
        assert(wviews[k as int] == wrappers@[k as int]@);
        let span = span_of(&wrappers[k], chars.len());
        spans.push(span);
        k += 1;
        assert(spans@ =~= own + match_spans(wviews).take(k as int));
    }
    let count: usize = spans.len();
    proof {
        assert(match_spans(wviews).take(k as int) =~= match_spans(wviews));
        assert(match_lists(params@) =~= Seq::new(
            views.len(),
            |i: int| pattern::matches_of(DSML_PARAMETER@, group_or_empty(text@, views[i], 2)),
        ));
        if count > 0 {
            merging_covers_all(spans@, total as int, 0);
        } else {
            assert(merged_spans(spans@) =~= Seq::empty());
        }
    }
    let merged = merge_spans(&spans);
    (calls, merged)
}

/// What a `<tool_calls>` wrapper holds, given its first match; the text itself where there is none.
pub open spec fn unwrapped_by(s: Seq<char>, m: Option<Seq<Option<(usize, usize)>>>) -> Seq<char> {
    match m {
        Some(v) => match pattern::group_text(s, v, 1) {
            Some(t) => t,
            None => s,
        },
        None => s,
    }
}

/// The view of an optional match.
pub open spec fn opt_match(m: Option<Match>) -> Option<Seq<Option<(usize, usize)>>> {
    match m {
        Some(v) => Some(v@),
        None => None,
    }
}

/// An optional match lies within the first `n` characters.
pub open spec fn opt_placed(m: Option<Match>, n: int) -> bool {
    match m {
        Some(v) => pattern::placed(v@, n),
        None => true,
    }
}

/// What a `<tool_calls>` wrapper holds, given its first match.
pub fn unwrap_by(s: &str, m: &Option<Match>) -> (r: String)
    requires
        opt_placed(*m, s@.len() as int),
    ensures
        r@ == unwrapped_by(s@, opt_match(*m)),
{
    match m {
        Some(v) => {
            let chars = text::to_chars(s);
            match v.group(&chars, 1) {
                Some(t) => t,
                None => s.to_string(),
            }
        },
        None => s.to_string(),
    }
}

/// The first name attribute in an opening tag, given the first match.
pub open spec fn attribute_name(tag: Seq<char>) -> Option<Seq<char>> {
    match pattern::first_of(pattern::matches_of(NAME_ATTRIBUTE@, tag)) {
        Some(m) => pattern::group_text(tag, m, 1),
        None => None,
    }
}

fn extract_name_from_open_tag(full_match: &str) -> (r: Option<String>)
    ensures
        text::opt_text(r) == attribute_name(full_match@),
{
    match pattern::find_first(NAME_ATTRIBUTE, full_match) {
        Some(m) => {
            let chars = text::to_chars(full_match);
            m.group(&chars, 1)
        },
        None => None,
    }
}

/// The call of a shell tool with one command.
pub open spec fn shell_call(command: Seq<char>, map_to: Seq<char>) -> tool::ToolCallView {
    tool::ToolCallView {
        id: call_id(0),
        name: if map_to.len() == 0 {
            "shell"@
        } else {
            map_to
        },
        arguments: json::Json::Object(
            Map::<Seq<char>, json::Json>::empty().insert("command"@, json::Json::Str(command)),
        ),
    }
}

fn shell_tool_call(command: &str, map_to: &str) -> (r: ToolCall)
    ensures
        r@ == shell_call(command@, map_to@),
{
    let name = if map_to.unicode_len() == 0 {
        "shell".to_string()
    } else {
        map_to.to_string()
    };
    ToolCall {
        id: call_id_text(0),
        name,
        arguments: JsonValue::object().with("command", JsonValue::string(command)),
    }
}

/// What the patterns of the tag dialects first match in a text.
#[derive(Debug)]
pub struct DialectMatches {
    pub shell: Option<Match>,
    pub plain: Option<Match>,
    pub bash: Option<Match>,
}

/// What the patterns of the tag dialects first match.
pub struct DialectMatchesView {
    pub shell: Option<Seq<Option<(usize, usize)>>>,
    pub plain: Option<Seq<Option<(usize, usize)>>>,
    pub bash: Option<Seq<Option<(usize, usize)>>>,
}

impl View for DialectMatches {
    type V = DialectMatchesView;

    open spec fn view(&self) -> DialectMatchesView {
        DialectMatchesView {
            shell: opt_match(self.shell),
            plain: opt_match(self.plain),
            bash: opt_match(self.bash),
        }
    }
}

impl DialectMatches {
    /// Every match lies within the first `n` characters.
    pub open spec fn placed(self, n: int) -> bool {
        opt_placed(self.shell, n) && opt_placed(self.plain, n) && opt_placed(self.bash, n)
    }
}

/// What the patterns of the tag dialects first match in a text.
pub open spec fn dialect_matches(s: Seq<char>) -> DialectMatchesView {
    DialectMatchesView {
        shell: pattern::first_of(pattern::matches_of(SHELL_DIALECT@, s)),
        plain: pattern::first_of(pattern::matches_of(SHELL_PLAIN_BODY@, s)),
        bash: pattern::first_of(pattern::matches_of(BASH_DIALECT@, s)),
    }
}

/// A call and the span it was read from.
pub struct CallAt {
    pub call: tool::ToolCallView,
    pub span: (usize, usize),
}

/// The call that a match of a tag dialect stands for.
pub open spec fn call_at(s: Seq<char>, m: Seq<Option<(usize, usize)>>, map_to: Seq<char>) -> CallAt {
    CallAt {
        call: shell_call(text::trimmed(group_or_empty(s, m, 1)), map_to),
        span: match_span(m),
    }
}

/// The shell call of a text: one with a command element, else a plain body
/// that does not begin with one.
pub open spec fn shell_dialect_call(
    s: Seq<char>,
    m: DialectMatchesView,
    map_to: Seq<char>,
) -> Option<CallAt> {
    match (m.shell, m.plain) {
        (Some(v), _) => Some(call_at(s, v, map_to)),
        (None, Some(v)) => if text::has_prefix(
            text::trimmed(group_or_empty(s, v, 1)),
            "<command>"@,
        ) {
            None
        } else {
            Some(call_at(s, v, map_to))
        },
        (None, None) => None,
    }
}

/// The bash call of a text.
pub open spec fn bash_dialect_call(
    s: Seq<char>,
    m: DialectMatchesView,
    map_to: Seq<char>,
) -> Option<CallAt> {
    match m.bash {
        Some(v) => Some(call_at(s, v, map_to)),
        None => None,
    }
}

/// The call that one declared dialect finds.
pub open spec fn declared_call(s: Seq<char>, m: DialectMatchesView, d: DialectView) -> Option<
    CallAt,
> {
    if d.tag == "shell"@ {
        shell_dialect_call(s, m, d.map_to)
    } else if d.tag == "bash"@ {
        bash_dialect_call(s, m, d.map_to)
    } else {
        None
    }
}

/// The call of the first declared dialect, from the `k`th on, that finds one.
pub open spec fn configured_call(
    s: Seq<char>,
    m: DialectMatchesView,
    dialects: Seq<DialectView>,
    k: int,
) -> Option<CallAt>
    decreases dialects.len() - k,
{
    if 0 <= k < dialects.len() {
        match declared_call(s, m, dialects[k]) {
            Some(c) => Some(c),
            None => configured_call(s, m, dialects, k + 1),
        }
    } else {
        None
    }
}

/// The call that the usual dialects find where none is declared.
pub open spec fn legacy_call(s: Seq<char>, m: DialectMatchesView) -> Option<CallAt> {
    match shell_dialect_call(s, m, "shell"@) {
        Some(c) => Some(c),
        None => bash_dialect_call(s, m, "shell"@),
    }
}

/// A call and the span it was read from say what `want` says.
pub open spec fn says(r: Option<(ToolCall, (usize, usize))>, want: Option<CallAt>, n: int) -> bool {
    match (r, want) {
        (Some((c, span)), Some(w)) => c@ == w.call && span == w.span && span.0 <= span.1 <= n,
        (None, None) => true,
        _ => false,
    }
}

fn call_from(chars: &Vec<char>, m: &Match, map_to: &str) -> (r: (ToolCall, (usize, usize)))
    requires
        pattern::placed(m@, chars@.len() as int),
    ensures
        says(Some(r), Some(call_at(chars@, m@, map_to@)), chars@.len() as int),
{
    let command = text::trim(group_or_blank(m, chars, 1).as_str());
    (shell_tool_call(command.as_str(), map_to), span_of(m, chars.len()))
}

fn shell_dialect(chars: &Vec<char>, m: &DialectMatches, map_to: &str) -> (r: Option<
    (ToolCall, (usize, usize)),
>)
    requires
        m.placed(chars@.len() as int),
    ensures
        says(r, shell_dialect_call(chars@, m@, map_to@), chars@.len() as int),
{
    match &m.shell {
        Some(v) => Some(call_from(chars, v, map_to)),
        None => match &m.plain {
            Some(v) => {
                let body = text::trim(group_or_blank(v, chars, 1).as_str());
                if text::starts_with(body.as_str(), "<command>") {
                    None
                } else {
                    Some(call_from(chars, v, map_to))
                }
            },
            None => None,
        },
    }
}

fn bash_dialect(chars: &Vec<char>, m: &DialectMatches, map_to: &str) -> (r: Option<
    (ToolCall, (usize, usize)),
>)
    requires
        m.placed(chars@.len() as int),
    ensures
        says(r, bash_dialect_call(chars@, m@, map_to@), chars@.len() as int),
{
    match &m.bash {
        Some(v) => Some(call_from(chars, v, map_to)),
        None => None,
    }
}

/// The call of the first declared dialect that finds one.
pub fn try_parse_configured_dialects(
    chars: &Vec<char>,
    m: &DialectMatches,
    dialects: &Vec<KnownDialect>,
) -> (r: Option<(ToolCall, (usize, usize))>)
    requires
        m.placed(chars@.len() as int),
    ensures
        says(
            r,
            configured_call(chars@, m@, dialect_views(dialects@), 0),
            chars@.len() as int,
        ),
{
    let ghost views = dialect_views(dialects@);
    let mut k: usize = 0;
    while k < dialects.len()
        invariant
            k <= dialects@.len(),
            m.placed(chars@.len() as int),
            views == dialect_views(dialects@),
            configured_call(chars@, m@, views, 0) == configured_call(chars@, m@, views, k as int),
        decreases dialects@.len() - k,
    {
        let d = &dialects[k];
        assert(views[k as int] == d@);
        let here = if text::text_eq(d.tag.as_str(), "shell") {
            shell_dialect(chars, m, d.map_to.as_str())
        } else if text::text_eq(d.tag.as_str(), "bash") {
            bash_dialect(chars, m, d.map_to.as_str())
        } else {
            None
        };
        assert(says(here, declared_call(chars@, m@, views[k as int]), chars@.len() as int));
        if here.is_some() {
            return here;
        }
        k += 1;
    }
    None
}

/// The call that the usual dialects find where none is declared.
pub fn try_parse_legacy_dialects(chars: &Vec<char>, m: &DialectMatches) -> (r: Option<
    (ToolCall, (usize, usize)),
>)
    requires
        m.placed(chars@.len() as int),
    ensures
        says(r, legacy_call(chars@, m@), chars@.len() as int),
{
    match shell_dialect(chars, m, "shell") {
        Some(c) => Some(c),
        None => bash_dialect(chars, m, "shell"),
    }
}

/// The calls that dialects find in a text without standard blocks.
pub open spec fn dialect_calls(s: Seq<char>, dialects: Seq<DialectView>) -> CallsView {
    let dsml = dsml_of(s);
    if dsml.calls.len() > 0 {
        dsml
    } else {
        let one = if dialects.len() > 0 {
            configured_call(s, dialect_matches(s), dialects, 0)
        } else {
            legacy_call(s, dialect_matches(s))
        };
        match one {
            Some(c) => CallsView { calls: seq![c.call], spans: seq![c.span] },
            None => no_calls(),
        }
    }
}

fn parse_dialects(text: &str, dialects: &Vec<KnownDialect>) -> (r: (
    Vec<ToolCall>,
    Vec<(usize, usize)>,
))
    ensures
        tool::call_views(r.0@) == dialect_calls(text@, dialect_views(dialects@)).calls,
        r.1@ == dialect_calls(text@, dialect_views(dialects@)).spans,
{
    let (dsml, spans) = parse_dsml_dialect(text);
    if dsml.len() > 0 {
        assert(tool::call_views(dsml@).len() > 0);
        return (dsml, spans);
    }
    let chars = text::to_chars(text);
    let m = DialectMatches {
        shell: pattern::find_first(SHELL_DIALECT, text),
        plain: pattern::find_first(SHELL_PLAIN_BODY, text),
        bash: pattern::find_first(BASH_DIALECT, text),
    };
    assert(m@ == dialect_matches(text@));
    let one = if dialects.len() > 0 {
        try_parse_configured_dialects(&chars, &m, dialects)
    } else {
        try_parse_legacy_dialects(&chars, &m)
    };
    let mut calls: Vec<ToolCall> = Vec::new();
    let mut found: Vec<(usize, usize)> = Vec::new();
    assert(tool::call_views(calls@) =~= Seq::empty());
    match one {
        Some((c, span)) => {
            calls.push(c);
            found.push(span);
            assert(tool::call_views(calls@) =~= seq![c@]);
            assert(found@ =~= seq![span]);
        },
        None => {},
    }
    (calls, found)
}

/// The text in which calls are looked for.
pub open spec fn searched_text(s: Seq<char>, lenient: bool) -> Seq<char> {
    if lenient {
        unwrapped_by(s, pattern::first_of(pattern::matches_of(TOOL_CALLS_WRAPPER@, s)))
    } else {
        s
    }
}

/// The names on the opening tags, looked at only where parsing is lenient.
pub open spec fn attribute_names(
    s: Seq<char>,
    found: Seq<Seq<Option<(usize, usize)>>>,
    lenient: bool,
) -> Seq<Option<Seq<char>>> {
    Seq::new(
        found.len(),
        |i: int|
            if lenient {
                attribute_name(group_or_empty(s, found[i], 0))
            } else {
                None
            },
    )
}

/// The values of the bodies.
pub open spec fn body_values(s: Seq<char>, found: Seq<Seq<Option<(usize, usize)>>>) -> Seq<
    Option<json::Json>,
> {
    Seq::new(found.len(), |i: int| parsed_body(group_or_empty(s, found[i], 1)))
}

/// The calls in standard blocks.
pub open spec fn standard_calls(s: Seq<char>, cfg: ConfigView) -> CallsView {
    let found = pattern::matches_of(TOOL_CALL_BLOCK@, s);
    block_calls(
        found,
        attribute_names(s, found, cfg.lenient_parsing),
        body_values(s, found),
        cfg.args_key,
        found.len() as int,
    )
}

/// All calls: those in standard blocks, or where there are none and parsing is
/// lenient, those in dialects.
pub open spec fn all_calls(s: Seq<char>, cfg: ConfigView) -> CallsView {
    let standard = standard_calls(s, cfg);
    if cfg.lenient_parsing && standard.calls.len() == 0 {
        dialect_calls(s, cfg.dialects)
    } else {
        standard
    }
}

/// The plain text and the calls in a response.
pub open spec fn parsed_response(s: Seq<char>, cfg: ConfigView) -> (
    Seq<char>,
    Seq<tool::ToolCallView>,
) {
    let searched = searched_text(s, cfg.lenient_parsing);
    let all = all_calls(searched, cfg);
    (tidied(without_spans(searched, all.spans)), all.calls)
}

fn parse_standard(text: &str, config: &TextToolConfig) -> (r: (Vec<ToolCall>, Vec<(usize, usize)>))
    ensures
        tool::call_views(r.0@) == standard_calls(text@, config@).calls,
        r.1@ == standard_calls(text@, config@).spans,
        r.0@.len() == r.1@.len(),
{
    let chars = text::to_chars(text);
    let found = pattern::find_all(TOOL_CALL_BLOCK, text);
    let ghost views = pattern::match_views(found@);
    let mut attrs: Vec<Option<String>> = Vec::new();
    let mut bodies: Vec<Option<JsonValue>> = Vec::new();
    let mut i: usize = 0;
    while i < found.len()
        invariant
            i <= found@.len(),
            chars@ == text@,
            views == pattern::match_views(found@),
            pattern::all_placed(views, chars@.len() as int),
            attrs@.len() == i,
            bodies@.len() == i,
            forall|k: int|
                0 <= k < i ==> text::opt_text(#[trigger] attrs@[k]) == attribute_names(
                    text@,
                    views,
                    config.lenient_parsing,
                )[k],
            forall|k: int|
                0 <= k < i ==> json::opt_json(#[trigger] bodies@[k]) == body_values(
                    text@,
                    views,
                )[k],
        decreases found@.len() - i,
    {
        assert(views[i as int] == found@[i as int]@);
        let full = group_or_blank(&found[i], &chars, 0);
        let attr = if config.lenient_parsing {
            extract_name_from_open_tag(full.as_str())
        } else {
            None
        };
        let body = group_or_blank(&found[i], &chars, 1);
        bodies.push(parse_body(body.as_str()));
        attrs.push(attr);
        i += 1;
    }
    assert(opt_texts(attrs@) =~= attribute_names(text@, views, config.lenient_parsing));
    assert(opt_jsons(bodies@) =~= body_values(text@, views));
    collect_blocks(&found, &attrs, &bodies, &config.args_key, chars.len())
}

fn parse_text_tool_calls(text: &str, config: &TextToolConfig) -> (r: (String, Vec<ToolCall>))
    ensures
        r.0@ == parsed_response(text@, config@).0,
        tool::call_views(r.1@) == parsed_response(text@, config@).1,
{
    let searched = if config.lenient_parsing {
        let outer = pattern::find_first(TOOL_CALLS_WRAPPER, text);
        unwrap_by(text, &outer)
    } else {
        text.to_string()
    };
    let (mut calls, mut spans) = parse_standard(searched.as_str(), config);
    if config.lenient_parsing && calls.len() == 0 {
        assert(standard_calls(searched@, config@).calls.len() == 0);
        let (c, s) = parse_dialects(searched.as_str(), &config.dialects);
        calls = c;
        spans = s;
    } else {
        assert(standard_calls(searched@, config@).calls.len() == calls@.len());
    }
    let rest = remove_spans(searched.as_str(), &spans);
    (tidy(rest.as_str()), calls)
}

/// The lines that list the tools.
pub open spec fn tool_lines(tools: Seq<ToolDefinition>) -> Seq<Seq<char>> {
    Seq::new(tools.len(), |i: int| tool_line(tools[i]))
}

/// The line for one tool: its name and what it does.
pub open spec fn tool_line(t: ToolDefinition) -> Seq<char> {
    "- "@ + t.function.name@ + ": "@ + (match t.function.description {
        Some(d) => d@,
        None => ""@,
    })
}

pub const PROMPT_L1_ZH: &'static str =
    "## 工具调用协议\n\n<tool_call>\n{\"name\": \"工具名\", \"arguments\": {\"参数\": \"值\"}}\n</tool_call>\n\n可用工具：\n";

pub const PROMPT_L1_EN: &'static str =
    "## Tool Use Protocol\n\n<tool_call>\n{\"name\": \"tool_name\", \"arguments\": {\"param\": \"value\"}}\n</tool_call>\n\nAvailable tools:\n";

pub const PROMPT_L2_ZH: &'static str =
    "## 工具调用协议\n\n<tool_call>\n{\"name\": \"工具名\", \"arguments\": {\"参数\": \"值\"}}\n</tool_call>\n\n关键规则：\n- 只能使用 <tool_call>。<shell>、<bash>、<function> 将被忽略。\n- JSON 必须包含 \"name\" 和 \"arguments\"。\n\n可用工具：\n";

pub const PROMPT_L2_EN: &'static str =
    "## Tool Use Protocol\n\n<tool_call>\n{\"name\": \"tool_name\", \"arguments\": {\"param\": \"value\"}}\n</tool_call>\n\nCRITICAL RULES:\n- Use <tool_call> ONLY. <shell>, <bash>, <function> WILL BE IGNORED.\n- JSON must contain \"name\" (string) and \"arguments\" (object).\n- Do NOT wrap in <tool_calls> or any other tag.\n\nAvailable tools:\n";

pub const PROMPT_L3: &'static str =
    "## Tool Use Protocol — Example\n\n<tool_call>\n{\"name\": \"shell\", \"arguments\": {\"command\": \"ls -la\"}}\n</tool_call>\n\nCRITICAL: <shell>, <bash>, <function> formats WILL BE IGNORED.\n\nAvailable tools:\n";

/// `PROMPT_L2_ZH` without warnings of other formats.
pub const PROMPT_L2_ZH_PLAIN: &'static str =
    "## 工具调用协议\n\n<tool_call>\n{\"name\": \"工具名\", \"arguments\": {\"参数\": \"值\"}}\n</tool_call>\n\n关键规则：\n- JSON 必须包含 \"name\" 和 \"arguments\"。\n\n可用工具：\n";

/// `PROMPT_L2_EN` without warnings of other formats.
pub const PROMPT_L2_EN_PLAIN: &'static str =
    "## Tool Use Protocol\n\n<tool_call>\n{\"name\": \"tool_name\", \"arguments\": {\"param\": \"value\"}}\n</tool_call>\n\nCRITICAL RULES:\n- JSON must contain \"name\" (string) and \"arguments\" (object).\n\nAvailable tools:\n";

/// `PROMPT_L3` without warnings of other formats.
pub const PROMPT_L3_PLAIN: &'static str =
    "## Tool Use Protocol — Example\n\n<tool_call>\n{\"name\": \"shell\", \"arguments\": {\"command\": \"ls -la\"}}\n</tool_call>\n\nAvailable tools:\n";

/// What the prompt says before the list of tools. From the second level on it
/// warns of other formats where that is asked for.
pub open spec fn prompt_head(level: PromptLevel, zh: bool, warns: bool) -> Seq<char> {
    match (level, zh, warns) {
        (PromptLevel::L1, true, _) => PROMPT_L1_ZH@,
        (PromptLevel::L1, false, _) => PROMPT_L1_EN@,
        (PromptLevel::L2, true, true) => PROMPT_L2_ZH@,
        (PromptLevel::L2, true, false) => PROMPT_L2_ZH_PLAIN@,
        (PromptLevel::L2, false, true) => PROMPT_L2_EN@,
        (PromptLevel::L2, false, false) => PROMPT_L2_EN_PLAIN@,
        (PromptLevel::L3, _, true) => PROMPT_L3@,
        (PromptLevel::L3, _, false) => PROMPT_L3_PLAIN@,
    }
}

/// The instructions for a list of tools.
pub open spec fn instructions(tools: Seq<ToolDefinition>, cfg: ConfigView) -> Seq<char> {
    prompt_head(
        cfg.prompt_level,
        text::has_prefix(cfg.locale, "zh"@),
        cfg.include_counterexamples,
    ) + text::joined(tool_lines(tools), "\n"@)
}

fn generate_prompt_instructions(tools: &Vec<ToolDefinition>, config: &TextToolConfig) -> (r: String)
    ensures
        r@ == instructions(tools@, config@),
{
    let mut lines: Vec<String> = Vec::new();
    let mut i: usize = 0;
    while i < tools.len()
        invariant
            i <= tools@.len(),
            text::texts(lines@) == tool_lines(tools@).take(i as int),
        decreases tools@.len() - i,
    {
        let t = &tools[i];
        let described = match &t.function.description {
            Some(d) => d.as_str(),
            None => "",
        };
        let mut line = text::cat("- ", t.function.name.as_str());
        line.append(": ");
        line.append(described);
        let ghost l0 = text::texts(lines@);
        let ghost new = line@;
        assert(new == tool_line(*t));
        lines.push(line);
        i += 1;
        assert(text::texts(lines@) =~= l0.push(new));
        assert(l0.push(new) =~= tool_lines(tools@).take(i as int));
    }
    assert(tool_lines(tools@).take(i as int) =~= tool_lines(tools@));
    let list = text::join(&lines, "\n");
    let zh = text::starts_with(config.locale.as_str(), "zh");
    let warns = config.include_counterexamples;
    let head = match config.prompt_level {
        PromptLevel::L1 => if zh {
            PROMPT_L1_ZH
        } else {
            PROMPT_L1_EN
        },
        PromptLevel::L2 => if zh && warns {
            PROMPT_L2_ZH
        } else if zh {
            PROMPT_L2_ZH_PLAIN
        } else if warns {
            PROMPT_L2_EN
        } else {
            PROMPT_L2_EN_PLAIN
        },
        PromptLevel::L3 => if warns {
            PROMPT_L3
        } else {
            PROMPT_L3_PLAIN
        },
    };
    text::cat(head, list.as_str())
}

/// The JSON value that reports a result.
pub open spec fn result_value(r: ToolResult) -> json::Json {
    json::Json::Object(
        Map::<Seq<char>, json::Json>::empty().insert(
            "tool_use_id"@,
            json::Json::Str(r.tool_use_id@),
        ).insert("content"@, r.content@).insert("is_error"@, json::Json::Bool(r.is_error)),
    )
}

/// The blocks that report results.
pub open spec fn result_blocks(results: Seq<ToolResult>) -> Seq<Seq<char>> {
    Seq::new(results.len(), |i: int| result_block(json::json_text(result_value(results[i]))))
}

/// The block around the text of a result.
pub open spec fn result_block(body: Seq<char>) -> Seq<char> {
    "<tool_result>\n"@ + body + "\n</tool_result>"@
}

/// The block around the text of a result.
pub fn result_block_text(body: &str) -> (r: String)
    ensures
        r@ == result_block(body@),
{
    text::cat(text::cat("<tool_result>\n", body).as_str(), "\n</tool_result>")
}

/// The JSON value that reports a result.
pub fn result_json(r: &ToolResult) -> (v: JsonValue)
    ensures
        v@ == result_value(*r),
{
    JsonValue::object().with(
        "tool_use_id",
        JsonValue::string(r.tool_use_id.as_str()),
    ).with("content", r.content.copy()).with("is_error", JsonValue::Bool(r.is_error))
}

impl TextToolParser for StandardTextToolParser {
    open spec fn parsed(&self, response: Seq<char>) -> (Seq<char>, Seq<tool::ToolCallView>) {
        parsed_response(response, self@)
    }

    open spec fn instructed(&self, tools: Seq<ToolDefinition>) -> Seq<char> {
        instructions(tools, self@)
    }

    open spec fn formatted(&self, results: Seq<ToolResult>) -> Seq<char> {
        text::joined(result_blocks(results), "\n"@)
    }

    fn parse(&self, response_text: &str) -> (r: (String, Vec<ToolCall>)) {
        parse_text_tool_calls(response_text, &self.config)
    }

    fn prompt_instructions(&self, tools: &Vec<ToolDefinition>) -> (r: String) {
        generate_prompt_instructions(tools, &self.config)
    }

    fn format_results(&self, results: &Vec<ToolResult>) -> (r: String) {
        let mut blocks: Vec<String> = Vec::new();
        let mut i: usize = 0;
        while i < results.len()
            invariant
                i <= results@.len(),
                text::texts(blocks@) == result_blocks(results@).take(i as int),
            decreases results@.len() - i,
        {
            let body = json::render(&result_json(&results[i]));
            let block = result_block_text(body.as_str());
            let ghost b0 = text::texts(blocks@);
            let ghost new = block@;
            blocks.push(block);
            i += 1;
            assert(text::texts(blocks@) =~= b0.push(new));
            assert(b0.push(new) =~= result_blocks(results@).take(i as int));
        }
        assert(result_blocks(results@).take(i as int) =~= result_blocks(results@));
        text::join(&blocks, "\n")
    }
}

/// Calls in standard blocks are numbered from zero in the order they are read.
pub proof fn numbered_in_order(
    found: Seq<Seq<Option<(usize, usize)>>>,
    attrs: Seq<Option<Seq<char>>>,
    bodies: Seq<Option<json::Json>>,
    preferred: Option<Seq<char>>,
    n: int,
    k: int,
)
    requires
        0 <= k < block_calls(found, attrs, bodies, preferred, n).calls.len(),
    ensures
        block_calls(found, attrs, bodies, preferred, n).calls[k].id == call_id(k as nat),
    decreases n,
{
    if n > 0 {
        let rest = block_calls(found, attrs, bodies, preferred, n - 1);
        if k < rest.calls.len() {
            numbered_in_order(found, attrs, bodies, preferred, n - 1, k);
        }
    }
}

/// DSML calls are numbered from zero in the order they are read.
pub proof fn dsml_numbered_in_order(
    s: Seq<char>,
    found: Seq<Seq<Option<(usize, usize)>>>,
    params: Seq<Seq<Seq<Option<(usize, usize)>>>>,
    n: int,
    k: int,
)
    requires
        0 <= k < dsml_calls(s, found, params, n).calls.len(),
    ensures
        dsml_calls(s, found, params, n).calls[k].id == call_id(k as nat),
    decreases n,
{
    if n > 0 {
        let rest = dsml_calls(s, found, params, n - 1);
        if k < rest.calls.len() {
            dsml_numbered_in_order(s, found, params, n - 1, k);
        }
    }
}

proof fn lemma_configured_id(
    s: Seq<char>,
    m: DialectMatchesView,
    dialects: Seq<DialectView>,
    k: int,
)
    ensures
        configured_call(s, m, dialects, k) matches Some(c) ==> c.call.id == call_id(0),
    decreases dialects.len() - k,
{
    if 0 <= k < dialects.len() {
        lemma_configured_id(s, m, dialects, k + 1);
    }
}

/// Whatever markup the calls of a response are written in, they are numbered
/// from zero in order.
pub proof fn calls_are_numbered(s: Seq<char>, cfg: ConfigView, k: int)
    requires
        0 <= k < parsed_response(s, cfg).1.len(),
    ensures
        parsed_response(s, cfg).1[k].id == call_id(k as nat),
{
    let t = searched_text(s, cfg.lenient_parsing);
    let standard = standard_calls(t, cfg);
    if cfg.lenient_parsing && standard.calls.len() == 0 {
        lemma_configured_id(t, dialect_matches(t), cfg.dialects, 0);
        if dsml_of(t).calls.len() > 0 {
            let found = pattern::matches_of(DSML_INVOKE@, t);
            let params = Seq::new(
                found.len(),
                |i: int| pattern::matches_of(DSML_PARAMETER@, group_or_empty(t, found[i], 2)),
            );
            dsml_numbered_in_order(t, found, params, found.len() as int, k);
        }
    } else {
        let found = pattern::matches_of(TOOL_CALL_BLOCK@, t);
        numbered_in_order(
            found,
            attribute_names(t, found, cfg.lenient_parsing),
            body_values(t, found),
            cfg.args_key,
            found.len() as int,
            k,
        );
    }
}

/// Every named parameter of a DSML call is among its arguments: with its own
/// trimmed value where no later parameter has its name.
pub proof fn every_parameter_is_an_argument(
    body: Seq<char>,
    params: Seq<Seq<Option<(usize, usize)>>>,
    n: int,
    j: int,
    name: Seq<char>,
    value: Seq<char>,
)
    requires
        0 <= j < n <= params.len(),
        pattern::group_text(body, params[j], 1) == Some(name),
        pattern::group_text(body, params[j], 2) == Some(value),
        name.len() > 0,
    ensures
        dsml_arguments(body, params, n).dom().contains(name),
        (forall|i: int|
            j < i < n ==> pattern::group_text(body, #[trigger] params[i], 1) != Some(name))
            ==> dsml_arguments(body, params, n)[name] == json::Json::Str(text::trimmed(value)),
    decreases n,
{
    if j < n - 1 {
        every_parameter_is_an_argument(body, params, n - 1, j, name, value);
        if forall|i: int|
            j < i < n ==> pattern::group_text(body, #[trigger] params[i], 1) != Some(name) {
            assert(pattern::group_text(body, params[n - 1], 1) != Some(name));
        }
    }
}

/// Every argument of a DSML call is one of its parameters.
pub proof fn every_argument_is_a_parameter(
    body: Seq<char>,
    params: Seq<Seq<Option<(usize, usize)>>>,
    n: int,
    name: Seq<char>,
)
    requires
        0 <= n <= params.len(),
        dsml_arguments(body, params, n).dom().contains(name),
    ensures
        name.len() > 0,
        exists|j: int|
            0 <= j < n && pattern::group_text(body, #[trigger] params[j], 1) == Some(name),
    decreases n,
{
    if n > 0 {
        let key = group_or_empty(body, params[n - 1], 1);
        if key.len() > 0 && key == name {
            assert(pattern::group_text(body, params[n - 1], 1) == Some(name));
        } else {
            every_argument_is_a_parameter(body, params, n - 1, name);
            let j = choose|j: int|
                0 <= j < n - 1 && pattern::group_text(body, #[trigger] params[j], 1) == Some(name);
            assert(0 <= j < n);
        }
    }
}

/// A DSML call whose parameters have names, each another one, has as many
/// arguments as parameters.
pub proof fn no_parameter_is_lost(
    body: Seq<char>,
    params: Seq<Seq<Option<(usize, usize)>>>,
    n: int,
)
    requires
        0 <= n <= params.len(),
        forall|i: int|
            0 <= i < n ==> (pattern::group_text(body, #[trigger] params[i], 1) matches Some(t)
                && t.len() > 0),
        forall|i: int, j: int|
            0 <= i < j < n ==> pattern::group_text(body, #[trigger] params[i], 1)
                != pattern::group_text(body, #[trigger] params[j], 1),
    ensures
        dsml_arguments(body, params, n).dom().finite(),
        dsml_arguments(body, params, n).dom().len() == n,
    decreases n,
{
    if n > 0 {
        no_parameter_is_lost(body, params, n - 1);
        let key = group_or_empty(body, params[n - 1], 1);
        assert(pattern::group_text(body, params[n - 1], 1) == Some(key));
        let rest = dsml_arguments(body, params, n - 1);
        if rest.dom().contains(key) {
            every_argument_is_a_parameter(body, params, n - 1, key);
            let j = choose|j: int|
                0 <= j < n - 1 && pattern::group_text(body, #[trigger] params[j], 1) == Some(key);
            assert(pattern::group_text(body, params[j], 1) != pattern::group_text(
                body,
                params[n - 1],
                1,
            ));
        }
        assert(dsml_arguments(body, params, n).dom() =~= rest.dom().insert(key));
    } else {
        assert(dsml_arguments(body, params, n).dom() =~= Set::empty());
    }
}

proof fn lemma_dsml_call(
    s: Seq<char>,
    found: Seq<Seq<Option<(usize, usize)>>>,
    params: Seq<Seq<Seq<Option<(usize, usize)>>>>,
    n: int,
    k: int,
)
    requires
        0 <= k < n <= found.len(),
        params.len() == found.len(),
        forall|i: int|
            0 <= i < n ==> (pattern::group_text(s, #[trigger] found[i], 1) matches Some(t)
                && text::trimmed(t).len() > 0),
    ensures
        ({
            let r = dsml_calls(s, found, params, n);
            &&& r.calls.len() == n
            &&& r.spans.len() == n
            &&& r.calls[k].name == text::trimmed(group_or_empty(s, found[k], 1))
            &&& r.calls[k].arguments == json::Json::Object(
                dsml_arguments(
                    group_or_empty(s, found[k], 2),
                    params[k],
                    params[k].len() as int,
                ),
            )
            &&& r.spans[k] == match_span(found[k])
        }),
    decreases n,
{
    assert(pattern::group_text(s, found[n - 1], 1) matches Some(t) && text::trimmed(t).len() > 0);
    if n > 1 {
        lemma_dsml_call(s, found, params, n - 1, if k < n - 1 { k } else { 0 });
    }
}

/// Every DSML call of a text is read, in order, with its name, and every
/// parameter in its body is an argument: under its name, and with its trimmed
/// value where no later parameter has that name. There are no other arguments.
pub proof fn dsml_calls_are_read_whole(s: Seq<char>, cfg: ConfigView, k: int, body: Seq<char>)
    requires
        cfg.lenient_parsing,
        pattern::matches_of(TOOL_CALLS_WRAPPER@, s).len() == 0,
        pattern::matches_of(TOOL_CALL_BLOCK@, s).len() == 0,
        0 <= k < pattern::matches_of(DSML_INVOKE@, s).len(),
        pattern::group_text(s, pattern::matches_of(DSML_INVOKE@, s)[k], 2) == Some(body),
        forall|i: int|
            0 <= i < pattern::matches_of(DSML_INVOKE@, s).len() ==> (pattern::group_text(
                s,
                #[trigger] pattern::matches_of(DSML_INVOKE@, s)[i],
                1,
            ) matches Some(t) && text::trimmed(t).len() > 0),
    ensures
        ({
            let calls = parsed_response(s, cfg).1;
            let found = pattern::matches_of(DSML_INVOKE@, s);
            let params = pattern::matches_of(DSML_PARAMETER@, body);
            &&& calls.len() == found.len()
            &&& pattern::group_text(s, found[k], 1) matches Some(t) && calls[k].name
                == text::trimmed(t)
            &&& calls[k].arguments is Object
            &&& forall|j: int|
                0 <= j < params.len() ==> #[trigger] param_is_kept(
                    body,
                    params,
                    j,
                    calls[k].arguments,
                )
            &&& named_apart(body, params) ==> calls[k].arguments->Object_0.dom().finite()
                && calls[k].arguments->Object_0.dom().len() == params.len()
            &&& forall|name: Seq<char>| #[trigger]
                calls[k].arguments.field(name) is Some ==> exists|j: int|
                    0 <= j < params.len() && pattern::group_text(body, #[trigger] params[j], 1)
                        == Some(name)
        }),
{
    let found = pattern::matches_of(DSML_INVOKE@, s);
    let all = Seq::new(
        found.len(),
        |i: int| pattern::matches_of(DSML_PARAMETER@, group_or_empty(s, found[i], 2)),
    );
    let params = pattern::matches_of(DSML_PARAMETER@, body);
    lemma_dsml_call(s, found, all, found.len() as int, k);
    assert(standard_calls(s, cfg).calls.len() == 0);
    let calls = parsed_response(s, cfg).1;
    let n = params.len() as int;
    assert(all[k] == params);
    if named_apart(body, params) {
        no_parameter_is_lost(body, params, n);
    }
    assert forall|j: int| 0 <= j < n implies #[trigger] param_is_kept(
        body,
        params,
        j,
        calls[k].arguments,
    ) by {
        match (pattern::group_text(body, params[j], 1), pattern::group_text(body, params[j], 2)) {
            (Some(name), Some(value)) => {
                if name.len() > 0 {
                    every_parameter_is_an_argument(body, params, n, j, name, value);
                }
            },
            _ => {},
        }
    }
    assert forall|name: Seq<char>| #[trigger]
        calls[k].arguments.field(name) is Some implies exists|j: int|
        0 <= j < n && pattern::group_text(body, #[trigger] params[j], 1) == Some(name) by {
        every_argument_is_a_parameter(body, params, n, name);
    }
}

/// Every parameter has a name, and no two have the same.
pub open spec fn named_apart(
    body: Seq<char>,
    params: Seq<Seq<Option<(usize, usize)>>>,
) -> bool {
    &&& forall|i: int|
        0 <= i < params.len() ==> (pattern::group_text(body, #[trigger] params[i], 1) matches Some(
            t,
        ) && t.len() > 0)
    &&& forall|i: int, j: int|
        0 <= i < j < params.len() ==> pattern::group_text(body, #[trigger] params[i], 1)
            != pattern::group_text(body, #[trigger] params[j], 1)
}

/// The arguments hold the parameter at `j`, with its trimmed value where no
/// later parameter has its name.
pub open spec fn param_is_kept(
    body: Seq<char>,
    params: Seq<Seq<Option<(usize, usize)>>>,
    j: int,
    arguments: json::Json,
) -> bool {
    match (pattern::group_text(body, params[j], 1), pattern::group_text(body, params[j], 2)) {
        (Some(name), Some(value)) => name.len() > 0 ==> {
            &&& arguments.field(name) is Some
            &&& (forall|i: int|
                j < i < params.len() ==> pattern::group_text(body, #[trigger] params[i], 1) != Some(
                    name,
                )) ==> arguments.field(name) == Some(json::Json::Str(text::trimmed(value)))
        },
        _ => true,
    }
}

/// The arguments of a call are what stands under the preferred key, else under
/// the first of the usual keys that is there.
pub proof fn arguments_stand_under_a_usual_key(
    m: Map<Seq<char>, json::Json>,
    preferred: Option<Seq<char>>,
)
    ensures
        ({
            let own = preferred is Some && m.dom().contains(preferred->0);
            let a = m.dom().contains("arguments"@);
            let b = m.dom().contains("parameters"@);
            let c = m.dom().contains("params"@);
            let d = m.dom().contains("args"@);
            let r = arguments_in(m, preferred);
            &&& own ==> r == m[preferred->0]
            &&& !own && a ==> r == m["arguments"@]
            &&& !own && !a && b ==> r == m["parameters"@]
            &&& !own && !a && !b && c ==> r == m["params"@]
            &&& !own && !a && !b && !c && d ==> r == m["args"@]
        }),
{
}

/// Where no key for arguments is there, each field of the body but the call's
/// own is an argument.
pub proof fn bare_fields_are_arguments(
    m: Map<Seq<char>, json::Json>,
    preferred: Option<Seq<char>>,
    key: Seq<char>,
)
    requires
        preferred is Some ==> !m.dom().contains(preferred->0),
        !m.dom().contains("arguments"@),
        !m.dom().contains("parameters"@),
        !m.dom().contains("params"@),
        !m.dom().contains("args"@),
    ensures
        arguments_in(m, preferred) is Object,
        arguments_in(m, preferred).field(key) == (if key == "name"@ || key == "id"@ || key
            == "type"@ || !m.dom().contains(key) {
            None
        } else {
            Some(m[key])
        }),
{
}

/// A block holds a call exactly where its body is an object that names a tool,
/// or whose opening tag does; the name in the body counts first.
pub proof fn calls_need_a_name(
    parsed: Option<json::Json>,
    attr_name: Option<Seq<char>>,
    preferred: Option<Seq<char>>,
)
    ensures
        ({
            let r = call_in(parsed, attr_name, preferred);
            let own = json::text_in(json::field_in(parsed, "name"@));
            &&& r is Some <==> (parsed matches Some(j) && j is Object) && (own is Some
                || attr_name is Some)
            &&& r matches Some((name, arguments)) ==> {
                &&& own is Some ==> name == own->0
                &&& own is None ==> name == attr_name->0
                &&& arguments == arguments_in(parsed->0->Object_0, preferred)
            }
        }),
{
}

/// Every block that holds a call gives one, in order: where all do, there are
/// as many calls as blocks, each with its block's name, arguments and span.
pub proof fn every_block_is_read(
    found: Seq<Seq<Option<(usize, usize)>>>,
    attrs: Seq<Option<Seq<char>>>,
    bodies: Seq<Option<json::Json>>,
    preferred: Option<Seq<char>>,
    n: int,
    k: int,
)
    requires
        0 <= k < n <= found.len(),
        forall|i: int|
            0 <= i < n ==> call_in(#[trigger] bodies[i], attrs[i], preferred) is Some,
    ensures
        ({
            let r = block_calls(found, attrs, bodies, preferred, n);
            &&& r.calls.len() == n
            &&& r.spans.len() == n
            &&& call_in(bodies[k], attrs[k], preferred) == Some(
                (r.calls[k].name, r.calls[k].arguments),
            )
            &&& r.spans[k] == found[k][0]->0
        }),
    decreases n,
{
    assert(call_in(bodies[n - 1], attrs[n - 1], preferred) is Some);
    if n > 1 {
        every_block_is_read(found, attrs, bodies, preferred, n - 1, if k < n - 1 { k } else { 0 });
    }
}

/// A block without a call is passed over, and changes nothing about the calls
/// before and after it but their number.
pub proof fn blocks_are_read_apart(
    found: Seq<Seq<Option<(usize, usize)>>>,
    attrs: Seq<Option<Seq<char>>>,
    bodies: Seq<Option<json::Json>>,
    preferred: Option<Seq<char>>,
    n: int,
)
    requires
        0 <= n < found.len(),
    ensures
        ({
            let a = block_calls(found, attrs, bodies, preferred, n);
            let b = block_calls(found, attrs, bodies, preferred, n + 1);
            match call_in(bodies[n], attrs[n], preferred) {
                None => a == b,
                Some(c) => b.calls.drop_last() == a.calls && b.spans.drop_last() == a.spans
                    && b.calls.len() == a.calls.len() + 1 && b.spans.len() == a.spans.len() + 1
                    && b.calls.last().name == c.0 && b.calls.last().arguments == c.1
                    && b.spans.last() == found[n][0]->0,
            }
        }),
{
    let a = block_calls(found, attrs, bodies, preferred, n);
    let b = block_calls(found, attrs, bodies, preferred, n + 1);
    if let Some(c) = call_in(bodies[n], attrs[n], preferred) {
        assert(b.calls.drop_last() =~= a.calls);
        assert(b.spans.drop_last() =~= a.spans);
    }
}

/// The object that a block's body writes, where it writes one.
pub open spec fn written_object(s: Seq<char>, m: Seq<Option<(usize, usize)>>) -> Option<
    Map<Seq<char>, json::Json>,
> {
    match pattern::group_text(s, m, 1) {
        Some(body) => if text::trimmed(body).len() == 0 {
            None
        } else {
            match json::json_parsed(vstd::utf8::encode_utf8(text::trimmed(body))) {
                Ok(json::Json::Object(o)) => Some(o),
                _ => None,
            }
        },
        None => None,
    }
}

/// The tool that a block's body names, where it names one.
pub open spec fn written_name(s: Seq<char>, m: Seq<Option<(usize, usize)>>) -> Option<Seq<char>> {
    match written_object(s, m) {
        Some(o) => match json::Json::Object(o).field("name"@) {
            Some(json::Json::Str(n)) => Some(n),
            _ => None,
        },
        None => None,
    }
}

/// Where every standard block of a text names its tool, each gives a call, in
/// order, with that name and the arguments of its body, whether parsing is
/// lenient or not.
pub proof fn standard_calls_are_read_whole(s: Seq<char>, cfg: ConfigView, k: int)
    requires
        cfg.lenient_parsing ==> pattern::matches_of(TOOL_CALLS_WRAPPER@, s).len() == 0,
        0 <= k < pattern::matches_of(TOOL_CALL_BLOCK@, s).len(),
        forall|i: int|
            0 <= i < pattern::matches_of(TOOL_CALL_BLOCK@, s).len() ==> written_name(
                s,
                #[trigger] pattern::matches_of(TOOL_CALL_BLOCK@, s)[i],
            ) is Some,
    ensures
        ({
            let found = pattern::matches_of(TOOL_CALL_BLOCK@, s);
            let calls = parsed_response(s, cfg).1;
            &&& calls.len() == found.len()
            &&& Some(calls[k].name) == written_name(s, found[k])
            &&& calls[k].arguments == arguments_in(written_object(s, found[k])->0, cfg.args_key)
        }),
{
    let found = pattern::matches_of(TOOL_CALL_BLOCK@, s);
    let attrs = attribute_names(s, found, cfg.lenient_parsing);
    let bodies = body_values(s, found);
    assert(searched_text(s, cfg.lenient_parsing) == s);
    assert forall|i: int| 0 <= i < found.len() implies call_in(
        #[trigger] bodies[i],
        attrs[i],
        cfg.args_key,
    ) == Some((written_name(s, found[i])->0, arguments_in(written_object(s, found[i])->0, cfg.args_key))) by {
        assert(written_name(s, found[i]) is Some);
    }
    every_block_is_read(found, attrs, bodies, cfg.args_key, found.len() as int, k);
    assert(call_in(bodies[k], attrs[k], cfg.args_key) is Some);
}

/// A lenient parser looks into a `<tool_calls>` wrapper: what it reads of the
/// text is what it reads of the wrapper's inside, where that has no wrapper.
pub proof fn wrappers_are_looked_into(s: Seq<char>, cfg: ConfigView, inner: Seq<char>)
    requires
        cfg.lenient_parsing,
        pattern::matches_of(TOOL_CALLS_WRAPPER@, s).len() > 0,
        pattern::group_text(s, pattern::matches_of(TOOL_CALLS_WRAPPER@, s)[0], 1) == Some(inner),
        pattern::matches_of(TOOL_CALLS_WRAPPER@, inner).len() == 0,
    ensures
        parsed_response(s, cfg) == parsed_response(inner, cfg),
{
}

/// A strict parser reads standard blocks alone: without them there are no
/// calls, and the text is kept.
pub proof fn strict_parsing_knows_no_dialects(s: Seq<char>, cfg: ConfigView)
    requires
        !cfg.lenient_parsing,
        pattern::matches_of(TOOL_CALL_BLOCK@, s).len() == 0,
    ensures
        parsed_response(s, cfg).1.len() == 0,
        parsed_response(s, cfg).0 == tidied(s),
{
}

/// A text without any markup is kept, and holds no calls.
pub proof fn plain_text_is_kept(s: Seq<char>, cfg: ConfigView)
    requires
        pattern::matches_of(TOOL_CALLS_WRAPPER@, s).len() == 0,
        pattern::matches_of(TOOL_CALL_BLOCK@, s).len() == 0,
        pattern::matches_of(DSML_INVOKE@, s).len() == 0,
        pattern::matches_of(SHELL_DIALECT@, s).len() == 0,
        pattern::matches_of(SHELL_PLAIN_BODY@, s).len() == 0,
        pattern::matches_of(BASH_DIALECT@, s).len() == 0,
    ensures
        parsed_response(s, cfg).1.len() == 0,
        parsed_response(s, cfg).0 == tidied(s),
{
    lemma_none_configured(s, dialect_matches(s), cfg.dialects, 0);
}

proof fn lemma_none_configured(
    s: Seq<char>,
    m: DialectMatchesView,
    dialects: Seq<DialectView>,
    k: int,
)
    requires
        m.shell is None,
        m.plain is None,
        m.bash is None,
    ensures
        configured_call(s, m, dialects, k) is None,
    decreases dialects.len() - k,
{
    if 0 <= k < dialects.len() {
        lemma_none_configured(s, m, dialects, k + 1);
    }
}

/// The characters among the first `n` that lie outside every span.
pub open spec fn outside(s: Seq<char>, spans: Seq<(usize, usize)>, n: int) -> Seq<char>
    decreases n,
{
    if n <= 0 {
        Seq::empty()
    } else if char_covered(spans, n - 1) {
        outside(s, spans, n - 1)
    } else {
        outside(s, spans, n - 1).push(s[n - 1])
    }
}

/// What is left of a text without its spans is every character outside them,
/// in order, and nothing else.
pub proof fn text_outside_spans_is_kept(s: Seq<char>, spans: Seq<(usize, usize)>)
    requires
        in_order(spans, s.len() as int),
    ensures
        without_spans(s, spans) == outside(s, spans, s.len() as int),
    decreases spans.len(),
{
    if spans.len() == 0 {
        lemma_outside_all(s, spans, s.len() as int);
        assert(s.take(s.len() as int) =~= s);
    } else {
        let (a, b) = spans.last();
        let head = spans.drop_last();
        assert(spans[spans.len() - 1] == (a, b));
        let cut = without_span(s, (a, b));
        assert forall|i: int| 0 <= i < head.len() implies (#[trigger] head[i]).0 <= head[i].1
            <= a by {
            assert(spans[i] == head[i]);
            assert(spans[i].1 <= spans[spans.len() - 1].0);
        }
        assert(in_order(head, cut.len() as int)) by {
            assert forall|i: int, j: int| 0 <= i < j < head.len() implies (#[trigger] head[i]).1
                <= (#[trigger] head[j]).0 by {
                assert(spans[i].1 <= spans[j].0);
            }
        }
        text_outside_spans_is_kept(cut, head);
        lemma_outside_cut(s, spans, s.len() as int);
    }
}

proof fn lemma_outside_all(s: Seq<char>, spans: Seq<(usize, usize)>, n: int)
    requires
        spans.len() == 0,
        0 <= n <= s.len(),
    ensures
        outside(s, spans, n) == s.take(n),
    decreases n,
{
    if n > 0 {
        lemma_outside_all(s, spans, n - 1);
        assert(s.take(n - 1).push(s[n - 1]) =~= s.take(n));
    } else {
        assert(s.take(0) =~= Seq::empty());
    }
}

proof fn lemma_outside_cut(s: Seq<char>, spans: Seq<(usize, usize)>, n: int)
    requires
        spans.len() > 0,
        spans.last().0 <= spans.last().1 <= s.len(),
        0 <= n <= s.len(),
        forall|i: int|
            0 <= i < spans.len() - 1 ==> (#[trigger] spans[i]).0 <= spans[i].1 <= spans.last().0,
    ensures
        ({
            let (a, b) = spans.last();
            let cut = without_span(s, (a, b));
            let m = if n <= a {
                n
            } else if n <= b {
                a as int
            } else {
                n - (b - a)
            };
            outside(s, spans, n) == outside(cut, spans.drop_last(), m)
        }),
    decreases n,
{
    let (a, b) = spans.last();
    let head = spans.drop_last();
    let cut = without_span(s, (a, b));
    if n > 0 {
        lemma_outside_cut(s, spans, n - 1);
        let p = n - 1;
        if p < a {
            assert(cut[p] == s[p]);
            if char_covered(spans, p) {
                let i = choose|i: int| 0 <= i < spans.len() && holds_char(#[trigger] spans[i], p);
                assert(holds_char(head[i], p));
            }
            if char_covered(head, p) {
                let i = choose|i: int| 0 <= i < head.len() && holds_char(#[trigger] head[i], p);
                assert(holds_char(spans[i], p));
            }
        } else if p < b {
            assert(holds_char(spans[spans.len() - 1], p));
            assert(char_covered(spans, p));
        } else {
            let q = p - (b - a);
            assert(cut[q] == s[p]);
            if char_covered(spans, p) {
                let i = choose|i: int| 0 <= i < spans.len() && holds_char(#[trigger] spans[i], p);
                assert(false);
            }
            if char_covered(head, q) {
                let i = choose|i: int| 0 <= i < head.len() && holds_char(#[trigger] head[i], q);
                assert(holds_char(spans[i], q));
            }
        }
    }
}

/// The plain text of a response whose blocks are all calls is what stands
/// outside the blocks, tidied.
pub proof fn text_around_blocks_is_kept(s: Seq<char>, cfg: ConfigView)
    requires
        cfg.lenient_parsing ==> pattern::matches_of(TOOL_CALLS_WRAPPER@, s).len() == 0,
        pattern::matches_of(TOOL_CALL_BLOCK@, s).len() > 0,
        pattern::all_placed(pattern::matches_of(TOOL_CALL_BLOCK@, s), s.len() as int),
        forall|i: int|
            0 <= i < pattern::matches_of(TOOL_CALL_BLOCK@, s).len() ==> written_name(
                s,
                #[trigger] pattern::matches_of(TOOL_CALL_BLOCK@, s)[i],
            ) is Some,
    ensures
        ({
            let found = pattern::matches_of(TOOL_CALL_BLOCK@, s);
            let spans = Seq::new(found.len(), |i: int| found[i][0]->0);
            parsed_response(s, cfg).0 == tidied(outside(s, spans, s.len() as int))
        }),
{
    let found = pattern::matches_of(TOOL_CALL_BLOCK@, s);
    let spans = Seq::new(found.len(), |i: int| found[i][0]->0);
    let attrs = attribute_names(s, found, cfg.lenient_parsing);
    let bodies = body_values(s, found);
    assert(searched_text(s, cfg.lenient_parsing) == s);
    assert forall|i: int| 0 <= i < found.len() implies call_in(
        #[trigger] bodies[i],
        attrs[i],
        cfg.args_key,
    ) is Some by {
        assert(written_name(s, found[i]) is Some);
    }
    let r = block_calls(found, attrs, bodies, cfg.args_key, found.len() as int);
    assert forall|k: int| 0 <= k < found.len() implies r.spans.len() == found.len()
        && #[trigger] r.spans[k] == spans[k] by {
        every_block_is_read(found, attrs, bodies, cfg.args_key, found.len() as int, k);
    }
    every_block_is_read(found, attrs, bodies, cfg.args_key, found.len() as int, 0);
    assert(r.spans =~= spans);
    assert forall|i: int| 0 <= i < spans.len() implies (#[trigger] spans[i]).0 <= spans[i].1
        <= s.len() by {
        assert(pattern::placed(found[i], s.len() as int));
        assert(found[i][0] is Some);
    }
    assert forall|i: int, j: int| 0 <= i < j < spans.len() implies (#[trigger] spans[i]).1 <= (
    #[trigger] spans[j]).0 by {
        assert(pattern::placed(found[i], s.len() as int));
        assert(pattern::placed(found[j], s.len() as int));
        assert(pattern::match_end(found[i]) <= pattern::match_start(found[j]));
    }
    text_outside_spans_is_kept(s, spans);
}

proof fn lemma_kept_apart(a: Seq<Seq<char>>, b: Seq<Seq<char>>)
    ensures
        kept_lines(a + b) == kept_lines(a) + kept_lines(b),
    decreases b.len(),
{
    if b.len() == 0 {
        assert(a + b =~= a);
        assert(kept_lines(a) + kept_lines(b) =~= kept_lines(a));
    } else {
        assert((a + b).drop_last() =~= a + b.drop_last());
        lemma_kept_apart(a, b.drop_last());
        assert(kept_lines(a + b) =~= kept_lines(a) + kept_lines(b));
    }
}

proof fn lemma_kept_alike(a: Seq<Seq<char>>, b: Seq<Seq<char>>)
    requires
        a.len() == b.len(),
        forall|i: int| 0 <= i < a.len() ==> text::trimmed(#[trigger] a[i]) == text::trimmed(b[i]),
    ensures
        kept_lines(a) == kept_lines(b),
    decreases a.len(),
{
    if a.len() > 0 {
        assert(text::trimmed(a[a.len() - 1]) == text::trimmed(b[b.len() - 1]));
        assert forall|i: int| 0 <= i < a.drop_last().len() implies text::trimmed(
            #[trigger] a.drop_last()[i],
        ) == text::trimmed(b.drop_last()[i]) by {
            assert(a.drop_last()[i] == a[i]);
        }
        lemma_kept_alike(a.drop_last(), b.drop_last());
    }
}

proof fn lemma_kept_pieces(s: Seq<char>)
    ensures
        kept_lines(text::lines_of(s)) == kept_lines(text::split_on(s, '\n')),
{
    let parts = text::split_on(s, '\n');
    text::pieces_join_back(s, '\n');
    let lines = text::lines_of(s);
    let kept = if parts.last().len() == 0 {
        parts.drop_last()
    } else {
        parts
    };
    assert forall|i: int| 0 <= i < lines.len() implies text::trimmed(#[trigger] lines[i])
        == text::trimmed(kept[i]) by {
        let p = kept[i];
        if i + 1 < parts.len() && p.len() > 0 && p.last() == '\r' {
            assert(text::is_white(p.last()));
            text::lemma_trimmed_without_last(p);
        }
    }
    lemma_kept_alike(lines, kept);
    if parts.last().len() == 0 {
        let (a, b) = text::lemma_trimmed_part(parts.last());
        assert(text::trimmed(parts.last()).len() == 0);
    }
}

proof fn lemma_kept_lines_trimmed(lines: Seq<Seq<char>>, k: int)
    requires
        0 <= k < kept_lines(lines).len(),
    ensures
        ({
            let l = kept_lines(lines)[k];
            l.len() > 0 && !text::is_white(l[0]) && !text::is_white(l.last())
        }),
    decreases lines.len(),
{
    if lines.len() > 0 {
        let rest = kept_lines(lines.drop_last());
        if k < rest.len() {
            lemma_kept_lines_trimmed(lines.drop_last(), k);
        } else {
            let (a, b) = text::lemma_trimmed_part(lines.last());
        }
    }
}

proof fn lemma_joined_ends(lines: Seq<Seq<char>>)
    requires
        lines.len() > 0,
        forall|i: int|
            0 <= i < lines.len() ==> (#[trigger] lines[i]).len() > 0 && !text::is_white(lines[i][0])
                && !text::is_white(lines[i].last()),
    ensures
        ({
            let j = text::joined(lines, "\n"@);
            j.len() > 0 && !text::is_white(j[0]) && !text::is_white(j.last())
        }),
    decreases lines.len(),
{
    assert(lines[0].len() > 0);
    assert(lines[lines.len() - 1].len() > 0);
    if lines.len() > 1 {
        assert forall|i: int| 0 <= i < lines.drop_last().len() implies (
        #[trigger] lines.drop_last()[i]).len() > 0 && !text::is_white(lines.drop_last()[i][0])
            && !text::is_white(lines.drop_last()[i].last()) by {
            assert(lines.drop_last()[i] == lines[i]);
        }
        lemma_joined_ends(lines.drop_last());
        let j = text::joined(lines, "\n"@);
        assert(j.last() == lines.last().last());
        assert(j[0] == text::joined(lines.drop_last(), "\n"@)[0]);
    }
}

proof fn lemma_tidied(s: Seq<char>)
    ensures
        tidied(s) == text::joined(kept_lines(text::split_on(s, '\n')), "\n"@),
        tidied(s).len() == 0 <==> kept_lines(text::split_on(s, '\n')).len() == 0,
{
    let lines = kept_lines(text::split_on(s, '\n'));
    lemma_kept_pieces(s);
    let j = text::joined(lines, "\n"@);
    if lines.len() > 0 {
        assert forall|i: int| 0 <= i < lines.len() implies (#[trigger] lines[i]).len() > 0
            && !text::is_white(lines[i][0]) && !text::is_white(lines[i].last()) by {
            lemma_kept_lines_trimmed(text::split_on(s, '\n'), i);
        }
        lemma_joined_ends(lines);
    }
    text::trimming_takes_white_space_alone(j, 0, j.len() as int);
    assert(j.subrange(0, j.len() as int) =~= j);
}

/// A single line is tidied by trimming it.
pub proof fn single_line_is_trimmed(s: Seq<char>)
    requires
        forall|i: int| 0 <= i < s.len() ==> #[trigger] s[i] != '\n',
    ensures
        tidied(s) == text::trimmed(s),
{
    text::unsplit_text_is_one_piece(s, '\n');
    lemma_tidied(s);
    let parts = text::split_on(s, '\n');
    assert(parts.drop_last() =~= Seq::empty());
    assert(kept_lines(parts.drop_last()) =~= Seq::empty());
    if text::trimmed(s).len() > 0 {
        assert(kept_lines(parts) =~= seq![text::trimmed(s)]);
    } else {
        assert(kept_lines(parts) =~= Seq::empty());
        assert(text::trimmed(s) =~= Seq::empty());
    }
}

/// Text is tidied line by line: of two parts at a line feed each is tidied by
/// itself, and one that comes out empty leaves no line behind.
pub proof fn text_is_tidied_line_by_line(a: Seq<char>, b: Seq<char>)
    ensures
        tidied(a + seq!['\n'] + b) == (if tidied(a).len() == 0 {
            tidied(b)
        } else if tidied(b).len() == 0 {
            tidied(a)
        } else {
            tidied(a) + seq!['\n'] + tidied(b)
        }),
{
    let x = text::split_on(a, '\n');
    let y = text::split_on(b, '\n');
    text::splitting_goes_piece_by_piece(a, '\n', b);
    lemma_kept_apart(x, y);
    lemma_tidied(a);
    lemma_tidied(b);
    lemma_tidied(a + seq!['\n'] + b);
    reveal_strlit("\n");
    assert("\n"@ =~= seq!['\n']);
    let k = kept_lines(x);
    let l = kept_lines(y);
    if k.len() > 0 && l.len() > 0 {
        text::joining_goes_part_by_part(k, l, "\n"@);
    } else if k.len() == 0 {
        assert(k + l =~= l);
    } else {
        assert(k + l =~= k);
    }
}

/// The command that a dialect's match holds, without white space around it.
pub open spec fn command_in(s: Seq<char>, m: Seq<Option<(usize, usize)>>) -> Seq<char> {
    match pattern::group_text(s, m, 1) {
        Some(t) => text::trimmed(t),
        None => Seq::empty(),
    }
}

/// A call runs one command with the named tool, and is the only one.
pub open spec fn runs(
    calls: Seq<tool::ToolCallView>,
    name: Seq<char>,
    command: Seq<char>,
) -> bool {
    &&& calls.len() == 1
    &&& calls[0].name == name
    &&& calls[0].arguments.field("command"@) == Some(json::Json::Str(command))
    &&& forall|key: Seq<char>| #[trigger]
        calls[0].arguments.field(key) is Some ==> key == "command"@
}

/// The text has neither standard blocks nor DSML calls, and no wrapper.
pub open spec fn is_dialect_text(s: Seq<char>) -> bool {
    &&& pattern::matches_of(TOOL_CALLS_WRAPPER@, s).len() == 0
    &&& pattern::matches_of(TOOL_CALL_BLOCK@, s).len() == 0
    &&& pattern::matches_of(DSML_INVOKE@, s).len() == 0
}

/// Where no dialect is declared, a shell block with a command element is a call
/// of `shell`, and stands nowhere in the text that is left.
pub proof fn shell_blocks_are_calls(s: Seq<char>, cfg: ConfigView, span: (usize, usize))
    requires
        cfg.lenient_parsing,
        cfg.dialects.len() == 0,
        is_dialect_text(s),
        pattern::matches_of(SHELL_DIALECT@, s).len() > 0,
        pattern::matches_of(SHELL_DIALECT@, s)[0][0] == Some(span),
        span.0 <= span.1 <= s.len(),
    ensures
        runs(
            parsed_response(s, cfg).1,
            "shell"@,
            command_in(s, pattern::matches_of(SHELL_DIALECT@, s)[0]),
        ),
        parsed_response(s, cfg).0 == tidied(
            s.subrange(0, span.0 as int) + s.subrange(span.1 as int, s.len() as int),
        ),
{
    reveal_strlit("shell");
    lemma_one_span(s, span);
    text::lemma_trimmed_part(Seq::<char>::empty());
    assert(text::trimmed(Seq::<char>::empty()) =~= Seq::empty());
}

proof fn lemma_one_span(s: Seq<char>, span: (usize, usize))
    requires
        span.0 <= span.1 <= s.len(),
    ensures
        without_spans(s, seq![span]) == s.subrange(0, span.0 as int) + s.subrange(
            span.1 as int,
            s.len() as int,
        ),
{
    let one = seq![span];
    assert(one.drop_last() =~= Seq::empty());
    assert(one.last() == span);
    assert(without_spans(without_span(s, span), one.drop_last()) == without_span(s, span));
}

/// Where no dialect is declared and no shell block has a command element, a
/// plain shell block is a call of `shell`.
pub proof fn plain_shell_blocks_are_calls(s: Seq<char>, cfg: ConfigView, span: (usize, usize))
    requires
        cfg.lenient_parsing,
        cfg.dialects.len() == 0,
        is_dialect_text(s),
        pattern::matches_of(SHELL_DIALECT@, s).len() == 0,
        pattern::matches_of(SHELL_PLAIN_BODY@, s).len() > 0,
        pattern::matches_of(SHELL_PLAIN_BODY@, s)[0][0] == Some(span),
        !text::has_prefix(
            command_in(s, pattern::matches_of(SHELL_PLAIN_BODY@, s)[0]),
            "<command>"@,
        ),
        span.0 <= span.1 <= s.len(),
    ensures
        runs(
            parsed_response(s, cfg).1,
            "shell"@,
            command_in(s, pattern::matches_of(SHELL_PLAIN_BODY@, s)[0]),
        ),
        parsed_response(s, cfg).0 == tidied(
            s.subrange(0, span.0 as int) + s.subrange(span.1 as int, s.len() as int),
        ),
{
    reveal_strlit("shell");
    lemma_one_span(s, span);
    text::lemma_trimmed_part(Seq::<char>::empty());
    assert(text::trimmed(Seq::<char>::empty()) =~= Seq::empty());
}

/// Where no dialect is declared and there is no shell block, a bash block is a
/// call of `shell`.
pub proof fn bash_blocks_are_calls(s: Seq<char>, cfg: ConfigView, span: (usize, usize))
    requires
        cfg.lenient_parsing,
        cfg.dialects.len() == 0,
        is_dialect_text(s),
        pattern::matches_of(SHELL_DIALECT@, s).len() == 0,
        pattern::matches_of(SHELL_PLAIN_BODY@, s).len() == 0,
        pattern::matches_of(BASH_DIALECT@, s).len() > 0,
        pattern::matches_of(BASH_DIALECT@, s)[0][0] == Some(span),
        span.0 <= span.1 <= s.len(),
    ensures
        runs(
            parsed_response(s, cfg).1,
            "shell"@,
            command_in(s, pattern::matches_of(BASH_DIALECT@, s)[0]),
        ),
        parsed_response(s, cfg).0 == tidied(
            s.subrange(0, span.0 as int) + s.subrange(span.1 as int, s.len() as int),
        ),
{
    reveal_strlit("shell");
    lemma_one_span(s, span);
    text::lemma_trimmed_part(Seq::<char>::empty());
    assert(text::trimmed(Seq::<char>::empty()) =~= Seq::empty());
}

/// A declared dialect's block is a call of the tool that it is declared for:
/// the first declared dialect that has a block counts, and its name is `shell`
/// where the declaration names none.
pub proof fn declared_dialects_name_the_tool(
    s: Seq<char>,
    cfg: ConfigView,
    k: int,
    m: Seq<Option<(usize, usize)>>,
)
    requires
        cfg.lenient_parsing,
        is_dialect_text(s),
        0 <= k < cfg.dialects.len(),
        ({
            let shell = pattern::matches_of(SHELL_DIALECT@, s);
            let bash = pattern::matches_of(BASH_DIALECT@, s);
            ||| cfg.dialects[k].tag == "shell"@ && shell.len() > 0 && m == shell[0]
            ||| cfg.dialects[k].tag == "bash"@ && bash.len() > 0 && m == bash[0]
        }),
        forall|i: int|
            0 <= i < k ==> (#[trigger] cfg.dialects[i]).tag != "shell"@ && cfg.dialects[i].tag
                != "bash"@,
    ensures
        runs(
            parsed_response(s, cfg).1,
            if cfg.dialects[k].map_to.len() == 0 {
                "shell"@
            } else {
                cfg.dialects[k].map_to
            },
            command_in(s, m),
        ),
{
    reveal_strlit("shell");
    reveal_strlit("bash");
    assert("shell"@.len() != "bash"@.len());
    lemma_configured_at(s, dialect_matches(s), cfg.dialects, 0, k);
    text::lemma_trimmed_part(Seq::<char>::empty());
    assert(text::trimmed(Seq::<char>::empty()) =~= Seq::empty());
}

proof fn lemma_configured_at(
    s: Seq<char>,
    m: DialectMatchesView,
    dialects: Seq<DialectView>,
    i: int,
    k: int,
)
    requires
        0 <= i <= k < dialects.len(),
        declared_call(s, m, dialects[k]) is Some,
        forall|j: int| i <= j < k ==> declared_call(s, m, #[trigger] dialects[j]) is None,
    ensures
        configured_call(s, m, dialects, i) == declared_call(s, m, dialects[k]),
    decreases k - i,
{
    if i < k {
        assert(declared_call(s, m, dialects[i]) is None);
        lemma_configured_at(s, m, dialects, i + 1, k);
    }
}

/// The `tool_calling` block says that native calling is supported.
pub open spec fn says_supported(tc: json::Json) -> bool {
    json::field_in(tc.field("native"@), "supported"@) == Some(json::Json::Bool(true))
}

/// The `tool_calling` block calls native calling reliable to the given degree.
pub open spec fn says_reliable(tc: json::Json, degree: Seq<char>) -> bool {
    json::field_in(tc.field("native"@), "reliability"@) == Some(json::Json::Str(degree))
}

/// The `tool_calling` block declares a fallback to text.
pub open spec fn says_fallback(tc: json::Json) -> bool {
    tc.field("text_fallback"@) matches Some(v) && !(v is Null)
}

/// Native tools are left out exactly where they are not supported, or are
/// neither fully nor partially reliable and a fallback is declared. Both ways
/// are offered exactly where they are partially reliable with a fallback.
pub proof fn fallback_decides_the_strategy(tc: json::Json)
    ensures
        native_strategy_of(tc) == NativeStrategy::TextOnly <==> !says_supported(tc) || (
        says_fallback(tc) && !says_reliable(tc, "full"@) && !says_reliable(tc, "partial"@)),
        native_strategy_of(tc) == NativeStrategy::Hybrid <==> says_supported(tc) && says_reliable(
            tc,
            "partial"@,
        ) && says_fallback(tc),
        native_strategy_of(tc) == NativeStrategy::Full <==> says_supported(tc) && (says_reliable(
            tc,
            "full"@,
        ) || !says_fallback(tc)),
{
    reveal_strlit("full");
    reveal_strlit("partial");
    reveal_strlit("unreliable");
    assert("full"@.len() == 4 && "partial"@.len() == 7 && "unreliable"@.len() == 10);
}

/// Parsing is lenient unless native calling is fully reliable, and nesting is
/// allowed one level deep, in English.
pub proof fn parsing_is_lenient_unless_reliable(tc: json::Json)
    ensures
        config_of(tc).lenient_parsing == !says_reliable(tc, "full"@),
        config_of(tc).max_call_depth == 1,
        config_of(tc).locale == "en"@,
{
}

/// Without a fallback block the prompt is of the second level, with warnings,
/// no key is preferred and no dialect declared.
pub proof fn missing_fallback_declares_nothing(tc: json::Json)
    requires
        !says_fallback(tc),
    ensures
        config_of(tc).prompt_level == PromptLevel::L2,
        config_of(tc).include_counterexamples,
        config_of(tc).args_key is None,
        config_of(tc).dialects.len() == 0,
{
}

/// A fallback block decides the prompt's level and the preferred key; prompts
/// warn of other formats from the second level on.
pub proof fn fallback_block_is_heeded(tc: json::Json, f: json::Json)
    requires
        tc.field("text_fallback"@) == Some(f),
        !(f is Null),
    ensures
        config_of(tc).args_key == (match f.field("args_key"@) {
            Some(json::Json::Str(k)) => Some(k),
            _ => None,
        }),
        config_of(tc).prompt_level == (match f.field("prompt_level"@) {
            Some(json::Json::Str(l)) => if text::uppercase_text(l) == "L2"@ {
                PromptLevel::L2
            } else if text::uppercase_text(l) == "L3"@ {
                PromptLevel::L3
            } else {
                PromptLevel::L1
            },
            _ => PromptLevel::L2,
        }),
        config_of(tc).include_counterexamples == !(config_of(tc).prompt_level == PromptLevel::L1),
{
}

/// Every dialect that a fallback block lists with a tag is declared, in the
/// list's order.
pub proof fn listed_dialects_are_declared(tc: json::Json, f: json::Json, list: Seq<json::Json>, k: int)
    requires
        tc.field("text_fallback"@) == Some(f),
        f.field("known_dialects"@) == Some(json::Json::Array(list)),
        0 <= k < list.len(),
        forall|i: int|
            0 <= i < list.len() ==> ((#[trigger] list[i]).field("tag"@) matches Some(
                json::Json::Str(t),
            ) && t.len() > 0),
    ensures
        config_of(tc).dialects.len() == list.len(),
        list[k].field("tag"@) == Some(json::Json::Str(config_of(tc).dialects[k].tag)),
        config_of(tc).dialects[k].map_to == (match list[k].field("map_to"@) {
            Some(json::Json::Str(t)) => t,
            _ => Seq::empty(),
        }),
{
    lemma_listed_dialects(list, list.len() as int, k);
    assert(Seq::<DialectView>::empty() + dialects_in(list, list.len() as int) =~= dialects_in(
        list,
        list.len() as int,
    ));
}

proof fn lemma_listed_dialects(list: Seq<json::Json>, n: int, k: int)
    requires
        0 <= k < n <= list.len(),
        forall|i: int|
            0 <= i < list.len() ==> ((#[trigger] list[i]).field("tag"@) matches Some(
                json::Json::Str(t),
            ) && t.len() > 0),
    ensures
        dialects_in(list, n).len() == n,
        list[k].field("tag"@) == Some(json::Json::Str(dialects_in(list, n)[k].tag)),
        dialects_in(list, n)[k].map_to == (match list[k].field("map_to"@) {
            Some(json::Json::Str(t)) => t,
            _ => Seq::empty(),
        }),
    decreases n,
{
    assert(list[n - 1].field("tag"@) matches Some(json::Json::Str(t)) && t.len() > 0);
    if n > 1 {
        lemma_listed_dialects(list, n - 1, if k < n - 1 { k } else { 0 });
    } else {
        assert(dialects_in(list, 0).len() == 0);
    }
}

/// Markup is told by its rarest sign: DSML before shell before bash before the
/// standard block, and none where there is no sign.
pub proof fn rarest_markup_counts(dsml: bool, shell: bool, bash: bool, block: bool)
    ensures
        deviation(dsml, shell, bash, block) == Some(TextToolDeviation::DsmlDialect) <==> dsml,
        deviation(dsml, shell, bash, block) == Some(TextToolDeviation::ShellDialect) <==> !dsml
            && shell,
        deviation(dsml, shell, bash, block) == Some(TextToolDeviation::BashDialect) <==> !dsml
            && !shell && bash,
        deviation(dsml, shell, bash, block) == Some(TextToolDeviation::StandardToolCall) <==> !dsml
            && !shell && !bash && block,
        deviation(dsml, shell, bash, block) is None <==> !dsml && !shell && !bash && !block,
{
}

/// A further tool adds one line to the instructions, with its name and what it
/// does, and changes nothing else.
pub proof fn each_tool_has_its_line(tools: Seq<ToolDefinition>, t: ToolDefinition, cfg: ConfigView)
    ensures
        ({
            let line = "- "@ + t.function.name@ + ": "@ + (match t.function.description {
                Some(d) => d@,
                None => Seq::empty(),
            });
            instructions(tools.push(t), cfg) == instructions(tools, cfg) + (if tools.len() == 0 {
                line
            } else {
                "\n"@ + line
            })
        }),
{
    reveal_strlit("");
    assert(""@ =~= Seq::empty());
    let all = tool_lines(tools.push(t));
    assert(all.drop_last() =~= tool_lines(tools));
    let head = instructions(tools, cfg);
    let line = tool_line(t);
    assert(all.last() == line);
    if tools.len() == 0 {
        assert(instructions(tools.push(t), cfg) =~= head + line);
    } else {
        assert(instructions(tools.push(t), cfg) =~= head + ("\n"@ + line));
    }
}

/// The instructions begin with the text for the level, in Chinese for a locale
/// that begins with `zh`, and without warnings where none are asked for.
pub proof fn instructions_follow_the_level(cfg: ConfigView)
    ensures
        ({
            let zh = text::has_prefix(cfg.locale, "zh"@);
            let warns = cfg.include_counterexamples;
            let r = instructions(Seq::empty(), cfg);
            &&& cfg.prompt_level == PromptLevel::L1 && zh ==> r == PROMPT_L1_ZH@
            &&& cfg.prompt_level == PromptLevel::L1 && !zh ==> r == PROMPT_L1_EN@
            &&& cfg.prompt_level == PromptLevel::L2 && zh && warns ==> r == PROMPT_L2_ZH@
            &&& cfg.prompt_level == PromptLevel::L2 && zh && !warns ==> r == PROMPT_L2_ZH_PLAIN@
            &&& cfg.prompt_level == PromptLevel::L2 && !zh && warns ==> r == PROMPT_L2_EN@
            &&& cfg.prompt_level == PromptLevel::L2 && !zh && !warns ==> r == PROMPT_L2_EN_PLAIN@
            &&& cfg.prompt_level == PromptLevel::L3 && warns ==> r == PROMPT_L3@
            &&& cfg.prompt_level == PromptLevel::L3 && !warns ==> r == PROMPT_L3_PLAIN@
        }),
{
    let r = instructions(Seq::empty(), cfg);
    let head = prompt_head(
        cfg.prompt_level,
        text::has_prefix(cfg.locale, "zh"@),
        cfg.include_counterexamples,
    );
    assert(tool_lines(Seq::empty()) =~= Seq::empty());
    assert(r =~= head);
}

/// What reports a result tells the call it answers, what the tool gave back,
/// and whether that is an error.
pub proof fn results_are_reported_whole(r: ToolResult)
    ensures
        result_value(r).field("tool_use_id"@) == Some(json::Json::Str(r.tool_use_id@)),
        result_value(r).field("content"@) == Some(r.content@),
        result_value(r).field("is_error"@) == Some(json::Json::Bool(r.is_error)),
{
    reveal_strlit("tool_use_id");
    reveal_strlit("content");
    reveal_strlit("is_error");
    assert("tool_use_id"@.len() == 11 && "content"@.len() == 7 && "is_error"@.len() == 8);
}

/// A further result adds one block after the others, and changes nothing else.
pub proof fn each_result_has_its_block(
    p: StandardTextToolParser,
    results: Seq<ToolResult>,
    r: ToolResult,
)
    ensures
        ({
            let block = "<tool_result>\n"@ + json::json_text(result_value(r)) + "\n</tool_result>"@;
            &&& p.formatted(Seq::empty()).len() == 0
            &&& p.formatted(results.push(r)) == (if results.len() == 0 {
                block
            } else {
                p.formatted(results) + "\n"@ + block
            })
        }),
{
    let all = result_blocks(results.push(r));
    assert(all.drop_last() =~= result_blocks(results));
}

/// A character is taken out of a text with DSML calls exactly where it stands
/// in a call or in a wrapper of calls.
pub proof fn dsml_markup_is_taken_out(s: Seq<char>, p: int)
    requires
        pattern::all_placed(pattern::matches_of(DSML_INVOKE@, s), s.len() as int),
        pattern::all_placed(pattern::matches_of(DSML_WRAPPER@, s), s.len() as int),
        s.len() <= usize::MAX,
        pattern::matches_of(DSML_INVOKE@, s).len() + pattern::matches_of(DSML_WRAPPER@, s).len()
            <= usize::MAX,
        forall|i: int|
            0 <= i < pattern::matches_of(DSML_INVOKE@, s).len() ==> (pattern::group_text(
                s,
                #[trigger] pattern::matches_of(DSML_INVOKE@, s)[i],
                1,
            ) matches Some(t) && text::trimmed(t).len() > 0),
    ensures
        char_covered(dsml_of(s).spans, p) <==> (exists|i: int|
            0 <= i < pattern::matches_of(DSML_INVOKE@, s).len() && pattern::match_start(
                #[trigger] pattern::matches_of(DSML_INVOKE@, s)[i],
            ) <= p < pattern::match_end(pattern::matches_of(DSML_INVOKE@, s)[i])) || (exists|i: int|
            0 <= i < pattern::matches_of(DSML_WRAPPER@, s).len() && pattern::match_start(
                #[trigger] pattern::matches_of(DSML_WRAPPER@, s)[i],
            ) <= p < pattern::match_end(pattern::matches_of(DSML_WRAPPER@, s)[i])),
{
    let found = pattern::matches_of(DSML_INVOKE@, s);
    let wrap = pattern::matches_of(DSML_WRAPPER@, s);
    let all = Seq::new(
        found.len(),
        |i: int| pattern::matches_of(DSML_PARAMETER@, group_or_empty(s, found[i], 2)),
    );
    let read = dsml_calls(s, found, all, found.len() as int);
    let spans = read.spans + match_spans(wrap);
    assert forall|i: int| 0 <= i < found.len() implies read.spans.len() == found.len()
        && #[trigger] read.spans[i] == match_span(found[i]) by {
        lemma_dsml_call(s, found, all, found.len() as int, i);
    }
    if found.len() > 0 {
        lemma_dsml_call(s, found, all, found.len() as int, 0);
    }
    assert(read.spans.len() == found.len());
    assert forall|i: int| 0 <= i < spans.len() implies (#[trigger] spans[i]).0 <= spans[i].1
        <= s.len() by {
        if i < found.len() {
            assert(pattern::placed(found[i], s.len() as int));
            assert(found[i][0] is Some);
            assert(read.spans[i] == match_span(found[i]));
        } else {
            let w = wrap[i - found.len()];
            assert(pattern::placed(w, s.len() as int));
            assert(w[0] is Some);
        }
    }
    if char_covered(dsml_of(s).spans, p) {
        merging_covers_nothing_new(spans, p);
        let i = choose|i: int| 0 <= i < spans.len() && holds_char(#[trigger] spans[i], p);
        if i < found.len() {
            assert(pattern::placed(found[i], s.len() as int));
            assert(read.spans[i] == match_span(found[i]));
            assert(pattern::match_start(found[i]) <= p < pattern::match_end(found[i]));
        } else {
            let w = wrap[i - found.len()];
            assert(pattern::placed(w, s.len() as int));
            assert(pattern::match_start(w) <= p < pattern::match_end(w));
        }
    }
    assert forall|i: int| 0 <= i < spans.len() && holds_char(#[trigger] spans[i], p) implies
        char_covered(dsml_of(s).spans, p) by {
        merging_covers_all(spans, s.len() as int, i);
        let merged = dsml_of(s).spans;
        let j = choose|j: int| 0 <= j < merged.len() && covers(#[trigger] merged[j], spans[i]);
        assert(holds_char(merged[j], p));
    }
    if exists|i: int|
        0 <= i < found.len() && pattern::match_start(#[trigger] found[i]) <= p < pattern::match_end(
            found[i],
        ) {
        let i = choose|i: int|
            0 <= i < found.len() && pattern::match_start(#[trigger] found[i]) <= p
                < pattern::match_end(found[i]);
        assert(pattern::placed(found[i], s.len() as int));
        assert(read.spans[i] == match_span(found[i]));
        assert(holds_char(spans[i], p));
    }
    if exists|i: int|
        0 <= i < wrap.len() && pattern::match_start(#[trigger] wrap[i]) <= p < pattern::match_end(
            wrap[i],
        ) {
        let i = choose|i: int|
            0 <= i < wrap.len() && pattern::match_start(#[trigger] wrap[i]) <= p
                < pattern::match_end(wrap[i]);
        assert(pattern::placed(wrap[i], s.len() as int));
        assert(holds_char(spans[found.len() + i], p));
    }
}

/// Native calls are used as they are, with the content untouched; only without
/// them is the content searched for calls.
pub proof fn native_calls_go_before_text(
    parser: &StandardTextToolParser,
    content: &str,
    native_calls: &Vec<ToolCall>,
    r: (String, Vec<ToolCall>),
)
    requires
        call_ensures(
            parse_hybrid_tool_calls::<StandardTextToolParser>,
            (parser, content, native_calls),
            r,
        ),
    ensures
        native_calls@.len() > 0 ==> r.0@ == content@ && r.1@.len() == native_calls@.len(),
        forall|i: int|
            0 <= i < native_calls@.len() ==> (#[trigger] r.1@[i])@ == native_calls@[i]@,
        native_calls@.len() == 0 ==> r.0@ == parsed_response(content@, parser@).0 && r.1@.len()
            == parsed_response(content@, parser@).1.len(),
{
    assert(tool::call_views(r.1@).len() == r.1@.len());
    assert forall|i: int| 0 <= i < native_calls@.len() implies (#[trigger] r.1@[i])@
        == native_calls@[i]@ by {
        assert(tool::call_views(r.1@)[i] == r.1@[i]@);
        assert(tool::call_views(native_calls@)[i] == native_calls@[i]@);
    }
}

/// What a parser gives back is what stands in the response: the plain text, and
/// each call with its name and arguments.
pub proof fn parsing_gives_text_and_calls(
    parser: &StandardTextToolParser,
    response: &str,
    r: (String, Vec<ToolCall>),
    k: int,
)
    requires
        call_ensures(
            <StandardTextToolParser as TextToolParser>::parse,
            (parser, response),
            r,
        ),
        0 <= k < r.1@.len(),
    ensures
        r.0@ == parsed_response(response@, parser@).0,
        r.1@.len() == parsed_response(response@, parser@).1.len(),
        r.1@[k].name@ == parsed_response(response@, parser@).1[k].name,
        r.1@[k].arguments@ == parsed_response(response@, parser@).1[k].arguments,
        r.1@[k].id@ == "text_tool_"@ + text::decimal(k as nat),
{
    assert(tool::call_views(r.1@)[k] == r.1@[k]@);
    assert(tool::call_views(r.1@).len() == r.1@.len());
    calls_are_numbered(response@, parser@, k);
}

/// Without a `tool_calling` block tools are offered as text alone, and calls are
/// read leniently.
pub proof fn missing_block_means_text_calls(r: ToolCallingPolicy)
    requires
        call_ensures(ToolCallingPolicy::from_tool_calling, (None,), r),
    ensures
        r.native_strategy == NativeStrategy::TextOnly,
        r.parser@.lenient_parsing,
        r.parser@.prompt_level == PromptLevel::L2,
        r.parser@.include_counterexamples,
        r.parser@.args_key is None,
        r.parser@.dialects.len() == 0,
        r.parser@.locale == "en"@,
{
}

/// Native tools go to the provider unless text calls are all there is.
pub proof fn native_tools_go_out_unless_text_only(p: &ToolCallingPolicy, r: bool, d: bool)
    requires
        call_ensures(ToolCallingPolicy::send_native_tool_specs, (p,), r),
        call_ensures(ToolCallingPolicy::prefer_native_dispatcher, (p,), d),
    ensures
        p.native_strategy == NativeStrategy::Full ==> r && d,
        p.native_strategy == NativeStrategy::Hybrid ==> r && d,
        p.native_strategy == NativeStrategy::TextOnly ==> !r && !d,
{
}

/// Where every earlier dialect has no block, the first declared one that has a
/// block counts.
pub proof fn dialects_without_blocks_are_passed_over(
    s: Seq<char>,
    cfg: ConfigView,
    k: int,
    m: Seq<Option<(usize, usize)>>,
)
    requires
        cfg.lenient_parsing,
        is_dialect_text(s),
        0 <= k < cfg.dialects.len(),
        ({
            let shell = pattern::matches_of(SHELL_DIALECT@, s);
            let bash = pattern::matches_of(BASH_DIALECT@, s);
            ||| cfg.dialects[k].tag == "shell"@ && shell.len() > 0 && m == shell[0]
            ||| cfg.dialects[k].tag == "bash"@ && bash.len() > 0 && m == bash[0]
        }),
        forall|i: int|
            0 <= i < k ==> {
                &&& (#[trigger] cfg.dialects[i]).tag == "shell"@ ==> pattern::matches_of(
                    SHELL_DIALECT@,
                    s,
                ).len() == 0 && pattern::matches_of(SHELL_PLAIN_BODY@, s).len() == 0
                &&& cfg.dialects[i].tag == "bash"@ ==> pattern::matches_of(BASH_DIALECT@, s).len()
                    == 0
            },
    ensures
        runs(
            parsed_response(s, cfg).1,
            if cfg.dialects[k].map_to.len() == 0 {
                "shell"@
            } else {
                cfg.dialects[k].map_to
            },
            command_in(s, m),
        ),
{
    reveal_strlit("shell");
    reveal_strlit("bash");
    assert("shell"@.len() != "bash"@.len());
    lemma_configured_at(s, dialect_matches(s), cfg.dialects, 0, k);
    text::lemma_trimmed_part(Seq::<char>::empty());
    assert(text::trimmed(Seq::<char>::empty()) =~= Seq::empty());
}

proof fn lemma_no_block_calls(
    found: Seq<Seq<Option<(usize, usize)>>>,
    attrs: Seq<Option<Seq<char>>>,
    bodies: Seq<Option<json::Json>>,
    preferred: Option<Seq<char>>,
    n: int,
)
    requires
        0 <= n <= found.len(),
        forall|i: int| 0 <= i < n ==> call_in(#[trigger] bodies[i], attrs[i], preferred) is None,
    ensures
        block_calls(found, attrs, bodies, preferred, n) == no_calls(),
    decreases n,
{
    if n > 0 {
        assert(call_in(bodies[n - 1], attrs[n - 1], preferred) is None);
        lemma_no_block_calls(found, attrs, bodies, preferred, n - 1);
    }
}

/// Blocks whose bodies are no objects hide no dialect from a lenient parser:
/// what dialects find is what is read.
pub proof fn broken_blocks_hide_no_dialect(s: Seq<char>, cfg: ConfigView)
    requires
        cfg.lenient_parsing,
        pattern::matches_of(TOOL_CALLS_WRAPPER@, s).len() == 0,
        forall|i: int|
            0 <= i < pattern::matches_of(TOOL_CALL_BLOCK@, s).len() ==> written_object(
                s,
                #[trigger] pattern::matches_of(TOOL_CALL_BLOCK@, s)[i],
            ) is None,
    ensures
        parsed_response(s, cfg).1 == dialect_calls(s, cfg.dialects).calls,
        parsed_response(s, cfg).0 == tidied(
            without_spans(s, dialect_calls(s, cfg.dialects).spans),
        ),
{
    let found = pattern::matches_of(TOOL_CALL_BLOCK@, s);
    let attrs = attribute_names(s, found, true);
    let bodies = body_values(s, found);
    assert forall|i: int| 0 <= i < found.len() implies call_in(
        #[trigger] bodies[i],
        attrs[i],
        cfg.args_key,
    ) is None by {
        assert(written_object(s, found[i]) is None);
        let none = Seq::<char>::empty();
        text::lemma_trimmed_part(none);
        assert(text::trimmed(none).len() == 0);
    }
    lemma_no_block_calls(found, attrs, bodies, cfg.args_key, found.len() as int);
}

/// A block may name its tool on its opening tag, where its body names none; only
/// a lenient parser looks there.
pub proof fn opening_tag_may_name_the_tool(
    s: Seq<char>,
    cfg: ConfigView,
    tag: Seq<char>,
    name: Seq<char>,
)
    requires
        pattern::matches_of(TOOL_CALLS_WRAPPER@, s).len() == 0,
        pattern::matches_of(TOOL_CALL_BLOCK@, s).len() == 1,
        written_object(s, pattern::matches_of(TOOL_CALL_BLOCK@, s)[0]) is Some,
        written_name(s, pattern::matches_of(TOOL_CALL_BLOCK@, s)[0]) is None,
        pattern::group_text(s, pattern::matches_of(TOOL_CALL_BLOCK@, s)[0], 0) == Some(tag),
        pattern::matches_of(NAME_ATTRIBUTE@, tag).len() > 0,
        pattern::group_text(tag, pattern::matches_of(NAME_ATTRIBUTE@, tag)[0], 1) == Some(name),
    ensures
        cfg.lenient_parsing ==> parsed_response(s, cfg).1.len() == 1 && parsed_response(
            s,
            cfg,
        ).1[0].name == name && parsed_response(s, cfg).1[0].arguments == arguments_in(
            written_object(s, pattern::matches_of(TOOL_CALL_BLOCK@, s)[0])->0,
            cfg.args_key,
        ),
        !cfg.lenient_parsing ==> parsed_response(s, cfg).1.len() == 0,
{
    let found = pattern::matches_of(TOOL_CALL_BLOCK@, s);
    let attrs = attribute_names(s, found, cfg.lenient_parsing);
    let bodies = body_values(s, found);
    if cfg.lenient_parsing {
        assert(call_in(bodies[0], attrs[0], cfg.args_key) == Some(
            (name, arguments_in(written_object(s, found[0])->0, cfg.args_key)),
        ));
        every_block_is_read(found, attrs, bodies, cfg.args_key, 1, 0);
    } else {
        lemma_no_block_calls(found, attrs, bodies, cfg.args_key, 1);
    }
}

/// Where nothing is set, parsing is strict, prompts are of the first level and
/// in English, and nothing is declared.
pub proof fn nothing_set_means_strict_parsing(c: TextToolConfig)
    requires
        call_ensures(<TextToolConfig as Default>::default, (), c),
    ensures
        !c@.lenient_parsing,
        c@.max_call_depth == 1,
        c@.include_counterexamples,
        c@.prompt_level == PromptLevel::L1,
        c@.locale == "en"@,
        c@.args_key is None,
        c@.dialects.len() == 0,
{
}

/// The markup of a text is told by what it holds, the rarest first.
pub proof fn markup_is_told_by_what_it_holds(text: &str, r: Option<TextToolDeviation>)
    requires
        call_ensures(detect_text_tool_deviation, (text,), r),
    ensures
        ({
            let dsml = text::has_part(text@, DSML_TAG@);
            let shell = pattern::matches_of(SHELL_DIALECT@, text@).len() > 0 || pattern::matches_of(
                SHELL_PLAIN_BODY@,
                text@,
            ).len() > 0;
            let bash = pattern::matches_of(BASH_DIALECT@, text@).len() > 0;
            let block = pattern::matches_of(TOOL_CALL_BLOCK@, text@).len() > 0;
            &&& dsml ==> r == Some(TextToolDeviation::DsmlDialect)
            &&& !dsml && shell ==> r == Some(TextToolDeviation::ShellDialect)
            &&& !dsml && !shell && bash ==> r == Some(TextToolDeviation::BashDialect)
            &&& !dsml && !shell && !bash && block ==> r == Some(
                TextToolDeviation::StandardToolCall,
            )
            &&& !dsml && !shell && !bash && !block ==> r is None
        }),
{
}

} // verus!
