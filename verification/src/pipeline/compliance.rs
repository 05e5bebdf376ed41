//! Decoded streams and mapped events, in the form in which expectations about
//! them are written down.

use crate::json;
use crate::json::JsonValue;
use crate::table::Table;
use crate::text;
use crate::types::events::StreamingEvent;
use vstd::prelude::*;

verus! {

broadcast use vstd::string::group_string_axioms;

/// What went wrong in a pipeline.
#[derive(Debug)]
pub enum PipelineError {
    Decoder(String),
    EventMapper(String),
    InvalidJsonPath { path: String, error: String, hint: Option<String> },
}

/// What a pipeline error says.
pub enum PipelineErrorView {
    Decoder(Seq<char>),
    EventMapper(Seq<char>),
    InvalidJsonPath { path: Seq<char>, error: Seq<char>, hint: Option<Seq<char>> },
}

impl View for PipelineError {
    type V = PipelineErrorView;

    open spec fn view(&self) -> PipelineErrorView {
        match self {
            PipelineError::Decoder(m) => PipelineErrorView::Decoder(m@),
            PipelineError::EventMapper(m) => PipelineErrorView::EventMapper(m@),
            PipelineError::InvalidJsonPath { path, error, hint } =>
                PipelineErrorView::InvalidJsonPath {
                path: path@,
                error: error@,
                hint: text::opt_text(*hint),
            },
        }
    }
}

/// The line carries the signal that the stream is over.
pub open spec fn signals_end(line: Seq<char>, prefix: Seq<char>, signal: Seq<char>) -> bool {
    text::has_prefix(line, prefix) && text::trimmed(line.skip(prefix.len() as int)) == signal
}

/// One of the lines carries the signal.
pub open spec fn end_among(lines: Seq<Seq<char>>, prefix: Seq<char>, signal: Seq<char>) -> bool {
    exists|i: int| 0 <= i < lines.len() && #[trigger] signals_end(lines[i], prefix, signal)
}

/// One of the chunks has such a line. A line does not reach over chunks.
pub open spec fn end_received(
    chunks: Seq<Seq<char>>,
    prefix: Seq<char>,
    signal: Seq<char>,
) -> bool {
    exists|i: int|
        0 <= i < chunks.len() && #[trigger] end_among(text::lines_of(chunks[i]), prefix, signal)
}

fn line_signals_end(line: &str, prefix: &str, signal: &str) -> (r: bool)
    ensures
        r == signals_end(line@, prefix@, signal@),
{
    match text::strip_prefix(line, prefix) {
        Some(rest) => text::text_eq(text::trim(rest.as_str()).as_str(), signal),
        None => false,
    }
}

fn chunk_signals_end(chunk: &str, prefix: &str, signal: &str) -> (r: bool)
    ensures
        r == end_among(text::lines_of(chunk@), prefix@, signal@),
{
    let lines = text::lines(chunk);
    let ghost all = text::lines_of(chunk@);
    let mut i: usize = 0;
    while i < lines.len()
        invariant
            i <= lines@.len(),
            all == text::lines_of(chunk@),
            text::texts(lines@) == all,
            forall|k: int| 0 <= k < i ==> !#[trigger] signals_end(all[k], prefix@, signal@),
        decreases lines@.len() - i,
    {
        assert(all[i as int] == lines@[i as int]@);
        if line_signals_end(lines[i].as_str(), prefix, signal) {
            assert(all.len() == lines@.len());
            return true;
        }
        i += 1;
    }
    assert(all.len() == lines@.len());
    false
}

/// How many frames the chunks hold, which the decoder tells, and whether the
/// stream said that it is over.
pub fn decode_sse_chunks_sync(
    chunks: &Vec<String>,
    prefix: &str,
    done_signal: &str,
    decoded: Result<usize, PipelineError>,
) -> (r: Result<(usize, bool), PipelineError>)
    ensures
        match (r, decoded) {
            (Ok((n, done)), Ok(frames)) => n == frames && done == end_received(
                text::texts(chunks@),
                prefix@,
                done_signal@,
            ),
            (Err(e), Err(f)) => e == f,
            _ => false,
        },
{
    let ghost all = text::texts(chunks@);
    let mut done = false;
    let mut i: usize = 0;
    while i < chunks.len()
        invariant
            i <= chunks@.len(),
            all == text::texts(chunks@),
            done == exists|k: int|
                0 <= k < i && #[trigger] end_among(
                    text::lines_of(all[k]),
                    prefix@,
                    done_signal@,
                ),
        decreases chunks@.len() - i,
    {
        assert(all[i as int] == chunks@[i as int]@);
        if chunk_signals_end(chunks[i].as_str(), prefix, done_signal) {
            assert(end_among(text::lines_of(all[i as int]), prefix@, done_signal@));
            done = true;
        }
        i += 1;
    }
    match decoded {
        Ok(frames) => Ok((frames, done)),
        Err(e) => Err(e),
    }
}

/// A rule for which event a frame becomes.
#[derive(Debug)]
pub struct EventMapRule {
    pub match_expr: String,
    pub emit: String,
    pub fields: Option<Table<String>>,
}

/// What a rule is.
pub struct RuleView {
    pub match_expr: Seq<char>,
    pub emit: Seq<char>,
    pub fields: Option<Map<Seq<char>, Seq<char>>>,
}

/// A table of texts.
pub open spec fn text_map(t: Map<Seq<char>, String>) -> Map<Seq<char>, Seq<char>> {
    t.map_values(|s: String| s@)
}

impl View for EventMapRule {
    type V = RuleView;

    open spec fn view(&self) -> RuleView {
        RuleView {
            match_expr: self.match_expr@,
            emit: self.emit@,
            fields: match self.fields {
                Some(t) => Some(text_map(t@)),
                None => None,
            },
        }
    }
}

/// The views of rules, in order.
pub open spec fn rule_views(v: Seq<EventMapRule>) -> Seq<RuleView> {
    Seq::new(v.len(), |i: int| v[i]@)
}

/// What was found in a frame for a rule.
#[derive(Debug)]
pub struct RuleFinding {
    /// Whether the rule's expression holds, or why it is none.
    pub matches: Result<bool, String>,
    /// What stands at the path of the field `tool_calls`.
    pub tool_calls: Option<JsonValue>,
    /// The event that the rule makes of the frame.
    pub event: Option<StreamingEvent>,
    /// What stands at the path of the field `finish_reason`.
    pub finish_reason: Option<JsonValue>,
}

/// The rule names a path for the field.
pub open spec fn has_field(rule: EventMapRule, name: Seq<char>) -> bool {
    match rule.fields {
        Some(t) => t@.dom().contains(name),
        None => false,
    }
}

/// An event with its type and one more entry.
pub open spec fn typed_event(kind: Seq<char>, key: Seq<char>, value: json::Json) -> json::Json {
    json::Json::Object(
        Map::<Seq<char>, json::Json>::empty().insert("type"@, json::Json::Str(kind)).insert(
            key,
            value,
        ),
    )
}

/// The event as it is written down: content, and the end with its reason. The
/// reason that the frame holds counts where the event has none.
pub open spec fn event_json(
    ev: StreamingEvent,
    rule: EventMapRule,
    reason: Option<json::Json>,
) -> Option<json::Json> {
    match ev {
        StreamingEvent::PartialContentDelta { content, sequence_id: _ } => Some(
            typed_event("PartialContentDelta"@, "content"@, json::Json::Str(content@)),
        ),
        StreamingEvent::StreamEnd { finish_reason } => match finish_reason {
            Some(r) => Some(typed_event("StreamEnd"@, "finish_reason"@, json::Json::Str(r@))),
            None => if has_field(rule, "finish_reason"@) && reason is Some {
                Some(typed_event("StreamEnd"@, "finish_reason"@, reason->0))
            } else {
                Some(
                    json::Json::Object(
                        Map::<Seq<char>, json::Json>::empty().insert(
                            "type"@,
                            json::Json::Str("StreamEnd"@),
                        ),
                    ),
                )
            },
        },
        StreamingEvent::ThinkingDelta { .. } => None,
    }
}

/// What a rule makes of a frame.
pub open spec fn rule_event(rule: EventMapRule, found: RuleFinding) -> Result<
    Option<json::Json>,
    PipelineErrorView,
> {
    match found.matches {
        Err(e) => Err(
            PipelineErrorView::InvalidJsonPath {
                path: rule.match_expr@,
                error: e@,
                hint: None,
            },
        ),
        Ok(m) => if !m {
            Ok(None)
        } else if rule.emit@ == "PartialToolCall"@ && has_field(rule, "tool_calls"@)
            && found.tool_calls is Some {
            Ok(Some(typed_event("PartialToolCall"@, "tool_calls"@, found.tool_calls->0@)))
        } else {
            match found.event {
                Some(ev) => Ok(event_json(ev, rule, json::opt_json(found.finish_reason))),
                None => Ok(None),
            }
        },
    }
}

/// What the first `n` rules make of a frame, or the first error among them.
pub open spec fn events_upto(
    rules: Seq<EventMapRule>,
    findings: Seq<RuleFinding>,
    n: int,
) -> Result<Seq<json::Json>, PipelineErrorView>
    decreases n,
{
    if n <= 0 {
        Ok(Seq::empty())
    } else {
        match events_upto(rules, findings, n - 1) {
            Err(e) => Err(e),
            Ok(s) => match rule_event(rules[n - 1], findings[n - 1]) {
                Err(e) => Err(e),
                Ok(Some(j)) => Ok(s.push(j)),
                Ok(None) => Ok(s),
            },
        }
    }
}

proof fn lemma_error_stays(
    rules: Seq<EventMapRule>,
    findings: Seq<RuleFinding>,
    i: int,
    n: int,
)
    requires
        0 <= i <= n,
        events_upto(rules, findings, i) is Err,
    ensures
        events_upto(rules, findings, n) == events_upto(rules, findings, i),
    decreases n - i,
{
    if i < n {
        lemma_error_stays(rules, findings, i, n - 1);
    }
}

fn rule_has_field(rule: &EventMapRule, name: &str) -> (r: bool)
    ensures
        r == has_field(*rule, name@),
{
    match &rule.fields {
        Some(t) => t.contains_key(name),
        None => false,
    }
}

fn event_of(kind: &str) -> (r: JsonValue)
    ensures
        r@ == json::Json::Object(
            Map::<Seq<char>, json::Json>::empty().insert("type"@, json::Json::Str(kind@)),
        ),
{
    JsonValue::object().with("type", JsonValue::string(kind))
}

/// The event as it is written down.
pub fn streaming_event_to_compliance(
    ev: &StreamingEvent,
    rule: &EventMapRule,
    reason: &Option<JsonValue>,
) -> (r: Option<JsonValue>)
    ensures
        json::opt_json(r) == event_json(*ev, *rule, json::opt_json(*reason)),
{
    match ev {
        StreamingEvent::PartialContentDelta { content, sequence_id: _ } => Some(
            event_of("PartialContentDelta").with("content", JsonValue::string(content.as_str())),
        ),
        StreamingEvent::StreamEnd { finish_reason } => {
            let event = event_of("StreamEnd");
            if let Some(r) = finish_reason {
                return Some(event.with("finish_reason", JsonValue::string(r.as_str())));
            }
            if rule_has_field(rule, "finish_reason") {
                if let Some(r) = reason {
                    return Some(event.with("finish_reason", r.copy()));
                }
            }
            Some(event)
        },
        StreamingEvent::ThinkingDelta { .. } => None,
    }
}

fn apply_rule(rule: &EventMapRule, found: &RuleFinding) -> (r: Result<
    Option<JsonValue>,
    PipelineError,
>)
    ensures
        match (r, rule_event(*rule, *found)) {
            (Ok(v), Ok(j)) => json::opt_json(v) == j,
            (Err(e), Err(f)) => e@ == f,
            _ => false,
        },
{
    match &found.matches {
        Err(e) => {
            return Err(
                PipelineError::InvalidJsonPath {
                    path: rule.match_expr.clone(),
                    error: e.clone(),
                    hint: None,
                },
            );
        },
        Ok(m) => if !*m {
            return Ok(None);
        },
    }
    if text::text_eq(rule.emit.as_str(), "PartialToolCall") && rule_has_field(rule, "tool_calls") {
        if let Some(calls) = &found.tool_calls {
            return Ok(Some(event_of("PartialToolCall").with("tool_calls", calls.copy())));
        }
    }
    match &found.event {
        Some(ev) => Ok(streaming_event_to_compliance(ev, rule, &found.finish_reason)),
        None => Ok(None),
    }
}

/// The frame is no JSON, or the rules are none that a mapper takes.
pub open spec fn frame_error(
    frame: Result<(), String>,
    mapper: Result<(), PipelineError>,
) -> Option<PipelineErrorView> {
    match frame {
        Err(e) => Some(PipelineErrorView::EventMapper("frame yaml→json: "@ + e@)),
        Ok(_) => match mapper {
            Err(e) => Some(e@),
            Ok(_) => None,
        },
    }
}

/// The events that the rules make of a frame, each rule in its turn. `frame`
/// tells whether the frame is JSON, `mapper` whether the rules can be used, and
/// `findings` what was found in the frame for each rule.
pub fn map_frame_to_compliance_events(
    frame: Result<(), String>,
    mapper: Result<(), PipelineError>,
    rules: &Vec<EventMapRule>,
    findings: &Vec<RuleFinding>,
) -> (r: Result<Vec<JsonValue>, PipelineError>)
    requires
        findings@.len() == rules@.len(),
    ensures
        match frame_error(frame, mapper) {
            Some(f) => r is Err && r->Err_0@ == f,
            None => match (r, events_upto(rules@, findings@, rules@.len() as int)) {
                (Ok(v), Ok(s)) => json::array_view(v@) == s,
                (Err(e), Err(f)) => e@ == f,
                _ => false,
            },
        },
{
    if let Err(e) = frame {
        return Err(PipelineError::EventMapper(text::cat("frame yaml→json: ", e.as_str())));
    }
    if let Err(e) = mapper {
        return Err(e);
    }
    let mut out: Vec<JsonValue> = Vec::new();
    let mut i: usize = 0;
    assert(json::array_view(out@) =~= Seq::empty());
    while i < rules.len()
        invariant
            i <= rules@.len(),
            findings@.len() == rules@.len(),
            frame_error(frame, mapper) is None,
            events_upto(rules@, findings@, i as int) == Ok::<Seq<json::Json>, PipelineErrorView>(
                json::array_view(out@),
            ),
        decreases rules@.len() - i,
    {
        match apply_rule(&rules[i], &findings[i]) {
            Err(e) => {
                proof {
                    lemma_error_stays(rules@, findings@, i + 1, rules@.len() as int);
                }
                return Err(e);
            },
            Ok(Some(v)) => {
                let ghost before = out@;
                out.push(v);
                proof {
                    json::lemma_array_view(before);
                    json::lemma_array_view(out@);
                    assert(json::array_view(out@) =~= json::array_view(before).push(v@));
                }
            },
            Ok(None) => {},
        }
        i += 1;
    }
    Ok(out)
}

/// A YAML value. A mapping holds no key twice.
#[derive(Debug)]
pub enum YamlValue {
    Null,
    Bool(bool),
    /// A number as it is written.
    Number(String),
    Str(String),
    Sequence(Vec<YamlValue>),
    Mapping(Vec<(YamlValue, YamlValue)>),
    Tagged { tag: String, value: Box<YamlValue> },
}

/// The value without the tags on it.
pub open spec fn untagged(v: YamlValue) -> YamlValue
    decreases v,
{
    match v {
        YamlValue::Tagged { tag: _, value } => untagged(*value),
        _ => v,
    }
}

fn untag(v: &YamlValue) -> (r: &YamlValue)
    ensures
        *r == untagged(*v),
    decreases v,
{
    match v {
        YamlValue::Tagged { tag: _, value } => untag(value),
        _ => v,
    }
}

/// The text of a string.
pub open spec fn yaml_text(v: YamlValue) -> Option<Seq<char>> {
    match untagged(v) {
        YamlValue::Str(s) => Some(s@),
        _ => None,
    }
}

/// The value is the string `key`, without a tag.
pub open spec fn is_key(v: YamlValue, key: Seq<char>) -> bool {
    match v {
        YamlValue::Str(s) => s@ == key,
        _ => false,
    }
}

/// What stands under a key from the `k`th entry on.
pub open spec fn entry_from(entries: Seq<(YamlValue, YamlValue)>, key: Seq<char>, k: int) -> Option<
    YamlValue,
>
    decreases entries.len() - k,
{
    if 0 <= k < entries.len() {
        if is_key(entries[k].0, key) {
            Some(entries[k].1)
        } else {
            entry_from(entries, key, k + 1)
        }
    } else {
        None
    }
}

/// The text under a key, empty where there is none.
pub open spec fn text_under(entries: Seq<(YamlValue, YamlValue)>, key: Seq<char>) -> Seq<char> {
    match entry_from(entries, key, 0) {
        Some(v) => match yaml_text(v) {
            Some(t) => t,
            None => ""@,
        },
        None => ""@,
    }
}

/// The first `n` entries as texts; `None` where one of them is no text.
pub open spec fn text_entries(entries: Seq<(YamlValue, YamlValue)>, n: int) -> Option<
    Map<Seq<char>, Seq<char>>,
>
    decreases n,
{
    if n <= 0 {
        Some(Map::empty())
    } else {
        match (
            text_entries(entries, n - 1),
            yaml_text(entries[n - 1].0),
            yaml_text(entries[n - 1].1),
        ) {
            (Some(m), Some(k), Some(v)) => Some(m.insert(k, v)),
            _ => None,
        }
    }
}

/// The fields of a rule: those under `extract`, else those under `fields`.
pub open spec fn fields_under(entries: Seq<(YamlValue, YamlValue)>) -> Option<
    Map<Seq<char>, Seq<char>>,
> {
    let source = match entry_from(entries, "extract"@, 0) {
        Some(v) => Some(v),
        None => entry_from(entries, "fields"@, 0),
    };
    match source {
        Some(v) => match untagged(v) {
            YamlValue::Mapping(m) => text_entries(m@, m@.len() as int),
            _ => None,
        },
        None => None,
    }
}

/// The rules in the first `n` items; items that are no mappings are passed over.
pub open spec fn rules_upto(items: Seq<YamlValue>, n: int) -> Seq<RuleView>
    decreases n,
{
    if n <= 0 {
        Seq::empty()
    } else {
        match untagged(items[n - 1]) {
            YamlValue::Mapping(m) => rules_upto(items, n - 1).push(
                RuleView {
                    match_expr: text_under(m@, "match"@),
                    emit: text_under(m@, "emit"@),
                    fields: fields_under(m@),
                },
            ),
            _ => rules_upto(items, n - 1),
        }
    }
}

/// The rules in a value; none where it is no sequence.
pub open spec fn rules_in(v: YamlValue) -> Seq<RuleView> {
    match untagged(v) {
        YamlValue::Sequence(s) => rules_upto(s@, s@.len() as int),
        _ => Seq::empty(),
    }
}

fn find_entry<'a>(entries: &'a Vec<(YamlValue, YamlValue)>, key: &str) -> (r: Option<
    &'a YamlValue,
>)
    ensures
        match (r, entry_from(entries@, key@, 0)) {
            (Some(v), Some(w)) => *v == w,
            (None, None) => true,
            _ => false,
        },
{
    let mut i: usize = 0;
    while i < entries.len()
        invariant
            i <= entries@.len(),
            entry_from(entries@, key@, 0) == entry_from(entries@, key@, i as int),
        decreases entries@.len() - i,
    {
        if let YamlValue::Str(s) = &entries[i].0 {
            if text::text_eq(s.as_str(), key) {
                return Some(&entries[i].1);
            }
        }
        i += 1;
    }
    None
}

fn read_yaml_text(v: &YamlValue) -> (r: Option<String>)
    ensures
        text::opt_text(r) == yaml_text(*v),
{
    match untag(v) {
        YamlValue::Str(s) => Some(s.clone()),
        _ => None,
    }
}

fn read_text_under(entries: &Vec<(YamlValue, YamlValue)>, key: &str) -> (r: String)
    ensures
        r@ == text_under(entries@, key@),
{
    match find_entry(entries, key) {
        Some(v) => match read_yaml_text(v) {
            Some(t) => t,
            None => "".to_string(),
        },
        None => "".to_string(),
    }
}

fn read_text_entries(entries: &Vec<(YamlValue, YamlValue)>) -> (r: Option<Table<String>>)
    ensures
        match (r, text_entries(entries@, entries@.len() as int)) {
            (Some(t), Some(m)) => text_map(t@) == m,
            (None, None) => true,
            _ => false,
        },
{
    let mut out: Table<String> = Table::new();
    let mut i: usize = 0;
    assert(text_map(out@) =~= Map::empty());
    while i < entries.len()
        invariant
            i <= entries@.len(),
            text_entries(entries@, i as int) == Some(text_map(out@)),
        decreases entries@.len() - i,
    {
        match (read_yaml_text(&entries[i].0), read_yaml_text(&entries[i].1)) {
            (Some(k), Some(v)) => {
                let ghost before = out@;
                let ghost kv = k@;
                let ghost vv = v@;
                out.insert(k, v);
                assert(text_map(out@) =~= text_map(before).insert(kv, vv));
            },
            _ => {
                proof {
                    lemma_no_text_stays(entries@, i + 1, entries@.len() as int);
                }
                return None;
            },
        }
        i += 1;
    }
    Some(out)
}

proof fn lemma_no_text_stays(entries: Seq<(YamlValue, YamlValue)>, i: int, n: int)
    requires
        0 <= i <= n,
        text_entries(entries, i) is None,
    ensures
        text_entries(entries, n) is None,
    decreases n - i,
{
    if i < n {
        lemma_no_text_stays(entries, i, n - 1);
    }
}

fn read_rule(entries: &Vec<(YamlValue, YamlValue)>) -> (r: EventMapRule)
    ensures
        r@ == (RuleView {
            match_expr: text_under(entries@, "match"@),
            emit: text_under(entries@, "emit"@),
            fields: fields_under(entries@),
        }),
{
    let source = match find_entry(entries, "extract") {
        Some(v) => Some(v),
        None => find_entry(entries, "fields"),
    };
    let fields = match source {
        Some(v) => match untag(v) {
            YamlValue::Mapping(m) => read_text_entries(m),
            _ => None,
        },
        None => None,
    };
    EventMapRule {
        match_expr: read_text_under(entries, "match"),
        emit: read_text_under(entries, "emit"),
        fields,
    }
}

/// The rules in a value. It never fails.
pub fn event_map_rules_from_yaml(value: &YamlValue) -> (r: Result<
    Vec<EventMapRule>,
    PipelineError,
>)
    ensures
        r is Ok,
        rule_views(r->Ok_0@) == rules_in(*value),
{
    let mut rules: Vec<EventMapRule> = Vec::new();
    assert(rule_views(rules@) =~= Seq::empty());
    if let YamlValue::Sequence(items) = untag(value) {
        let mut i: usize = 0;
        while i < items.len()
            invariant
                i <= items@.len(),
                rule_views(rules@) == rules_upto(items@, i as int),
            decreases items@.len() - i,
        {
            if let YamlValue::Mapping(m) = untag(&items[i]) {
                let rule = read_rule(m);
                let ghost before = rule_views(rules@);
                let ghost rv = rule@;
                rules.push(rule);
                assert(rule_views(rules@) =~= before.push(rv));
            }
            i += 1;
        }
    }
    Ok(rules)
}

/// A line says that the stream is over where the signal follows the prefix, with
/// nothing but white space around it.
pub proof fn signals_follow_the_prefix(prefix: Seq<char>, rest: Seq<char>, signal: Seq<char>)
    ensures
        signals_end(prefix + rest, prefix, signal) <==> text::trimmed(rest) == signal,
{
    let line = prefix + rest;
    assert(line.subrange(0, prefix.len() as int) =~= prefix);
    assert(line.skip(prefix.len() as int) =~= rest);
}

/// A line without the prefix says nothing of the end.
pub proof fn other_lines_signal_nothing(line: Seq<char>, prefix: Seq<char>, signal: Seq<char>)
    requires
        !text::has_prefix(line, prefix),
    ensures
        !signals_end(line, prefix, signal),
{
}

/// The end is received as soon as one line of one chunk signals it.
pub proof fn one_line_ends_the_stream(
    chunks: Seq<Seq<char>>,
    prefix: Seq<char>,
    signal: Seq<char>,
    i: int,
    k: int,
)
    requires
        0 <= i < chunks.len(),
        0 <= k < text::lines_of(chunks[i]).len(),
        text::has_prefix(text::lines_of(chunks[i])[k], prefix),
        text::trimmed(text::lines_of(chunks[i])[k].skip(prefix.len() as int)) == signal,
    ensures
        end_received(chunks, prefix, signal),
{
    assert(signals_end(text::lines_of(chunks[i])[k], prefix, signal));
    assert(end_among(text::lines_of(chunks[i]), prefix, signal));
}

/// Without such a line the end is not received.
pub proof fn no_line_no_end(chunks: Seq<Seq<char>>, prefix: Seq<char>, signal: Seq<char>)
    requires
        forall|i: int, k: int|
            0 <= i < chunks.len() && 0 <= k < text::lines_of(chunks[i]).len()
                ==> !(text::has_prefix(#[trigger] text::lines_of(chunks[i])[k], prefix)
                && text::trimmed(text::lines_of(chunks[i])[k].skip(prefix.len() as int)) == signal),
    ensures
        !end_received(chunks, prefix, signal),
{
    if end_received(chunks, prefix, signal) {
        let i = choose|i: int|
            0 <= i < chunks.len() && #[trigger] end_among(
                text::lines_of(chunks[i]),
                prefix,
                signal,
            );
        let lines = text::lines_of(chunks[i]);
        let k = choose|k: int| 0 <= k < lines.len() && #[trigger] signals_end(lines[k], prefix, signal);
        assert(!(text::has_prefix(text::lines_of(chunks[i])[k], prefix) && text::trimmed(
            text::lines_of(chunks[i])[k].skip(prefix.len() as int),
        ) == signal));
    }
}

proof fn reveal_event_keys()
    ensures
        "type"@.len() == 4,
        "content"@.len() == 7,
        "finish_reason"@.len() == 13,
        "tool_calls"@.len() == 10,
{
    reveal_strlit("type");
    reveal_strlit("content");
    reveal_strlit("finish_reason");
    reveal_strlit("tool_calls");
}

/// Content is written down as it came, and the end with its own reason, else
/// with the frame's where the rule names a path for it. Thinking is not written
/// down.
pub proof fn events_are_written_down_whole(
    ev: StreamingEvent,
    rule: EventMapRule,
    reason: Option<json::Json>,
)
    ensures
        match ev {
            StreamingEvent::PartialContentDelta { content, .. } => event_json(
                ev,
                rule,
                reason,
            ) matches Some(j) && j.field("type"@) == Some(json::Json::Str("PartialContentDelta"@))
                && j.field("content"@) == Some(json::Json::Str(content@)),
            StreamingEvent::StreamEnd { finish_reason } => event_json(
                ev,
                rule,
                reason,
            ) matches Some(j) && j.field("type"@) == Some(json::Json::Str("StreamEnd"@)) && j.field(
                "finish_reason"@,
            ) == (match finish_reason {
                Some(r) => Some(json::Json::Str(r@)),
                None => if rule.fields matches Some(t) && t@.dom().contains("finish_reason"@) {
                    reason
                } else {
                    None
                },
            }),
            StreamingEvent::ThinkingDelta { .. } => event_json(ev, rule, reason) is None,
        },
{
    reveal_event_keys();
}

/// A rule makes nothing of a frame that it does not match; one for tool calls
/// hands on what the frame holds at their path, and every other rule its event.
pub proof fn rules_make_events_of_matching_frames(rule: EventMapRule, found: RuleFinding)
    ensures
        found.matches matches Ok(m) ==> !m ==> rule_event(rule, found) == Ok::<
            Option<json::Json>,
            PipelineErrorView,
        >(None),
        found.matches is Err <==> rule_event(rule, found) is Err,
        ({
            let names = rule.fields matches Some(t) && t@.dom().contains("tool_calls"@);
            let calls = rule.emit@ == "PartialToolCall"@ && names && found.tool_calls is Some;
            found.matches matches Ok(m) ==> m ==> {
                &&& calls ==> (rule_event(rule, found) matches Ok(Some(j)) && j.field("type"@)
                    == Some(json::Json::Str("PartialToolCall"@)) && j.field("tool_calls"@) == Some(
                    found.tool_calls->0@,
                ))
                &&& !calls && found.event is Some ==> rule_event(rule, found) == Ok::<
                    Option<json::Json>,
                    PipelineErrorView,
                >(event_json(found.event->0, rule, json::opt_json(found.finish_reason)))
                &&& !calls && found.event is None ==> rule_event(rule, found) == Ok::<
                    Option<json::Json>,
                    PipelineErrorView,
                >(None)
            }
        }),
{
    reveal_event_keys();
}

/// The events of a frame come in the order of the rules that make them: each
/// rule adds at most one, after those of the rules before it.
pub proof fn rules_are_applied_in_turn(
    rules: Seq<EventMapRule>,
    findings: Seq<RuleFinding>,
    n: int,
    s: Seq<json::Json>,
)
    requires
        0 <= n < rules.len(),
        events_upto(rules, findings, n) == Ok::<Seq<json::Json>, PipelineErrorView>(s),
    ensures
        events_upto(rules, findings, 0) == Ok::<Seq<json::Json>, PipelineErrorView>(Seq::empty()),
        match rule_event(rules[n], findings[n]) {
            Ok(Some(j)) => events_upto(rules, findings, n + 1) matches Ok(t) && t.len() == s.len()
                + 1 && t.drop_last() == s && t.last() == j,
            Ok(None) => events_upto(rules, findings, n + 1) == Ok::<
                Seq<json::Json>,
                PipelineErrorView,
            >(s),
            Err(e) => events_upto(rules, findings, n + 1) == Err::<
                Seq<json::Json>,
                PipelineErrorView,
            >(e),
        },
{
    if let Ok(Some(j)) = rule_event(rules[n], findings[n]) {
        assert(s.push(j).drop_last() =~= s);
    }
}

/// The first error among the rules is the one reported.
pub proof fn first_rule_error_is_reported(
    rules: Seq<EventMapRule>,
    findings: Seq<RuleFinding>,
    i: int,
    n: int,
)
    requires
        0 <= i <= n,
        events_upto(rules, findings, i) is Err,
    ensures
        events_upto(rules, findings, n) == events_upto(rules, findings, i),
{
    lemma_error_stays(rules, findings, i, n);
}

/// A key is looked up by the first entry whose key is that string.
pub proof fn first_entry_counts(
    entries: Seq<(YamlValue, YamlValue)>,
    key: Seq<char>,
    from: int,
    k: int,
)
    requires
        0 <= from <= k <= entries.len(),
        forall|j: int| from <= j < k ==> !is_key((#[trigger] entries[j]).0, key),
        k < entries.len() ==> is_key(entries[k].0, key),
    ensures
        entry_from(entries, key, from) == (if k < entries.len() {
            Some(entries[k].1)
        } else {
            None
        }),
    decreases k - from,
{
    if from < k {
        assert(!is_key(entries[from].0, key));
        first_entry_counts(entries, key, from + 1, k);
    }
}

/// Every mapping of a list is a rule, in the list's order, with what stands
/// under `match` and `emit`.
pub proof fn every_mapping_is_a_rule(items: Seq<YamlValue>, n: int, k: int)
    requires
        0 <= k < n <= items.len(),
        forall|i: int| 0 <= i < n ==> untagged(#[trigger] items[i]) is Mapping,
    ensures
        ({
            let m = untagged(items[k])->Mapping_0@;
            let r = rules_upto(items, n);
            &&& r.len() == n
            &&& r[k].match_expr == text_under(m, "match"@)
            &&& r[k].emit == text_under(m, "emit"@)
            &&& r[k].fields == fields_under(m)
        }),
    decreases n,
{
    assert(untagged(items[n - 1]) is Mapping);
    if n > 1 {
        every_mapping_is_a_rule(items, n - 1, if k < n - 1 { k } else { 0 });
    } else {
        assert(rules_upto(items, 0).len() == 0);
    }
}

/// What is no mapping is passed over.
pub proof fn other_items_are_passed_over(items: Seq<YamlValue>, n: int)
    requires
        0 <= n < items.len(),
        !(untagged(items[n]) is Mapping),
    ensures
        rules_upto(items, n + 1) == rules_upto(items, n),
{
}

/// The text under a key is that of the entry's string, and empty where there is
/// none.
pub proof fn text_stands_under_its_key(entries: Seq<(YamlValue, YamlValue)>, key: Seq<char>)
    ensures
        text_under(entries, key) == (match entry_from(entries, key, 0) {
            Some(YamlValue::Str(s)) => s@,
            Some(YamlValue::Tagged { tag, value }) => match untagged(*value) {
                YamlValue::Str(s) => s@,
                _ => Seq::empty(),
            },
            _ => Seq::empty(),
        }),
{
    reveal_strlit("");
    assert(""@ =~= Seq::empty());
}

/// The fields of a rule stand under `extract`, else under `fields`, each with
/// its path.
pub proof fn fields_stand_under_extract_or_fields(
    entries: Seq<(YamlValue, YamlValue)>,
    v: YamlValue,
)
    requires
        entry_from(entries, "extract"@, 0) == Some(v) || (entry_from(entries, "extract"@, 0) is None
            && entry_from(entries, "fields"@, 0) == Some(v)),
    ensures
        untagged(v) matches YamlValue::Mapping(m) ==> fields_under(entries) == text_entries(
            m@,
            m@.len() as int,
        ),
        !(untagged(v) is Mapping) ==> fields_under(entries) is None,
{
}

/// Every entry of a mapping of texts is kept under its key.
pub proof fn text_entries_are_kept(entries: Seq<(YamlValue, YamlValue)>, n: int, k: int)
    requires
        0 <= k < n <= entries.len(),
        text_entries(entries, n) is Some,
        forall|j: int|
            k < j < n ==> yaml_text((#[trigger] entries[j]).0) != yaml_text(entries[k].0),
    ensures
        ({
            let m = text_entries(entries, n)->0;
            &&& yaml_text(entries[k].0) matches Some(key) && m.dom().contains(key) && yaml_text(
                entries[k].1,
            ) == Some(m[key])
        }),
    decreases n,
{
    if k < n - 1 {
        assert(yaml_text(entries[n - 1].0) != yaml_text(entries[k].0));
        text_entries_are_kept(entries, n - 1, k);
    }
}

/// The frames are those that the decoder tells, and the end is whether a line
/// signals it.
pub proof fn frames_are_those_decoded(
    chunks: &Vec<String>,
    prefix: &str,
    signal: &str,
    decoded: Result<usize, PipelineError>,
    r: Result<(usize, bool), PipelineError>,
)
    requires
        call_ensures(decode_sse_chunks_sync, (chunks, prefix, signal, decoded), r),
    ensures
        decoded matches Ok(n) ==> (r matches Ok((m, done)) && m == n && done == end_received(
            text::texts(chunks@),
            prefix@,
            signal@,
        )),
        decoded is Err ==> r is Err,
{
}

/// A frame that is no JSON, or rules that cannot be used, are an error; otherwise
/// the events are those of the rules.
pub proof fn unusable_frames_are_refused(
    frame: Result<(), String>,
    mapper: Result<(), PipelineError>,
    rules: &Vec<EventMapRule>,
    findings: &Vec<RuleFinding>,
    r: Result<Vec<JsonValue>, PipelineError>,
)
    requires
        findings@.len() == rules@.len(),
        call_ensures(map_frame_to_compliance_events, (frame, mapper, rules, findings), r),
    ensures
        frame is Err || mapper is Err ==> r is Err,
        frame is Ok && mapper is Ok ==> match events_upto(rules@, findings@, rules@.len() as int) {
            Ok(s) => r matches Ok(v) && json::array_view(v@) == s,
            Err(_) => r is Err,
        },
{
}

} // verus!
