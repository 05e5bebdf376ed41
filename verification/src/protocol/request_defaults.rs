//! Laying a model's `request_defaults` over an OpenAI-compatible request body:
//! a cap on `max_tokens`, and a `reasoning_effort` where the body has none.

use crate::json;
use crate::json::{JsonNumber, JsonValue};
use crate::protocol::manifest;
use crate::table::Table;
use vstd::prelude::*;

verus! {

broadcast use vstd::string::group_string_axioms;

/// What to lay over a body.
#[derive(Debug, Clone, Copy)]
pub struct RequestDefaultsOptions<'a> {
    /// Whether the host turned thinking on.
    pub thinking_enabled: bool,
    /// The model's id on the wire.
    pub model_id: Option<&'a str>,
    /// The manifest's defaults; `None` changes nothing.
    pub request_defaults: Option<&'a JsonValue>,
}

impl<'a> RequestDefaultsOptions<'a> {
    /// Options without a model id.
    pub fn new(thinking_enabled: bool, request_defaults: Option<&'a JsonValue>) -> (r: Self)
        ensures
            r.thinking_enabled == thinking_enabled,
            r.model_id is None,
            r.request_defaults == request_defaults,
    {
        RequestDefaultsOptions { thinking_enabled, model_id: None, request_defaults }
    }

    /// The options with a model id.
    pub fn with_model_id(self, model_id: &'a str) -> (r: Self)
        ensures
            r.thinking_enabled == self.thinking_enabled,
            r.model_id == Some(model_id),
            r.request_defaults == self.request_defaults,
    {
        RequestDefaultsOptions {
            thinking_enabled: self.thinking_enabled,
            model_id: Some(model_id),
            request_defaults: self.request_defaults,
        }
    }
}

/// The `request_defaults` of a model in a manifest's extra fields.
pub fn request_defaults_from_extra<'a>(extra: &'a Table<JsonValue>, model_id: &str) -> (r: Option<
    &'a JsonValue,
>)
    ensures
        json::opt_ref(r) == json::field_in(
            manifest::model_metadata(extra@, model_id@),
            "request_defaults"@,
        ),
{
    match manifest::find_model_metadata(extra, model_id) {
        Some(entry) => entry.get("request_defaults"),
        None => None,
    }
}

/// The number cut off at the decimal point, where that is above zero.
pub open spec fn positive(v: Option<json::Json>) -> Option<u64> {
    match v {
        Some(json::Json::Number(JsonNumber::Unsigned(n))) => if n > 0 {
            Some(n)
        } else {
            None
        },
        Some(json::Json::Number(JsonNumber::Fraction { whole, number: _ })) => if whole > 0 {
            Some(whole)
        } else {
            None
        },
        _ => None,
    }
}

/// The first positive number of two fields, the first looked at only where
/// thinking is on.
pub open spec fn chosen(
    defaults: json::Json,
    thinking: bool,
    thinking_key: Seq<char>,
    key: Seq<char>,
) -> Option<u64> {
    if thinking && positive(defaults.field(thinking_key)) is Some {
        positive(defaults.field(thinking_key))
    } else {
        positive(defaults.field(key))
    }
}

/// The cap on `max_tokens` that defaults ask for.
pub open spec fn tokens_cap(defaults: json::Json, thinking: bool) -> Option<u64> {
    chosen(defaults, thinking, "max_tokens_cap_thinking"@, "max_tokens_cap"@)
}

/// The `reasoning_effort` that defaults ask for.
pub open spec fn effort(defaults: json::Json, thinking: bool) -> Option<Seq<char>> {
    match defaults.field("reasoning_effort"@) {
        Some(json::Json::Object(m)) => {
            let re = json::Json::Object(m);
            let own = json::text_in(
                re.field(
                    if thinking {
                        "when_thinking_on"@
                    } else {
                        "when_thinking_off"@
                    },
                ),
            );
            match own {
                Some(s) => Some(s),
                None => json::text_in(re.field("default"@)),
            }
        },
        _ => None,
    }
}

/// The body with its token limit capped.
pub open spec fn capped_body(m: Map<Seq<char>, json::Json>, cap: Option<u64>) -> Map<
    Seq<char>,
    json::Json,
> {
    match cap {
        None => m,
        Some(c) => {
            let body = json::Json::Object(m);
            let asked = match positive(body.field("max_tokens"@)) {
                Some(p) => Some(p),
                None => positive(body.field("max_completion_tokens"@)),
            };
            let budget = match asked {
                Some(p) => if p < c {
                    p
                } else {
                    c
                },
                None => c,
            };
            m.insert("max_tokens"@, json::Json::Number(JsonNumber::Unsigned(budget))).remove(
                "max_completion_tokens"@,
            )
        },
    }
}

/// The body with a reasoning effort where it has none.
pub open spec fn with_effort(m: Map<Seq<char>, json::Json>, e: Option<Seq<char>>) -> Map<
    Seq<char>,
    json::Json,
> {
    let has = match json::Json::Object(m).field("reasoning_effort"@) {
        Some(v) => !(v is Null),
        None => false,
    };
    match e {
        Some(s) => if has {
            m
        } else {
            m.insert("reasoning_effort"@, json::Json::Str(s))
        },
        None => m,
    }
}

/// The body with defaults laid over it.
pub open spec fn with_defaults(
    body: json::Json,
    defaults: Option<json::Json>,
    thinking: bool,
) -> json::Json {
    match (body, defaults) {
        (json::Json::Object(m), Some(json::Json::Object(d))) => json::Json::Object(
            with_effort(
                capped_body(m, tokens_cap(json::Json::Object(d), thinking)),
                effort(json::Json::Object(d), thinking),
            ),
        ),
        _ => body,
    }
}

fn positive_u64(v: Option<&JsonValue>) -> (r: Option<u64>)
    ensures
        r == positive(json::opt_ref(v)),
{
    match v {
        Some(JsonValue::Number(JsonNumber::Unsigned(n))) => if *n > 0 {
            Some(*n)
        } else {
            None
        },
        Some(JsonValue::Number(JsonNumber::Fraction { whole, number: _ })) => if *whole > 0 {
            Some(*whole)
        } else {
            None
        },
        _ => None,
    }
}

/// The cap on `max_tokens` for the think toggle.
pub fn max_tokens_cap_from_defaults(defaults: &JsonValue, thinking_enabled: bool) -> (r: Option<
    u64,
>)
    ensures
        r == tokens_cap(defaults@, thinking_enabled),
{
    if thinking_enabled {
        if let Some(c) = positive_u64(defaults.get("max_tokens_cap_thinking")) {
            return Some(c);
        }
    }
    positive_u64(defaults.get("max_tokens_cap"))
}

/// The input that is safe to send, in tokens, for the think toggle.
pub fn safe_input_tokens_from_defaults(defaults: &JsonValue, thinking_enabled: bool) -> (r: Option<
    u64,
>)
    ensures
        r == chosen(
            defaults@,
            thinking_enabled,
            "safe_input_tokens_thinking"@,
            "safe_input_tokens"@,
        ),
{
    if thinking_enabled {
        if let Some(c) = positive_u64(defaults.get("safe_input_tokens_thinking")) {
            return Some(c);
        }
    }
    positive_u64(defaults.get("safe_input_tokens"))
}

fn text_at(v: &JsonValue, key: &str) -> (r: Option<String>)
    ensures
        crate::text::opt_text(r) == json::text_in(v@.field(key@)),
{
    match v.get(key) {
        Some(x) => match x.as_str() {
            Some(s) => Some(s.to_string()),
            None => None,
        },
        None => None,
    }
}

/// The `reasoning_effort` for the think toggle.
pub fn reasoning_effort_from_defaults(defaults: &JsonValue, thinking_enabled: bool) -> (r: Option<
    String,
>)
    ensures
        crate::text::opt_text(r) == effort(defaults@, thinking_enabled),
{
    match defaults.get("reasoning_effort") {
        Some(re) => {
            if !re.is_object() {
                return None;
            }
            let own = if thinking_enabled {
                text_at(re, "when_thinking_on")
            } else {
                text_at(re, "when_thinking_off")
            };
            match own {
                Some(s) => Some(s),
                None => text_at(re, "default"),
            }
        },
        None => None,
    }
}

fn cap_tokens(body: JsonValue, cap: Option<u64>) -> (r: JsonValue)
    requires
        body@ is Object,
    ensures
        r@ == json::Json::Object(capped_body(body@->Object_0, cap)),
{
    match cap {
        None => body,
        Some(c) => {
            let asked = match positive_u64(body.get("max_tokens")) {
                Some(p) => Some(p),
                None => positive_u64(body.get("max_completion_tokens")),
            };
            let budget: u64 = match asked {
                Some(p) => if p < c {
                    p
                } else {
                    c
                },
                None => c,
            };
            let filled = body.with("max_tokens", JsonValue::number(budget));
            match &filled {
                JsonValue::Object(entries) => JsonValue::Object(
                    json::without_entry(entries, "max_completion_tokens"),
                ),
                _ => JsonValue::object(),
            }
        },
    }
}

/// Lays a model's defaults over an OpenAI-compatible request body.
pub fn apply_request_defaults(body: &mut JsonValue, opts: &RequestDefaultsOptions<'_>)
    ensures
        final(body)@ == with_defaults(
            old(body)@,
            json::opt_ref(opts.request_defaults),
            opts.thinking_enabled,
        ),
{
    if let Some(defaults) = opts.request_defaults {
        if defaults.is_object() && body.is_object() {
            let cap = max_tokens_cap_from_defaults(defaults, opts.thinking_enabled);
            let effort = reasoning_effort_from_defaults(defaults, opts.thinking_enabled);
            let capped = cap_tokens(body.copy(), cap);
            let has = match capped.get("reasoning_effort") {
                Some(v) => !v.is_null(),
                None => false,
            };
            *body = match effort {
                Some(s) => if has {
                    capped
                } else {
                    capped.with("reasoning_effort", JsonValue::Str(s))
                },
                None => capped,
            };
        }
    }
}

/// A capped body asks for no more tokens than the cap, and in one field only.
pub proof fn capped_body_obeys_cap(m: Map<Seq<char>, json::Json>, cap: u64)
    ensures
        json::Json::Object(capped_body(m, Some(cap))).field("max_tokens"@) matches Some(v)
            && v.natural() matches Some(n) && n <= cap,
        !capped_body(m, Some(cap)).dom().contains("max_completion_tokens"@),
{
    reveal_strlit("max_tokens");
    reveal_strlit("max_completion_tokens");
    assert("max_tokens"@.len() != "max_completion_tokens"@.len());
}

/// A reasoning effort that the body has is never replaced.
pub proof fn own_effort_is_kept(
    m: Map<Seq<char>, json::Json>,
    defaults: Option<json::Json>,
    thinking: bool,
)
    requires
        m.dom().contains("reasoning_effort"@),
        !(m["reasoning_effort"@] is Null),
    ensures
        with_defaults(json::Json::Object(m), defaults, thinking).field("reasoning_effort"@)
            == Some(m["reasoning_effort"@]),
{
    reveal_strlit("max_tokens");
    reveal_strlit("max_completion_tokens");
    reveal_strlit("reasoning_effort");
    assert("max_tokens"@.len() != "reasoning_effort"@.len());
    assert("max_completion_tokens"@.len() != "reasoning_effort"@.len());
}

proof fn reveal_default_keys()
    ensures
        "max_tokens"@.len() == 10,
        "max_completion_tokens"@.len() == 21,
        "reasoning_effort"@.len() == 16,
{
    reveal_strlit("max_tokens");
    reveal_strlit("max_completion_tokens");
    reveal_strlit("reasoning_effort");
}

/// A field that has nothing to do with token limits and reasoning effort is
/// left as it is.
pub proof fn other_fields_are_left_alone(
    body: json::Json,
    defaults: Option<json::Json>,
    thinking: bool,
    key: Seq<char>,
)
    requires
        key != "max_tokens"@,
        key != "max_completion_tokens"@,
        key != "reasoning_effort"@,
    ensures
        with_defaults(body, defaults, thinking).field(key) == body.field(key),
{
}

/// Without defaults, or with defaults that are no object, a body stays as it is.
pub proof fn missing_defaults_change_nothing(body: json::Json, thinking: bool)
    ensures
        with_defaults(body, None, thinking) == body,
        forall|d: json::Json|
            !(d is Object) ==> #[trigger] with_defaults(body, Some(d), thinking) == body,
{
}

/// The cap among the defaults that holds for the think toggle: its own where it
/// is above zero, else the common one.
pub open spec fn cap_in(d: json::Json, thinking: bool) -> Option<u64> {
    let own = d.field("max_tokens_cap_thinking"@);
    let common = d.field("max_tokens_cap"@);
    match (thinking, own, common) {
        (true, Some(json::Json::Number(JsonNumber::Unsigned(n))), _) if n > 0 => Some(n),
        (_, _, Some(json::Json::Number(JsonNumber::Unsigned(n)))) if n > 0 => Some(n),
        _ => None,
    }
}

/// A limit within the cap is kept; a larger one, and a missing one, becomes the
/// cap.
pub proof fn token_limit_is_capped(
    m: Map<Seq<char>, json::Json>,
    d: json::Json,
    thinking: bool,
    cap: u64,
)
    requires
        d is Object,
        cap_in(d, thinking) == Some(cap),
        d.field("max_tokens_cap_thinking"@) matches Some(v) ==> !(v matches json::Json::Number(
            JsonNumber::Fraction { .. },
        )),
    ensures
        ({
            let body = json::Json::Object(m);
            let r = with_defaults(body, Some(d), thinking);
            &&& r.field("max_completion_tokens"@) is None
            &&& match (body.field("max_tokens"@), body.field("max_completion_tokens"@)) {
                (Some(json::Json::Number(JsonNumber::Unsigned(n))), _) if n > 0 => r.field(
                    "max_tokens"@,
                ) == Some(
                    json::Json::Number(
                        JsonNumber::Unsigned(
                            if n < cap {
                                n
                            } else {
                                cap
                            },
                        ),
                    ),
                ),
                (None, Some(json::Json::Number(JsonNumber::Unsigned(n)))) if n > 0 => r.field(
                    "max_tokens"@,
                ) == Some(
                    json::Json::Number(
                        JsonNumber::Unsigned(
                            if n < cap {
                                n
                            } else {
                                cap
                            },
                        ),
                    ),
                ),
                (None, None) => r.field("max_tokens"@) == Some(
                    json::Json::Number(JsonNumber::Unsigned(cap)),
                ),
                _ => true,
            }
        }),
{
    reveal_default_keys();
}

/// Without a cap both limits stay as they are.
pub proof fn limits_stay_without_a_cap(
    m: Map<Seq<char>, json::Json>,
    d: json::Json,
    thinking: bool,
)
    requires
        d.field("max_tokens_cap_thinking"@) is None,
        d.field("max_tokens_cap"@) is None,
    ensures
        ({
            let body = json::Json::Object(m);
            let r = with_defaults(body, Some(d), thinking);
            &&& r.field("max_tokens"@) == body.field("max_tokens"@)
            &&& r.field("max_completion_tokens"@) == body.field("max_completion_tokens"@)
        }),
{
    reveal_default_keys();
}

/// A body without a reasoning effort gets the one that the defaults name for
/// the think toggle, else their common one.
pub proof fn missing_effort_is_filled_in(
    m: Map<Seq<char>, json::Json>,
    d: json::Json,
    thinking: bool,
    e: json::Json,
)
    requires
        d is Object,
        d.field("reasoning_effort"@) == Some(e),
        e is Object,
        !m.dom().contains("reasoning_effort"@),
    ensures
        ({
            let own = if thinking {
                e.field("when_thinking_on"@)
            } else {
                e.field("when_thinking_off"@)
            };
            with_defaults(json::Json::Object(m), Some(d), thinking).field("reasoning_effort"@) == (
            match (own, e.field("default"@)) {
                (Some(json::Json::Str(s)), _) => Some(json::Json::Str(s)),
                (_, Some(json::Json::Str(s))) => Some(json::Json::Str(s)),
                _ => None,
            })
        }),
{
    reveal_default_keys();
}

/// What holds for the think toggle alone is looked at only where thinking is on.
pub proof fn thinking_limits_need_thinking(
    defaults: json::Json,
    thinking_key: Seq<char>,
    key: Seq<char>,
)
    ensures
        chosen(defaults, false, thinking_key, key) == positive(defaults.field(key)),
        positive(defaults.field(thinking_key)) is None ==> chosen(
            defaults,
            true,
            thinking_key,
            key,
        ) == positive(defaults.field(key)),
        positive(defaults.field(thinking_key)) is Some ==> chosen(
            defaults,
            true,
            thinking_key,
            key,
        ) == positive(defaults.field(thinking_key)),
{
}

/// Only a number above zero counts as one, cut off at the decimal point.
pub proof fn only_positive_numbers_count(v: Option<json::Json>)
    ensures
        positive(v) matches Some(n) ==> n > 0 && (v matches Some(json::Json::Number(x)) && (x
            == JsonNumber::Unsigned(n) || (x matches JsonNumber::Fraction { whole, .. } && whole
            == n))),
        positive(v) is None ==> !(v matches Some(json::Json::Number(JsonNumber::Unsigned(n))) && n
            > 0) && !(v matches Some(json::Json::Number(JsonNumber::Fraction { whole, .. }))
            && whole > 0),
{
}

} // verus!
