//! Thinking and reasoning text in the fields of chat frames, under the names
//! that OpenAI-compatible services use for it.

use crate::json;
use crate::json::JsonValue;
use vstd::prelude::*;

verus! {

/// Field names that hold thinking text, the preferred ones first.
pub open spec fn thinking_keys() -> Seq<Seq<char>> {
    seq![
        "reasoning_content"@,
        "reasoning"@,
        "thinking"@,
        "thought"@,
        "reasoning_text"@,
        "analysis"@,
    ]
}

/// Field names that hold thinking text, the preferred ones first.
pub fn openai_compat_thinking_keys() -> (r: Vec<&'static str>)
    ensures
        key_texts(r@) == thinking_keys(),
{
    let keys = vec![
        "reasoning_content",
        "reasoning",
        "thinking",
        "thought",
        "reasoning_text",
        "analysis",
    ];
    assert(key_texts(keys@) =~= thinking_keys());
    keys
}

/// The texts of a list of keys.
pub open spec fn key_texts(keys: Seq<&str>) -> Seq<Seq<char>> {
    Seq::new(keys.len(), |i: int| keys[i]@)
}

/// The first of the fields that is a string with something in it.
pub open spec fn first_nonempty(obj: json::Json, keys: Seq<Seq<char>>) -> Option<Seq<char>>
    decreases keys.len(),
{
    if keys.len() == 0 {
        None
    } else {
        match json::text_in(obj.field(keys[0])) {
            Some(s) if s.len() > 0 => Some(s),
            _ => first_nonempty(obj, keys.drop_first()),
        }
    }
}

/// The value at `/choices/0/<part>`: a step into an array goes by index, a
/// step into an object by key.
pub open spec fn first_choice(frame: json::Json, part: Seq<char>) -> Option<json::Json> {
    json::field_in(json::head_in(frame.field("choices"@)), part)
}

/// First non-empty string among `keys` on a JSON object.
pub fn first_nonempty_string_field(obj: &JsonValue, keys: &Vec<&str>) -> (r: Option<String>)
    ensures
        crate::text::opt_text(r) == first_nonempty(obj@, key_texts(keys@)),
{
    let ghost all = key_texts(keys@);
    let mut i: usize = 0;
    assert(all.skip(0) =~= all);
    while i < keys.len()
        invariant
            i <= keys@.len(),
            all == key_texts(keys@),
            first_nonempty(obj@, all) == first_nonempty(obj@, all.skip(i as int)),
        decreases keys@.len() - i,
    {
        assert(all.skip(i as int).drop_first() =~= all.skip(i + 1));
        assert(all.skip(i as int)[0] == keys@[i as int]@);
        if let Some(v) = obj.get(keys[i]) {
            if let Some(s) = v.as_str() {
                if s.unicode_len() > 0 {
                    return Some(s.to_string());
                }
            }
        }
        i += 1;
    }
    None
}

/// The value at `/choices/0/<part>` of a frame.
pub fn first_choice_part<'a>(frame: &'a JsonValue, part: &str) -> (r: Option<&'a JsonValue>)
    ensures
        json::opt_ref(r) == first_choice(frame@, part@),
{
    json::field_of(json::head_of(frame.get("choices")), part)
}

/// Thinking text from `choices[0].delta` of a streaming frame.
pub fn thinking_from_openai_compat_delta(frame: &JsonValue) -> (r: Option<String>)
    ensures
        crate::text::opt_text(r) == (match first_choice(frame@, "delta"@) {
            Some(d) => first_nonempty(d, thinking_keys()),
            None => None,
        }),
{
    match first_choice_part(frame, "delta") {
        Some(d) => first_nonempty_string_field(d, &openai_compat_thinking_keys()),
        None => None,
    }
}

/// Thinking text from `choices[0].message` of a complete response.
pub fn thinking_from_openai_compat_message(frame: &JsonValue) -> (r: Option<String>)
    ensures
        crate::text::opt_text(r) == (match first_choice(frame@, "message"@) {
            Some(m) => first_nonempty(m, thinking_keys()),
            None => None,
        }),
{
    match first_choice_part(frame, "message") {
        Some(m) => first_nonempty_string_field(m, &openai_compat_thinking_keys()),
        None => None,
    }
}

/// A field found earlier in the preference order wins over every later one.
pub proof fn earlier_key_wins(obj: json::Json, keys: Seq<Seq<char>>, i: int)
    requires
        0 <= i < keys.len(),
        json::text_in(obj.field(keys[i])) matches Some(s) && s.len() > 0,
        forall|k: int|
            0 <= k < i ==> !(json::text_in(obj.field(#[trigger] keys[k])) matches Some(s)
                && s.len() > 0),
    ensures
        first_nonempty(obj, keys) == json::text_in(obj.field(keys[i])),
    decreases i,
{
    if i > 0 {
        assert(keys.drop_first()[i - 1] == keys[i]);
        assert forall|k: int| 0 <= k < i - 1 implies !(json::text_in(
            obj.field(#[trigger] keys.drop_first()[k]),
        ) matches Some(s) && s.len() > 0) by {
            assert(keys.drop_first()[k] == keys[k + 1]);
        }
        earlier_key_wins(obj, keys.drop_first(), i - 1);
    }
}

/// Nothing is read where every field is missing, empty or no text.
pub proof fn nothing_where_all_are_empty(obj: json::Json, keys: Seq<Seq<char>>)
    requires
        forall|k: int|
            0 <= k < keys.len() ==> !(json::text_in(obj.field(#[trigger] keys[k])) matches Some(s)
                && s.len() > 0),
    ensures
        first_nonempty(obj, keys) is None,
    decreases keys.len(),
{
    if keys.len() > 0 {
        assert(keys[0] == keys[0]);
        assert forall|k: int| 0 <= k < keys.drop_first().len() implies !(json::text_in(
            obj.field(#[trigger] keys.drop_first()[k]),
        ) matches Some(s) && s.len() > 0) by {
            assert(keys.drop_first()[k] == keys[k + 1]);
        }
        nothing_where_all_are_empty(obj, keys.drop_first());
    }
}

} // verus!
