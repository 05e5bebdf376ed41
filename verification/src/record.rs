//! JSON text of records, whose fields stand in the order in which they are
//! declared.

use crate::json;
use crate::json::JsonValue;
use crate::text;
use vstd::prelude::*;

verus! {

broadcast use vstd::string::group_string_axioms;

/// A JSON string.
pub open spec fn string_text(s: Seq<char>) -> Seq<char> {
    json::json_text(json::Json::Str(s))
}

/// A JSON string, or `null`.
pub open spec fn optional_text(s: Option<Seq<char>>) -> Seq<char> {
    match s {
        Some(t) => string_text(t),
        None => "null"@,
    }
}

/// A JSON boolean.
pub open spec fn bool_text(b: bool) -> Seq<char> {
    if b {
        "true"@
    } else {
        "false"@
    }
}

/// A field of a record: its name, a colon and the text of its value.
pub open spec fn field_text(name: Seq<char>, value: Seq<char>) -> Seq<char> {
    string_text(name) + ":"@ + value
}

/// A record of the given fields.
pub open spec fn record_text(fields: Seq<Seq<char>>) -> Seq<char> {
    "{"@ + text::joined(fields, ","@) + "}"@
}

/// A list of the given values.
pub open spec fn list_text(items: Seq<Seq<char>>) -> Seq<char> {
    "["@ + text::joined(items, ","@) + "]"@
}

/// A JSON string.
pub fn write_string(s: &str) -> (r: String)
    ensures
        r@ == string_text(s@),
{
    json::render(&JsonValue::string(s))
}

/// A JSON string, or `null`.
pub fn write_optional(s: Option<&str>) -> (r: String)
    ensures
        r@ == optional_text(
            match s {
                Some(t) => Some(t@),
                None => None,
            },
        ),
{
    match s {
        Some(t) => write_string(t),
        None => "null".to_string(),
    }
}

/// A JSON boolean.
pub fn write_bool(b: bool) -> (r: String)
    ensures
        r@ == bool_text(b),
{
    if b {
        "true".to_string()
    } else {
        "false".to_string()
    }
}

/// A field of a record.
pub fn write_field(name: &str, value: String) -> (r: String)
    ensures
        r@ == field_text(name@, value@),
{
    let mut s = write_string(name);
    s.append(":");
    s.append(value.as_str());
    s
}

/// A record of the given fields.
pub fn write_record(fields: &Vec<String>) -> (r: String)
    ensures
        r@ == record_text(text::texts(fields@)),
{
    let mut s = text::cat("{", text::join(fields, ",").as_str());
    s.append("}");
    s
}

/// A list of the given values.
pub fn write_list(items: &Vec<String>) -> (r: String)
    ensures
        r@ == list_text(text::texts(items@)),
{
    let mut s = text::cat("[", text::join(items, ",").as_str());
    s.append("]");
    s
}

/// The texts as JSON strings, in order.
pub open spec fn strings_of(parts: Seq<Seq<char>>) -> Seq<Seq<char>> {
    Seq::new(parts.len(), |i: int| string_text(parts[i]))
}

/// A list of JSON strings.
pub fn write_strings(parts: &Vec<String>) -> (r: String)
    ensures
        r@ == list_text(strings_of(text::texts(parts@))),
{
    let mut out: Vec<String> = Vec::new();
    let mut i: usize = 0;
    while i < parts.len()
        invariant
            i <= parts@.len(),
            out@.len() == i,
            forall|k: int| 0 <= k < i ==> #[trigger] out@[k]@ == string_text(parts@[k]@),
        decreases parts@.len() - i,
    {
        out.push(write_string(parts[i].as_str()));
        i += 1;
    }
    assert(text::texts(out@) =~= strings_of(text::texts(parts@)));
    write_list(&out)
}

/// A further field stands after the others, with a comma between, and a further
/// value after the others of a list.
pub proof fn records_grow_at_the_end(fields: Seq<Seq<char>>, x: Seq<char>)
    requires
        fields.len() > 0,
    ensures
        record_text(fields.push(x)) == record_text(fields).drop_last() + ","@ + x + "}"@,
        record_text(seq![x]) == "{"@ + x + "}"@,
        list_text(fields.push(x)) == list_text(fields).drop_last() + ","@ + x + "]"@,
        list_text(seq![x]) == "["@ + x + "]"@,
{
    reveal_strlit("{");
    reveal_strlit("}");
    reveal_strlit("[");
    reveal_strlit("]");
    assert(fields.push(x).drop_last() =~= fields);
    let j = text::joined(fields, ","@);
    assert(record_text(fields).drop_last() =~= "{"@ + j);
    assert(list_text(fields).drop_last() =~= "["@ + j);
    assert(record_text(fields.push(x)) =~= "{"@ + j + ","@ + x + "}"@);
    assert(list_text(fields.push(x)) =~= "["@ + j + ","@ + x + "]"@);
}

/// A field is its name as a JSON string, a colon and its value; a missing text
/// is `null`.
pub proof fn fields_are_named(name: Seq<char>, value: Seq<char>, t: Seq<char>)
    ensures
        field_text(name, value) == json::json_text(json::Json::Str(name)) + ":"@ + value,
        optional_text(Some(t)) == json::json_text(json::Json::Str(t)),
        optional_text(None) == "null"@,
        bool_text(true) == "true"@,
        bool_text(false) == "false"@,
{
}

/// Every text of a list is written, in order.
pub proof fn strings_keep_their_order(parts: Seq<Seq<char>>, i: int)
    requires
        0 <= i < parts.len(),
    ensures
        strings_of(parts).len() == parts.len(),
        strings_of(parts)[i] == json::json_text(json::Json::Str(parts[i])),
{
}

} // verus!
