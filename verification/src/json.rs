//! JSON values: the library's own tree, its mathematical view, and the calls
//! that read and write JSON text.

use crate::text;
use serde_json::Value;
use vstd::prelude::*;

verus! {

broadcast use vstd::string::group_string_axioms;

/// `serde_json::Value`, carried through as it is.
#[verifier::external_type_specification]
#[verifier::external_body]
pub struct ExValue(serde_json::Value);

/// `serde_json::Number`, carried through as it is.
#[verifier::external_type_specification]
#[verifier::external_body]
pub struct ExNumber(serde_json::Number);

/// A JSON number: an integer where it is one, else a number that only the
/// JSON crate looks into.
#[derive(Debug)]
pub enum JsonNumber {
    Unsigned(u64),
    Negative(i64),
    /// `whole` is the number cut off at the decimal point, within `u64`.
    Fraction { whole: u64, number: serde_json::Number },
}

/// A JSON value. Of two object entries with one key the later one counts.
#[derive(Debug)]
pub enum JsonValue {
    Null,
    Bool(bool),
    Number(JsonNumber),
    Str(String),
    Array(Vec<JsonValue>),
    Object(Vec<(String, JsonValue)>),
}

/// What a JSON value is.
pub enum Json {
    Null,
    Bool(bool),
    Number(JsonNumber),
    Str(Seq<char>),
    Array(Seq<Json>),
    Object(Map<Seq<char>, Json>),
}

/// What a list of values stands for.
pub open spec fn array_view(s: Seq<JsonValue>) -> Seq<Json>
    decreases s,
{
    Seq::new(
        s.len(),
        |i: int|
            if 0 <= i < s.len() {
                value_view(s[i])
            } else {
                Json::Null
            },
    )
}

/// What a list of object entries stands for.
pub open spec fn object_view(s: Seq<(String, JsonValue)>) -> Map<Seq<char>, Json>
    decreases s,
{
    if s.len() == 0 {
        Map::empty()
    } else {
        object_view(s.drop_last()).insert(s.last().0@, value_view(s.last().1))
    }
}

/// What a value stands for.
pub open spec fn value_view(v: JsonValue) -> Json
    decreases v,
{
    match v {
        JsonValue::Null => Json::Null,
        JsonValue::Bool(b) => Json::Bool(b),
        JsonValue::Number(n) => Json::Number(n),
        JsonValue::Str(s) => Json::Str(s@),
        JsonValue::Array(items) => Json::Array(array_view(items@)),
        JsonValue::Object(entries) => Json::Object(object_view(entries@)),
    }
}

impl View for JsonValue {
    type V = Json;

    open spec fn view(&self) -> Json {
        value_view(*self)
    }
}

/// An array's view, element by element.
pub broadcast proof fn lemma_array_view(s: Seq<JsonValue>)
    ensures
        #[trigger] array_view(s).len() == s.len(),
        forall|i: int| 0 <= i < s.len() ==> #[trigger] array_view(s)[i] == s[i]@,
{
}

impl Json {
    /// What stands under `key`, where the value is an object that has it.
    pub open spec fn field(self, key: Seq<char>) -> Option<Json> {
        match self {
            Json::Object(m) => if m.dom().contains(key) {
                Some(m[key])
            } else {
                None
            },
            _ => None,
        }
    }

    /// The element at `i`, where the value is an array that has it.
    pub open spec fn item(self, i: int) -> Option<Json> {
        match self {
            Json::Array(s) => if 0 <= i < s.len() {
                Some(s[i])
            } else {
                None
            },
            _ => None,
        }
    }

    /// The text, where the value is a string.
    pub open spec fn text(self) -> Option<Seq<char>> {
        match self {
            Json::Str(s) => Some(s),
            _ => None,
        }
    }

    /// The number, where the value is an integer that is not negative.
    pub open spec fn natural(self) -> Option<u64> {
        match self {
            Json::Number(JsonNumber::Unsigned(n)) => Some(n),
            _ => None,
        }
    }

    /// The truth value, where the value is one.
    pub open spec fn boolean(self) -> Option<bool> {
        match self {
            Json::Bool(b) => Some(b),
            _ => None,
        }
    }
}

/// The string that an optional value holds.
pub open spec fn text_in(v: Option<Json>) -> Option<Seq<char>> {
    match v {
        Some(j) => j.text(),
        None => None,
    }
}

/// The field of an optional value.
pub open spec fn field_in(v: Option<Json>, key: Seq<char>) -> Option<Json> {
    match v {
        Some(j) => j.field(key),
        None => None,
    }
}

/// The element of an optional value.
pub open spec fn item_in(v: Option<Json>, i: int) -> Option<Json> {
    match v {
        Some(j) => j.item(i),
        None => None,
    }
}

/// What a JSON pointer's step `0` leads to: the first element of an array, or
/// what stands under `0` in an object.
pub open spec fn head_in(v: Option<Json>) -> Option<Json> {
    match v {
        Some(Json::Array(_)) => item_in(v, 0),
        _ => field_in(v, "0"@),
    }
}

/// The view of an optional value.
pub open spec fn opt_json(v: Option<JsonValue>) -> Option<Json> {
    match v {
        Some(j) => Some(j@),
        None => None,
    }
}

/// The view of an optional reference.
pub open spec fn opt_ref(v: Option<&JsonValue>) -> Option<Json> {
    match v {
        Some(j) => Some(j@),
        None => None,
    }
}

/// What `serde_json` reads from the bytes: a value, or what it says against them.
pub uninterp spec fn json_parsed(bytes: Seq<u8>) -> Result<Json, Seq<char>>;

/// The compact text that `serde_json` writes for a value.
pub uninterp spec fn json_text(v: Json) -> Seq<char>;

/// Turns a `serde_json::Value` into the library's tree, arm by arm.
#[verifier::external_body]
fn from_outside(v: serde_json::Value) -> JsonValue {
    match v {
        Value::Null => JsonValue::Null,
        Value::Bool(b) => JsonValue::Bool(b),
        Value::Number(n) => JsonValue::Number(number_of(n)),
        Value::String(s) => JsonValue::Str(s),
        Value::Array(a) => JsonValue::Array(a.into_iter().map(from_outside).collect()),
        Value::Object(o) => {
            JsonValue::Object(o.into_iter().map(|(k, v)| (k, from_outside(v))).collect())
        }
    }
}

/// Turns a `serde_json::Number` into the library's number: an integer where
/// `as_u64` or `as_i64` gives one.
#[verifier::external_body]
fn number_of(n: serde_json::Number) -> JsonNumber {
    match (n.as_u64(), n.as_i64()) {
        (Some(u), _) => JsonNumber::Unsigned(u),
        (None, Some(i)) => JsonNumber::Negative(i),
        (None, None) => JsonNumber::Fraction { whole: n.as_f64().map_or(0, |f| f as u64), number: n },
    }
}

/// Turns the library's tree into a `serde_json::Value`, arm by arm.
#[verifier::external_body]
fn to_outside(v: &JsonValue) -> serde_json::Value {
    match v {
        JsonValue::Null => Value::Null,
        JsonValue::Bool(b) => Value::Bool(*b),
        JsonValue::Number(JsonNumber::Unsigned(n)) => Value::from(*n),
        JsonValue::Number(JsonNumber::Negative(n)) => Value::from(*n),
        JsonValue::Number(JsonNumber::Fraction { whole: _, number }) => {
            Value::Number(number.clone())
        }
        JsonValue::Str(s) => Value::String(s.clone()),
        JsonValue::Array(a) => Value::Array(a.iter().map(to_outside).collect()),
        JsonValue::Object(o) => {
            Value::Object(o.iter().map(|(k, v)| (k.clone(), to_outside(v))).collect())
        }
    }
}

/// `serde_json::from_slice`: the value that the bytes write, or the error's
/// own text. What it returns is a function of the bytes, named `json_parsed`.
#[verifier::external_body]
pub(crate) fn parse_bytes(bytes: &[u8]) -> (r: Result<JsonValue, String>)
    ensures
        match (r, json_parsed(bytes@)) {
            (Ok(v), Ok(j)) => v@ == j,
            (Err(e), Err(t)) => e@ == t,
            _ => false,
        },
{
    match serde_json::from_slice::<serde_json::Value>(bytes) {
        Ok(v) => Ok(from_outside(v)),
        Err(e) => Err(e.to_string()),
    }
}

/// `serde_json::Value::to_string`: the compact text of a value, named
/// `json_text`. Object keys come out in sorted order, so the text is a
/// function of the value's view.
#[verifier::external_body]
pub(crate) fn render(v: &JsonValue) -> (r: String)
    ensures
        r@ == json_text(v@),
{
    to_outside(v).to_string()
}

/// `serde_json::Number::clone`.
#[verifier::external_body]
fn copy_number(n: &serde_json::Number) -> (r: serde_json::Number)
    ensures
        r == *n,
{
    n.clone()
}

impl JsonNumber {
    /// The same number again.
    pub fn copy(&self) -> (r: Self)
        ensures
            r == *self,
    {
        match self {
            JsonNumber::Unsigned(n) => JsonNumber::Unsigned(*n),
            JsonNumber::Negative(n) => JsonNumber::Negative(*n),
            JsonNumber::Fraction { whole, number } => JsonNumber::Fraction {
                whole: *whole,
                number: copy_number(number),
            },
        }
    }
}

impl Clone for JsonNumber {
    fn clone(&self) -> (r: Self)
        ensures
            r == *self,
    {
        self.copy()
    }
}

impl Clone for JsonValue {
    fn clone(&self) -> (r: Self)
        ensures
            r@ == self@,
    {
        self.copy()
    }
}

/// The value of the last entry with the given key.
pub fn find_entry<'a>(v: &'a Vec<(String, JsonValue)>, key: &str) -> (r: Option<&'a JsonValue>)
    ensures
        match r {
            Some(x) => object_view(v@).dom().contains(key@) && x@ == object_view(v@)[key@],
            None => !object_view(v@).dom().contains(key@),
        },
{
    let mut i: usize = v.len();
    assert(v@.take(i as int) =~= v@);
    while i > 0
        invariant
            i <= v@.len(),
            object_view(v@.take(i as int)).dom().contains(key@) == object_view(v@).dom().contains(
                key@,
            ),
            object_view(v@).dom().contains(key@) ==> object_view(v@.take(i as int))[key@]
                == object_view(v@)[key@],
        decreases i,
    {
        let ghost upto = v@.take(i as int);
        assert(upto.drop_last() =~= v@.take(i - 1));
        assert(upto.last() == v@[i - 1]);
        if text::text_eq(v[i - 1].0.as_str(), key) {
            return Some(&v[i - 1].1);
        }
        i -= 1;
    }
    None
}

/// The entries without those under `key`.
pub fn without_entry(v: &Vec<(String, JsonValue)>, key: &str) -> (r: Vec<(String, JsonValue)>)
    ensures
        object_view(r@) == object_view(v@).remove(key@),
{
    let mut out: Vec<(String, JsonValue)> = Vec::new();
    let mut i: usize = 0;
    assert(object_view(out@) =~= object_view(v@.take(0)).remove(key@));
    while i < v.len()
        invariant
            i <= v@.len(),
            object_view(out@) == object_view(v@.take(i as int)).remove(key@),
        decreases v@.len() - i,
    {
        let ghost before = out@;
        assert(v@.take(i + 1).drop_last() =~= v@.take(i as int));
        if !text::text_eq(v[i].0.as_str(), key) {
            out.push((v[i].0.clone(), v[i].1.copy()));
            assert(out@.drop_last() =~= before);
        }
        assert(object_view(out@) =~= object_view(v@.take(i + 1)).remove(key@));
        i += 1;
    }
    assert(v@.take(v@.len() as int) =~= v@);
    out
}

impl JsonValue {
    /// A string value.
    pub fn string(s: &str) -> (r: Self)
        ensures
            r@ == Json::Str(s@),
    {
        JsonValue::Str(s.to_string())
    }

    /// An integer value.
    pub fn number(n: u64) -> (r: Self)
        ensures
            r@ == Json::Number(JsonNumber::Unsigned(n)),
    {
        JsonValue::Number(JsonNumber::Unsigned(n))
    }

    /// An object without entries.
    pub fn object() -> (r: Self)
        ensures
            r@ == Json::Object(Map::<Seq<char>, Json>::empty()),
    {
        JsonValue::Object(Vec::new())
    }

    /// The object with `value` under `key`; other values stay as they are.
    pub fn with(self, key: &str, value: JsonValue) -> (r: Self)
        ensures
            match self@ {
                Json::Object(m) => r@ == Json::Object(m.insert(key@, value@)),
                _ => r@ == self@,
            },
    {
        match self {
            JsonValue::Object(entries) => {
                let mut out = entries;
                let ghost before = out@;
                out.push((key.to_string(), value));
                assert(out@.drop_last() =~= before);
                JsonValue::Object(out)
            },
            other => other,
        }
    }

    /// What stands under `key`, where the value is an object that has it.
    pub fn get(&self, key: &str) -> (r: Option<&JsonValue>)
        ensures
            opt_ref(r) == self@.field(key@),
    {
        match self {
            JsonValue::Object(v) => find_entry(v, key),
            _ => None,
        }
    }

    /// The element at `i`, where the value is an array that has it.
    pub fn at(&self, i: usize) -> (r: Option<&JsonValue>)
        ensures
            opt_ref(r) == self@.item(i as int),
    {
        match self {
            JsonValue::Array(v) => if i < v.len() {
                proof {
                    lemma_array_view(v@);
                }
                Some(&v[i])
            } else {
                proof {
                    lemma_array_view(v@);
                }
                None
            },
            _ => None,
        }
    }

    /// The text, where the value is a string.
    pub fn as_str(&self) -> (r: Option<&str>)
        ensures
            match (r, self@.text()) {
                (Some(s), Some(t)) => s@ == t,
                (None, None) => true,
                _ => false,
            },
    {
        match self {
            JsonValue::Str(s) => Some(s.as_str()),
            _ => None,
        }
    }

    /// The number, where the value is an integer that is not negative.
    pub fn as_u64(&self) -> (r: Option<u64>)
        ensures
            r == self@.natural(),
    {
        match self {
            JsonValue::Number(JsonNumber::Unsigned(n)) => Some(*n),
            _ => None,
        }
    }

    /// The truth value, where the value is one.
    pub fn as_bool(&self) -> (r: Option<bool>)
        ensures
            r == self@.boolean(),
    {
        match self {
            JsonValue::Bool(b) => Some(*b),
            _ => None,
        }
    }

    /// The elements, where the value is an array.
    pub fn as_array(&self) -> (r: Option<&Vec<JsonValue>>)
        ensures
            match r {
                Some(v) => self@ == Json::Array(array_view(v@)),
                None => !(self@ is Array),
            },
    {
        match self {
            JsonValue::Array(v) => Some(v),
            _ => None,
        }
    }

    /// Whether the value is null.
    pub fn is_null(&self) -> (r: bool)
        ensures
            r == (self@ is Null),
    {
        matches!(self, JsonValue::Null)
    }

    /// Whether the value is an object.
    pub fn is_object(&self) -> (r: bool)
        ensures
            r == (self@ is Object),
    {
        matches!(self, JsonValue::Object(_))
    }

    /// The same value again.
    pub fn copy(&self) -> (r: Self)
        ensures
            r@ == self@,
        decreases self,
    {
        match self {
            JsonValue::Null => JsonValue::Null,
            JsonValue::Bool(b) => JsonValue::Bool(*b),
            JsonValue::Number(n) => JsonValue::Number(n.copy()),
            JsonValue::Str(s) => JsonValue::Str(s.clone()),
            JsonValue::Array(v) => {
                let mut out: Vec<JsonValue> = Vec::new();
                let mut i: usize = 0;
                while i < v.len()
                    invariant
                        i <= v@.len(),
                        array_view(out@) == array_view(v@.take(i as int)),
                        decreases_to!(self => v),
                    decreases v@.len() - i,
                {
                    let ghost before = out@;
                    assert(decreases_to!(v => v@));
                    out.push(v[i].copy());
                    i += 1;
                    assert(array_view(out@) =~= array_view(v@.take(i as int))) by {
                        lemma_array_view(before);
                        lemma_array_view(out@);
                        lemma_array_view(v@.take(i - 1));
                        lemma_array_view(v@.take(i as int));
                        assert forall|k: int| 0 <= k < i - 1 implies out@[k]@ == v@[k]@ by {
                            assert(array_view(before)[k] == array_view(v@.take(i - 1))[k]);
                        }
                    }
                }
                assert(v@.take(v@.len() as int) =~= v@);
                JsonValue::Array(out)
            },
            JsonValue::Object(v) => {
                let mut out: Vec<(String, JsonValue)> = Vec::new();
                let mut i: usize = 0;
                while i < v.len()
                    invariant
                        i <= v@.len(),
                        object_view(out@) == object_view(v@.take(i as int)),
                        decreases_to!(self => v),
                    decreases v@.len() - i,
                {
                    let ghost before = out@;
                    assert(decreases_to!(v => v@));
                    let value = v[i].1.copy();
                    out.push((v[i].0.clone(), value));
                    assert(out@.drop_last() =~= before);
                    assert(v@.take(i + 1).drop_last() =~= v@.take(i as int));
                    i += 1;
                }
                assert(v@.take(v@.len() as int) =~= v@);
                JsonValue::Object(out)
            },
        }
    }
}

/// The field of an optional value.
pub fn field_of<'a>(v: Option<&'a JsonValue>, key: &str) -> (r: Option<&'a JsonValue>)
    ensures
        opt_ref(r) == field_in(opt_ref(v), key@),
{
    match v {
        Some(j) => j.get(key),
        None => None,
    }
}

/// What a JSON pointer's step `0` leads to.
pub fn head_of<'a>(v: Option<&'a JsonValue>) -> (r: Option<&'a JsonValue>)
    ensures
        opt_ref(r) == head_in(opt_ref(v)),
{
    match v {
        Some(j) => match j {
            JsonValue::Array(_) => j.at(0),
            _ => j.get("0"),
        },
        None => None,
    }
}

/// The text of an optional value, where it is a string.
pub fn text_of(v: Option<&JsonValue>) -> (r: Option<String>)
    ensures
        text::opt_text(r) == text_in(opt_ref(v)),
{
    match v {
        Some(j) => match j.as_str() {
            Some(s) => Some(s.to_string()),
            None => None,
        },
        None => None,
    }
}

/// The same values again.
pub fn copy_values(v: &Vec<JsonValue>) -> (r: Vec<JsonValue>)
    ensures
        array_view(r@) == array_view(v@),
{
    let mut out: Vec<JsonValue> = Vec::new();
    let mut i: usize = 0;
    while i < v.len()
        invariant
            i <= v@.len(),
            out@.len() == i,
            forall|k: int| 0 <= k < i ==> #[trigger] out@[k]@ == v@[k]@,
        decreases v@.len() - i,
    {
        out.push(v[i].copy());
        i += 1;
    }
    proof {
        lemma_array_view(out@);
        lemma_array_view(v@);
        assert(array_view(out@) =~= array_view(v@));
    }
    out
}

/// The entries of one object followed by those of another stand for both
/// objects, the second one preferred.
pub proof fn lemma_entries_union(a: Seq<(String, JsonValue)>, b: Seq<(String, JsonValue)>)
    ensures
        object_view(a + b) == object_view(a).union_prefer_right(object_view(b)),
    decreases b.len(),
{
    if b.len() == 0 {
        assert(a + b =~= a);
        assert(object_view(a).union_prefer_right(object_view(b)) =~= object_view(a));
    } else {
        lemma_entries_union(a, b.drop_last());
        assert((a + b).drop_last() =~= a + b.drop_last());
        assert(object_view(a + b) =~= object_view(a).union_prefer_right(object_view(b)));
    }
}

impl JsonValue {
    /// The object with the entries of another laid over it; other values stay
    /// as they are.
    pub fn overlaid(self, other: &JsonValue) -> (r: Self)
        ensures
            r@ == (match (self@, other@) {
                (Json::Object(a), Json::Object(b)) => Json::Object(a.union_prefer_right(b)),
                _ => self@,
            }),
    {
        match (self, other.copy()) {
            (JsonValue::Object(a), JsonValue::Object(b)) => {
                let mut out = a;
                let mut more = b;
                proof {
                    lemma_entries_union(a@, b@);
                }
                out.append(&mut more);
                JsonValue::Object(out)
            },
            (v, _) => v,
        }
    }
}

/// Reads JSON text.
pub fn parse_text(s: &str) -> (r: Result<JsonValue, String>)
    ensures
        match (r, json_parsed(vstd::utf8::encode_utf8(s@))) {
            (Ok(v), Ok(j)) => v@ == j,
            (Err(e), Err(t)) => e@ == t,
            _ => false,
        },
{
    parse_bytes(s.as_bytes())
}

/// What stands under a key of an object is what the last entry with the key
/// holds; entries with other keys do not count.
pub proof fn last_object_entry_counts(
    s: Seq<(String, JsonValue)>,
    entry: (String, JsonValue),
    key: Seq<char>,
)
    ensures
        ({
            let before = Json::Object(object_view(s));
            let after = Json::Object(object_view(s.push(entry)));
            &&& entry.0@ == key ==> after.field(key) == Some(entry.1@)
            &&& entry.0@ != key ==> after.field(key) == before.field(key)
        }),
        object_view(Seq::empty()) == Map::<Seq<char>, Json>::empty(),
{
    assert(s.push(entry).drop_last() =~= s);
}

/// What is laid over an object counts, and the rest of the object stays.
pub proof fn overlaid_fields_count(a: JsonValue, b: &JsonValue, r: JsonValue, key: Seq<char>)
    requires
        call_ensures(JsonValue::overlaid, (a, b), r),
        a@ is Object,
    ensures
        b@.field(key) matches Some(v) ==> r@.field(key) == Some(v),
        b@.field(key) is None ==> r@.field(key) == a@.field(key),
{
}

/// A field that was set is found, and the others stay.
pub proof fn set_fields_are_found(
    a: JsonValue,
    key: &str,
    value: JsonValue,
    r: JsonValue,
    other: Seq<char>,
)
    requires
        call_ensures(JsonValue::with, (a, key, value), r),
        a@ is Object,
    ensures
        r@.field(key@) == Some(value@),
        other != key@ ==> r@.field(other) == a@.field(other),
{
}

/// A step `0` goes to the first element of an array.
pub proof fn step_zero_goes_to_the_first(s: Seq<Json>, x: Json)
    ensures
        head_in(Some(Json::Array(seq![x] + s))) == Some(x),
        head_in(Some(Json::Array(Seq::empty()))) is None,
        head_in(None) is None,
{
}

} // verus!
